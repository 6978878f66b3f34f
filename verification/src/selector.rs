//! The selector expression language: dotted segments, each an identifier key
//! with an optional `[index]` or `[field=value]` qualifier.
//!
//! `parse_selector` is specified against a functional model of the grammar:
//! segments are separated by `.` outside brackets, bracket nesting is tracked
//! by a single flag, a qualifier that is all digits is an index and otherwise
//! must be `field=value` with optional wrapping quotes around the value.

use vstd::prelude::*;

use crate::textutil::{
    all_digits, contains_char, digit_val, digits_value, find_char, find_char_spec, is_digit,
    lemma_find_char_bounds, lemma_find_char_contains, trim_spec, trim_str,
};

verus! {

/// One step qualifier inside `[...]`: a numeric array index or an
/// equality filter on a field of array elements.
#[derive(Debug, Clone, PartialEq, Eq)]
pub enum SegmentQualifier {
    Index(usize),
    Filter { field: String, value: String },
}

/// One dot-separated component of a selector: a key plus an optional qualifier.
#[derive(Debug, Clone, PartialEq, Eq)]
pub struct SelectorSegment {
    pub key: String,
    pub qualifier: Option<SegmentQualifier>,
}

/// A parsed selector: a non-empty ordered sequence of segments.
#[derive(Debug, Clone, PartialEq, Eq)]
pub struct VersionSelector {
    pub segments: Vec<SelectorSegment>,
}

/// Mathematical counterpart of `SegmentQualifier`.
pub enum QualV {
    Index(int),
    Filter { field: Seq<char>, value: Seq<char> },
}

/// Mathematical counterpart of `SelectorSegment`.
pub struct SegV {
    pub key: Seq<char>,
    pub qualifier: Option<QualV>,
}

impl View for SegmentQualifier {
    type V = QualV;

    open spec fn view(&self) -> QualV {
        match self {
            SegmentQualifier::Index(i) => QualV::Index(*i as int),
            SegmentQualifier::Filter { field, value } => QualV::Filter {
                field: field@,
                value: value@,
            },
        }
    }
}

impl View for SelectorSegment {
    type V = SegV;

    open spec fn view(&self) -> SegV {
        SegV { key: self.key@, qualifier: match self.qualifier {
            Some(q) => Some(q@),
            None => None,
        } }
    }
}

impl View for VersionSelector {
    type V = Seq<SegV>;

    open spec fn view(&self) -> Seq<SegV> {
        self.segments@.map_values(|g: SelectorSegment| g@)
    }
}

/// Why a selector string was rejected.
#[derive(Debug, Clone, Copy, PartialEq, Eq, Structural)]
pub enum SelectorError {
    EmptySelector,
    NestedOpenBracket,
    UnmatchedCloseBracket,
    UnmatchedOpenBracket,
    EmptySegment,
    MissingQualifierClose,
    EmptyKey,
    KeyUnsupportedChar,
    EmptyQualifier,
    IndexOutOfRange,
    MalformedQualifier,
    EmptyFilterField,
    FilterFieldUnsupportedChar,
    EmptyFilterValue,
    FilterValueUnsupportedChar,
}

impl SelectorError {
    /// The failure described in one sentence, without the selector text.
    pub fn detail(&self) -> (r: &'static str)
        ensures
            r@ == self.detail_spec(),
    {
        match self {
            SelectorError::EmptySelector => "cannot be empty.",
            SelectorError::NestedOpenBracket => "nested `[` is not supported.",
            SelectorError::UnmatchedCloseBracket => "unmatched `]`.",
            SelectorError::UnmatchedOpenBracket => "unmatched `[`.",
            SelectorError::EmptySegment => "empty path segment.",
            SelectorError::MissingQualifierClose => "segment must end with `]` when using a qualifier.",
            SelectorError::EmptyKey => "empty segment key.",
            SelectorError::KeyUnsupportedChar => "segment key contains an unsupported character.",
            SelectorError::EmptyQualifier => "empty segment qualifier.",
            SelectorError::IndexOutOfRange => "invalid array index.",
            SelectorError::MalformedQualifier => "qualifier must be either an array index or `field=value`.",
            SelectorError::EmptyFilterField => "empty filter field.",
            SelectorError::FilterFieldUnsupportedChar => "filter field contains an unsupported character.",
            SelectorError::EmptyFilterValue => "empty filter value.",
            SelectorError::FilterValueUnsupportedChar => "filter value contains an unsupported character.",
        }
    }

    /// The one-sentence failure description.
    pub open spec fn detail_spec(&self) -> Seq<char> {
        match self {
            SelectorError::EmptySelector => "cannot be empty."@,
            SelectorError::NestedOpenBracket => "nested `[` is not supported."@,
            SelectorError::UnmatchedCloseBracket => "unmatched `]`."@,
            SelectorError::UnmatchedOpenBracket => "unmatched `[`."@,
            SelectorError::EmptySegment => "empty path segment."@,
            SelectorError::MissingQualifierClose => "segment must end with `]` when using a qualifier."@,
            SelectorError::EmptyKey => "empty segment key."@,
            SelectorError::KeyUnsupportedChar => "segment key contains an unsupported character."@,
            SelectorError::EmptyQualifier => "empty segment qualifier."@,
            SelectorError::IndexOutOfRange => "invalid array index."@,
            SelectorError::MalformedQualifier => "qualifier must be either an array index or `field=value`."@,
            SelectorError::EmptyFilterField => "empty filter field."@,
            SelectorError::FilterFieldUnsupportedChar => "filter field contains an unsupported character."@,
            SelectorError::EmptyFilterValue => "empty filter value."@,
            SelectorError::FilterValueUnsupportedChar => "filter value contains an unsupported character."@,
        }
    }

    /// The full message for a rejected selector string.
    pub open spec fn message_spec(&self, selector: Seq<char>) -> Seq<char> {
        match self {
            SelectorError::EmptySelector => "Version selector cannot be empty."@,
            _ => "Invalid version selector `"@ + selector + "`: "@ + self.detail_spec(),
        }
    }

    /// Builds the user-facing message, naming the offending selector text.
    pub fn message(&self, selector: &str) -> (r: String)
        ensures
            r@ == self.message_spec(selector@),
    {
        match self {
            SelectorError::EmptySelector => "Version selector cannot be empty.".to_owned(),
            _ => {
                let mut s = "Invalid version selector `".to_owned();
                s.append(selector);
                s.append("`: ");
                s.append(self.detail());
                s
            },
        }
    }
}

/// A key or filter-field token: no `.`, `[` or `]` inside.
pub open spec fn token_ok(t: Seq<char>) -> bool {
    !contains_char(t, '.') && !contains_char(t, '[') && !contains_char(t, ']')
}

/// Model of parsing a segment key.
pub open spec fn spec_parse_key(raw: Seq<char>) -> Result<Seq<char>, SelectorError> {
    let t = trim_spec(raw);
    if t.len() == 0 {
        Err(SelectorError::EmptyKey)
    } else if !token_ok(t) {
        Err(SelectorError::KeyUnsupportedChar)
    } else {
        Ok(t)
    }
}

/// Model of parsing a filter field.
pub open spec fn spec_parse_field(raw: Seq<char>) -> Result<Seq<char>, SelectorError> {
    let t = trim_spec(raw);
    if t.len() == 0 {
        Err(SelectorError::EmptyFilterField)
    } else if !token_ok(t) {
        Err(SelectorError::FilterFieldUnsupportedChar)
    } else {
        Ok(t)
    }
}

/// Matching wrapping quotes (single or double) are stripped once.
pub open spec fn strip_quotes_spec(v: Seq<char>) -> Seq<char> {
    if v.len() >= 2 && ((v[0] == '"' && v[v.len() - 1] == '"') || (v[0] == '\'' && v[v.len() - 1]
        == '\'')) {
        v.subrange(1, v.len() - 1)
    } else {
        v
    }
}

/// Model of parsing a filter value: trimmed, unquoted, no brackets inside.
pub open spec fn spec_parse_filter_value(raw: Seq<char>) -> Result<Seq<char>, SelectorError> {
    let t = trim_spec(raw);
    if t.len() == 0 {
        Err(SelectorError::EmptyFilterValue)
    } else {
        let n = strip_quotes_spec(t);
        if n.len() == 0 {
            Err(SelectorError::EmptyFilterValue)
        } else if contains_char(n, '[') || contains_char(n, ']') {
            Err(SelectorError::FilterValueUnsupportedChar)
        } else {
            Ok(n)
        }
    }
}

/// Model of parsing the text between `[` and `]`.
pub open spec fn spec_parse_qualifier(raw: Seq<char>) -> Result<QualV, SelectorError> {
    let q = trim_spec(raw);
    if q.len() == 0 {
        Err(SelectorError::EmptyQualifier)
    } else if all_digits(q) {
        if digits_value(q) > usize::MAX as int {
            Err(SelectorError::IndexOutOfRange)
        } else {
            Ok(QualV::Index(digits_value(q)))
        }
    } else if contains_char(q, '=') {
        let e = find_char_spec(q, '=');
        match spec_parse_field(q.subrange(0, e)) {
            Err(err) => Err(err),
            Ok(f) => match spec_parse_filter_value(q.subrange(e + 1, q.len() as int)) {
                Err(err) => Err(err),
                Ok(v) => Ok(QualV::Filter { field: f, value: v }),
            },
        }
    } else {
        Err(SelectorError::MalformedQualifier)
    }
}

/// Model of parsing one dot-separated segment.
pub open spec fn spec_parse_segment(raw: Seq<char>) -> Result<SegV, SelectorError> {
    let seg = trim_spec(raw);
    if seg.len() == 0 {
        Err(SelectorError::EmptySegment)
    } else if !contains_char(seg, '[') {
        match spec_parse_key(seg) {
            Err(err) => Err(err),
            Ok(k) => Ok(SegV { key: k, qualifier: None }),
        }
    } else if seg[seg.len() - 1] != ']' {
        Err(SelectorError::MissingQualifierClose)
    } else {
        let open = find_char_spec(seg, '[');
        match spec_parse_key(seg.subrange(0, open)) {
            Err(err) => Err(err),
            Ok(k) => match spec_parse_qualifier(seg.subrange(open + 1, seg.len() - 1)) {
                Err(err) => Err(err),
                Ok(q) => Ok(SegV { key: k, qualifier: Some(q) }),
            },
        }
    }
}

/// Model of the character scan over the trimmed selector text: splits on dots
/// at bracket depth zero and rejects nested or unmatched brackets as it goes.
pub open spec fn spec_scan(t: Seq<char>, i: int, start: int, inb: bool) -> Result<
    Seq<SegV>,
    SelectorError,
>
    decreases t.len() - i,
{
    if i < 0 || i >= t.len() {
        if inb {
            Err(SelectorError::UnmatchedOpenBracket)
        } else {
            match spec_parse_segment(t.subrange(start, t.len() as int)) {
                Err(err) => Err(err),
                Ok(s) => Ok(seq![s]),
            }
        }
    } else if t[i] == '[' {
        if inb {
            Err(SelectorError::NestedOpenBracket)
        } else {
            spec_scan(t, i + 1, start, true)
        }
    } else if t[i] == ']' {
        if !inb {
            Err(SelectorError::UnmatchedCloseBracket)
        } else {
            spec_scan(t, i + 1, start, false)
        }
    } else if t[i] == '.' && !inb {
        match spec_parse_segment(t.subrange(start, i)) {
            Err(err) => Err(err),
            Ok(s) => match spec_scan(t, i + 1, i + 1, false) {
                Err(err) => Err(err),
                Ok(rest) => Ok(seq![s] + rest),
            },
        }
    } else {
        spec_scan(t, i + 1, start, inb)
    }
}

/// Model of `parse_selector`.
pub open spec fn spec_parse_selector(s: Seq<char>) -> Result<Seq<SegV>, SelectorError> {
    let t = trim_spec(s);
    if t.len() == 0 {
        Err(SelectorError::EmptySelector)
    } else {
        spec_scan(t, 0, 0, false)
    }
}

/// Appending already-parsed segments in front of a scan result.
pub open spec fn scan_compose(acc: Seq<SegV>, r: Result<Seq<SegV>, SelectorError>) -> Result<
    Seq<SegV>,
    SelectorError,
> {
    match r {
        Ok(rest) => Ok(acc + rest),
        Err(err) => Err(err),
    }
}

/// Parses a key or filter-field token; `field` selects the error variants.
fn parse_token(raw: &str, field: bool) -> (r: Result<String, SelectorError>)
    ensures
        ({
            let m = if field {
                spec_parse_field(raw@)
            } else {
                spec_parse_key(raw@)
            };
            match r {
                Ok(tok) => m == Ok::<Seq<char>, SelectorError>(tok@),
                Err(e) => m == Err::<Seq<char>, SelectorError>(e),
            }
        }),
{
    let t = trim_str(raw);
    let n = t.unicode_len();
    if n == 0 {
        return Err(if field {
            SelectorError::EmptyFilterField
        } else {
            SelectorError::EmptyKey
        });
    }
    let mut i: usize = 0;
    while i < n
        invariant
            0 <= i <= n,
            n == t@.len(),
            n != 0,
            t@ == trim_spec(raw@),
            forall|k: int| 0 <= k < i ==> t@[k] != '.' && t@[k] != '[' && t@[k] != ']',
        decreases n - i,
    {
        let c = t.get_char(i);
        if c == '.' || c == '[' || c == ']' {
            proof {
                assert(t@[i as int] == c);
                if c == '.' {
                    assert(contains_char(t@, '.'));
                } else if c == '[' {
                    assert(contains_char(t@, '['));
                } else {
                    assert(contains_char(t@, ']'));
                }
            }
            assert(!token_ok(t@));
            return Err(if field {
                SelectorError::FilterFieldUnsupportedChar
            } else {
                SelectorError::KeyUnsupportedChar
            });
        }
        i = i + 1;
    }
    assert(token_ok(t@));
    Ok(t.to_owned())
}

/// Parses the text between `[` and `]` of a segment.
fn parse_qualifier(raw: &str) -> (r: Result<SegmentQualifier, SelectorError>)
    ensures
        match r {
            Ok(q) => spec_parse_qualifier(raw@) == Ok::<QualV, SelectorError>(q@),
            Err(e) => spec_parse_qualifier(raw@) == Err::<QualV, SelectorError>(e),
        },
{
    let q = trim_str(raw);
    let n = q.unicode_len();
    if n == 0 {
        return Err(SelectorError::EmptyQualifier);
    }
    let mut digits_only = true;
    let mut i: usize = 0;
    while i < n
        invariant
            0 <= i <= n,
            n == q@.len(),
            digits_only <==> (forall|k: int| 0 <= k < i ==> is_digit(q@[k])),
        decreases n - i,
    {
        let c = q.get_char(i);
        if !(c >= '0' && c <= '9') {
            digits_only = false;
        }
        i = i + 1;
    }
    if digits_only {
        assert(all_digits(q@));
        let idx = parse_index_digits(q)?;
        return Ok(SegmentQualifier::Index(idx));
    }
    assert(!all_digits(q@));
    match find_char(q, '=') {
        None => {
            proof {
                lemma_find_char_contains(q@, '=');
            }
            Err(SelectorError::MalformedQualifier)
        },
        Some(e) => {
            proof {
                lemma_find_char_contains(q@, '=');
            }
            let field_raw = q.substring_char(0, e);
            let value_raw = q.substring_char(e + 1, n);
            let field = parse_token(field_raw, true)?;
            let value = parse_filter_value(value_raw)?;
            Ok(SegmentQualifier::Filter { field, value })
        },
    }
}

/// Reads an all-digit qualifier as a `usize` array index.
fn parse_index_digits(q: &str) -> (r: Result<usize, SelectorError>)
    requires
        all_digits(q@),
        q@.len() > 0,
    ensures
        match r {
            Ok(i) => digits_value(q@) == i as int,
            Err(e) => e == SelectorError::IndexOutOfRange && digits_value(q@) > usize::MAX as int,
        },
{
    let n = q.unicode_len();
    let mut acc: usize = 0;
    let mut i: usize = 0;
    while i < n
        invariant
            0 <= i <= n,
            n == q@.len(),
            all_digits(q@),
            acc as int == digits_value(q@.subrange(0, i as int)),
        decreases n - i,
    {
        let c = q.get_char(i);
        assert(is_digit(q@[i as int]));
        let d: usize = digit_of(c);
        if acc > (usize::MAX - d) / 10 {
            proof {
                lemma_digits_value_monotone(q@, i as int + 1);
                assert(digits_value(q@.subrange(0, i as int + 1)) == acc * 10 + d) by {
                    assert(q@.subrange(0, i as int + 1).subrange(0, i as int) =~= q@.subrange(
                        0,
                        i as int,
                    ));
                    assert(q@.subrange(0, i as int + 1)[i as int] == q@[i as int]);
                };
                assert(acc * 10 + d > usize::MAX as int) by (nonlinear_arith)
                    requires
                        acc > (usize::MAX - d) / 10,
                        d <= 9,
                        acc >= 0,
                ;
            }
            return Err(SelectorError::IndexOutOfRange);
        }
        proof {
            assert(acc * 10 + d <= usize::MAX as int) by (nonlinear_arith)
                requires
                    acc <= (usize::MAX - d) / 10,
                    d <= 9,
                    acc >= 0,
            ;
            assert(digits_value(q@.subrange(0, i as int + 1)) == acc * 10 + d) by {
                assert(q@.subrange(0, i as int + 1).subrange(0, i as int) =~= q@.subrange(
                    0,
                    i as int,
                ));
                assert(q@.subrange(0, i as int + 1)[i as int] == q@[i as int]);
            };
        }
        acc = acc * 10 + d;
        i = i + 1;
    }
    assert(q@.subrange(0, n as int) =~= q@);
    Ok(acc)
}

/// Numeric value of an ASCII digit character.
fn digit_of(c: char) -> (d: usize)
    requires
        is_digit(c),
    ensures
        d == digit_val(c),
        d <= 9,
{
    match c {
        '0' => 0,
        '1' => 1,
        '2' => 2,
        '3' => 3,
        '4' => 4,
        '5' => 5,
        '6' => 6,
        '7' => 7,
        '8' => 8,
        _ => 9,
    }
}

/// A longer digit string never denotes a smaller value.
proof fn lemma_digits_value_monotone(s: Seq<char>, i: int)
    requires
        0 <= i <= s.len(),
        all_digits(s),
    ensures
        digits_value(s) >= digits_value(s.subrange(0, i)),
        digits_value(s.subrange(0, i)) >= 0,
    decreases s.len() - i,
{
    lemma_digits_value_nonneg(s.subrange(0, i));
    if i < s.len() {
        lemma_digits_value_monotone(s, i + 1);
        assert(s.subrange(0, i + 1).subrange(0, i) =~= s.subrange(0, i));
        assert(digits_value(s.subrange(0, i + 1)) == digits_value(s.subrange(0, i)) * 10
            + digit_val(s.subrange(0, i + 1)[i]));
        assert(digits_value(s.subrange(0, i)) * 10 >= digits_value(s.subrange(0, i)))
            by (nonlinear_arith)
            requires
                digits_value(s.subrange(0, i)) >= 0,
        ;
    } else {
        assert(s.subrange(0, i) =~= s);
    }
}

proof fn lemma_digits_value_nonneg(s: Seq<char>)
    requires
        all_digits(s),
    ensures
        digits_value(s) >= 0,
    decreases s.len(),
{
    if s.len() > 0 {
        let t = s.subrange(0, s.len() - 1);
        assert(forall|k: int| 0 <= k < t.len() ==> is_digit(#[trigger] t[k]));
        lemma_digits_value_nonneg(t);
        assert(digits_value(t) * 10 >= 0) by (nonlinear_arith)
            requires
                digits_value(t) >= 0,
        ;
    }
}

/// Parses a filter value, stripping one layer of matching wrapping quotes.
fn parse_filter_value(raw: &str) -> (r: Result<String, SelectorError>)
    ensures
        match r {
            Ok(v) => spec_parse_filter_value(raw@) == Ok::<Seq<char>, SelectorError>(v@),
            Err(e) => spec_parse_filter_value(raw@) == Err::<Seq<char>, SelectorError>(e),
        },
{
    let t = trim_str(raw);
    let n = t.unicode_len();
    if n == 0 {
        return Err(SelectorError::EmptyFilterValue);
    }
    let stripped = if n >= 2 {
        let first = t.get_char(0);
        let last = t.get_char(n - 1);
        if (first == '"' && last == '"') || (first == '\'' && last == '\'') {
            t.substring_char(1, n - 1)
        } else {
            t
        }
    } else {
        t
    };
    assert(stripped@ == strip_quotes_spec(t@));
    let m = stripped.unicode_len();
    if m == 0 {
        return Err(SelectorError::EmptyFilterValue);
    }
    let mut i: usize = 0;
    while i < m
        invariant
            0 <= i <= m,
            m == stripped@.len(),
            m != 0,
            t@ == trim_spec(raw@),
            t@.len() != 0,
            stripped@ == strip_quotes_spec(t@),
            forall|k: int| 0 <= k < i ==> stripped@[k] != '[' && stripped@[k] != ']',
        decreases m - i,
    {
        let c = stripped.get_char(i);
        if c == '[' || c == ']' {
            proof {
                assert(stripped@[i as int] == c);
                if c == '[' {
                    assert(contains_char(stripped@, '['));
                } else {
                    assert(contains_char(stripped@, ']'));
                }
            }
            return Err(SelectorError::FilterValueUnsupportedChar);
        }
        i = i + 1;
    }
    assert(!contains_char(stripped@, '['));
    assert(!contains_char(stripped@, ']'));
    Ok(stripped.to_owned())
}

/// Parses one dot-separated segment of a selector.
fn parse_segment(raw: &str) -> (r: Result<SelectorSegment, SelectorError>)
    ensures
        match r {
            Ok(seg) => spec_parse_segment(raw@) == Ok::<SegV, SelectorError>(seg@),
            Err(e) => spec_parse_segment(raw@) == Err::<SegV, SelectorError>(e),
        },
{
    let seg = trim_str(raw);
    let n = seg.unicode_len();
    if n == 0 {
        return Err(SelectorError::EmptySegment);
    }
    match find_char(seg, '[') {
        None => {
            proof {
                lemma_find_char_contains(seg@, '[');
            }
            let key = parse_token(seg, false)?;
            Ok(SelectorSegment { key, qualifier: None })
        },
        Some(open) => {
            proof {
                lemma_find_char_contains(seg@, '[');
            }
            if seg.get_char(n - 1) != ']' {
                return Err(SelectorError::MissingQualifierClose);
            }
            assert(open < n - 1) by {
                assert(seg@[open as int] == '[');
            }
            let key = parse_token(seg.substring_char(0, open), false)?;
            let qualifier = parse_qualifier(seg.substring_char(open + 1, n - 1))?;
            Ok(SelectorSegment { key, qualifier: Some(qualifier) })
        },
    }
}

/// Parses a selector string into its segments.
///
/// The result is exactly the grammar model `spec_parse_selector`: `Ok` holds
/// the parsed non-empty segment sequence, and `Err` the model's error.
pub fn parse_selector(value: &str) -> (r: Result<VersionSelector, SelectorError>)
    ensures
        match r {
            Ok(sel) => spec_parse_selector(value@) == Ok::<Seq<SegV>, SelectorError>(sel@)
                && sel@.len() >= 1,
            Err(e) => spec_parse_selector(value@) == Err::<Seq<SegV>, SelectorError>(e),
        },
{
    let t = trim_str(value);
    let n = t.unicode_len();
    if n == 0 {
        return Err(SelectorError::EmptySelector);
    }
    let mut segments: Vec<SelectorSegment> = Vec::new();
    let mut seg_start: usize = 0;
    let mut in_brackets = false;
    let mut i: usize = 0;
    while i < n
        invariant
            0 <= seg_start <= i <= n,
            n == t@.len(),
            n > 0,
            t@ == trim_spec(value@),
            scan_compose(segments@.map_values(|g: SelectorSegment| g@), spec_scan(t@, i as int,
                seg_start as int, in_brackets)) == spec_parse_selector(value@),
        decreases n - i,
    {
        let c = t.get_char(i);
        if c == '[' {
            if in_brackets {
                return Err(SelectorError::NestedOpenBracket);
            }
            in_brackets = true;
        } else if c == ']' {
            if !in_brackets {
                return Err(SelectorError::UnmatchedCloseBracket);
            }
            in_brackets = false;
        } else if c == '.' && !in_brackets {
            let ghost old_acc = segments@.map_values(|g: SelectorSegment| g@);
            let raw = t.substring_char(seg_start, i);
            match parse_segment(raw) {
                Err(e) => {
                    return Err(e);
                },
                Ok(seg) => {
                    segments.push(seg);
                    proof {
                        let new_acc = segments@.map_values(|g: SelectorSegment| g@);
                        assert(new_acc =~= old_acc + seq![seg@]);
                        match spec_scan(t@, i as int + 1, i as int + 1, false) {
                            Ok(rest) => {
                                assert(old_acc + (seq![seg@] + rest) =~= new_acc + rest);
                            },
                            Err(_) => {},
                        }
                    }
                    seg_start = i + 1;
                },
            }
        }
        i = i + 1;
    }
    if in_brackets {
        return Err(SelectorError::UnmatchedOpenBracket);
    }
    let ghost old_acc = segments@.map_values(|g: SelectorSegment| g@);
    let raw = t.substring_char(seg_start, n);
    match parse_segment(raw) {
        Err(e) => Err(e),
        Ok(seg) => {
            segments.push(seg);
            proof {
                let new_acc = segments@.map_values(|g: SelectorSegment| g@);
                assert(new_acc =~= old_acc + seq![seg@]);
            }
            let sel = VersionSelector { segments };
            assert(sel@.len() >= 1);
            Ok(sel)
        },
    }
}

} // verus!
