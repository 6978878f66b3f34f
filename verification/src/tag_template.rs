//! Release tag templates: a template holds exactly one `{version}` token,
//! and renders a tag by surrounding the version with the text before and
//! after that token. The legacy double-brace spelling is normalized first.

use vstd::prelude::*;

use crate::semverio::{SemVer, semver_parse, semver_parse_of};
use crate::textutil::{
    ends_with_spec, starts_with_spec, str_ends_with, str_starts_with, trim_spec, trim_str,
};

verus! {

/// Whether `pat` occurs in `s` at position `i`.
pub open spec fn sub_at(s: Seq<char>, pat: Seq<char>, i: int) -> bool {
    0 <= i && i + pat.len() <= s.len() && s.subrange(i, i + pat.len()) == pat
}

/// `s[i..]` with every occurrence of `pat` replaced by `rep`, scanning left
/// to right without overlap.
pub open spec fn replace_from(s: Seq<char>, pat: Seq<char>, rep: Seq<char>, i: int) -> Seq<char>
    decreases s.len() - i, 1int,
{
    if pat.len() == 0 || i < 0 || i + pat.len() > s.len() {
        if 0 <= i <= s.len() {
            s.subrange(i, s.len() as int)
        } else {
            Seq::empty()
        }
    } else if sub_at(s, pat, i) {
        rep + replace_from(s, pat, rep, i + pat.len())
    } else {
        seq![s[i]] + replace_from(s, pat, rep, i + 1)
    }
}

/// The number of occurrences of `pat` in `s[i..]`, counted left to right
/// without overlap.
pub open spec fn count_from(s: Seq<char>, pat: Seq<char>, i: int) -> int
    decreases s.len() - i, 1int,
{
    if pat.len() == 0 || i < 0 || i + pat.len() > s.len() {
        0
    } else if sub_at(s, pat, i) {
        1 + count_from(s, pat, i + pat.len())
    } else {
        count_from(s, pat, i + 1)
    }
}

/// The first position at which `pat` occurs in `s[i..]`, or the length.
pub open spec fn first_sub(s: Seq<char>, pat: Seq<char>, i: int) -> int
    decreases s.len() - i, 1int,
{
    if pat.len() == 0 || i < 0 || i + pat.len() > s.len() {
        s.len() as int
    } else if sub_at(s, pat, i) {
        i
    } else {
        first_sub(s, pat, i + 1)
    }
}

/// Whether `pat` occurs at position `i` of `s`.
pub fn has_sub_at(s: &str, pat: &str, i: usize) -> (r: bool)
    requires
        i + pat@.len() <= s@.len(),
        s@.len() <= usize::MAX,
    ensures
        r == sub_at(s@, pat@, i as int),
{
    let m = pat.unicode_len();
    let mut t: usize = 0;
    while t < m
        invariant
            0 <= t <= m,
            m == pat@.len(),
            i + m <= s@.len(),
            s@.len() <= usize::MAX,
            forall|u: int| 0 <= u < t ==> s@[i + u] == pat@[u],
        decreases m - t,
    {
        if s.get_char(i + t) != pat.get_char(t) {
            assert(s@.subrange(i as int, i + pat@.len())[t as int] == s@[i + t]);
            return false;
        }
        t = t + 1;
    }
    assert(s@.subrange(i as int, i + pat@.len()) =~= pat@);
    true
}

/// `s` with every occurrence of `pat` replaced by `rep`.
pub fn replace_all(s: &str, pat: &str, rep: &str) -> (r: String)
    requires
        pat@.len() > 0,
    ensures
        r@ == replace_from(s@, pat@, rep@, 0),
{
    let n = s.unicode_len();
    let m = pat.unicode_len();
    let mut out = String::new();
    let mut i: usize = 0;
    proof {
        assert(Seq::<char>::empty() + replace_from(s@, pat@, rep@, 0) =~= replace_from(
            s@,
            pat@,
            rep@,
            0,
        ));
    }
    while i < n
        invariant
            0 <= i <= n,
            n == s@.len(),
            m == pat@.len(),
            m > 0,
            out@ + replace_from(s@, pat@, rep@, i as int) == replace_from(s@, pat@, rep@, 0),
        decreases n - i,
    {
        if m <= n - i && has_sub_at(s, pat, i) {
            out.append(rep);
            proof {
                assert(out@ + replace_from(s@, pat@, rep@, i + m) =~= replace_from(
                    s@,
                    pat@,
                    rep@,
                    0,
                ));
            }
            i = i + m;
        } else {
            let c = s.substring_char(i, i + 1);
            out.append(c);
            proof {
                if i + m <= n {
                    assert(seq![s@[i as int]] + replace_from(s@, pat@, rep@, i + 1)
                        == replace_from(s@, pat@, rep@, i as int));
                } else {
                    assert(s@.subrange(i as int, n as int) =~= seq![s@[i as int]] + s@.subrange(
                        i + 1,
                        n as int,
                    ));
                    assert(replace_from(s@, pat@, rep@, i + 1) == s@.subrange(i + 1, n as int));
                }
                assert(c@ =~= seq![s@[i as int]]);
                assert(out@ + replace_from(s@, pat@, rep@, i + 1) =~= replace_from(
                    s@,
                    pat@,
                    rep@,
                    0,
                ));
            }
            i = i + 1;
        }
    }
    proof {
        assert(replace_from(s@, pat@, rep@, n as int) =~= Seq::<char>::empty());
        assert(out@ + Seq::<char>::empty() =~= out@);
    }
    out
}

/// The number of occurrences of `pat` in `s`.
pub fn count_occurrences(s: &str, pat: &str) -> (r: usize)
    requires
        pat@.len() > 0,
    ensures
        r as int == count_from(s@, pat@, 0),
{
    let n = s.unicode_len();
    let m = pat.unicode_len();
    let mut count: usize = 0;
    let mut i: usize = 0;
    while i < n
        invariant
            0 <= i <= n,
            n == s@.len(),
            m == pat@.len(),
            m > 0,
            count <= i,
            count + count_from(s@, pat@, i as int) == count_from(s@, pat@, 0),
        decreases n - i,
    {
        if m <= n - i && has_sub_at(s, pat, i) {
            count = count + 1;
            i = i + m;
        } else {
            i = i + 1;
        }
    }
    count
}

/// First occurrence position of `pat`, or `None` when it does not occur.
pub fn find_sub(s: &str, pat: &str) -> (r: Option<usize>)
    requires
        pat@.len() > 0,
    ensures
        match r {
            Some(i) => first_sub(s@, pat@, 0) == i as int && sub_at(s@, pat@, i as int),
            None => first_sub(s@, pat@, 0) == s@.len(),
        },
{
    let n = s.unicode_len();
    let m = pat.unicode_len();
    let mut i: usize = 0;
    while i < n && m <= n - i
        invariant
            0 <= i <= n,
            n == s@.len(),
            m == pat@.len(),
            m > 0,
            first_sub(s@, pat@, 0) == first_sub(s@, pat@, i as int),
        decreases n - i,
    {
        if has_sub_at(s, pat, i) {
            return Some(i);
        }
        i = i + 1;
    }
    None
}

pub proof fn lemma_first_sub_bounds(s: Seq<char>, pat: Seq<char>, i: int)
    requires
        0 <= i <= s.len(),
    ensures
        i <= first_sub(s, pat, i) <= s.len(),
    decreases s.len() - i, 1int,
{
    if pat.len() == 0 || i + pat.len() > s.len() {
    } else if sub_at(s, pat, i) {
    } else {
        lemma_first_sub_bounds(s, pat, i + 1);
    }
}

/// Why a tag template string was rejected.
#[derive(Debug, Clone, Copy, PartialEq, Eq, Structural)]
pub enum TagTemplateError {
    Empty,
    NotExactlyOneToken,
}

impl TagTemplateError {
    /// The user-facing message.
    pub fn message(&self) -> (r: &'static str)
        ensures
            self is Empty ==> r@ == "Tag template cannot be empty."@,
            self is NotExactlyOneToken ==> r@
                == "Tag template must include exactly one `{version}` token."@,
    {
        match self {
            TagTemplateError::Empty => "Tag template cannot be empty.",
            TagTemplateError::NotExactlyOneToken => "Tag template must include exactly one `{version}` token.",
        }
    }
}

/// Model of `normalize_tag_template`: trim, fold the legacy double-brace
/// token to the canonical one, and require exactly one token.
pub open spec fn spec_normalize_tag_template(s: Seq<char>) -> Result<Seq<char>, TagTemplateError> {
    let t = trim_spec(s);
    if t.len() == 0 {
        Err(TagTemplateError::Empty)
    } else {
        let canonical = replace_from(t, "{{version}}"@, "{version}"@, 0);
        if count_from(canonical, "{version}"@, 0) != 1 {
            Err(TagTemplateError::NotExactlyOneToken)
        } else {
            Ok(canonical)
        }
    }
}

/// Normalizes a tag template: the legacy `{{version}}` token becomes
/// `{version}`, and the result must hold that token exactly once.
pub fn normalize_tag_template(value: &str) -> (r: Result<String, TagTemplateError>)
    ensures
        match r {
            Ok(s) => spec_normalize_tag_template(value@) == Ok::<Seq<char>, TagTemplateError>(s@),
            Err(e) => spec_normalize_tag_template(value@) == Err::<Seq<char>, TagTemplateError>(e),
        },
{
    let t = trim_str(value);
    if t.unicode_len() == 0 {
        return Err(TagTemplateError::Empty);
    }
    proof {
        reveal_strlit("{{version}}");
        reveal_strlit("{version}");
    }
    let canonical = replace_all(t, "{{version}}", "{version}");
    let count = count_occurrences(canonical.as_str(), "{version}");
    if count != 1 {
        return Err(TagTemplateError::NotExactlyOneToken);
    }
    Ok(canonical)
}

/// A parsed tag template: the canonical text split around its one
/// `{version}` token.
#[derive(Debug, Clone, PartialEq, Eq)]
pub struct TagTemplate {
    canonical: String,
    prefix: String,
    suffix: String,
}

impl TagTemplate {
    /// The canonical template text.
    pub closed spec fn canonical_spec(&self) -> Seq<char> {
        self.canonical@
    }

    /// The text before the token.
    pub closed spec fn prefix_spec(&self) -> Seq<char> {
        self.prefix@
    }

    /// The text after the token.
    pub closed spec fn suffix_spec(&self) -> Seq<char> {
        self.suffix@
    }

    /// The canonical text is the prefix, the token, then the suffix.
    pub open spec fn wf(&self) -> bool {
        self.canonical_spec() == self.prefix_spec() + "{version}"@ + self.suffix_spec()
            && self.prefix_spec() == self.canonical_spec().subrange(
            0,
            first_sub(self.canonical_spec(), "{version}"@, 0),
        )
    }

    /// Parses and normalizes a template.
    pub fn parse(value: &str) -> (r: Result<Self, TagTemplateError>)
        ensures
            match r {
                Ok(t) => spec_normalize_tag_template(value@) == Ok::<Seq<char>, TagTemplateError>(
                    t.canonical_spec(),
                ) && t.wf(),
                Err(e) => spec_normalize_tag_template(value@) == Err::<Seq<char>, TagTemplateError>(
                    e,
                ),
            },
    {
        let canonical = match normalize_tag_template(value) {
            Err(e) => {
                return Err(e);
            },
            Ok(c) => c,
        };
        proof {
            reveal_strlit("{version}");
        }
        let token_len: usize = "{version}".unicode_len();
        let idx = match find_sub(canonical.as_str(), "{version}") {
            None => {
                proof {
                    lemma_count_zero_when_no_sub(canonical@, "{version}"@);
                }
                return Err(TagTemplateError::NotExactlyOneToken);
            },
            Some(i) => i,
        };
        let n = canonical.as_str().unicode_len();
        assert(idx + token_len <= n) by {
            assert(sub_at(canonical@, "{version}"@, idx as int));
        }
        let prefix = canonical.as_str().substring_char(0, idx).to_owned();
        let suffix = canonical.as_str().substring_char(idx + token_len, n).to_owned();
        let t = TagTemplate { canonical, prefix, suffix };
        proof {
            assert(t.canonical_spec() =~= t.prefix_spec() + "{version}"@ + t.suffix_spec());
        }
        Ok(t)
    }

    /// The text before the `{version}` token.
    pub fn prefix(&self) -> (r: &str)
        ensures
            r@ == self.prefix_spec(),
    {
        self.prefix.as_str()
    }

    /// The text after the `{version}` token.
    pub fn suffix(&self) -> (r: &str)
        ensures
            r@ == self.suffix_spec(),
    {
        self.suffix.as_str()
    }

    /// The tag for a version: prefix, version, suffix.
    pub fn render(&self, version: &str) -> (r: String)
        ensures
            r@ == self.prefix_spec() + version@ + self.suffix_spec(),
    {
        let mut out = self.prefix.clone();
        out.append(version);
        out.append(self.suffix.as_str());
        out
    }

    /// The stable version a tag denotes under this template, when the tag
    /// matches the template and its version part is a plain stable version
    /// (no pre-release, no build metadata).
    pub fn parse_stable_version(&self, raw_tag: &str) -> (r: Option<SemVer>)
        ensures
            match r {
                Some(v) => spec_parse_stable_version(
                    self.prefix_spec(),
                    self.suffix_spec(),
                    raw_tag@,
                ) == Some((v.major, v.minor, v.patch)),
                None => spec_parse_stable_version(self.prefix_spec(), self.suffix_spec(), raw_tag@)
                    is None,
            },
    {
        let tag = trim_str(raw_tag);
        let n = tag.unicode_len();
        let pl = self.prefix.as_str().unicode_len();
        let sl = self.suffix.as_str().unicode_len();
        if !str_starts_with(tag, self.prefix.as_str()) || !str_ends_with(
            tag,
            self.suffix.as_str(),
        ) {
            return None;
        }
        if n < pl || n - pl < sl {
            return None;
        }
        let segment = tag.substring_char(pl, n - sl);
        match semver_parse(segment) {
            Some(q) => {
                if q.3 && q.4 {
                    Some(SemVer { major: q.0, minor: q.1, patch: q.2 })
                } else {
                    None
                }
            },
            None => None,
        }
    }
}

/// Model of `parse_stable_version`: the trimmed tag must carry the prefix
/// and suffix around a stable version text.
pub open spec fn spec_parse_stable_version(
    prefix: Seq<char>,
    suffix: Seq<char>,
    raw: Seq<char>,
) -> Option<(u64, u64, u64)> {
    let tag = trim_spec(raw);
    if starts_with_spec(tag, prefix) && ends_with_spec(tag, suffix) && tag.len() >= prefix.len()
        + suffix.len() {
        match semver_parse_of(tag.subrange(prefix.len() as int, tag.len() - suffix.len())) {
            Some(q) => if q.3 && q.4 {
                Some((q.0, q.1, q.2))
            } else {
                None
            },
            None => None,
        }
    } else {
        None
    }
}

/// If the pattern never occurs, the count is zero.
proof fn lemma_count_zero_when_no_sub(s: Seq<char>, pat: Seq<char>)
    requires
        pat.len() > 0,
        first_sub(s, pat, 0) == s.len(),
    ensures
        count_from(s, pat, 0) == 0,
{
    lemma_count_zero_from(s, pat, 0);
}

proof fn lemma_count_zero_from(s: Seq<char>, pat: Seq<char>, i: int)
    requires
        pat.len() > 0,
        first_sub(s, pat, i) == s.len(),
    ensures
        count_from(s, pat, i) == 0,
    decreases s.len() - i, 1int,
{
    if pat.len() == 0 || i < 0 || i + pat.len() > s.len() {
    } else if sub_at(s, pat, i) {
        assert(first_sub(s, pat, i) == i);
        assert(i + pat.len() <= s.len());
        assert(false);
    } else {
        lemma_count_zero_from(s, pat, i + 1);
    }
}

/// Whether every character of `s` is safe to pass to a POSIX shell bare:
/// ASCII letters and digits and a few path characters.
pub open spec fn shell_safe_char(c: char) -> bool {
    ('a' <= c && c <= 'z') || ('A' <= c && c <= 'Z') || ('0' <= c && c <= '9') || c == '/' || c
        == '.' || c == '_' || c == '-' || c == ':'
}

/// Model of `shell_escape_single`.
pub open spec fn spec_shell_escape_single(s: Seq<char>) -> Seq<char> {
    if s.len() == 0 {
        "''"@
    } else if forall|k: int| 0 <= k < s.len() ==> shell_safe_char(s[k]) {
        s
    } else {
        "'"@ + replace_from(s, "'"@, "'\"'\"'"@, 0) + "'"@
    }
}

/// Quotes a value for single-quoted POSIX shell use: empty and unsafe
/// values are wrapped in single quotes, with embedded quotes escaped.
pub fn shell_escape_single(value: &str) -> (r: String)
    ensures
        r@ == spec_shell_escape_single(value@),
{
    let n = value.unicode_len();
    if n == 0 {
        proof {
            reveal_strlit("''");
        }
        return "''".to_owned();
    }
    let mut all_safe = true;
    let mut i: usize = 0;
    while i < n
        invariant
            0 <= i <= n,
            n == value@.len(),
            all_safe <==> (forall|k: int| 0 <= k < i ==> shell_safe_char(value@[k])),
        decreases n - i,
    {
        let c = value.get_char(i);
        let safe = (c >= 'a' && c <= 'z') || (c >= 'A' && c <= 'Z') || (c >= '0' && c <= '9') || c
            == '/' || c == '.' || c == '_' || c == '-' || c == ':';
        assert(safe == shell_safe_char(value@[i as int]));
        if !safe {
            all_safe = false;
        }
        i = i + 1;
    }
    if all_safe {
        return value.to_owned();
    }
    proof {
        reveal_strlit("'");
    }
    let escaped = replace_all(value, "'", "'\"'\"'");
    let mut out = "'".to_owned();
    out.append(escaped.as_str());
    out.append("'");
    out
}

} // verus!
