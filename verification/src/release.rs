//! Release computation: conventional-commit classification, the version
//! bump it implies, release tag and branch rendering, and the parsing of
//! the plain text handed back by the version-control commands.

use vstd::prelude::*;

use crate::semverio::SemVer;
use crate::tag_template::{TagTemplate, replace_from, replace_all, spec_parse_stable_version};
use crate::textutil::{
    contains_char, find_char_spec, first_non_space, lower_seq, starts_with_spec, trim_spec,
    trim_str,
};

verus! {

/// One commit: its hash, subject line and body.
#[derive(Debug, Clone, PartialEq, Eq)]
pub struct CommitInfo {
    pub sha: String,
    pub subject: String,
    pub body: String,
}

/// How far a commit requires the version to move.
#[derive(Debug, Clone, Copy, PartialEq, Eq, Structural)]
pub enum BumpLevel {
    Patch,
    Minor,
    Major,
}

/// The order of bump levels.
pub open spec fn bump_rank(b: BumpLevel) -> int {
    match b {
        BumpLevel::Patch => 0,
        BumpLevel::Minor => 1,
        BumpLevel::Major => 2,
    }
}

/// A line announces a breaking change when, after leading whitespace, it
/// starts with the breaking-change marker.
pub open spec fn line_is_breaking(line: Seq<char>) -> bool {
    starts_with_spec(
        line.subrange(first_non_space(line), line.len() as int),
        "BREAKING CHANGE"@,
    )
}

/// Whether any line of `s[i..]` announces a breaking change.
pub open spec fn breaking_from(s: Seq<char>, i: int) -> bool
    decreases s.len() - i,
    via breaking_from_decreases
{
    if i < 0 || i >= s.len() {
        false
    } else {
        let rest = s.subrange(i, s.len() as int);
        let e = i + find_char_spec(rest, '\n');
        if e < s.len() {
            line_is_breaking(s.subrange(i, e)) || breaking_from(s, e + 1)
        } else {
            line_is_breaking(s.subrange(i, s.len() as int))
        }
    }
}

#[via_fn]
proof fn breaking_from_decreases(s: Seq<char>, i: int) {
    if !(i < 0 || i >= s.len()) {
        crate::textutil::lemma_find_char_bounds(s.subrange(i, s.len() as int), '\n');
    }
}

/// Model of `has_breaking_change`: a body line announces one, or the
/// subject's part before the colon carries a `!`.
pub open spec fn spec_has_breaking_change(subject: Seq<char>, body: Seq<char>) -> bool {
    breaking_from(body, 0) || (contains_char(subject, ':') && contains_char(
        subject.subrange(0, find_char_spec(subject, ':')),
        '!',
    ))
}

/// Model of the conventional-commit type of a subject: the part before the
/// colon, with trailing `!` markers removed; what precedes a parenthesized
/// scope when one is present, the raw part otherwise; trimmed and folded to
/// ASCII lowercase. Empty or colon-free subjects have none.
pub open spec fn spec_commit_type(subject: Seq<char>) -> Option<Seq<char>> {
    if !contains_char(subject, ':') {
        None
    } else {
        let prefix = subject.subrange(0, find_char_spec(subject, ':'));
        let q = strip_bangs(trim_spec(prefix));
        let kind = if contains_char(q, '(') {
            q.subrange(0, find_char_spec(q, '('))
        } else {
            prefix
        };
        let t = trim_spec(kind);
        if t.len() == 0 {
            None
        } else {
            Some(lower_seq(t))
        }
    }
}

/// `s` without its trailing `!` characters.
pub open spec fn strip_bangs(s: Seq<char>) -> Seq<char>
    decreases s.len(),
{
    if s.len() > 0 && s[s.len() - 1] == '!' {
        strip_bangs(s.subrange(0, s.len() - 1))
    } else {
        s
    }
}

/// Whether a line announces a breaking change.
fn line_is_breaking_exec(line: &str) -> (r: bool)
    ensures
        r == line_is_breaking(line@),
{
    let t = crate::textutil::trim_str(line);
    let n = line.unicode_len();
    proof {
        reveal_strlit("BREAKING CHANGE");
        crate::textutil::lemma_first_non_space_bounds(line@);
    }
    let mut a: usize = 0;
    while a < n && crate::textutil::is_space_char(line.get_char(a))
        invariant
            0 <= a <= n,
            n == line@.len(),
            forall|k: int| 0 <= k < a ==> crate::textutil::is_space(line@[k]),
        decreases n - a,
    {
        a = a + 1;
    }
    proof {
        crate::textutil::lemma_first_non_space_unique(line@, a as int);
    }
    let rest = line.substring_char(a, n);
    crate::textutil::str_starts_with(rest, "BREAKING CHANGE")
}

/// Whether the commit announces a breaking change: a body line starting
/// (after whitespace) with the marker, or a `!` in the subject's prefix.
pub fn has_breaking_change(commit: &CommitInfo) -> (r: bool)
    ensures
        r == spec_has_breaking_change(commit.subject@, commit.body@),
{
    let body = commit.body.as_str();
    let n = body.unicode_len();
    let mut i: usize = 0;
    let mut found = false;
    while i < n && !found
        invariant
            0 <= i <= n,
            n == body@.len(),
            found ==> breaking_from(body@, 0),
            !found ==> breaking_from(body@, 0) == breaking_from(body@, i as int),
        decreases n - i + (if found {
            0int
        } else {
            1int
        }),
    {
        let ghost rest0 = body@.subrange(i as int, n as int);
        let e = match crate::textutil::find_char(body.substring_char(i, n), '\n') {
            Some(off) => i + off,
            None => n,
        };
        proof {
            crate::textutil::lemma_find_char_bounds(rest0, '\n');
            assert(e as int == i + find_char_spec(rest0, '\n'));
        }
        let line = body.substring_char(i, e);
        if line_is_breaking_exec(line) {
            found = true;
            proof {
                assert(breaking_from(body@, i as int));
            }
        } else {
            if e < n {
                proof {
                    assert(breaking_from(body@, i as int) == breaking_from(body@, e + 1));
                }
                i = e + 1;
            } else {
                proof {
                    assert(e == n);
                    assert(breaking_from(body@, i as int) == false);
                    assert(breaking_from(body@, n as int) == false);
                }
                i = n;
            }
        }
    }
    proof {
        if !found && i >= n {
            assert(breaking_from(body@, i as int) == false);
        }
    }
    if found {
        return true;
    }
    let subject = commit.subject.as_str();
    match crate::textutil::find_char(subject, ':') {
        None => {
            proof {
                crate::textutil::lemma_find_char_contains(subject@, ':');
            }
            false
        },
        Some(c) => {
            proof {
                crate::textutil::lemma_find_char_contains(subject@, ':');
            }
            let prefix = subject.substring_char(0, c);
            match crate::textutil::find_char(prefix, '!') {
                Some(_) => true,
                None => {
                    proof {
                        crate::textutil::lemma_find_char_contains(prefix@, '!');
                    }
                    false
                },
            }
        },
    }
}

/// The conventional-commit type of a subject, when it has one.
pub fn conventional_commit_type(subject: &str) -> (r: Option<String>)
    ensures
        match r {
            Some(t) => spec_commit_type(subject@) == Some(t@),
            None => spec_commit_type(subject@) is None,
        },
{
    let n = subject.unicode_len();
    let c = match crate::textutil::find_char(subject, ':') {
        None => {
            proof {
                crate::textutil::lemma_find_char_contains(subject@, ':');
            }
            return None;
        },
        Some(c) => c,
    };
    proof {
        crate::textutil::lemma_find_char_contains(subject@, ':');
    }
    let prefix = subject.substring_char(0, c);
    let trimmed = trim_str(prefix);
    let mut qe = trimmed.unicode_len();
    proof {
        assert(trimmed@.subrange(0, trimmed@.len() as int) =~= trimmed@);
    }
    while qe > 0 && trimmed.get_char(qe - 1) == '!'
        invariant
            0 <= qe <= trimmed@.len(),
            strip_bangs(trimmed@) == strip_bangs(trimmed@.subrange(0, qe as int)),
        decreases qe,
    {
        proof {
            assert(trimmed@.subrange(0, qe as int).subrange(0, qe - 1) =~= trimmed@.subrange(
                0,
                qe - 1,
            ));
        }
        qe = qe - 1;
    }
    let q = trimmed.substring_char(0, qe);
    proof {
        assert(q@ == strip_bangs(trimmed@)) by {
            assert(trimmed@.subrange(0, qe as int) == q@);
            if qe > 0 {
                assert(!(q@[qe - 1] == '!'));
            }
        }
    }
    let kind = match crate::textutil::find_char(q, '(') {
        Some(o) => {
            proof {
                crate::textutil::lemma_find_char_contains(q@, '(');
            }
            q.substring_char(0, o)
        },
        None => {
            proof {
                crate::textutil::lemma_find_char_contains(q@, '(');
            }
            prefix
        },
    };
    let t = trim_str(kind);
    if t.unicode_len() == 0 {
        None
    } else {
        Some(crate::textutil::ascii_lower(t))
    }
}

/// Model of `classify_commit`.
pub open spec fn spec_classify_commit(subject: Seq<char>, body: Seq<char>) -> Option<BumpLevel> {
    if spec_has_breaking_change(subject, body) {
        Some(BumpLevel::Major)
    } else {
        match spec_commit_type(subject) {
            None => None,
            Some(t) => if t == "feat"@ {
                Some(BumpLevel::Minor)
            } else if t == "fix"@ {
                Some(BumpLevel::Patch)
            } else {
                None
            },
        }
    }
}

/// The bump a commit calls for: a breaking change is major, a feature is
/// minor, a fix is a patch, anything else none.
pub fn classify_commit(commit: &CommitInfo) -> (r: Option<BumpLevel>)
    ensures
        r == spec_classify_commit(commit.subject@, commit.body@),
{
    if has_breaking_change(commit) {
        return Some(BumpLevel::Major);
    }
    proof {
        reveal_strlit("feat");
        reveal_strlit("fix");
    }
    match conventional_commit_type(commit.subject.as_str()) {
        None => None,
        Some(t) => {
            if crate::textutil::str_eq(t.as_str(), "feat") {
                Some(BumpLevel::Minor)
            } else if crate::textutil::str_eq(t.as_str(), "fix") {
                Some(BumpLevel::Patch)
            } else {
                None
            }
        },
    }
}

/// Model of `highest_bump` over the commits from `i` on.
pub open spec fn spec_highest_bump(commits: Seq<CommitInfo>, i: int) -> Option<BumpLevel>
    decreases commits.len() - i,
{
    if i < 0 || i >= commits.len() {
        None
    } else {
        let rest = spec_highest_bump(commits, i + 1);
        match spec_classify_commit(commits[i].subject@, commits[i].body@) {
            None => rest,
            Some(b) => match rest {
                None => Some(b),
                Some(c) => if bump_rank(b) >= bump_rank(c) {
                    Some(b)
                } else {
                    Some(c)
                },
            },
        }
    }
}

/// The strongest bump any commit calls for.
pub fn highest_bump(commits: &Vec<CommitInfo>) -> (r: Option<BumpLevel>)
    ensures
        r == spec_highest_bump(commits@, 0),
{
    let mut best: Option<BumpLevel> = None;
    let mut i: usize = commits.len();
    while i > 0
        invariant
            0 <= i <= commits@.len(),
            best == spec_highest_bump(commits@, i as int),
        decreases i,
    {
        i = i - 1;
        match classify_commit(&commits[i]) {
            None => {},
            Some(b) => {
                best = match best {
                    None => Some(b),
                    Some(c) => {
                        if bump_ge(b, c) {
                            Some(b)
                        } else {
                            Some(c)
                        }
                    },
                };
            },
        }
    }
    best
}

/// Whether `a` is at least as strong a bump as `b`.
fn bump_ge(a: BumpLevel, b: BumpLevel) -> (r: bool)
    ensures
        r == (bump_rank(a) >= bump_rank(b)),
{
    match (a, b) {
        (BumpLevel::Major, _) => true,
        (BumpLevel::Minor, BumpLevel::Major) => false,
        (BumpLevel::Minor, _) => true,
        (BumpLevel::Patch, BumpLevel::Patch) => true,
        (BumpLevel::Patch, _) => false,
    }
}

/// The version after a bump: major zeroes minor and patch, minor zeroes
/// patch, patch increments.
pub fn bump_version(base: &SemVer, level: BumpLevel) -> (r: SemVer)
    requires
        base.major < u64::MAX,
        base.minor < u64::MAX,
        base.patch < u64::MAX,
    ensures
        level is Major ==> r == (SemVer {
            major: (base.major + 1) as u64,
            minor: 0u64,
            patch: 0u64,
        }),
        level is Minor ==> r == (SemVer {
            major: base.major,
            minor: (base.minor + 1) as u64,
            patch: 0u64,
        }),
        level is Patch ==> r == (SemVer {
            major: base.major,
            minor: base.minor,
            patch: (base.patch + 1) as u64,
        }),
{
    match level {
        BumpLevel::Major => SemVer { major: base.major + 1, minor: 0, patch: 0 },
        BumpLevel::Minor => SemVer { major: base.major, minor: base.minor + 1, patch: 0 },
        BumpLevel::Patch => SemVer { major: base.major, minor: base.minor, patch: base.patch + 1 },
    }
}

/// The character of one decimal digit.
pub open spec fn digit_char(d: int) -> char {
    if d == 0 {
        '0'
    } else if d == 1 {
        '1'
    } else if d == 2 {
        '2'
    } else if d == 3 {
        '3'
    } else if d == 4 {
        '4'
    } else if d == 5 {
        '5'
    } else if d == 6 {
        '6'
    } else if d == 7 {
        '7'
    } else if d == 8 {
        '8'
    } else {
        '9'
    }
}

/// The decimal text of a number.
pub open spec fn dec_spec(n: int) -> Seq<char>
    decreases n,
{
    if n < 10 {
        seq![digit_char(n)]
    } else {
        dec_spec(n / 10) + seq![digit_char(n % 10)]
    }
}

/// One digit as text.
fn digit_str(d: u64) -> (r: &'static str)
    requires
        d <= 9,
    ensures
        r@ == seq![digit_char(d as int)],
{
    proof {
        reveal_strlit("0");
        reveal_strlit("1");
        reveal_strlit("2");
        reveal_strlit("3");
        reveal_strlit("4");
        reveal_strlit("5");
        reveal_strlit("6");
        reveal_strlit("7");
        reveal_strlit("8");
        reveal_strlit("9");
    }
    let r = match d {
        0 => "0",
        1 => "1",
        2 => "2",
        3 => "3",
        4 => "4",
        5 => "5",
        6 => "6",
        7 => "7",
        8 => "8",
        _ => "9",
    };
    proof {
        assert(r@ =~= seq![digit_char(d as int)]);
    }
    r
}

/// The decimal text of a number.
pub fn u64_to_dec(n: u64) -> (r: String)
    ensures
        r@ == dec_spec(n as int),
    decreases n,
{
    if n < 10 {
        digit_str(n).to_owned()
    } else {
        let mut s = u64_to_dec(n / 10);
        s.append(digit_str(n % 10));
        s
    }
}

impl SemVer {
    /// The dotted version text.
    pub open spec fn text_spec(&self) -> Seq<char> {
        dec_spec(self.major as int) + "."@ + dec_spec(self.minor as int) + "."@ + dec_spec(
            self.patch as int,
        )
    }

    /// Renders the version as `major.minor.patch`.
    pub fn to_text(&self) -> (r: String)
        ensures
            r@ == self.text_spec(),
    {
        proof {
            reveal_strlit(".");
        }
        let mut s = u64_to_dec(self.major);
        s.append(".");
        let minor = u64_to_dec(self.minor);
        s.append(minor.as_str());
        s.append(".");
        let patch = u64_to_dec(self.patch);
        s.append(patch.as_str());
        s
    }
}

/// The release branch for a version: the pattern with `{{version}}`
/// replaced, trimmed.
pub fn render_release_branch(pattern: &str, version: &str) -> (r: String)
    ensures
        r@ == trim_spec(replace_from(pattern@, "{{version}}"@, version@, 0)),
{
    proof {
        reveal_strlit("{{version}}");
    }
    let replaced = replace_all(pattern, "{{version}}", version);
    trim_str(replaced.as_str()).to_owned()
}

/// The first characters of a commit hash, at most seven.
pub fn short_sha(sha: &str) -> (r: String)
    ensures
        sha@.len() >= 7 ==> r@ == sha@.subrange(0, 7),
        sha@.len() < 7 ==> r@ == sha@,
{
    let n = sha.unicode_len();
    let e = if n < 7 {
        n
    } else {
        7
    };
    let r = sha.substring_char(0, e).to_owned();
    proof {
        if n >= 7 {
        } else {
            assert(sha@.subrange(0, n as int) =~= sha@);
        }
    }
    r
}

/// What one run of an outside command printed and how it exited.
#[derive(Debug, Clone, PartialEq, Eq)]
pub struct CommandOutput {
    pub status: i32,
    pub stdout: String,
    pub stderr: String,
}

/// The port through which release orchestration runs outside commands; the
/// error text names a command that could not be run at all.
pub trait CommandRunner {
    fn run(
        &mut self,
        cwd: &str,
        program: &str,
        args: &Vec<String>,
        env: &Vec<(String, String)>,
    ) -> Result<CommandOutput, String>;
}

/// The commit message for a release: `chore(release): ` and the tag.
pub fn release_commit_message(tag: &str) -> (r: String)
    ensures
        r@ == "chore(release): "@ + tag@,
{
    let mut s = "chore(release): ".to_owned();
    s.append(tag);
    s
}

/// The title of a release pull request: `Release ` and the tag.
pub fn release_pr_title(tag: &str) -> (r: String)
    ensures
        r@ == "Release "@ + tag@,
{
    let mut s = "Release ".to_owned();
    s.append(tag);
    s
}

/// What one record of the commit log denotes: its three fields separated by
/// the unit separator, trimmed; blank records and records without a hash
/// denote nothing.
pub open spec fn spec_commit_record(rec: Seq<char>) -> Option<(Seq<char>, Seq<char>, Seq<char>)> {
    if trim_spec(rec).len() == 0 {
        None
    } else {
        let u1 = find_char_spec(rec, '\u{1f}');
        let p1 = rec.subrange(0, u1);
        let rest1 = if u1 < rec.len() {
            rec.subrange(u1 + 1, rec.len() as int)
        } else {
            Seq::empty()
        };
        let u2 = find_char_spec(rest1, '\u{1f}');
        let p2 = rest1.subrange(0, u2);
        let p3 = if u2 < rest1.len() {
            rest1.subrange(u2 + 1, rest1.len() as int)
        } else {
            Seq::empty()
        };
        let sha = trim_spec(p1);
        if sha.len() == 0 {
            None
        } else {
            Some((sha, trim_spec(p2), trim_spec(p3)))
        }
    }
}

/// The commits the log text denotes from `i` on: records are separated by
/// the record separator.
pub open spec fn spec_commits_from(s: Seq<char>, i: int) -> Seq<(Seq<char>, Seq<char>, Seq<char>)>
    decreases s.len() - i,
    via spec_commits_from_decreases
{
    if i < 0 || i >= s.len() {
        Seq::empty()
    } else {
        let rest = s.subrange(i, s.len() as int);
        let e = i + find_char_spec(rest, '\u{1e}');
        let head: Seq<(Seq<char>, Seq<char>, Seq<char>)> = match spec_commit_record(
            s.subrange(i, e),
        ) {
            None => Seq::empty(),
            Some(c) => seq![c],
        };
        if e < s.len() {
            head + spec_commits_from(s, e + 1)
        } else {
            head
        }
    }
}

#[via_fn]
proof fn spec_commits_from_decreases(s: Seq<char>, i: int) {
    if !(i < 0 || i >= s.len()) {
        crate::textutil::lemma_find_char_bounds(s.subrange(i, s.len() as int), '\u{1e}');
    }
}

/// Reads one record's fields.
fn parse_commit_record(rec: &str) -> (r: Option<CommitInfo>)
    ensures
        match r {
            Some(c) => spec_commit_record(rec@) == Some((c.sha@, c.subject@, c.body@)),
            None => spec_commit_record(rec@) is None,
        },
{
    let n = rec.unicode_len();
    if trim_str(rec).unicode_len() == 0 {
        return None;
    }
    let u1 = match crate::textutil::find_char(rec, '\u{1f}') {
        Some(u) => u,
        None => n,
    };
    let p1 = rec.substring_char(0, u1);
    let rest1 = if u1 < n {
        rec.substring_char(u1 + 1, n)
    } else {
        rec.substring_char(n, n)
    };
    proof {
        if u1 == n {
            assert(rest1@ =~= Seq::<char>::empty());
        }
    }
    let m = rest1.unicode_len();
    let u2 = match crate::textutil::find_char(rest1, '\u{1f}') {
        Some(u) => u,
        None => m,
    };
    let p2 = rest1.substring_char(0, u2);
    let p3 = if u2 < m {
        rest1.substring_char(u2 + 1, m)
    } else {
        rest1.substring_char(m, m)
    };
    proof {
        if u2 == m {
            assert(p3@ =~= Seq::<char>::empty());
        }
    }
    let sha = trim_str(p1);
    if sha.unicode_len() == 0 {
        return None;
    }
    Some(
        CommitInfo {
            sha: sha.to_owned(),
            subject: trim_str(p2).to_owned(),
            body: trim_str(p3).to_owned(),
        },
    )
}

/// Reads the commit log printed by the version-control history command:
/// records separated by the record separator, fields by the unit separator.
pub fn parse_commit_log(s: &str) -> (r: Vec<CommitInfo>)
    ensures
        r@.map_values(|c: CommitInfo| (c.sha@, c.subject@, c.body@)) == spec_commits_from(s@, 0),
{
    let n = s.unicode_len();
    let mut out: Vec<CommitInfo> = Vec::new();
    let mut i: usize = 0;
    proof {
        assert(out@.map_values(|c: CommitInfo| (c.sha@, c.subject@, c.body@))
            + spec_commits_from(s@, 0) =~= spec_commits_from(s@, 0));
    }
    while i < n
        invariant
            0 <= i <= n,
            n == s@.len(),
            out@.map_values(|c: CommitInfo| (c.sha@, c.subject@, c.body@)) + spec_commits_from(
                s@,
                i as int,
            ) == spec_commits_from(s@, 0),
        decreases n - i,
    {
        let ghost rest0 = s@.subrange(i as int, n as int);
        let ghost out0 = out@.map_values(|c: CommitInfo| (c.sha@, c.subject@, c.body@));
        let e = match crate::textutil::find_char(s.substring_char(i, n), '\u{1e}') {
            Some(off) => i + off,
            None => n,
        };
        proof {
            crate::textutil::lemma_find_char_bounds(rest0, '\u{1e}');
            assert(e as int == i + find_char_spec(rest0, '\u{1e}'));
        }
        let rec = s.substring_char(i, e);
        match parse_commit_record(rec) {
            None => {},
            Some(c) => {
                let ghost cg = c;
                out.push(c);
                proof {
                    assert(out@.map_values(|c2: CommitInfo| (c2.sha@, c2.subject@, c2.body@))
                        =~= out0 + seq![(cg.sha@, cg.subject@, cg.body@)]);
                }
            },
        }
        proof {
            let head: Seq<(Seq<char>, Seq<char>, Seq<char>)> = match spec_commit_record(
                s@.subrange(i as int, e as int),
            ) {
                None => Seq::empty(),
                Some(c) => seq![c],
            };
            if e < n {
                assert(spec_commits_from(s@, i as int) == head + spec_commits_from(s@, e + 1));
                assert(out@.map_values(|c2: CommitInfo| (c2.sha@, c2.subject@, c2.body@))
                    + spec_commits_from(s@, e + 1) =~= spec_commits_from(s@, 0));
            } else {
                assert(spec_commits_from(s@, i as int) == head);
                assert(spec_commits_from(s@, n as int) =~= Seq::<
                    (Seq<char>, Seq<char>, Seq<char>),
                >::empty());
                assert(out@.map_values(|c2: CommitInfo| (c2.sha@, c2.subject@, c2.body@))
                    + spec_commits_from(s@, n as int) =~= spec_commits_from(s@, 0));
            }
        }
        if e < n {
            i = e + 1;
        } else {
            i = n;
        }
    }
    proof {
        assert(spec_commits_from(s@, i as int) =~= Seq::<(Seq<char>, Seq<char>, Seq<char>)>::empty());
        assert(out@.map_values(|c: CommitInfo| (c.sha@, c.subject@, c.body@)) + Seq::<
            (Seq<char>, Seq<char>, Seq<char>),
        >::empty() =~= out@.map_values(|c: CommitInfo| (c.sha@, c.subject@, c.body@)));
    }
    out
}

/// The strongest release tag among the lines of the tag listing from `i`
/// on, carried forward over `best`: a line counts when its trimmed text
/// parses as a stable version under the template, and replaces the best
/// only when its version orders strictly above.
pub open spec fn spec_latest_tag(
    prefix: Seq<char>,
    suffix: Seq<char>,
    s: Seq<char>,
    i: int,
    best: Option<(Seq<char>, (u64, u64, u64))>,
) -> Option<(Seq<char>, (u64, u64, u64))>
    decreases s.len() - i,
    via spec_latest_tag_decreases
{
    if i < 0 || i >= s.len() {
        best
    } else {
        let rest = s.subrange(i, s.len() as int);
        let e = i + find_char_spec(rest, '\n');
        let t = trim_spec(s.subrange(i, e));
        let next = if t.len() == 0 {
            best
        } else {
            match spec_parse_stable_version(prefix, suffix, t) {
                None => best,
                Some(v) => match best {
                    None => Some((t, v)),
                    Some(b) => if ver_gt(v, b.1) {
                        Some((t, v))
                    } else {
                        best
                    },
                },
            }
        };
        if e < s.len() {
            spec_latest_tag(prefix, suffix, s, e + 1, next)
        } else {
            next
        }
    }
}

#[via_fn]
proof fn spec_latest_tag_decreases(
    prefix: Seq<char>,
    suffix: Seq<char>,
    s: Seq<char>,
    i: int,
    best: Option<(Seq<char>, (u64, u64, u64))>,
) {
    if !(i < 0 || i >= s.len()) {
        crate::textutil::lemma_find_char_bounds(s.subrange(i, s.len() as int), '\n');
    }
}

/// The strongest release tag in the tag listing, with its version.
pub fn find_latest_release_tag(template: &TagTemplate, listing: &str) -> (r: Option<
    (String, SemVer),
>)
    ensures
        match r {
            Some(p) => spec_latest_tag(
                template.prefix_spec(),
                template.suffix_spec(),
                listing@,
                0,
                None,
            ) == Some((p.0@, (p.1.major, p.1.minor, p.1.patch))),
            None => spec_latest_tag(
                template.prefix_spec(),
                template.suffix_spec(),
                listing@,
                0,
                None,
            ) is None,
        },
{
    let n = listing.unicode_len();
    let mut best: Option<(String, SemVer)> = None;
    let mut i: usize = 0;
    while i < n
        invariant
            0 <= i <= n,
            n == listing@.len(),
            ({
                let bv = match best {
                    Some(p) => Some((p.0@, (p.1.major, p.1.minor, p.1.patch))),
                    None => None,
                };
                spec_latest_tag(template.prefix_spec(), template.suffix_spec(), listing@, i as int,
                    bv) == spec_latest_tag(
                    template.prefix_spec(),
                    template.suffix_spec(),
                    listing@,
                    0,
                    None,
                )
            }),
        decreases n - i,
    {
        let ghost rest0 = listing@.subrange(i as int, n as int);
        let e = match crate::textutil::find_char(listing.substring_char(i, n), '\n') {
            Some(off) => i + off,
            None => n,
        };
        proof {
            crate::textutil::lemma_find_char_bounds(rest0, '\n');
            assert(e as int == i + find_char_spec(rest0, '\n'));
        }
        let line = listing.substring_char(i, e);
        let t = trim_str(line);
        if t.unicode_len() != 0 {
            match template.parse_stable_version(t) {
                None => {},
                Some(v) => {
                    let replace = match &best {
                        None => true,
                        Some(b) => semver_gt(&v, &b.1),
                    };
                    if replace {
                        best = Some((t.to_owned(), v));
                    }
                },
            }
        }
        if e < n {
            i = e + 1;
        } else {
            i = n;
        }
    }
    best
}

/// Strict order on version triples.
pub open spec fn ver_gt(a: (u64, u64, u64), b: (u64, u64, u64)) -> bool {
    a.0 > b.0 || (a.0 == b.0 && a.1 > b.1) || (a.0 == b.0 && a.1 == b.1 && a.2 > b.2)
}

/// Whether `a` orders strictly above `b`.
pub fn semver_gt(a: &SemVer, b: &SemVer) -> (r: bool)
    ensures
        r == ver_gt((a.major, a.minor, a.patch), (b.major, b.minor, b.patch)),
{
    a.major > b.major || (a.major == b.major && a.minor > b.minor) || (a.major == b.major && a.minor
        == b.minor && a.patch > b.patch)
}

} // verus!
