//! Configuration data: the provider, the version-update targets, and the
//! validation rules applied when a configuration file is read.

use vstd::prelude::*;

use crate::pathord::{chars_lt, lemma_chars_lt_asym, lemma_chars_lt_total, str_lt};
use crate::tag_template::{first_sub, lemma_first_sub_bounds, sub_at};
use crate::textutil::{
    eq_ignore_ascii_case, str_eq, str_eq_ignore_ascii_case, trim_spec, trim_str,
};

verus! {

/// The branch generated workflows trigger on when none is configured.
pub const DEFAULT_BRANCH: &'static str = "main";

/// The workflow file name used when none is configured.
pub const DEFAULT_WORKFLOW_FILE: &'static str = "release-pr.yml";

/// The release branch pattern used when none is configured.
pub const DEFAULT_RELEASE_BRANCH_PATTERN: &'static str = "brel/release/v{{version}}";

/// The commit author name used when none is configured.
pub const DEFAULT_COMMIT_AUTHOR_NAME: &'static str = "brel[bot]";

/// The commit author email used when none is configured.
pub const DEFAULT_COMMIT_AUTHOR_EMAIL: &'static str = "brel[bot]@users.noreply.github.com";

/// The changelog path used when none is configured.
pub const DEFAULT_CHANGELOG_OUTPUT_FILE: &'static str = "CHANGELOG.md";

/// The hosting provider a repository lives on.
#[derive(Debug, Clone, Copy, PartialEq, Eq, Structural)]
pub enum Provider {
    Github,
    Gitlab,
    Gitea,
}

impl Provider {
    /// The lowercase name of the provider.
    pub fn as_str(self) -> (r: &'static str)
        ensures
            self is Github ==> r@ == "github"@,
            self is Gitlab ==> r@ == "gitlab"@,
            self is Gitea ==> r@ == "gitea"@,
    {
        match self {
            Self::Github => "github",
            Self::Gitlab => "gitlab",
            Self::Gitea => "gitea",
        }
    }
}

/// The format of a configured version-update file.
#[derive(Debug, Clone, Copy, PartialEq, Eq, Structural)]
pub enum VersionFileFormat {
    Json,
    Toml,
}

impl VersionFileFormat {
    /// The lowercase name of the format.
    pub fn as_str(self) -> (r: &'static str)
        ensures
            self is Json ==> r@ == "json"@,
            self is Toml ==> r@ == "toml"@,
    {
        match self {
            Self::Json => "json",
            Self::Toml => "toml",
        }
    }
}

/// Where the configuration came from.
#[derive(Debug, Clone)]
pub enum ConfigSource {
    Explicit(String),
    Discovered(String),
    Defaulted,
}

impl ConfigSource {
    /// The configuration file path, when one was read.
    pub fn path(&self) -> (r: Option<&String>)
        ensures
            match r {
                Some(p) => (self matches ConfigSource::Explicit(q) && p == q) || (self matches
                    ConfigSource::Discovered(q) && p == q),
                None => self is Defaulted,
            },
    {
        match self {
            Self::Explicit(path) => Some(path),
            Self::Discovered(path) => Some(path),
            Self::Defaulted => None,
        }
    }
}

/// The author recorded on release commits.
#[derive(Debug, Clone, PartialEq, Eq)]
pub struct CommitAuthorConfig {
    pub name: String,
    pub email: String,
}

/// Changelog generation settings.
#[derive(Debug, Clone, PartialEq, Eq)]
pub struct ChangelogConfig {
    pub enabled: bool,
    pub output_file: String,
}

/// Release pull-request settings: which files to rewrite, under which
/// selectors, and how the release branch and commit are formed.
#[derive(Debug, Clone, PartialEq, Eq)]
pub struct ReleasePrConfig {
    pub version_updates: Vec<(String, Vec<String>)>,
    pub format_overrides: Vec<(String, VersionFileFormat)>,
    pub release_branch_pattern: String,
    pub pr_template_file: Option<String>,
    pub commit_author: CommitAuthorConfig,
    pub changelog: ChangelogConfig,
}

/// The fully resolved configuration.
#[derive(Debug, Clone)]
pub struct ResolvedConfig {
    pub provider: Provider,
    pub default_branch: String,
    pub workflow_file: String,
    pub release_pr: ReleasePrConfig,
    pub source: ConfigSource,
    pub warnings: Vec<String>,
}

/// Why a configured dotted version key path was rejected.
#[derive(Debug, Clone, Copy, PartialEq, Eq, Structural)]
pub enum DotPathError {
    Empty,
    BlankSegment,
}

/// Whether some `.`-separated segment of `s[start..]` is blank after
/// trimming; `i` scans forward from `start`.
pub open spec fn blank_dot_segment_from(s: Seq<char>, i: int, start: int) -> bool
    decreases s.len() - i,
{
    if i < 0 || i >= s.len() {
        trim_spec(s.subrange(start, s.len() as int)).len() == 0
    } else if s[i] == '.' {
        trim_spec(s.subrange(start, i)).len() == 0 || blank_dot_segment_from(s, i + 1, i + 1)
    } else {
        blank_dot_segment_from(s, i + 1, start)
    }
}

/// Model of `normalize_dot_path`.
pub open spec fn spec_normalize_dot_path(value: Seq<char>) -> Result<Seq<char>, DotPathError> {
    let t = trim_spec(value);
    if t.len() == 0 {
        Err(DotPathError::Empty)
    } else if blank_dot_segment_from(t, 0, 0) {
        Err(DotPathError::BlankSegment)
    } else {
        Ok(t)
    }
}

/// Validates a configured dotted version key path: trimmed, non-empty, and
/// with no blank segment between dots.
pub fn normalize_dot_path(value: &str) -> (r: Result<String, DotPathError>)
    ensures
        match r {
            Ok(p) => spec_normalize_dot_path(value@) == Ok::<Seq<char>, DotPathError>(p@),
            Err(e) => spec_normalize_dot_path(value@) == Err::<Seq<char>, DotPathError>(e),
        },
{
    let t = trim_str(value);
    let n = t.unicode_len();
    if n == 0 {
        return Err(DotPathError::Empty);
    }
    let mut i: usize = 0;
    let mut start: usize = 0;
    while i < n
        invariant
            0 <= start <= i <= n,
            n == t@.len(),
            n != 0,
            t@ == trim_spec(value@),
            blank_dot_segment_from(t@, 0, 0) == blank_dot_segment_from(t@, i as int, start as int),
        decreases n - i,
    {
        if t.get_char(i) == '.' {
            let seg = t.substring_char(start, i);
            if trim_str(seg).unicode_len() == 0 {
                return Err(DotPathError::BlankSegment);
            }
            start = i + 1;
        }
        i = i + 1;
    }
    let seg = t.substring_char(start, n);
    if trim_str(seg).unicode_len() == 0 {
        return Err(DotPathError::BlankSegment);
    }
    assert(!blank_dot_segment_from(t@, n as int, start as int));
    Ok(t.to_owned())
}

/// Why a configured repository-relative path was rejected.
#[derive(Debug, Clone, Copy, PartialEq, Eq, Structural)]
pub enum RepoPathError {
    Empty,
    NotRelative,
    ParentSegment,
}

/// Whether some `/`-separated component of `s[start..]` is exactly `..`;
/// `i` scans forward from `start`.
pub open spec fn parent_segment_from(s: Seq<char>, i: int, start: int) -> bool
    decreases s.len() - i,
{
    if i < 0 || i >= s.len() {
        s.subrange(start, s.len() as int) == ".."@
    } else if s[i] == '/' {
        s.subrange(start, i) == ".."@ || parent_segment_from(s, i + 1, i + 1)
    } else {
        parent_segment_from(s, i + 1, start)
    }
}

/// Model of `normalize_repo_relative_path`.
pub open spec fn spec_normalize_repo_relative_path(value: Seq<char>) -> Result<
    Seq<char>,
    RepoPathError,
> {
    let t = trim_spec(value);
    if t.len() == 0 {
        Err(RepoPathError::Empty)
    } else if t[0] == '/' {
        Err(RepoPathError::NotRelative)
    } else if parent_segment_from(t, 0, 0) {
        Err(RepoPathError::ParentSegment)
    } else {
        Ok(t)
    }
}

/// Validates a configured repository-relative path: trimmed, non-empty, not
/// absolute, and with no `..` component.
pub fn normalize_repo_relative_path(value: &str) -> (r: Result<String, RepoPathError>)
    ensures
        match r {
            Ok(p) => spec_normalize_repo_relative_path(value@) == Ok::<Seq<char>, RepoPathError>(
                p@,
            ),
            Err(e) => spec_normalize_repo_relative_path(value@) == Err::<Seq<char>, RepoPathError>(
                e,
            ),
        },
{
    let t = trim_str(value);
    let n = t.unicode_len();
    if n == 0 {
        return Err(RepoPathError::Empty);
    }
    if t.get_char(0) == '/' {
        return Err(RepoPathError::NotRelative);
    }
    proof {
        reveal_strlit("..");
    }
    let mut i: usize = 0;
    let mut start: usize = 0;
    while i < n
        invariant
            0 <= start <= i <= n,
            n == t@.len(),
            n != 0,
            t@ == trim_spec(value@),
            t@[0] != '/',
            parent_segment_from(t@, 0, 0) == parent_segment_from(t@, i as int, start as int),
        decreases n - i,
    {
        if t.get_char(i) == '/' {
            let seg = t.substring_char(start, i);
            if str_eq(seg, "..") {
                return Err(RepoPathError::ParentSegment);
            }
            start = i + 1;
        }
        i = i + 1;
    }
    let seg = t.substring_char(start, n);
    if str_eq(seg, "..") {
        return Err(RepoPathError::ParentSegment);
    }
    assert(!parent_segment_from(t@, n as int, start as int));
    Ok(t.to_owned())
}

/// Why a release branch pattern was rejected.
#[derive(Debug, Clone, Copy, PartialEq, Eq, Structural)]
pub enum BranchPatternError {
    UnmatchedOpen,
    UnsupportedToken,
    UnmatchedClose,
}

/// Model of branch-pattern validation over the remaining text: each `{{`
/// must be closed by a later `}}` around the token `version`, and once no
/// `{{` is left no stray `}}` may remain.
pub open spec fn spec_check_branch_pattern(rem: Seq<char>) -> Result<(), BranchPatternError>
    decreases rem.len(),
    via spec_check_branch_pattern_decreases
{
    let o = first_sub(rem, "{{"@, 0);
    if o >= rem.len() {
        if first_sub(rem, "}}"@, 0) < rem.len() {
            Err(BranchPatternError::UnmatchedClose)
        } else {
            Ok(())
        }
    } else {
        let after = rem.subrange(o + 2, rem.len() as int);
        let c = first_sub(after, "}}"@, 0);
        if c >= after.len() {
            Err(BranchPatternError::UnmatchedOpen)
        } else if trim_spec(after.subrange(0, c)) == "version"@ {
            spec_check_branch_pattern(after.subrange(c + 2, after.len() as int))
        } else {
            Err(BranchPatternError::UnsupportedToken)
        }
    }
}

#[via_fn]
proof fn spec_check_branch_pattern_decreases(rem: Seq<char>) {
    reveal_strlit("{{");
    reveal_strlit("}}");
    lemma_first_sub_bounds(rem, "{{"@, 0);
    let o = first_sub(rem, "{{"@, 0);
    if o < rem.len() {
        assert(sub_at(rem, "{{"@, o)) by {
            lemma_first_sub_is_sub(rem, "{{"@, 0);
        }
        let after = rem.subrange(o + 2, rem.len() as int);
        lemma_first_sub_bounds(after, "}}"@, 0);
        let c = first_sub(after, "}}"@, 0);
        if c < after.len() {
            assert(sub_at(after, "}}"@, c)) by {
                lemma_first_sub_is_sub(after, "}}"@, 0);
            }
        }
    }
}

/// When the first occurrence is inside the text, the pattern stands there.
proof fn lemma_first_sub_is_sub(s: Seq<char>, pat: Seq<char>, i: int)
    requires
        0 <= i <= s.len(),
        pat.len() > 0,
    ensures
        first_sub(s, pat, i) < s.len() ==> sub_at(s, pat, first_sub(s, pat, i)),
    decreases s.len() - i,
{
    if pat.len() == 0 || i + pat.len() > s.len() {
    } else if sub_at(s, pat, i) {
    } else {
        lemma_first_sub_is_sub(s, pat, i + 1);
    }
}

/// Validates a release branch pattern: every `{{...}}` token must be
/// exactly `{{version}}`, with no unmatched braces.
pub fn validate_branch_pattern(pattern: &str) -> (r: Result<(), BranchPatternError>)
    ensures
        match r {
            Ok(_) => spec_check_branch_pattern(pattern@) == Ok::<(), BranchPatternError>(()),
            Err(e) => spec_check_branch_pattern(pattern@) == Err::<(), BranchPatternError>(e),
        },
{
    proof {
        reveal_strlit("{{");
        reveal_strlit("}}");
        reveal_strlit("version");
    }
    let mut rem: &str = pattern;
    let ghost whole = pattern@;
    loop
        invariant
            whole == pattern@,
            spec_check_branch_pattern(rem@) == spec_check_branch_pattern(whole),
        decreases rem@.len(),
    {
        let n = rem.unicode_len();
        proof {
            reveal_strlit("{{");
            reveal_strlit("}}");
            reveal_strlit("version");
            lemma_first_sub_bounds(rem@, "{{"@, 0);
        }
        let o = match crate::tag_template::find_sub(rem, "{{") {
            None => {
                match crate::tag_template::find_sub(rem, "}}") {
                    Some(_) => {
                        return Err(BranchPatternError::UnmatchedClose);
                    },
                    None => {
                        return Ok(());
                    },
                }
            },
            Some(o) => o,
        };
        assert(o + 2 <= n) by {
            assert(sub_at(rem@, "{{"@, o as int));
        }
        let after = rem.substring_char(o + 2, n);
        let m = after.unicode_len();
        proof {
            lemma_first_sub_bounds(after@, "}}"@, 0);
        }
        let c = match crate::tag_template::find_sub(after, "}}") {
            None => {
                return Err(BranchPatternError::UnmatchedOpen);
            },
            Some(c) => c,
        };
        assert(c + 2 <= m) by {
            assert(sub_at(after@, "}}"@, c as int));
        }
        let token = trim_str(after.substring_char(0, c));
        if !str_eq(token, "version") {
            return Err(BranchPatternError::UnsupportedToken);
        }
        rem = after.substring_char(c + 2, m);
    }
}

/// Reads a provider name: `github`, `gitlab` or `gitea`, trimmed and
/// compared without regard to ASCII case.
pub fn parse_provider(value: &str) -> (r: Option<Provider>)
    ensures
        ({
            let t = trim_spec(value@);
            match r {
                Some(p) => (eq_ignore_ascii_case(t, "github"@) && p is Github)
                    || (eq_ignore_ascii_case(t, "gitlab"@) && p is Gitlab) || (
                eq_ignore_ascii_case(t, "gitea"@) && p is Gitea),
                None => !eq_ignore_ascii_case(t, "github"@) && !eq_ignore_ascii_case(t, "gitlab"@)
                    && !eq_ignore_ascii_case(t, "gitea"@),
            }
        }),
{
    let t = trim_str(value);
    if str_eq_ignore_ascii_case(t, "github") {
        Some(Provider::Github)
    } else if str_eq_ignore_ascii_case(t, "gitlab") {
        Some(Provider::Gitlab)
    } else if str_eq_ignore_ascii_case(t, "gitea") {
        Some(Provider::Gitea)
    } else {
        None
    }
}

/// Reads a format override value: `json` or `toml`, trimmed and compared
/// without regard to ASCII case.
pub fn parse_format(value: &str) -> (r: Option<VersionFileFormat>)
    ensures
        ({
            let t = trim_spec(value@);
            match r {
                Some(f) => (eq_ignore_ascii_case(t, "json"@) && f is Json) || (
                eq_ignore_ascii_case(t, "toml"@) && f is Toml),
                None => !eq_ignore_ascii_case(t, "json"@) && !eq_ignore_ascii_case(t, "toml"@),
            }
        }),
{
    let t = trim_str(value);
    if str_eq_ignore_ascii_case(t, "json") {
        Some(VersionFileFormat::Json)
    } else if str_eq_ignore_ascii_case(t, "toml") {
        Some(VersionFileFormat::Toml)
    } else {
        None
    }
}

/// The not-yet-validated release settings, as read from the configuration
/// file: raw strings, with absent parts still absent.
#[derive(Debug, Clone, PartialEq, Eq)]
pub struct RawReleasePrConfig {
    pub version_updates: Vec<(String, Vec<String>)>,
    pub format_overrides: Vec<(String, String)>,
    pub release_branch_pattern: Option<String>,
    pub pr_template_file: Option<String>,
    pub commit_author_name: Option<String>,
    pub commit_author_email: Option<String>,
    pub changelog_enabled: Option<bool>,
    pub changelog_output_file: Option<String>,
}

/// Why the release settings were rejected.
#[derive(Debug, Clone, PartialEq, Eq)]
pub enum ConfigError {
    UpdatePathInvalid { value: String, reason: RepoPathError },
    UpdateSelectorsEmpty { path: String },
    UpdateSelectorInvalid { value: String, reason: DotPathError },
    DuplicateUpdatePath { path: String },
    OverridePathInvalid { value: String, reason: RepoPathError },
    OverrideWithoutTarget { path: String },
    OverrideFormatInvalid { value: String },
    DuplicateOverridePath { path: String },
    EmptyBranchPattern,
    BranchPatternInvalid { reason: BranchPatternError },
    TemplatePathInvalid { value: String, reason: RepoPathError },
    EmptyCommitAuthorName,
    EmptyCommitAuthorEmail,
    ChangelogPathInvalid { value: String, reason: RepoPathError },
}

/// Mathematical view of `ConfigError`.
pub enum CfgErrV {
    UpdatePathInvalid(Seq<char>, RepoPathError),
    UpdateSelectorsEmpty(Seq<char>),
    UpdateSelectorInvalid(Seq<char>, DotPathError),
    DuplicateUpdatePath(Seq<char>),
    OverridePathInvalid(Seq<char>, RepoPathError),
    OverrideWithoutTarget(Seq<char>),
    OverrideFormatInvalid(Seq<char>),
    DuplicateOverridePath(Seq<char>),
    EmptyBranchPattern,
    BranchPatternInvalid(BranchPatternError),
    TemplatePathInvalid(Seq<char>, RepoPathError),
    EmptyCommitAuthorName,
    EmptyCommitAuthorEmail,
    ChangelogPathInvalid(Seq<char>, RepoPathError),
}

impl View for ConfigError {
    type V = CfgErrV;

    open spec fn view(&self) -> CfgErrV {
        match self {
            ConfigError::UpdatePathInvalid { value, reason } => CfgErrV::UpdatePathInvalid(
                value@,
                *reason,
            ),
            ConfigError::UpdateSelectorsEmpty { path } => CfgErrV::UpdateSelectorsEmpty(path@),
            ConfigError::UpdateSelectorInvalid { value, reason } => CfgErrV::UpdateSelectorInvalid(
                value@,
                *reason,
            ),
            ConfigError::DuplicateUpdatePath { path } => CfgErrV::DuplicateUpdatePath(path@),
            ConfigError::OverridePathInvalid { value, reason } => CfgErrV::OverridePathInvalid(
                value@,
                *reason,
            ),
            ConfigError::OverrideWithoutTarget { path } => CfgErrV::OverrideWithoutTarget(path@),
            ConfigError::OverrideFormatInvalid { value } => CfgErrV::OverrideFormatInvalid(value@),
            ConfigError::DuplicateOverridePath { path } => CfgErrV::DuplicateOverridePath(path@),
            ConfigError::EmptyBranchPattern => CfgErrV::EmptyBranchPattern,
            ConfigError::BranchPatternInvalid { reason } => CfgErrV::BranchPatternInvalid(*reason),
            ConfigError::TemplatePathInvalid { value, reason } => CfgErrV::TemplatePathInvalid(
                value@,
                *reason,
            ),
            ConfigError::EmptyCommitAuthorName => CfgErrV::EmptyCommitAuthorName,
            ConfigError::EmptyCommitAuthorEmail => CfgErrV::EmptyCommitAuthorEmail,
            ConfigError::ChangelogPathInvalid { value, reason } => CfgErrV::ChangelogPathInvalid(
                value@,
                *reason,
            ),
        }
    }
}

/// `acc` with `(key, val)` inserted at its ordered position, or nothing
/// when the key is already present.
pub open spec fn insert_unique<V>(acc: Seq<(Seq<char>, V)>, key: Seq<char>, val: V) -> Option<
    Seq<(Seq<char>, V)>,
>
    decreases acc.len(),
{
    if acc.len() == 0 {
        Some(seq![(key, val)])
    } else if chars_lt(key, acc[0].0) {
        Some(seq![(key, val)] + acc)
    } else if key == acc[0].0 {
        None
    } else {
        match insert_unique(acc.subrange(1, acc.len() as int), key, val) {
            None => None,
            Some(rest) => Some(seq![acc[0]] + rest),
        }
    }
}

/// Whether the association list has an entry with this key.
pub open spec fn assoc_has<V>(acc: Seq<(Seq<char>, V)>, key: Seq<char>) -> bool {
    exists|i: int| 0 <= i < acc.len() && acc[i].0 == key
}

/// The deep view of the update-target list.
pub open spec fn upd_view(v: Seq<(String, Vec<String>)>) -> Seq<(Seq<char>, Seq<Seq<char>>)> {
    v.map_values(|e: (String, Vec<String>)| (e.0@, e.1@.map_values(|s: String| s@)))
}

/// The view of the override list.
pub open spec fn ovr_view(v: Seq<(String, VersionFileFormat)>) -> Seq<
    (Seq<char>, VersionFileFormat),
> {
    v.map_values(|e: (String, VersionFileFormat)| (e.0@, e.1))
}

/// Inserts an update target into the path-sorted list; `false` and no
/// change when the path is already present.
fn insert_update_exec(acc: &mut Vec<(String, Vec<String>)>, key: String, val: Vec<String>) -> (r:
    bool)
    ensures
        ({
            let m = insert_unique(upd_view(old(acc)@), key@, val@.map_values(|s: String| s@));
            match m {
                Some(acc2) => r && upd_view(final(acc)@) == acc2,
                None => !r && final(acc)@ == old(acc)@,
            }
        }),
{
    let ghost s0 = upd_view(acc@);
    let ghost keyv = key@;
    let ghost valv = val@.map_values(|s: String| s@);
    let mut idx: usize = 0;
    proof {
        assert(s0.subrange(0, 0) =~= Seq::<(Seq<char>, Seq<Seq<char>>)>::empty());
        assert(s0.subrange(0, s0.len() as int) =~= s0);
    }
    while idx < acc.len() && str_lt(acc[idx].0.as_str(), key.as_str())
        invariant
            0 <= idx <= acc@.len(),
            keyv == key@,
            upd_view(acc@) == s0,
            forall|k: int| 0 <= k < idx ==> chars_lt(#[trigger] s0[k].0, keyv),
        decreases acc@.len() - idx,
    {
        proof {
            assert(s0[idx as int].0 == acc@[idx as int].0@);
        }
        idx = idx + 1;
    }
    let ghost tail = s0.subrange(idx as int, s0.len() as int);
    proof {
        lemma_insert_unique_skip(s0, keyv, valv, idx as int);
        if idx < acc@.len() {
            assert(s0[idx as int].0 == acc@[idx as int].0@);
        }
    }
    if idx < acc.len() {
        if str_eq(acc[idx].0.as_str(), key.as_str()) {
            proof {
                assert(tail[0].0 == keyv);
                assert(insert_unique(tail, keyv, valv) is None);
            }
            return false;
        }
        proof {
            assert(tail[0].0 != keyv);
            assert(!chars_lt(tail[0].0, keyv));
            lemma_chars_lt_total(keyv, tail[0].0);
            assert(insert_unique(tail, keyv, valv) == Some(seq![(keyv, valv)] + tail));
        }
        acc.insert(idx, (key, val));
        proof {
            assert(upd_view(acc@) =~= s0.subrange(0, idx as int) + (seq![(keyv, valv)] + tail));
        }
        return true;
    }
    proof {
        assert(tail.len() == 0);
        assert(tail =~= Seq::<(Seq<char>, Seq<Seq<char>>)>::empty());
        assert(insert_unique(tail, keyv, valv) == Some(seq![(keyv, valv)]));
    }
    acc.push((key, val));
    proof {
        assert(upd_view(acc@) =~= s0.subrange(0, idx as int) + seq![(keyv, valv)]);
        assert(s0.subrange(0, idx as int) =~= s0);
    }
    true
}

/// Inserts a format override into the path-sorted list; `false` and no
/// change when the path is already present.
fn insert_override_exec(
    acc: &mut Vec<(String, VersionFileFormat)>,
    key: String,
    val: VersionFileFormat,
) -> (r: bool)
    ensures
        ({
            let m = insert_unique(ovr_view(old(acc)@), key@, val);
            match m {
                Some(acc2) => r && ovr_view(final(acc)@) == acc2,
                None => !r && final(acc)@ == old(acc)@,
            }
        }),
{
    let ghost s0 = ovr_view(acc@);
    let ghost keyv = key@;
    let mut idx: usize = 0;
    proof {
        assert(s0.subrange(0, 0) =~= Seq::<(Seq<char>, VersionFileFormat)>::empty());
        assert(s0.subrange(0, s0.len() as int) =~= s0);
    }
    while idx < acc.len() && str_lt(acc[idx].0.as_str(), key.as_str())
        invariant
            0 <= idx <= acc@.len(),
            keyv == key@,
            ovr_view(acc@) == s0,
            forall|k: int| 0 <= k < idx ==> chars_lt(#[trigger] s0[k].0, keyv),
        decreases acc@.len() - idx,
    {
        proof {
            assert(s0[idx as int].0 == acc@[idx as int].0@);
        }
        idx = idx + 1;
    }
    let ghost tail = s0.subrange(idx as int, s0.len() as int);
    proof {
        lemma_insert_unique_skip(s0, keyv, val, idx as int);
        if idx < acc@.len() {
            assert(s0[idx as int].0 == acc@[idx as int].0@);
        }
    }
    if idx < acc.len() {
        if str_eq(acc[idx].0.as_str(), key.as_str()) {
            proof {
                assert(tail[0].0 == keyv);
                assert(insert_unique(tail, keyv, val) is None);
            }
            return false;
        }
        proof {
            assert(tail[0].0 != keyv);
            assert(!chars_lt(tail[0].0, keyv));
            lemma_chars_lt_total(keyv, tail[0].0);
            assert(insert_unique(tail, keyv, val) == Some(seq![(keyv, val)] + tail));
        }
        acc.insert(idx, (key, val));
        proof {
            assert(ovr_view(acc@) =~= s0.subrange(0, idx as int) + (seq![(keyv, val)] + tail));
        }
        return true;
    }
    proof {
        assert(tail.len() == 0);
        assert(tail =~= Seq::<(Seq<char>, VersionFileFormat)>::empty());
        assert(insert_unique(tail, keyv, val) == Some(seq![(keyv, val)]));
    }
    acc.push((key, val));
    proof {
        assert(ovr_view(acc@) =~= s0.subrange(0, idx as int) + seq![(keyv, val)]);
        assert(s0.subrange(0, idx as int) =~= s0);
    }
    true
}

/// Inserting behind `i` strictly-smaller keys walks past them.
proof fn lemma_insert_unique_skip<V>(s: Seq<(Seq<char>, V)>, key: Seq<char>, val: V, i: int)
    requires
        0 <= i <= s.len(),
        forall|k: int| 0 <= k < i ==> chars_lt(#[trigger] s[k].0, key),
    ensures
        insert_unique(s, key, val) == (match insert_unique(
            s.subrange(i, s.len() as int),
            key,
            val,
        ) {
            None => None::<Seq<(Seq<char>, V)>>,
            Some(rest) => Some(s.subrange(0, i) + rest),
        }),
    decreases i,
{
    if i == 0 {
        assert(s.subrange(0, s.len() as int) =~= s);
        assert(s.subrange(0, 0) =~= Seq::<(Seq<char>, V)>::empty());
        match insert_unique(s, key, val) {
            None => {},
            Some(rest) => {
                assert(s.subrange(0, 0) + rest =~= rest);
            },
        }
    } else {
        assert(chars_lt(s[0].0, key));
        lemma_chars_lt_asym(s[0].0, key);
        let t = s.subrange(1, s.len() as int);
        assert(forall|k: int| 0 <= k < i - 1 ==> chars_lt(#[trigger] t[k].0, key));
        lemma_insert_unique_skip(t, key, val, i - 1);
        assert(t.subrange(i - 1, t.len() as int) =~= s.subrange(i, s.len() as int));
        assert(t.subrange(0, i - 1) =~= s.subrange(1, i));
        match insert_unique(s.subrange(i, s.len() as int), key, val) {
            None => {},
            Some(rest) => {
                assert(seq![s[0]] + (s.subrange(1, i) + rest) =~= s.subrange(0, i) + rest);
            },
        }
    }
}

/// Model of validating the configured update targets, in the given order:
/// each path normalized, each selector list non-empty and normalized, the
/// result sorted by path with duplicates rejected.
pub open spec fn spec_build_updates(
    entries: Seq<(String, Vec<String>)>,
    k: int,
    acc: Seq<(Seq<char>, Seq<Seq<char>>)>,
) -> Result<Seq<(Seq<char>, Seq<Seq<char>>)>, CfgErrV>
    decreases entries.len() - k,
{
    if k < 0 || k >= entries.len() {
        Ok(acc)
    } else {
        let raw_path = entries[k].0@;
        let keys = entries[k].1@;
        match spec_normalize_repo_relative_path(raw_path) {
            Err(e) => Err(CfgErrV::UpdatePathInvalid(raw_path, e)),
            Ok(np) => if keys.len() == 0 {
                Err(CfgErrV::UpdateSelectorsEmpty(np))
            } else {
                match spec_norm_keys(keys, 0) {
                    Err(p) => Err(CfgErrV::UpdateSelectorInvalid(p.0, p.1)),
                    Ok(sels) => match insert_unique(acc, np, sels) {
                        None => Err(CfgErrV::DuplicateUpdatePath(np)),
                        Some(acc2) => spec_build_updates(entries, k + 1, acc2),
                    },
                }
            },
        }
    }
}

/// Model of validating one selector list.
pub open spec fn spec_norm_keys(keys: Seq<String>, j: int) -> Result<
    Seq<Seq<char>>,
    (Seq<char>, DotPathError),
>
    decreases keys.len() - j,
{
    if j < 0 || j >= keys.len() {
        Ok(Seq::empty())
    } else {
        match spec_normalize_dot_path(keys[j]@) {
            Err(e) => Err((keys[j]@, e)),
            Ok(np) => match spec_norm_keys(keys, j + 1) {
                Err(p) => Err(p),
                Ok(rest) => Ok(seq![np] + rest),
            },
        }
    }
}

/// What a format override string denotes.
pub open spec fn spec_format_of(value: Seq<char>) -> Option<VersionFileFormat> {
    let t = trim_spec(value);
    if eq_ignore_ascii_case(t, "json"@) {
        Some(VersionFileFormat::Json)
    } else if eq_ignore_ascii_case(t, "toml"@) {
        Some(VersionFileFormat::Toml)
    } else {
        None
    }
}

/// Model of validating the configured format overrides: each path must be
/// normalized, name a configured update target, carry a known format, and
/// occur once.
pub open spec fn spec_build_overrides(
    entries: Seq<(String, String)>,
    k: int,
    updates: Seq<(Seq<char>, Seq<Seq<char>>)>,
    acc: Seq<(Seq<char>, VersionFileFormat)>,
) -> Result<Seq<(Seq<char>, VersionFileFormat)>, CfgErrV>
    decreases entries.len() - k,
{
    if k < 0 || k >= entries.len() {
        Ok(acc)
    } else {
        let raw_path = entries[k].0@;
        match spec_normalize_repo_relative_path(raw_path) {
            Err(e) => Err(CfgErrV::OverridePathInvalid(raw_path, e)),
            Ok(np) => if !assoc_has(updates, np) {
                Err(CfgErrV::OverrideWithoutTarget(np))
            } else {
                match spec_format_of(entries[k].1@) {
                    None => Err(CfgErrV::OverrideFormatInvalid(entries[k].1@)),
                    Some(f) => match insert_unique(acc, np, f) {
                        None => Err(CfgErrV::DuplicateOverridePath(np)),
                        Some(acc2) => spec_build_overrides(entries, k + 1, updates, acc2),
                    },
                }
            },
        }
    }
}

/// The first configuration error of the scalar settings after the targets
/// and overrides: template path, author name and email, changelog path, in
/// that order.
pub open spec fn cfg_err_template(raw: RawReleasePrConfig) -> Option<CfgErrV> {
    match raw.pr_template_file {
        Some(p) => match spec_normalize_repo_relative_path(p@) {
            Err(reason) => Some(CfgErrV::TemplatePathInvalid(p@, reason)),
            Ok(_) => cfg_err_author(raw),
        },
        None => cfg_err_author(raw),
    }
}

/// The first configuration error among author name, author email and the
/// changelog path.
pub open spec fn cfg_err_author(raw: RawReleasePrConfig) -> Option<CfgErrV> {
    match raw.commit_author_name {
        Some(n) => if trim_spec(n@).len() == 0 {
            Some(CfgErrV::EmptyCommitAuthorName)
        } else {
            cfg_err_email(raw)
        },
        None => cfg_err_email(raw),
    }
}

/// The first configuration error among author email and the changelog path.
pub open spec fn cfg_err_email(raw: RawReleasePrConfig) -> Option<CfgErrV> {
    match raw.commit_author_email {
        Some(n) => if trim_spec(n@).len() == 0 {
            Some(CfgErrV::EmptyCommitAuthorEmail)
        } else {
            cfg_err_changelog(raw)
        },
        None => cfg_err_changelog(raw),
    }
}

/// The configuration error of the changelog path, if any.
pub open spec fn cfg_err_changelog(raw: RawReleasePrConfig) -> Option<CfgErrV> {
    match raw.changelog_output_file {
        Some(p) => match spec_normalize_repo_relative_path(p@) {
            Err(reason) => Some(CfgErrV::ChangelogPathInvalid(p@, reason)),
            Ok(_) => None,
        },
        None => None,
    }
}

/// The first error the release settings are rejected with, in processing
/// order: update targets, format overrides, branch pattern, then the scalar
/// settings; or nothing when every part validates.
pub open spec fn spec_config_err(raw: RawReleasePrConfig) -> Option<CfgErrV> {
    match spec_build_updates(raw.version_updates@, 0, Seq::empty()) {
        Err(e) => Some(e),
        Ok(us) => match spec_build_overrides(raw.format_overrides@, 0, us, Seq::empty()) {
            Err(e) => Some(e),
            Ok(_) => match raw.release_branch_pattern {
                Some(p) => {
                    let t = trim_spec(p@);
                    if t.len() == 0 {
                        Some(CfgErrV::EmptyBranchPattern)
                    } else {
                        match spec_check_branch_pattern(t) {
                            Err(reason) => Some(CfgErrV::BranchPatternInvalid(reason)),
                            Ok(_) => cfg_err_template(raw),
                        }
                    }
                },
                None => cfg_err_template(raw),
            },
        },
    }
}

/// Whether an update target with this path is configured.
fn updates_contain(updates: &Vec<(String, Vec<String>)>, key: &str) -> (r: bool)
    ensures
        r == assoc_has(updates@.map_values(|e: (String, Vec<String>)| (e.0@, e.1@)), key@),
{
    let ghost uv = updates@.map_values(|e: (String, Vec<String>)| (e.0@, e.1@));
    let mut i: usize = 0;
    while i < updates.len()
        invariant
            0 <= i <= updates@.len(),
            uv == updates@.map_values(|e: (String, Vec<String>)| (e.0@, e.1@)),
            forall|k: int| 0 <= k < i ==> #[trigger] uv[k].0 != key@,
        decreases updates@.len() - i,
    {
        if str_eq(updates[i].0.as_str(), key) {
            proof {
                assert(uv[i as int].0 == key@);
            }
            return true;
        }
        proof {
            assert(uv[i as int].0 == updates@[i as int].0@);
        }
        i = i + 1;
    }
    false
}

/// Validates the raw release settings: normalized, sorted, deduplicated
/// update targets and overrides, a valid branch pattern, and the defaults
/// filled in for everything absent.
pub fn resolve_release_pr_config(raw: &RawReleasePrConfig) -> (r: Result<
    ReleasePrConfig,
    ConfigError,
>)
    ensures
        ({
            let updates = spec_build_updates(raw.version_updates@, 0, Seq::empty());
            match r {
                Ok(c) => {
                    &&& updates matches Ok(us)
                    &&& upd_view(c.version_updates@) == us
                    &&& spec_build_overrides(raw.format_overrides@, 0, us, Seq::empty())
                        matches Ok(os)
                    &&& ovr_view(c.format_overrides@) == os
                    &&& (match raw.release_branch_pattern {
                        Some(p) => c.release_branch_pattern@ == trim_spec(p@) && trim_spec(
                            p@,
                        ).len() > 0 && spec_check_branch_pattern(trim_spec(p@)) is Ok,
                        None => c.release_branch_pattern@ == DEFAULT_RELEASE_BRANCH_PATTERN@,
                    })
                    &&& (match raw.pr_template_file {
                    Some(p) => c.pr_template_file matches Some(t) && spec_normalize_repo_relative_path(
                        p@,
                    ) == Ok::<Seq<char>, RepoPathError>(t@),
                        None => c.pr_template_file is None,
                    })
                    &&& (match raw.commit_author_name {
                        Some(n) => c.commit_author.name@ == trim_spec(n@) && trim_spec(n@).len()
                            > 0,
                        None => c.commit_author.name@ == DEFAULT_COMMIT_AUTHOR_NAME@,
                    })
                    &&& (match raw.commit_author_email {
                        Some(n) => c.commit_author.email@ == trim_spec(n@) && trim_spec(n@).len()
                            > 0,
                        None => c.commit_author.email@ == DEFAULT_COMMIT_AUTHOR_EMAIL@,
                    })
                    &&& c.changelog.enabled == (match raw.changelog_enabled {
                        Some(b) => b,
                        None => true,
                    })
                    &&& (match raw.changelog_output_file {
                        Some(p) => spec_normalize_repo_relative_path(p@) == Ok::<
                            Seq<char>,
                            RepoPathError,
                        >(c.changelog.output_file@),
                        None => c.changelog.output_file@ == DEFAULT_CHANGELOG_OUTPUT_FILE@,
                    })
                    &&& spec_config_err(*raw) is None
                },
                Err(e) => spec_config_err(*raw) == Some(e@),
            }
        }),
{
    let mut version_updates: Vec<(String, Vec<String>)> = Vec::new();
    let mut k: usize = 0;
    proof {
        assert(upd_view(version_updates@) =~= Seq::<(Seq<char>, Seq<Seq<char>>)>::empty());
    }
    while k < raw.version_updates.len()
        invariant
            0 <= k <= raw.version_updates@.len(),
            spec_build_updates(raw.version_updates@, k as int, upd_view(version_updates@))
                == spec_build_updates(raw.version_updates@, 0, Seq::empty()),
        decreases raw.version_updates@.len() - k,
    {
        let entry = &raw.version_updates[k];
        let np = match normalize_repo_relative_path(entry.0.as_str()) {
            Err(e) => {
                return Err(ConfigError::UpdatePathInvalid { value: entry.0.clone(), reason: e });
            },
            Ok(p) => p,
        };
        if entry.1.len() == 0 {
            return Err(ConfigError::UpdateSelectorsEmpty { path: np });
        }
        let mut sels: Vec<String> = Vec::new();
        let mut j: usize = 0;
        proof {
            assert(sels@.map_values(|s: String| s@) =~= Seq::<Seq<char>>::empty());
        }
        while j < entry.1.len()
            invariant
                0 <= j <= entry.1@.len(),
                0 <= k < raw.version_updates@.len(),
                entry == raw.version_updates@[k as int],
                spec_normalize_repo_relative_path(entry.0@) == Ok::<Seq<char>, RepoPathError>(np@),
                entry.1@.len() != 0,
                spec_build_updates(raw.version_updates@, k as int, upd_view(version_updates@))
                    == spec_build_updates(raw.version_updates@, 0, Seq::empty()),
                ({
                    let full = spec_norm_keys(entry.1@, 0);
                    match spec_norm_keys(entry.1@, j as int) {
                        Ok(rest) => full == Ok::<Seq<Seq<char>>, (Seq<char>, DotPathError)>(
                            sels@.map_values(|s: String| s@) + rest,
                        ),
                        Err(p) => full == Err::<Seq<Seq<char>>, (Seq<char>, DotPathError)>(p),
                    }
                }),
            decreases entry.1@.len() - j,
        {
            let ghost sels0 = sels@.map_values(|s: String| s@);
            match normalize_dot_path(entry.1[j].as_str()) {
                Err(e) => {
                    return Err(
                        ConfigError::UpdateSelectorInvalid {
                            value: entry.1[j].clone(),
                            reason: e,
                        },
                    );
                },
                Ok(s) => {
                    let ghost sg = s@;
                    sels.push(s);
                    proof {
                        assert(sels@.map_values(|s2: String| s2@) =~= sels0 + seq![sg]);
                        match spec_norm_keys(entry.1@, j as int + 1) {
                            Ok(rest) => {
                                assert(sels0 + (seq![sg] + rest) =~= (sels0 + seq![sg]) + rest);
                            },
                            Err(_) => {},
                        }
                    }
                },
            }
            j = j + 1;
        }
        proof {
            assert(sels@.map_values(|s: String| s@) + Seq::<Seq<char>>::empty() =~= sels@
                .map_values(|s: String| s@));
        }
        if !insert_update_exec(&mut version_updates, np.clone(), sels) {
            return Err(ConfigError::DuplicateUpdatePath { path: np });
        }
        k = k + 1;
    }
    let ghost updates_v = upd_view(version_updates@);

    let mut format_overrides: Vec<(String, VersionFileFormat)> = Vec::new();
    let mut k2: usize = 0;
    proof {
        assert(ovr_view(format_overrides@) =~= Seq::<(Seq<char>, VersionFileFormat)>::empty());
    }
    while k2 < raw.format_overrides.len()
        invariant
            0 <= k2 <= raw.format_overrides@.len(),
            updates_v == upd_view(version_updates@),
            spec_build_updates(raw.version_updates@, 0, Seq::empty()) == Ok::<
                Seq<(Seq<char>, Seq<Seq<char>>)>,
                CfgErrV,
            >(updates_v),
            spec_build_overrides(
                raw.format_overrides@,
                k2 as int,
                updates_v,
                ovr_view(format_overrides@),
            ) == spec_build_overrides(raw.format_overrides@, 0, updates_v, Seq::empty()),
        decreases raw.format_overrides@.len() - k2,
    {
        let entry = &raw.format_overrides[k2];
        let np = match normalize_repo_relative_path(entry.0.as_str()) {
            Err(e) => {
                return Err(ConfigError::OverridePathInvalid { value: entry.0.clone(), reason: e });
            },
            Ok(p) => p,
        };
        if !updates_contain(&version_updates, np.as_str()) {
            proof {
                lemma_assoc_has_strip(version_updates@, np@);
            }
            return Err(ConfigError::OverrideWithoutTarget { path: np });
        }
        proof {
            lemma_assoc_has_strip(version_updates@, np@);
        }
        let format = match parse_format(entry.1.as_str()) {
            None => {
                return Err(ConfigError::OverrideFormatInvalid { value: entry.1.clone() });
            },
            Some(f) => f,
        };
        proof {
            reveal_strlit("json");
            reveal_strlit("toml");
            let t = trim_spec(entry.1@);
            if eq_ignore_ascii_case(t, "json"@) && eq_ignore_ascii_case(t, "toml"@) {
                assert(crate::textutil::lower_code(t[0]) == crate::textutil::lower_code(
                    "json"@[0],
                ));
                assert(crate::textutil::lower_code(t[0]) == crate::textutil::lower_code(
                    "toml"@[0],
                ));
                assert(false);
            }
            assert(spec_format_of(entry.1@) == Some(format));
        }
        if !insert_override_exec(&mut format_overrides, np.clone(), format) {
            return Err(ConfigError::DuplicateOverridePath { path: np });
        }
        k2 = k2 + 1;
    }

    let release_branch_pattern = match &raw.release_branch_pattern {
        Some(p) => {
            let t = trim_str(p.as_str());
            if t.unicode_len() == 0 {
                return Err(ConfigError::EmptyBranchPattern);
            }
            match validate_branch_pattern(t) {
                Err(e) => {
                    return Err(ConfigError::BranchPatternInvalid { reason: e });
                },
                Ok(_) => t.to_owned(),
            }
        },
        None => DEFAULT_RELEASE_BRANCH_PATTERN.to_owned(),
    };

    let pr_template_file = match &raw.pr_template_file {
        Some(p) => {
            match normalize_repo_relative_path(p.as_str()) {
                Err(e) => {
                    return Err(ConfigError::TemplatePathInvalid { value: p.clone(), reason: e });
                },
                Ok(t) => Some(t),
            }
        },
        None => None,
    };

    let name = match &raw.commit_author_name {
        Some(n) => {
            let t = trim_str(n.as_str());
            if t.unicode_len() == 0 {
                return Err(ConfigError::EmptyCommitAuthorName);
            }
            t.to_owned()
        },
        None => DEFAULT_COMMIT_AUTHOR_NAME.to_owned(),
    };
    let email = match &raw.commit_author_email {
        Some(n) => {
            let t = trim_str(n.as_str());
            if t.unicode_len() == 0 {
                return Err(ConfigError::EmptyCommitAuthorEmail);
            }
            t.to_owned()
        },
        None => DEFAULT_COMMIT_AUTHOR_EMAIL.to_owned(),
    };
    let changelog_enabled = match raw.changelog_enabled {
        Some(b) => b,
        None => true,
    };
    let changelog_output_file = match &raw.changelog_output_file {
        Some(p) => {
            match normalize_repo_relative_path(p.as_str()) {
                Err(e) => {
                    return Err(ConfigError::ChangelogPathInvalid { value: p.clone(), reason: e });
                },
                Ok(t) => t,
            }
        },
        None => DEFAULT_CHANGELOG_OUTPUT_FILE.to_owned(),
    };

    Ok(
        ReleasePrConfig {
            version_updates,
            format_overrides,
            release_branch_pattern,
            pr_template_file,
            commit_author: CommitAuthorConfig { name, email },
            changelog: ChangelogConfig {
                enabled: changelog_enabled,
                output_file: changelog_output_file,
            },
        },
    )
}

/// The two entry views agree on which keys are present.
proof fn lemma_assoc_has_strip(updates: Seq<(String, Vec<String>)>, key: Seq<char>)
    ensures
        assoc_has(updates.map_values(|e: (String, Vec<String>)| (e.0@, e.1@)), key) == assoc_has(
            updates.map_values(
                |e: (String, Vec<String>)| (e.0@, e.1@.map_values(|s: String| s@)),
            ),
            key,
        ),
{
    let a = updates.map_values(|e: (String, Vec<String>)| (e.0@, e.1@));
    let b = updates.map_values(|e: (String, Vec<String>)| (e.0@, e.1@.map_values(|s: String| s@)));
    assert(forall|i: int| 0 <= i < updates.len() ==> #[trigger] a[i].0 == b[i].0);
    if assoc_has(a, key) {
        let i = choose|i: int| 0 <= i < a.len() && a[i].0 == key;
        assert(b[i].0 == key);
    }
    if assoc_has(b, key) {
        let i = choose|i: int| 0 <= i < b.len() && b[i].0 == key;
        assert(a[i].0 == key);
    }
}

} // verus!
