//! Workflow file placement and recognition: generated workflow files live
//! under the workflows directory, and only files carrying the managed marker
//! on their first line are ever overwritten.

use vstd::prelude::*;

use crate::textutil::{
    contains_char, find_char, find_char_spec, starts_with_spec, str_eq, str_starts_with, trim_spec,
    trim_str,
};

verus! {

/// Why a configured workflow file name was rejected.
#[derive(Debug, Clone, Copy, PartialEq, Eq, Structural)]
pub enum WorkflowPathError {
    Empty,
    NotAFilename,
}

impl WorkflowPathError {
    /// The user-facing message.
    pub fn message(&self) -> (r: &'static str)
        ensures
            self is Empty ==> r@ == "`workflow_file` cannot be empty."@,
            self is NotAFilename ==> r@
                == "`workflow_file` must be a filename only. Example: `release-pr.yml`."@,
    {
        match self {
            WorkflowPathError::Empty => "`workflow_file` cannot be empty.",
            WorkflowPathError::NotAFilename => "`workflow_file` must be a filename only. Example: `release-pr.yml`.",
        }
    }
}

/// Model of `resolve_workflow_path`.
pub open spec fn spec_resolve_workflow_path(wf: Seq<char>) -> Result<Seq<char>, WorkflowPathError> {
    let t = trim_spec(wf);
    if t.len() == 0 {
        Err(WorkflowPathError::Empty)
    } else if contains_char(t, '/') || contains_char(t, '\\') {
        Err(WorkflowPathError::NotAFilename)
    } else {
        Ok(".github/workflows/"@ + t)
    }
}

/// The repository-relative path of a configured workflow file: the file
/// name, which may hold no separator, under the workflows directory.
pub fn resolve_workflow_path(workflow_file: &str) -> (r: Result<String, WorkflowPathError>)
    ensures
        match r {
            Ok(p) => spec_resolve_workflow_path(workflow_file@) == Ok::<
                Seq<char>,
                WorkflowPathError,
            >(p@),
            Err(e) => spec_resolve_workflow_path(workflow_file@) == Err::<
                Seq<char>,
                WorkflowPathError,
            >(e),
        },
{
    let t = trim_str(workflow_file);
    let n = t.unicode_len();
    if n == 0 {
        return Err(WorkflowPathError::Empty);
    }
    let mut i: usize = 0;
    while i < n
        invariant
            0 <= i <= n,
            n == t@.len(),
            n != 0,
            t@ == trim_spec(workflow_file@),
            forall|k: int| 0 <= k < i ==> t@[k] != '/' && t@[k] != '\\',
        decreases n - i,
    {
        let c = t.get_char(i);
        if c == '/' || c == '\\' {
            proof {
                assert(t@[i as int] == c);
                if c == '/' {
                    assert(contains_char(t@, '/'));
                } else {
                    assert(contains_char(t@, '\\'));
                }
            }
            return Err(WorkflowPathError::NotAFilename);
        }
        i = i + 1;
    }
    assert(!contains_char(t@, '/') && !contains_char(t@, '\\'));
    let mut out = ".github/workflows/".to_owned();
    out.append(t);
    Ok(out)
}

/// Model of `is_managed`: the first line, trimmed, is the managed marker.
pub open spec fn spec_is_managed(contents: Seq<char>) -> bool {
    trim_spec(contents.subrange(0, find_char_spec(contents, '\n'))) == "# managed-by: brel"@
}

/// Whether a workflow file is managed by this tool: its first line, after
/// trimming, is exactly the managed marker comment.
pub fn is_managed(contents: &str) -> (r: bool)
    ensures
        r == spec_is_managed(contents@),
{
    let n = contents.unicode_len();
    let e = match find_char(contents, '\n') {
        Some(i) => i,
        None => n,
    };
    let line = contents.substring_char(0, e);
    let t = trim_str(line);
    proof {
        reveal_strlit("# managed-by: brel");
    }
    str_eq(t, "# managed-by: brel")
}

/// Model of `parse_origin_head_output`.
pub open spec fn spec_parse_origin_head(raw: Seq<char>) -> Option<Seq<char>> {
    let t = trim_spec(raw);
    if t.len() == 0 {
        None
    } else if starts_with_spec(t, "origin/"@) {
        Some(t.subrange("origin/"@.len() as int, t.len() as int))
    } else {
        Some(t)
    }
}

/// The default branch named by the text git prints for `origin/HEAD`: the
/// trimmed output with a leading `origin/` removed, or nothing when empty.
pub fn parse_origin_head_output(raw: &str) -> (r: Option<String>)
    ensures
        match r {
            Some(b) => spec_parse_origin_head(raw@) == Some(b@),
            None => spec_parse_origin_head(raw@) is None,
        },
{
    let t = trim_str(raw);
    let n = t.unicode_len();
    if n == 0 {
        return None;
    }
    proof {
        reveal_strlit("origin/");
    }
    if str_starts_with(t, "origin/") {
        let pl: usize = "origin/".unicode_len();
        Some(t.substring_char(pl, n).to_owned())
    } else {
        Some(t.to_owned())
    }
}

} // verus!
