//! The decisions of workflow scaffolding: which file action to take for an
//! existing workflow, which branch the generated triggers use, and the
//! command line the workflow runs. The surrounding binary performs the
//! file reads and writes and asks the interactive questions.

use vstd::prelude::*;

use crate::tag_template::spec_shell_escape_single;
use crate::textutil::str_eq;
use crate::workflow::spec_is_managed;

verus! {

/// The options the init command runs with.
#[derive(Debug, Clone, PartialEq, Eq)]
pub struct InitOptions {
    pub config_path: Option<String>,
    pub yes: bool,
    pub dry_run: bool,
}

/// The interactive questions init may ask; the binary implements this with
/// real prompts, tests with scripted answers. The error text names a prompt
/// that could not be read.
pub trait Interactor {
    fn confirm_overwrite(&mut self, workflow_path: &str) -> Result<bool, String>;

    fn choose_branch_for_mismatch(
        &mut self,
        configured_branch: &str,
        repo_default_branch: &str,
    ) -> Result<String, String>;
}

/// What to do with the workflow file.
#[derive(Debug, Clone, PartialEq, Eq)]
pub enum FileAction {
    Create,
    Overwrite,
    SkipUpToDate,
    SkipDeclined,
    RefuseUnmanaged,
}

/// The action for a workflow file: absent files are created; unmanaged
/// files are never touched; up-to-date files are skipped; otherwise the
/// overwrite happens when forced or confirmed.
pub fn plan_file_action(
    existing: Option<&String>,
    rendered: &str,
    yes: bool,
    confirmed: bool,
) -> (r: FileAction)
    ensures
        ({
            match existing {
                None => r is Create,
                Some(current) => if !spec_is_managed(current@) {
                    r is RefuseUnmanaged
                } else if current@ == rendered@ {
                    r is SkipUpToDate
                } else if yes || confirmed {
                    r is Overwrite
                } else {
                    r is SkipDeclined
                },
            }
        }),
{
    let current = match existing {
        None => {
            return FileAction::Create;
        },
        Some(c) => c,
    };
    if !crate::workflow::is_managed(current.as_str()) {
        return FileAction::RefuseUnmanaged;
    }
    if str_eq(current.as_str(), rendered) {
        return FileAction::SkipUpToDate;
    }
    if yes || confirmed {
        FileAction::Overwrite
    } else {
        FileAction::SkipDeclined
    }
}

/// Which branch the generated triggers use, given the repository's detected
/// default branch and, when the two disagree and prompting is allowed, the
/// branch the user chose.
#[derive(Debug, Clone, PartialEq, Eq)]
pub enum BranchDecision {
    /// Use this branch.
    Use(String),
    /// The branches disagree and `--yes` forbids asking.
    MismatchWithYes,
    /// The chosen branch is neither of the two offered.
    InvalidSelection,
}

/// Resolves the branch for generated triggers: without a detected
/// repository branch, or when both agree, the configured branch stands;
/// on a mismatch, `--yes` fails and otherwise the user's choice must be
/// one of the two.
pub fn resolve_default_branch(
    configured_branch: &str,
    repo_default_branch: Option<&String>,
    yes: bool,
    selected: Option<&String>,
) -> (r: BranchDecision)
    ensures
        ({
            match repo_default_branch {
                None => r matches BranchDecision::Use(b) && b@ == configured_branch@,
                Some(repo) => if repo@ == configured_branch@ {
                    r matches BranchDecision::Use(b) && b@ == configured_branch@
                } else if yes {
                    r is MismatchWithYes
                } else {
                    match selected {
                        Some(s) => if s@ == configured_branch@ || s@ == repo@ {
                            r matches BranchDecision::Use(b) && b@ == s@
                        } else {
                            r is InvalidSelection
                        },
                        None => r is InvalidSelection,
                    }
                },
            }
        }),
{
    let repo = match repo_default_branch {
        None => {
            return BranchDecision::Use(configured_branch.to_owned());
        },
        Some(r) => r,
    };
    if str_eq(repo.as_str(), configured_branch) {
        return BranchDecision::Use(configured_branch.to_owned());
    }
    if yes {
        return BranchDecision::MismatchWithYes;
    }
    match selected {
        Some(s) => {
            if str_eq(s.as_str(), configured_branch) || str_eq(s.as_str(), repo.as_str()) {
                BranchDecision::Use(s.clone())
            } else {
                BranchDecision::InvalidSelection
            }
        },
        None => BranchDecision::InvalidSelection,
    }
}

/// The release-pr command the generated workflow runs: plain when the
/// config is discovered by name, with a quoted `--config` argument when an
/// explicit other path was given.
pub fn build_release_pr_command(explicit_config_file_name: Option<&String>, explicit_config_path:
    Option<&String>) -> (r: String)
    ensures
        ({
            match (explicit_config_file_name, explicit_config_path) {
                (Some(name), Some(path)) => if name@ == "brel.toml"@ || name@ == ".brel.toml"@ {
                    r@ == "brel release-pr"@
                } else {
                    r@ == "brel release-pr --config "@ + spec_shell_escape_single(path@)
                },
                _ => r@ == "brel release-pr"@,
            }
        }),
{
    let (name, path) = match (explicit_config_file_name, explicit_config_path) {
        (Some(n), Some(p)) => (n, p),
        _ => {
            return "brel release-pr".to_owned();
        },
    };
    proof {
        reveal_strlit("brel.toml");
        reveal_strlit(".brel.toml");
    }
    if str_eq(name.as_str(), "brel.toml") || str_eq(name.as_str(), ".brel.toml") {
        return "brel release-pr".to_owned();
    }
    let mut out = "brel release-pr --config ".to_owned();
    let quoted = crate::tag_template::shell_escape_single(path.as_str());
    out.append(quoted.as_str());
    out
}

} // verus!
