//! The command-line surface: the commands and their arguments, as plain
//! data. The outer binary parses its arguments into these values.

use vstd::prelude::*;

verus! {

/// The whole invocation.
#[derive(Debug, Clone, PartialEq, Eq)]
pub struct Cli {
    pub command: Commands,
}

/// The available commands.
#[derive(Debug, Clone, PartialEq, Eq)]
pub enum Commands {
    /// Initialize release workflow scaffolding.
    Init(InitArgs),
    /// Create or update a release PR.
    ReleasePr(ReleasePrArgs),
    /// Compute the next releasable version.
    NextVersion(NextVersionArgs),
}

/// Arguments of the init command.
#[derive(Debug, Clone, PartialEq, Eq)]
pub struct InitArgs {
    /// Path to a config file; defaults to discovery in the current directory.
    pub config: Option<String>,
    /// Run non-interactively and auto-confirm overwrite prompts.
    pub yes: bool,
    /// Show what would change without writing files.
    pub dry_run: bool,
}

/// Arguments of the release-pr command.
#[derive(Debug, Clone, PartialEq, Eq)]
pub struct ReleasePrArgs {
    /// Path to a config file; defaults to discovery in the current directory.
    pub config: Option<String>,
}

/// Arguments of the next-version command.
#[derive(Debug, Clone, PartialEq, Eq)]
pub struct NextVersionArgs {
    /// Path to a config file; defaults to discovery in the current directory.
    pub config: Option<String>,
}

} // verus!
