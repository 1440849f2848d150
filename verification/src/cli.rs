//! The command line: the subcommands and the flags common to all of them.
use vstd::prelude::*;

verus! {

/// A parsed command line.
#[derive(Debug)]
pub struct Cli {
    /// The subcommand to run.
    pub command: Commands,
    /// Show actions without executing them.
    pub dry_run: bool,
    /// Enable verbose logging.
    pub verbose: bool,
}

/// The subcommands.
#[derive(Debug)]
pub enum Commands {
    /// Create a new profile from a template.
    Init { name: String },
    /// Import a YAML profile file.
    Create { path: String },
    /// Activate a profile.
    Enter { profile: String, export: bool },
    /// Show the stored profiles.
    List,
    /// Delete a stored profile.
    Remove { profile: String },
    /// Check the system's dependencies.
    Doctor,
}

} // verus!
