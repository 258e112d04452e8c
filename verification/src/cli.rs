//! The command-line surface, as plain data: which operation was requested
//! and with which arguments.  Parsing the actual command line happens in
//! the surrounding program, which hands over values of these types.

use vstd::prelude::*;

verus! {

/// The invocation wrapper: the tool runs as a cargo subcommand.
pub enum CargoCli {
    PatchSource(Cli),
}

/// The parsed command line.
pub struct Cli {
    pub command: Commands,
}

/// The two operations and their arguments.
pub enum Commands {
    /// Apply patches from a source to the target manifest.
    Apply {
        /// Local path to a workspace.
        path: Option<String>,
        /// Git repository URL.
        git: Option<String>,
        /// Git branch to use (only with a git source).
        branch: Option<String>,
        /// Git tag to use (only with a git source).
        tag: Option<String>,
        /// Git revision to use (only with a git source).
        rev: Option<String>,
        /// Pattern to filter crates.
        pattern: Option<String>,
        /// Path of the manifest to modify.
        manifest_path: Option<String>,
    },
    /// Remove patches from the target manifest.
    Remove {
        /// Pattern to filter which patches to remove.
        pattern: Option<String>,
        /// Path of the manifest to modify.
        manifest_path: Option<String>,
    },
}

} // verus!
