//! The commands that a run of the program carries out.

use vstd::prelude::*;

verus! {

/// A parsed command line.
#[derive(Debug)]
pub enum CliArgs {
    /// Remove the files that match `files`.
    RemoveArgs {
        /// Stage contents in the store before removing.
        cache: bool,
        /// Remove directories with their contents.
        recursive: bool,
        /// Directories may be removed.
        directory: bool,
        /// Only show what would be removed.
        dry: bool,
        /// File names or glob patterns.
        files: Vec<String>,
    },
    /// Restore the files named by `inputs`.
    RestoreArgs {
        /// Only show what would be restored.
        dry: bool,
        /// File paths.
        inputs: Vec<String>,
    },
}

impl CliArgs {
    /// The options of a removal command.
    pub fn remove_options(&self) -> (r: Option<crate::workflow::RemoveOptions>)
        ensures
            match self {
                CliArgs::RemoveArgs { cache, recursive, directory, .. } => r == Some(
                    crate::workflow::RemoveOptions {
                        use_cache: *cache,
                        include_dirs: *directory,
                        recursive: *recursive,
                    },
                ),
                CliArgs::RestoreArgs { .. } => r is None,
            },
    {
        match self {
            CliArgs::RemoveArgs { cache, recursive, directory, .. } => Some(
                crate::workflow::RemoveOptions {
                    use_cache: *cache,
                    include_dirs: *directory,
                    recursive: *recursive,
                },
            ),
            CliArgs::RestoreArgs { .. } => None,
        }
    }
}

} // verus!
