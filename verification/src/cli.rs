//! The command-line surface as plain data, with its validation rule.
//!
//! Argument parsing itself happens at the boundary; what arrives here is
//! the parsed command, and the one rule the library owns: a `create`
//! without files is refused before any work.

use vstd::prelude::*;
use vstd::string::StringExecFns;

verus! {

/// The subcommands, with paths as plain strings.
#[derive(Debug, Clone, PartialEq)]
pub enum Commands {
    /// Create a new archive from files and directories.
    Create { archive: String, files: Vec<String> },
    /// Extract an archive into a directory.
    Extract { archive: String, output: String },
    /// List the contents of an archive.
    List { archive: String },
    /// Validate the integrity of an archive.
    Validate { archive: String },
    /// Show statistics about an archive.
    Stats { archive: String },
    /// Calculate the SHA-256 hash of a file.
    Hash { file: String },
}

/// One parsed invocation.
#[derive(Debug, Clone, PartialEq)]
pub struct Cli {
    /// Emit machine-readable JSON to stdout.
    pub json: bool,
    /// Emit progress updates.
    pub progress: bool,
    pub command: Commands,
}

impl Cli {
    /// A `create` that names no files to add.
    pub open spec fn create_without_files(&self) -> bool {
        self.command matches Commands::Create { files, .. } && files@.len() == 0
    }

    /// The one input rule: a `create` must name at least one file.
    pub fn validate(&self) -> (r: Result<(), String>)
        ensures
            r is Ok <==> !self.create_without_files(),
            r is Err ==> r->Err_0@ == "No files specified to add to archive"@,
    {
        match &self.command {
            Commands::Create { archive: _, files } => {
                if files.len() == 0 {
                    Err(String::from_str("No files specified to add to archive"))
                } else {
                    Ok(())
                }
            },
            _ => Ok(()),
        }
    }
}

} // verus!
