//! The error taxonomy shared by the whole library.

use vstd::prelude::*;

verus! {

/// Every failure the library reports falls into one of these kinds.
#[derive(Debug, Clone, Copy, PartialEq, Eq, Structural)]
pub enum ArchiveError {
    /// A caller-supplied value was rejected before any work was done.
    InputValidation,
    /// A top-level input file or directory does not exist.
    NotFound,
    /// An archive entry name would resolve outside the destination.
    PathTraversal,
    /// The container is malformed or an entry failed its integrity check.
    CodecError,
    /// A filesystem read or write failed.
    IoError,
    /// The requested application state change is not a legal transition.
    InvalidTransition,
    /// The operation was cancelled before it finished.
    Cancelled,
    /// An unexpected fault inside a worker.
    Internal,
}

impl ArchiveError {
    /// A human-readable description of the error kind.
    pub fn message(&self) -> (r: String)
        ensures
            r@ == self.message_spec(),
    {
        match self {
            ArchiveError::InputValidation => "Invalid input".to_owned(),
            ArchiveError::NotFound => "File or directory does not exist".to_owned(),
            ArchiveError::PathTraversal => "Entry name escapes the destination directory"
                .to_owned(),
            ArchiveError::CodecError => "Invalid or corrupted archive".to_owned(),
            ArchiveError::IoError => "I/O error".to_owned(),
            ArchiveError::InvalidTransition => "Invalid state transition".to_owned(),
            ArchiveError::Cancelled => "Operation cancelled".to_owned(),
            ArchiveError::Internal => "Internal error occurred".to_owned(),
        }
    }

    pub open spec fn message_spec(&self) -> Seq<char> {
        match self {
            ArchiveError::InputValidation => "Invalid input"@,
            ArchiveError::NotFound => "File or directory does not exist"@,
            ArchiveError::PathTraversal => "Entry name escapes the destination directory"@,
            ArchiveError::CodecError => "Invalid or corrupted archive"@,
            ArchiveError::IoError => "I/O error"@,
            ArchiveError::InvalidTransition => "Invalid state transition"@,
            ArchiveError::Cancelled => "Operation cancelled"@,
            ArchiveError::Internal => "Internal error occurred"@,
        }
    }
}

} // verus!
