//! A ZIP archiving library with a verified core.
//!
//! The archive engine works on in-memory values: an archive is a byte
//! vector, a file is a name plus its content.  The container codec (the
//! `zip` crate) and the digest primitive (the `sha2` crate) are reached
//! through trusted wrappers; everything around them — entry-name safety,
//! the entropy-driven storage policy, statistics, the application state
//! machine and the operation coordinator — is verified.

pub mod archive;
pub mod bus;
pub mod cli;
pub mod codec;
pub mod digest;
pub mod entropy;
pub mod errors;
pub mod gui;
pub mod operations;
pub mod path_safety;
pub mod progress;
pub mod state;
