//! Reconciles a declared set of symbolic links against what is on disk.
//!
//! The library resolves path tokens (environment variables and references to
//! other apps), classifies each declared link from what the file system shows,
//! and decides when a missing link is to be created. Reading and changing the
//! file system is left to the caller, which reports back what it found.

pub mod path;
pub mod apps;
pub mod resolve;
pub mod link;
pub mod output;
pub mod config;
