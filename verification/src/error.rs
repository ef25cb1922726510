//! Failure categories of the persistence core.
//!
//! Absence of an entry is never an error: reads return `Option`. Codec
//! recovery (unknown headers, pre-header text) is silent by design. What
//! remains is storage failure and migration failure; hook failures are
//! reported by the hook pipeline without ever reaching a caller.

use vstd::prelude::*;

verus! {

/// An error from the storage layer or the migration runner.
#[derive(Debug, Clone)]
pub enum JournalError {
    /// An I/O or query failure in a storage backend.
    Storage { message: String },
    /// A migration body failed to apply. The backend stays at the last
    /// successfully applied version and must be considered unusable until
    /// the failure is resolved.
    Migration { version: u32, message: String },
}

impl JournalError {
    /// A human-readable description of the failure.
    pub fn message(&self) -> (r: &str)
        ensures
            match self {
                JournalError::Storage { message } => r@ == message@,
                JournalError::Migration { message, .. } => r@ == message@,
            },
    {
        match self {
            JournalError::Storage { message } => message.as_str(),
            JournalError::Migration { message, .. } => message.as_str(),
        }
    }
}

} // verus!
