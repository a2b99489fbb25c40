//! Error kinds: storage failures as the backends report them, and the
//! session-level failures built on top of them.

use vstd::prelude::*;

verus! {

/// A failure reported by a storage backend. Acquisition failures (no
/// connection) are distinguished from operation failures.
#[derive(Debug, Clone)]
pub enum DatabaseError {
    /// A connection or other resource could not be acquired.
    GenericAcquire(String),
    /// An insert/upsert failed.
    GenericInsertError(String),
    /// A read failed.
    GenericSelectError(String),
    /// Setup (table creation and the like) failed.
    GenericCreateError(String),
    /// A delete failed.
    GenericDeleteError(String),
    /// The backend declines the operation.
    GenericNotSupportedError(String),
}

impl DatabaseError {
    /// A short description, in place of a display implementation.
    pub fn message(&self) -> (r: &String)
        ensures
            r@ == self.text(),
    {
        match self {
            DatabaseError::GenericAcquire(s) => s,
            DatabaseError::GenericInsertError(s) => s,
            DatabaseError::GenericSelectError(s) => s,
            DatabaseError::GenericCreateError(s) => s,
            DatabaseError::GenericDeleteError(s) => s,
            DatabaseError::GenericNotSupportedError(s) => s,
        }
    }

    /// The text carried by whichever variant this is.
    pub open spec fn text(&self) -> Seq<char> {
        match self {
            DatabaseError::GenericAcquire(s) => s@,
            DatabaseError::GenericInsertError(s) => s@,
            DatabaseError::GenericSelectError(s) => s@,
            DatabaseError::GenericCreateError(s) => s@,
            DatabaseError::GenericDeleteError(s) => s@,
            DatabaseError::GenericNotSupportedError(s) => s@,
        }
    }
}

/// A failure of a session-store operation.
#[derive(Debug, Clone)]
pub enum SessionError {
    /// The storage backend failed; the cause is carried along.
    Database(DatabaseError),
    /// A persisted record could not be reconstructed.
    Decode,
    /// A sealed payload could not be opened with the configured key.
    Decrypt,
    /// A payload could not be sealed with the configured key.
    Encrypt,
    /// Identifier generation gave up after the bounded number of attempts.
    IdGenerationFailed,
    /// The operation needs a record that is not in memory.
    NoSession,
}

} // verus!
