//! The error taxonomy of the library.

use vstd::prelude::*;

verus! {

/// Errors reported by the store, the ledger and the approval workflow.
///
/// A decision on an already-terminal solve is not an error: it is reported
/// as an informational outcome by the workflow instead.
#[derive(Clone, Copy, Debug, PartialEq, Eq, Structural)]
pub enum Error {
    /// A referenced solve, challenge, competition or user is absent.
    NotFound,
    /// The request was rejected before any write (duplicate participant,
    /// missing competition reference).
    ConstraintViolation,
    /// The mutation could not be committed (a balance would leave the
    /// representable range); no partial state is left behind.
    StorageFailure,
    /// A stored value does not map to a known variant.
    CorruptRecord,
}

impl Error {
    /// A short human-readable description of the error.
    pub fn describe(&self) -> (r: &'static str)
        ensures
            r@ == (match *self {
                Error::NotFound => "not found"@,
                Error::ConstraintViolation => "constraint violation"@,
                Error::StorageFailure => "storage failure"@,
                Error::CorruptRecord => "corrupt record"@,
            }),
            r@.len() > 0,
    {
        proof {
            reveal_strlit("not found");
            reveal_strlit("constraint violation");
            reveal_strlit("storage failure");
            reveal_strlit("corrupt record");
        }
        match self {
            Error::NotFound => "not found",
            Error::ConstraintViolation => "constraint violation",
            Error::StorageFailure => "storage failure",
            Error::CorruptRecord => "corrupt record",
        }
    }
}

} // verus!
