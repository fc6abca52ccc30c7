//! The errors of the ledger.

use vstd::prelude::*;

verus! {

/// Why a ledger operation was refused.
#[derive(Clone, Copy, Debug, PartialEq, Eq, Structural)]
pub enum LedgerError {
    /// The operation names an entry, import or account that does not exist.
    NotFound,
    /// A write would give two rows the same identifier or the same
    /// sequence number within one scope.
    ConstraintViolation,
    /// The input cannot be accepted as it is: an empty batch, entries of
    /// more than one scope, a sequence number below one, or an amount or
    /// number that leaves the range of the stored integers.
    ValidationFailure,
    /// The persistent store could not carry out the transaction.
    StoreFailure,
}

impl LedgerError {
    /// The stable key under which the error is reported.
    pub fn code(&self) -> (s: &'static str)
        ensures
            s@ == (match *self {
                LedgerError::NotFound => "error.ledger.not_found"@,
                LedgerError::ConstraintViolation => "error.ledger.constraint_violation"@,
                LedgerError::ValidationFailure => "error.ledger.validation_failure"@,
                LedgerError::StoreFailure => "error.ledger.store_failure"@,
            }),
    {
        match self {
            LedgerError::NotFound => "error.ledger.not_found",
            LedgerError::ConstraintViolation => "error.ledger.constraint_violation",
            LedgerError::ValidationFailure => "error.ledger.validation_failure",
            LedgerError::StoreFailure => "error.ledger.store_failure",
        }
    }
}

} // verus!
