//! The outcomes that are not a settlement.

use vstd::prelude::*;

verus! {

/// The field of a submitted payload that failed validation.
#[derive(Clone, Copy, Debug, PartialEq, Eq, Structural)]
pub enum ShapeFault {
    /// The kind is neither debit nor credit.
    Kind,
    /// The amount is not positive.
    Amount,
    /// The description is empty or longer than ten characters.
    Description,
}

/// Why a request produced no settlement.
#[derive(Clone, Copy, Debug, PartialEq, Eq, Structural)]
pub enum LedgerError {
    /// The account was never provisioned.
    NotFound,
    /// The transaction would push the balance below the overdraft limit.
    InvariantViolation,
    /// The payload is malformed; it never reached the ledger.
    ShapeInvalid(ShapeFault),
    /// The store failed, or too many conflicting writers got in the way.
    StorageFault,
}

/// The HTTP status that stands for an outcome.
pub open spec fn status_of(outcome: Result<(), LedgerError>) -> u16 {
    match outcome {
        Ok(()) => 200,
        Err(LedgerError::NotFound) => 404,
        Err(LedgerError::InvariantViolation) => 422,
        Err(LedgerError::ShapeInvalid(_)) => 400,
        Err(LedgerError::StorageFault) => 503,
    }
}

impl LedgerError {
    /// The HTTP status under which this error is reported: not found,
    /// unprocessable, bad request, or service unavailable.
    pub fn status(&self) -> (code: u16)
        ensures
            code == status_of(Err(*self)),
    {
        match self {
            LedgerError::NotFound => 404,
            LedgerError::InvariantViolation => 422,
            LedgerError::ShapeInvalid(_) => 400,
            LedgerError::StorageFault => 503,
        }
    }

    /// A short description of the error, for logs and response bodies.
    pub fn message(&self) -> (text: &'static str)
        ensures
            text@ == message_of(*self)@,
    {
        match self {
            LedgerError::NotFound => "account not found",
            LedgerError::InvariantViolation => "overdraft limit exceeded",
            LedgerError::ShapeInvalid(ShapeFault::Kind) => "transaction type invalid",
            LedgerError::ShapeInvalid(ShapeFault::Amount) => "transaction value invalid",
            LedgerError::ShapeInvalid(ShapeFault::Description) => "transaction description invalid",
            LedgerError::StorageFault => "storage unavailable",
        }
    }
}

/// The text that `message` returns for each error.
pub open spec fn message_of(error: LedgerError) -> &'static str {
    match error {
        LedgerError::NotFound => "account not found",
        LedgerError::InvariantViolation => "overdraft limit exceeded",
        LedgerError::ShapeInvalid(ShapeFault::Kind) => "transaction type invalid",
        LedgerError::ShapeInvalid(ShapeFault::Amount) => "transaction value invalid",
        LedgerError::ShapeInvalid(ShapeFault::Description) => "transaction description invalid",
        LedgerError::StorageFault => "storage unavailable",
    }
}

} // verus!
