//! Error kinds of the ledger.
//!
//! `Error` covers the business-rule rejections: each is local to one
//! transaction, and the caller goes on with the stream. `ParseError` covers
//! the ingress failures: a row that cannot be read at all, which ends the run.

use vstd::prelude::*;

verus! {

/// A business-rule rejection. The engine returns the kind and leaves the
/// ledger unchanged; the stream of transactions continues.
#[derive(Clone, Copy, Debug, PartialEq, Eq, Structural)]
pub enum Error {
    AccountLocked,
    AccountNotFound,
    AmountMustBePositive,
    DuplicateTransaction,
    InsufficientFunds,
    InvalidTransaction,
    TransactionAlreadyDisputed,
    TransactionNotDisputed,
    TransactionNotFound,
    TransactionClientMismatch,
}

/// An ingress failure: the row cannot be turned into a transaction record.
/// Unlike a business-rule rejection, this is fatal to the whole run.
#[derive(Clone, Copy, Debug, PartialEq, Eq, Structural)]
pub enum ParseError {
    /// The row does not have exactly the four expected fields.
    WrongFieldCount,
    /// The type tag is none of deposit, withdrawal, dispute, resolve, chargeback.
    BadTransactionType,
    /// The client id is not a number between 0 and 65535.
    BadClientId,
    /// The transaction id is not a number between 0 and 4294967295.
    BadTransactionId,
    /// The amount is not a decimal number that the ledger can hold.
    BadAmount,
}

} // verus!
