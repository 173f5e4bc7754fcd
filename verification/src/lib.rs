//! A small payment ledger: an ordered stream of transactions (deposit,
//! withdrawal, dispute, resolve, chargeback) keyed by client and transaction
//! id is folded into final per-client account balances.
//!
//! Amounts are fixed-point decimals with four fractional digits, held as
//! integer counts of 1/10000. The engine and its two stores are verified
//! against a specification-level state machine; the business invariants
//! (duplicate detection, dispute lifecycle, account locking, the
//! negative-balance permission after a chargeback) are stated as contracts
//! and proved.

mod accounts;
mod amount;
mod engine;
mod error;
mod laws;
mod ledger;
mod record;
mod runner;
mod transactions;

pub use accounts::Account;
pub use accounts::AccountsStore;
pub use amount::format_units;
pub use amount::parse_amount;
pub use engine::Engine;
pub use error::Error;
pub use error::ParseError;
pub use record::AccountRow;
pub use record::Transaction;
pub use record::TransactionType;
pub use record::parse_record;
pub use record::render_output;
pub use record::row_bytes;
pub use runner::run;
pub use transactions::StoredDeposit;
pub use transactions::TransactionsStore;
