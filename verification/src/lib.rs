//! A ledger for a fixed population of client accounts.
//!
//! Debits and credits are settled against an account's balance under an
//! overdraft limit, and every settled transaction is appended to a log from
//! which a bounded recent history can be read back. A transaction either
//! settles, appending its entry and moving the balance as one step, or
//! is refused and leaves no trace.
//!
//! - [`payload`] validates what is submitted.
//! - [`account`] holds the rule that decides a transaction.
//! - [`journal`] orders settled transactions by recency.
//! - [`ledger`] keeps accounts and log together in memory.
//! - [`engine`] settles a transaction against a store that is read and
//!   written in separate steps, in the face of other writers.
//! - [`laws`] states what holds of all of these, whatever is submitted.
//! - [`contention`] states what holds of two writers on one account, in every
//!   order in which their steps can fall.

pub mod error;
pub mod payload;
pub mod account;
pub mod journal;
pub mod ledger;
pub mod engine;
pub mod laws;
pub mod contention;
