//! The settlement of one transaction against a store that is read and
//! written in separate steps.
//!
//! Between reading an account and writing to it another writer may get in.
//! The settlement therefore decides on what it read, asks for a write that
//! goes through only if the balance is still the one it read, and reads
//! again when it does not. The caller performs each action against its store
//! and hands back what the store answered; nothing here waits or blocks.

use vstd::prelude::*;
use crate::account::{outcome, Account, Receipt};
use crate::error::LedgerError;
use crate::ledger::Event;
use crate::payload::{Kind, Transaction, TransactionValue};

verus! {

/// How many times a settlement is usually allowed to read again after a
/// conflicting write before it gives up with a storage fault.
pub const MAX_RETRIES: u32 = 16;

/// Where a settlement stands.
#[derive(Clone, Copy, Debug, PartialEq, Eq)]
pub enum Phase {
    /// Waiting for the account to be read.
    Reading,
    /// Waiting for the answer to a write that would leave the account at
    /// `balance`.
    Committing { balance: i64, limit: i64, occurred_at: i64 },
    /// Over, with this result.
    Finished(Result<Receipt, LedgerError>),
}

/// What the caller is to do next.
#[derive(Clone, Copy, Debug, PartialEq, Eq)]
pub enum Action {
    /// Read the account and answer `Found` or `Missing`.
    Read,
    /// Append the transaction settled at `occurred_at` and set the balance to
    /// `balance`, as one indivisible step and only if the balance is still
    /// `expected`; answer `Committed`, `Conflict` or `Missing`.
    Commit { expected: i64, balance: i64, occurred_at: i64 },
    /// Report this result; the settlement is over.
    Finish(Result<Receipt, LedgerError>),
}

/// The settlement of one transaction against one account.
#[derive(Clone, Copy, Debug, PartialEq, Eq)]
pub struct Settlement {
    /// The account the transaction is submitted for.
    pub account_id: i32,
    /// Debit or credit.
    pub kind: Kind,
    /// The amount, in minor units.
    pub amount: TransactionValue,
    /// How many more times a conflicting write is answered by reading again.
    pub retries: u32,
    /// Where the settlement stands.
    pub phase: Phase,
}

impl Settlement {
    /// Whether the settlement holds nothing that breaches a limit: the
    /// balance of a write it waits for, and the balance of a receipt it ended
    /// with, are at or above minus the limit. It holds of a settlement that
    /// has just begun and of every step taken from there.
    pub open spec fn sound(self) -> bool {
        match self.phase {
            Phase::Reading => true,
            Phase::Committing { balance, limit, .. } => balance >= -limit,
            Phase::Finished(Ok(receipt)) => receipt.balance >= -receipt.limit,
            Phase::Finished(Err(_)) => true,
        }
    }

    /// The settlement once it is over with the given result.
    pub open spec fn finished(self, result: Result<Receipt, LedgerError>) -> (Settlement, Action) {
        (
            Settlement {
                account_id: self.account_id,
                kind: self.kind,
                amount: self.amount,
                retries: self.retries,
                phase: Phase::Finished(result),
            },
            Action::Finish(result),
        )
    }

    /// The step that a settlement takes on an answer of the store, with
    /// `now` as the moment assigned should it ask for a write.
    ///
    /// On reading an account it decides the transaction against the balance
    /// and limit that were read: a write is asked for where the transaction
    /// settles, the refusal is final where it does not. A write that went
    /// through ends the settlement with its receipt. A conflicting write is
    /// answered by reading again while retries are left, and is a storage
    /// fault when none is. A missing account is final, and so is any answer
    /// that does not fit the phase, as a storage fault.
    pub open spec fn transition(self, event: Event, now: i64) -> (Settlement, Action) {
        match self.phase {
            Phase::Reading => match event {
                Event::Found { balance, limit } => match outcome(
                    Account { id: self.account_id, balance, limit },
                    self.kind,
                    self.amount@,
                ) {
                    Ok(next) => (
                        Settlement {
                            account_id: self.account_id,
                            kind: self.kind,
                            amount: self.amount,
                            retries: self.retries,
                            phase: Phase::Committing { balance: next, limit, occurred_at: now },
                        },
                        Action::Commit { expected: balance, balance: next, occurred_at: now },
                    ),
                    Err(e) => self.finished(Err(e)),
                },
                Event::Missing => self.finished(Err(LedgerError::NotFound)),
                _ => self.finished(Err(LedgerError::StorageFault)),
            },
            Phase::Committing { balance, limit, occurred_at } => match event {
                Event::Committed => self.finished(Ok(Receipt { balance, limit, occurred_at })),
                Event::Conflict => if self.retries > 0 {
                    (
                        Settlement {
                            account_id: self.account_id,
                            kind: self.kind,
                            amount: self.amount,
                            retries: (self.retries - 1) as u32,
                            phase: Phase::Reading,
                        },
                        Action::Read,
                    )
                } else {
                    self.finished(Err(LedgerError::StorageFault))
                },
                Event::Missing => self.finished(Err(LedgerError::NotFound)),
                _ => self.finished(Err(LedgerError::StorageFault)),
            },
            Phase::Finished(result) => (self, Action::Finish(result)),
        }
    }

    /// A settlement of `tx` against the account `account_id`, about to read
    /// the account for the first time: its first action is always `Read`.
    pub fn begin(account_id: i32, tx: &Transaction, retries: u32) -> (settlement: Settlement)
        ensures
            settlement == (Settlement {
                account_id,
                kind: tx.tipo.0,
                amount: tx.valor,
                retries,
                phase: Phase::Reading,
            }),
            settlement.sound(),
    {
        Settlement { account_id, kind: tx.tipo.0, amount: tx.valor, retries, phase: Phase::Reading }
    }

    fn finish(self, result: Result<Receipt, LedgerError>) -> (r: (Settlement, Action))
        ensures
            r == self.finished(result),
    {
        (
            Settlement {
                account_id: self.account_id,
                kind: self.kind,
                amount: self.amount,
                retries: self.retries,
                phase: Phase::Finished(result),
            },
            Action::Finish(result),
        )
    }

    /// Takes the step that `transition` describes.
    pub fn step_at(self, event: Event, now: i64) -> (r: (Settlement, Action))
        ensures
            r == self.transition(event, now),
            self.sound() ==> r.0.sound(),
    {
        match self.phase {
            Phase::Reading => match event {
                Event::Found { balance, limit } => {
                    let account = Account { id: self.account_id, balance, limit };
                    match account.decide(self.kind, self.amount) {
                        Ok(next) => (
                            Settlement {
                                account_id: self.account_id,
                                kind: self.kind,
                                amount: self.amount,
                                retries: self.retries,
                                phase: Phase::Committing { balance: next, limit, occurred_at: now },
                            },
                            Action::Commit { expected: balance, balance: next, occurred_at: now },
                        ),
                        Err(e) => self.finish(Err(e)),
                    }
                },
                Event::Missing => self.finish(Err(LedgerError::NotFound)),
                _ => self.finish(Err(LedgerError::StorageFault)),
            },
            Phase::Committing { balance, limit, occurred_at } => match event {
                Event::Committed => self.finish(Ok(Receipt { balance, limit, occurred_at })),
                Event::Conflict => {
                    if self.retries > 0 {
                        (
                            Settlement {
                                account_id: self.account_id,
                                kind: self.kind,
                                amount: self.amount,
                                retries: self.retries - 1,
                                phase: Phase::Reading,
                            },
                            Action::Read,
                        )
                    } else {
                        self.finish(Err(LedgerError::StorageFault))
                    }
                },
                Event::Missing => self.finish(Err(LedgerError::NotFound)),
                _ => self.finish(Err(LedgerError::StorageFault)),
            },
            Phase::Finished(result) => (self, Action::Finish(result)),
        }
    }

    /// Whether a step on this answer asks for a write, and so needs a moment
    /// to stamp it with. Where it does not, the step is the same whatever
    /// moment it is handed.
    pub fn stamps(&self, event: Event) -> (needed: bool)
        ensures
            needed == (self.transition(event, 0).1 is Commit),
            forall|now: i64| ((#[trigger] self.transition(event, now)).1 is Commit) == needed,
            !needed ==> forall|now: i64|
                #[trigger] self.transition(event, now) == self.transition(event, 0),
    {
        match self.phase {
            Phase::Reading => match event {
                Event::Found { balance, limit } => {
                    let account = Account { id: self.account_id, balance, limit };
                    account.decide(self.kind, self.amount).is_ok()
                },
                _ => false,
            },
            _ => false,
        }
    }
}

} // verus!
