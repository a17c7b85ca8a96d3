//! Accounts and the rule that decides whether a transaction settles.

use vstd::prelude::*;
use crate::error::LedgerError;
use crate::payload::{Kind, TransactionValue};

verus! {

/// A client account. Amounts are in minor currency units.
#[derive(Clone, Copy, Debug, PartialEq, Eq, Structural)]
pub struct Account {
    /// The identifier, fixed when the account is provisioned.
    pub id: i32,
    /// The current balance; it may be negative, down to minus the limit.
    pub balance: i64,
    /// The overdraft limit: how far below zero the balance may go.
    pub limit: i64,
}

/// The balance that a transaction would leave behind.
pub open spec fn candidate(balance: int, kind: Kind, amount: int) -> int {
    match kind {
        Kind::Debit => balance - amount,
        Kind::Credit => balance + amount,
    }
}

/// What becomes of a transaction against an account: the new balance where it
/// settles, a violation where the new balance would lie below minus the limit,
/// and a fault where it would be too large to be stored.
pub open spec fn outcome(account: Account, kind: Kind, amount: int) -> Result<i64, LedgerError> {
    let next = candidate(account.balance as int, kind, amount);
    if next < -account.limit {
        Err(LedgerError::InvariantViolation)
    } else if next > i64::MAX {
        Err(LedgerError::StorageFault)
    } else {
        Ok(next as i64)
    }
}

impl Account {
    /// The account's invariant: the limit is not negative and the balance is
    /// not below minus the limit.
    pub open spec fn wf(self) -> bool {
        self.limit >= 0 && self.balance >= -self.limit
    }

    /// The account as it stands after its balance became `balance`.
    pub open spec fn with_balance(self, balance: i64) -> Account {
        Account { id: self.id, balance, limit: self.limit }
    }

    /// An account with the given state, provided that state respects the
    /// invariant.
    pub fn new(id: i32, balance: i64, limit: i64) -> (r: Option<Account>)
        ensures
            r == if (Account { id, balance, limit }).wf() {
                Some(Account { id, balance, limit })
            } else {
                None
            },
    {
        if limit >= 0 && balance >= -limit {
            Some(Account { id, balance, limit })
        } else {
            None
        }
    }

    /// Whether the invariant holds of this account.
    pub fn is_valid(&self) -> (ok: bool)
        ensures
            ok == self.wf(),
    {
        self.limit >= 0 && self.balance >= -self.limit
    }

    /// Decides a transaction against this account without changing anything:
    /// the balance it would settle to, or the reason it cannot settle.
    pub fn decide(&self, kind: Kind, amount: TransactionValue) -> (r: Result<i64, LedgerError>)
        ensures
            r == outcome(*self, kind, amount@),
            amount@ > 0,
            self.wf() && r is Ok ==> self.with_balance(r->Ok_0).wf(),
    {
        let amount: i128 = amount.minor_units() as i128;
        let next: i128 = match kind {
            Kind::Debit => self.balance as i128 - amount,
            Kind::Credit => self.balance as i128 + amount,
        };
        if next < -(self.limit as i128) {
            Err(LedgerError::InvariantViolation)
        } else if next > i64::MAX as i128 {
            Err(LedgerError::StorageFault)
        } else {
            Ok(next as i64)
        }
    }
}

/// What a settlement hands back: the state it left the account in, and when
/// it happened.
#[derive(Clone, Copy, Debug, PartialEq, Eq, Structural)]
pub struct Receipt {
    /// The balance after the settlement.
    pub balance: i64,
    /// The account's overdraft limit.
    pub limit: i64,
    /// The moment assigned to the settlement, in microseconds since the epoch.
    pub occurred_at: i64,
}

} // verus!
