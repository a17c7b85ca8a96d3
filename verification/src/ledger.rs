//! The ledger: the accounts, the log of settled transactions, and the
//! operations that read and change them as indivisible steps.

use std::collections::HashMap;
use vstd::prelude::*;
use vstd::std_specs::hash::*;
use crate::account::{outcome, Account, Receipt};
use crate::error::{LedgerError, ShapeFault};
use crate::journal::{recent, recent_entries, Entry};
use crate::payload::{kind_of, shape_fault, Transaction};

verus! {

broadcast use group_hash_axioms;

/// How many transactions an extract shows.
pub const EXTRACT_LEN: usize = 10;

/// The state of a ledger: the accounts by identifier, and the log in the
/// order in which its entries were appended.
pub struct LedgerView {
    pub accounts: Map<i32, Account>,
    pub log: Seq<Entry>,
}

impl LedgerView {
    /// The invariant of a ledger: every account is filed under its own
    /// identifier and keeps its balance at or above minus its limit, and
    /// every log entry belongs to a provisioned account.
    pub open spec fn wf(self) -> bool {
        &&& forall|id: i32| #[trigger]
            self.accounts.contains_key(id) ==> self.accounts[id].id == id && self.accounts[id].wf()
        &&& forall|j: int|
            0 <= j < self.log.len() ==> self.accounts.contains_key(
                (#[trigger] self.log[j]).account_id,
            )
    }

    /// What becomes of a transaction submitted for an account: the balance it
    /// settles to, or the reason it is refused.
    pub open spec fn verdict(self, id: i32, tx: Transaction) -> Result<i64, LedgerError> {
        if self.accounts.contains_key(id) {
            outcome(self.accounts[id], tx.tipo.0, tx.valor@)
        } else {
            Err(LedgerError::NotFound)
        }
    }

    /// The state after a transaction settled to `balance` at the moment `at`:
    /// one entry more at the end of the log, and the account at its new
    /// balance.
    pub open spec fn settled(self, id: i32, tx: Transaction, balance: i64, at: i64) -> LedgerView {
        LedgerView {
            accounts: self.accounts.insert(id, self.accounts[id].with_balance(balance)),
            log: self.log.push(Entry { account_id: id, transaction: tx, occurred_at: at }),
        }
    }

    /// The state after a transaction was submitted: settled where the verdict
    /// allows it, untouched otherwise.
    pub open spec fn applied(self, id: i32, tx: Transaction, at: i64) -> LedgerView {
        match self.verdict(id, tx) {
            Ok(balance) => self.settled(id, tx, balance, at),
            Err(_) => self,
        }
    }

    /// What the submitter of a transaction is told.
    pub open spec fn receipt(self, id: i32, tx: Transaction, at: i64) -> Result<
        Receipt,
        LedgerError,
    > {
        match self.verdict(id, tx) {
            Ok(balance) => Ok(Receipt { balance, limit: self.accounts[id].limit, occurred_at: at }),
            Err(e) => Err(e),
        }
    }
}

/// A view of an account: its balance and limit, the moment the view was
/// computed, and its most recent transactions, most recent first.
#[derive(Debug, PartialEq, Eq)]
pub struct Extract {
    /// The balance.
    pub total: i64,
    /// The overdraft limit.
    pub limit: i64,
    /// The moment the extract was computed, in microseconds since the epoch.
    pub computed_at: i64,
    /// The most recent settled transactions, most recent first.
    pub transactions: Vec<Entry>,
}

impl Extract {
    /// Composes the extract of an account from the account and a log: the
    /// account's balance and limit, the moment given, and the ten most recent
    /// entries of the account in the log, most recent first.
    pub fn compose(account: &Account, log: &Vec<Entry>, computed_at: i64) -> (extract: Extract)
        ensures
            extract.total == account.balance,
            extract.limit == account.limit,
            extract.computed_at == computed_at,
            extract.transactions@ == recent_entries(log@, account.id, EXTRACT_LEN as nat),
    {
        Extract {
            total: account.balance,
            limit: account.limit,
            computed_at,
            transactions: recent(log, account.id, EXTRACT_LEN),
        }
    }
}

/// What a store answers to a reader or a writer of one account.
#[derive(Clone, Copy, Debug, PartialEq, Eq, Structural)]
pub enum Event {
    /// The account as it was read.
    Found { balance: i64, limit: i64 },
    /// There is no such account.
    Missing,
    /// The write went through: log entry and balance, together.
    Committed,
    /// The balance had changed since it was read; nothing was written.
    Conflict,
    /// The store failed; nothing was written.
    Fault,
}

/// A ledger held in memory.
pub struct Ledger {
    accounts: HashMap<i32, Account>,
    log: Vec<Entry>,
}

impl View for Ledger {
    type V = LedgerView;

    closed spec fn view(&self) -> LedgerView {
        LedgerView { accounts: self.accounts@, log: self.log@ }
    }
}

impl Ledger {
    #[verifier::type_invariant]
    spec fn consistent(self) -> bool {
        self@.wf()
    }

    /// A ledger without accounts.
    pub fn new() -> (ledger: Ledger)
        ensures
            ledger@.accounts == Map::<i32, Account>::empty(),
            ledger@.log == Seq::<Entry>::empty(),
            ledger@.wf(),
    {
        Ledger { accounts: HashMap::new(), log: Vec::new() }
    }

    /// Moves the state out, leaving an empty ledger behind until the caller
    /// puts the next state in its place.
    fn take(&mut self) -> (state: Ledger)
        ensures
            state@ == old(self)@,
            state@.wf(),
    {
        proof {
            use_type_invariant(&*self);
        }
        let mut state = Ledger::new();
        core::mem::swap(self, &mut state);
        state
    }

    /// Provisions an account. It is taken in exactly when it respects the
    /// account invariant and its identifier is still free; otherwise the
    /// ledger stays as it was.
    pub fn provision(&mut self, account: Account) -> (taken: bool)
        ensures
            taken == (account.wf() && !old(self)@.accounts.contains_key(account.id)),
            taken ==> final(self)@ == (LedgerView {
                accounts: old(self)@.accounts.insert(account.id, account),
                log: old(self)@.log,
            }),
            !taken ==> final(self)@ == old(self)@,
            final(self)@.wf(),
    {
        proof {
            use_type_invariant(&*self);
        }
        if !account.is_valid() || self.accounts.contains_key(&account.id) {
            return false;
        }
        let Ledger { mut accounts, log } = self.take();
        accounts.insert(account.id, account);
        *self = Ledger { accounts, log };
        true
    }

    /// Looks an account up.
    pub fn get(&self, id: i32) -> (r: Result<Account, LedgerError>)
        ensures
            r == if self@.accounts.contains_key(id) {
                Ok::<Account, LedgerError>(self@.accounts[id])
            } else {
                Err(LedgerError::NotFound)
            },
            r matches Ok(account) ==> account.id == id && account.wf(),
            self@.wf(),
    {
        proof {
            use_type_invariant(self);
        }
        match self.accounts.get(&id) {
            Some(account) => Ok(*account),
            None => Err(LedgerError::NotFound),
        }
    }

    /// Submits a transaction, settled at the moment `at`. Where the account
    /// exists and the new balance respects its limit, the log grows by this
    /// one entry and the balance changes, both or neither; in every other
    /// case the ledger stays as it was and the reason is returned.
    pub fn apply_at(&mut self, id: i32, tx: Transaction, at: i64) -> (r: Result<
        Receipt,
        LedgerError,
    >)
        ensures
            r == old(self)@.receipt(id, tx, at),
            final(self)@ == old(self)@.applied(id, tx, at),
            final(self)@.wf(),
    {
        proof {
            use_type_invariant(&*self);
        }
        let account = match self.accounts.get(&id) {
            Some(account) => *account,
            None => { return Err(LedgerError::NotFound); },
        };
        let balance = match account.decide(tx.tipo.0, tx.valor) {
            Ok(balance) => balance,
            Err(e) => { return Err(e); },
        };
        let Ledger { mut accounts, mut log } = self.take();
        accounts.insert(id, Account { id: account.id, balance, limit: account.limit });
        log.push(Entry { account_id: id, transaction: tx, occurred_at: at });
        *self = Ledger { accounts, log };
        Ok(Receipt { balance, limit: account.limit, occurred_at: at })
    }

    /// Validates a raw payload and, where it is well formed, submits it as
    /// `apply_at` does. A malformed payload is refused before the ledger is
    /// looked at, whether or not the account exists.
    pub fn submit_at(&mut self, id: i32, valor: i64, tipo: String, descricao: String, at: i64) -> (r:
        Result<Receipt, LedgerError>)
        ensures
            match shape_fault(valor as int, tipo@, descricao@) {
                Some(fault) => r == Err::<Receipt, LedgerError>(LedgerError::ShapeInvalid(fault))
                    && final(self)@ == old(self)@,
                None => exists|tx: Transaction|
                    {
                        &&& tx.valor@ == valor
                        &&& Some(tx.tipo.0) == kind_of(tipo@)
                        &&& tx.descricao@ == descricao@
                        &&& r == old(self)@.receipt(id, tx, at)
                        &&& final(self)@ == old(self)@.applied(id, tx, at)
                    },
            },
            final(self)@.wf(),
    {
        proof {
            use_type_invariant(&*self);
        }
        match Transaction::parse(valor, tipo, descricao) {
            Ok(tx) => self.apply_at(id, tx, at),
            Err(fault) => Err(LedgerError::ShapeInvalid(fault)),
        }
    }

    /// Reads an account as a writer sees it before it decides.
    pub fn read(&self, id: i32) -> (event: Event)
        ensures
            event == read_answer(self@, id),
    {
        match self.accounts.get(&id) {
            Some(account) => Event::Found { balance: account.balance, limit: account.limit },
            None => Event::Missing,
        }
    }

    /// Writes a settlement that was decided on an earlier reading of the
    /// account, as one indivisible step. It goes through exactly when the
    /// account still stands at the balance `expected` and the transaction
    /// settles from there to `balance`. A balance that has moved on is a
    /// conflict; a `balance` that the transaction does not settle to is a
    /// fault. Unless the write goes through the ledger stays as it was.
    pub fn commit(
        &mut self,
        id: i32,
        tx: &Transaction,
        expected: i64,
        balance: i64,
        at: i64,
    ) -> (event: Event)
        ensures
            event == commit_answer(old(self)@, id, *tx, expected, balance),
            final(self)@ == if event == Event::Committed {
                old(self)@.settled(id, *tx, balance, at)
            } else {
                old(self)@
            },
            event == Event::Committed ==> final(self)@ == old(self)@.applied(id, *tx, at),
            final(self)@.wf(),
    {
        proof {
            use_type_invariant(&*self);
        }
        let account = match self.accounts.get(&id) {
            Some(account) => *account,
            None => { return Event::Missing; },
        };
        if account.balance != expected {
            return Event::Conflict;
        }
        match account.decide(tx.tipo.0, tx.valor) {
            Ok(next) => {
                if next != balance {
                    return Event::Fault;
                }
            },
            Err(_) => { return Event::Fault; },
        }
        let Ledger { mut accounts, mut log } = self.take();
        accounts.insert(id, Account { id: account.id, balance, limit: account.limit });
        log.push(Entry { account_id: id, transaction: tx.clone(), occurred_at: at });
        *self = Ledger { accounts, log };
        Event::Committed
    }

    /// The `n` most recent settled transactions of an account, most recent
    /// first.
    pub fn recent(&self, id: i32, n: usize) -> (entries: Vec<Entry>)
        ensures
            entries@ == recent_entries(self@.log, id, n as nat),
    {
        recent(&self.log, id, n)
    }

    /// The extract of an account, computed at the moment `now`: its balance
    /// and limit as they stand, and its ten most recent settled transactions,
    /// most recent first. Nothing is changed.
    pub fn extract_at(&self, id: i32, now: i64) -> (r: Result<Extract, LedgerError>)
        ensures
            self@.accounts.contains_key(id) <==> r is Ok,
            r matches Err(e) ==> e == LedgerError::NotFound,
            r matches Ok(extract) ==> {
                &&& extract.total == self@.accounts[id].balance
                &&& extract.limit == self@.accounts[id].limit
                &&& extract.computed_at == now
                &&& extract.transactions@ == recent_entries(self@.log, id, EXTRACT_LEN as nat)
            },
    {
        proof {
            use_type_invariant(self);
        }
        match self.accounts.get(&id) {
            Some(account) => Ok(Extract::compose(account, &self.log, now)),
            None => Err(LedgerError::NotFound),
        }
    }
}

/// What a store answers to a write that touched nothing, given what a look
/// for the account then showed: a conflict where the account is there, a
/// missing account where it is not, a fault where the look itself failed.
pub fn refused_write(present: Option<bool>) -> (event: Event)
    ensures
        event == match present {
            Some(true) => Event::Conflict,
            Some(false) => Event::Missing,
            None => Event::Fault,
        },
{
    match present {
        Some(true) => Event::Conflict,
        Some(false) => Event::Missing,
        None => Event::Fault,
    }
}

/// What a ledger answers to a reader of an account.
pub open spec fn read_answer(state: LedgerView, id: i32) -> Event {
    if state.accounts.contains_key(id) {
        Event::Found { balance: state.accounts[id].balance, limit: state.accounts[id].limit }
    } else {
        Event::Missing
    }
}

/// What a ledger answers to a write that was decided on the balance
/// `expected` and wants to leave the account at `balance`.
pub open spec fn commit_answer(
    state: LedgerView,
    id: i32,
    tx: Transaction,
    expected: i64,
    balance: i64,
) -> Event {
    if !state.accounts.contains_key(id) {
        Event::Missing
    } else if state.accounts[id].balance != expected {
        Event::Conflict
    } else if state.verdict(id, tx) != Ok::<i64, LedgerError>(balance) {
        Event::Fault
    } else {
        Event::Committed
    }
}

} // verus!
