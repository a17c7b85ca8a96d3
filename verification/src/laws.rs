//! What holds of the ledger whatever is submitted to it.

use vstd::prelude::*;
use crate::account::{candidate, outcome, Account, Receipt};
use crate::engine::{Action, Phase, Settlement};
use crate::error::LedgerError;
use crate::journal::Entry;
use crate::ledger::{commit_answer, read_answer, Event, LedgerView};
use crate::payload::{Kind, Transaction};

verus! {

/// One submission: a transaction for an account, and the moment it would be
/// settled at.
pub struct Request {
    pub account_id: i32,
    pub transaction: Transaction,
    pub at: i64,
}

/// The state of a ledger after a sequence of submissions, each settled or
/// refused in turn.
pub open spec fn replay(state: LedgerView, requests: Seq<Request>) -> LedgerView
    decreases requests.len(),
{
    if requests.len() == 0 {
        state
    } else {
        let last = requests.last();
        replay(state, requests.drop_last()).applied(last.account_id, last.transaction, last.at)
    }
}

/// Whether every submission of a sequence settles when its turn comes.
pub open spec fn settles_throughout(state: LedgerView, requests: Seq<Request>) -> bool
    decreases requests.len(),
{
    requests.len() == 0 || {
        &&& settles_throughout(state, requests.drop_last())
        &&& replay(state, requests.drop_last()).verdict(
            requests.last().account_id,
            requests.last().transaction,
        ) is Ok
    }
}

/// The log entry that a submission leaves when it settles.
pub open spec fn entry_of(request: Request) -> Entry {
    Entry {
        account_id: request.account_id,
        transaction: request.transaction,
        occurred_at: request.at,
    }
}

/// What a settled transaction adds to the balance of its account.
pub open spec fn effect(entry: Entry) -> int {
    candidate(0, entry.transaction.tipo.0, entry.transaction.valor@)
}

/// What the entries that a log holds for an account add up to.
pub open spec fn net(log: Seq<Entry>, account_id: i32) -> int
    decreases log.len(),
{
    if log.len() == 0 {
        0
    } else {
        net(log.drop_last(), account_id) + if log.last().account_id == account_id {
            effect(log.last())
        } else {
            0
        }
    }
}

/// A transaction that settles leaves the balance at or above minus the
/// limit, and the limit as it was.
pub proof fn lemma_settlement_keeps_limit(account: Account, kind: Kind, amount: int)
    requires
        account.wf(),
    ensures
        outcome(account, kind, amount) matches Ok(balance) ==> {
            &&& balance == candidate(account.balance as int, kind, amount)
            &&& balance >= -account.limit
            &&& account.with_balance(balance).wf()
        },
{
}

/// A submission, settled or refused, leaves every account of the ledger at or
/// above minus its limit.
pub proof fn lemma_applied_keeps_invariant(state: LedgerView, id: i32, tx: Transaction, at: i64)
    requires
        state.wf(),
    ensures
        state.applied(id, tx, at).wf(),
        forall|a: i32| #[trigger]
            state.applied(id, tx, at).accounts.contains_key(a) ==> state.applied(
                id,
                tx,
                at,
            ).accounts[a].balance >= -state.applied(id, tx, at).accounts[a].limit,
{
}

/// After any sequence of submissions every account stands at or above minus
/// its limit.
pub proof fn lemma_invariant_holds_throughout(state: LedgerView, requests: Seq<Request>)
    requires
        state.wf(),
    ensures
        replay(state, requests).wf(),
        forall|a: i32| #[trigger]
            replay(state, requests).accounts.contains_key(a) ==> replay(
                state,
                requests,
            ).accounts[a].balance >= -replay(state, requests).accounts[a].limit,
    decreases requests.len(),
{
    if requests.len() > 0 {
        let last = requests.last();
        lemma_invariant_holds_throughout(state, requests.drop_last());
        lemma_applied_keeps_invariant(
            replay(state, requests.drop_last()),
            last.account_id,
            last.transaction,
            last.at,
        );
    }
}

/// No sequence of submissions adds or removes an account, or changes an
/// account's identifier or limit.
pub proof fn lemma_limits_never_change(state: LedgerView, requests: Seq<Request>, a: i32)
    requires
        state.accounts.contains_key(a),
    ensures
        replay(state, requests).accounts.dom() == state.accounts.dom(),
        replay(state, requests).accounts[a].limit == state.accounts[a].limit,
        replay(state, requests).accounts[a].id == state.accounts[a].id,
    decreases requests.len(),
{
    if requests.len() > 0 {
        lemma_limits_never_change(state, requests.drop_last(), a);
        let before = replay(state, requests.drop_last());
        assert(replay(state, requests).accounts.dom() =~= before.accounts.dom());
    }
}

/// A debit that settles, followed by a credit of the same amount, settles
/// too and returns the balance to what it was.
pub proof fn lemma_debit_then_credit_restores(account: Account, amount: int)
    requires
        account.wf(),
    ensures
        outcome(account, Kind::Debit, amount) matches Ok(lowered) ==> outcome(
            account.with_balance(lowered),
            Kind::Credit,
            amount,
        ) == Ok::<i64, LedgerError>(account.balance),
{
}

/// On a ledger, a debit that settles followed by a credit of the same amount
/// for the same account returns every balance to what it was.
pub proof fn lemma_round_trip_restores_balances(
    state: LedgerView,
    id: i32,
    debit: Transaction,
    credit: Transaction,
    at: i64,
    then: i64,
)
    requires
        state.wf(),
        debit.tipo.0 == Kind::Debit,
        credit.tipo.0 == Kind::Credit,
        debit.valor@ == credit.valor@,
        state.verdict(id, debit) is Ok,
    ensures
        state.applied(id, debit, at).verdict(id, credit) == Ok::<i64, LedgerError>(
            state.accounts[id].balance,
        ),
        state.applied(id, debit, at).applied(id, credit, then).accounts == state.accounts,
{
    lemma_debit_then_credit_restores(state.accounts[id], debit.valor@);
    assert(state.applied(id, debit, at).applied(id, credit, then).accounts =~= state.accounts);
}

/// A submission for an account that was never provisioned is answered with
/// `NotFound` and changes nothing.
pub proof fn lemma_unknown_account_changes_nothing(state: LedgerView, id: i32, tx: Transaction, at: i64)
    requires
        !state.accounts.contains_key(id),
    ensures
        state.receipt(id, tx, at) == Err::<Receipt, LedgerError>(LedgerError::NotFound),
        state.applied(id, tx, at) == state,
{
}

/// A submission that is refused leaves no trace: neither a log entry nor a
/// change of any balance. One that settles appends exactly one entry, its
/// own, and changes the balance of its own account alone.
pub proof fn lemma_settled_or_untouched(state: LedgerView, id: i32, tx: Transaction, at: i64)
    ensures
        state.receipt(id, tx, at) is Err ==> state.applied(id, tx, at) == state,
        state.receipt(id, tx, at) matches Ok(receipt) ==> {
            &&& state.applied(id, tx, at).log == state.log.push(
                Entry { account_id: id, transaction: tx, occurred_at: at },
            )
            &&& state.applied(id, tx, at).accounts.dom() == state.accounts.dom()
            &&& state.applied(id, tx, at).accounts[id].balance == receipt.balance
            &&& forall|a: i32|
                a != id ==> state.applied(id, tx, at).accounts[a] == state.accounts[a]
        },
{
    if state.receipt(id, tx, at) is Ok {
        assert(state.applied(id, tx, at).accounts.dom() =~= state.accounts.dom());
    }
}

/// Every balance moves in step with the log: what a submission adds to the
/// balance of an account is what it adds to the account's entries in the
/// log.
pub proof fn lemma_balance_tracks_log(state: LedgerView, id: i32, tx: Transaction, at: i64, a: i32)
    requires
        state.accounts.contains_key(a),
    ensures
        state.applied(id, tx, at).accounts[a].balance - net(state.applied(id, tx, at).log, a)
            == state.accounts[a].balance - net(state.log, a),
{
    if state.verdict(id, tx) is Ok {
        let after = state.applied(id, tx, at);
        assert(after.log.drop_last() =~= state.log);
    }
}

/// After any sequence of submissions the balance of an account is what it
/// was at the start plus what the entries appended for it since add up to:
/// the submissions that settled, each counted once, in the order of the log.
pub proof fn lemma_balance_is_start_plus_settled(state: LedgerView, requests: Seq<Request>, a: i32)
    requires
        state.accounts.contains_key(a),
    ensures
        replay(state, requests).accounts.contains_key(a),
        replay(state, requests).accounts[a].balance - net(replay(state, requests).log, a)
            == state.accounts[a].balance - net(state.log, a),
    decreases requests.len(),
{
    if requests.len() > 0 {
        let last = requests.last();
        let before = replay(state, requests.drop_last());
        lemma_balance_is_start_plus_settled(state, requests.drop_last(), a);
        lemma_balance_tracks_log(before, last.account_id, last.transaction, last.at, a);
    }
}

/// Submissions that all settle leave the log as it was with their entries
/// after it, one each, in the order in which they were submitted.
pub proof fn lemma_settled_replay_appends(state: LedgerView, requests: Seq<Request>)
    requires
        settles_throughout(state, requests),
    ensures
        replay(state, requests).log == state.log + requests.map_values(|r: Request| entry_of(r)),
        replay(state, requests).accounts.dom() == state.accounts.dom(),
    decreases requests.len(),
{
    if requests.len() > 0 {
        lemma_settled_replay_appends(state, requests.drop_last());
        let before = replay(state, requests.drop_last());
        let last = requests.last();
        assert(replay(state, requests).accounts.dom() =~= before.accounts.dom());
        assert(replay(state, requests).log =~= state.log + requests.map_values(
            |r: Request| entry_of(r),
        )) by {
            assert(requests.drop_last().map_values(|r: Request| entry_of(r)) =~= requests.map_values(
                |r: Request| entry_of(r),
            ).drop_last());
        }
    } else {
        assert(state.log =~= state.log + requests.map_values(|r: Request| entry_of(r)));
    }
}

/// A settlement asks for a write only of what it decided on the account as
/// it was read: the transaction settles from the balance read to the balance
/// asked for, which respects the limit read.
pub proof fn lemma_write_is_decided(settlement: Settlement, event: Event, now: i64)
    ensures
        settlement.transition(event, now).1 matches Action::Commit {
            expected,
            balance,
            occurred_at,
        } ==> {
            &&& settlement.phase is Reading
            &&& event matches Event::Found { balance: read, limit }
            &&& expected == read
            &&& occurred_at == now
            &&& outcome(
                Account { id: settlement.account_id, balance: read, limit },
                settlement.kind,
                settlement.amount@,
            ) == Ok::<i64, LedgerError>(balance)
            &&& balance >= -limit
        },
{
}

/// A settlement that holds nothing in breach of a limit still holds nothing
/// in breach of one after any step, whatever the store answered.
pub proof fn lemma_settlement_stays_sound(settlement: Settlement, event: Event, now: i64)
    requires
        settlement.sound(),
    ensures
        settlement.transition(event, now).0.sound(),
        settlement.transition(event, now).1 matches Action::Finish(Ok(receipt)) ==> receipt.balance
            >= -receipt.limit,
{
}

/// A settlement that is not over reports success only when the store
/// answers that the write it asked for went through, and then with the
/// balance of that write.
pub proof fn lemma_success_only_after_write(settlement: Settlement, event: Event, now: i64)
    requires
        !(settlement.phase is Finished),
    ensures
        settlement.transition(event, now).1 matches Action::Finish(Ok(receipt)) ==> {
            &&& event == Event::Committed
            &&& settlement.phase == (Phase::Committing {
                balance: receipt.balance,
                limit: receipt.limit,
                occurred_at: receipt.occurred_at,
            })
        },
{
}

/// A write asked for on a reading of the ledger goes through when nothing
/// came between, and leaves the ledger as the submission applied in one step
/// would.
pub proof fn lemma_unhindered_write_settles(
    state: LedgerView,
    settlement: Settlement,
    tx: Transaction,
    now: i64,
)
    requires
        settlement.phase is Reading,
        settlement.kind == tx.tipo.0,
        settlement.amount == tx.valor,
    ensures
        settlement.transition(read_answer(state, settlement.account_id), now).1 matches Action::Commit {
            expected,
            balance,
            occurred_at,
        } ==> {
            &&& commit_answer(state, settlement.account_id, tx, expected, balance)
                == Event::Committed
            &&& state.settled(settlement.account_id, tx, balance, occurred_at) == state.applied(
                settlement.account_id,
                tx,
                now,
            )
        },
        settlement.transition(read_answer(state, settlement.account_id), now).1 matches Action::Finish(
            result,
        ) ==> result == state.receipt(settlement.account_id, tx, now) && result is Err,
{
}

/// Of two writers that decided on the same reading of an account, the one
/// that writes second is turned away with a conflict: its decision was made
/// on a balance that the first has since changed.
pub proof fn lemma_second_writer_conflicts(
    state: LedgerView,
    id: i32,
    first: Transaction,
    second: Transaction,
    at: i64,
    wanted: i64,
)
    requires
        state.verdict(id, first) is Ok,
        first.valor@ > 0,
    ensures
        commit_answer(
            state.applied(id, first, at),
            id,
            second,
            state.accounts[id].balance,
            wanted,
        ) == Event::Conflict,
{
}

} // verus!
