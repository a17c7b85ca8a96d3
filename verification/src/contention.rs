//! Writers that contend for one ledger, in every order in which their steps
//! can fall.
//!
//! Each writer runs a settlement of its own against the same ledger. A turn
//! lets one of them perform the action it has pending, as one indivisible
//! step, and take in the answer; a schedule is any sequence of turns. What is
//! stated here holds of every schedule: the ledger always ends as some
//! serial order of the accepted transactions would leave it, and of two
//! transactions that exclude each other at most one is accepted.

use vstd::prelude::*;
use crate::account::outcome;
use crate::engine::{Action, Phase, Settlement};
use crate::error::LedgerError;
use crate::laws::{
    lemma_balance_is_start_plus_settled, lemma_invariant_holds_throughout,
    lemma_limits_never_change, lemma_settled_replay_appends, net, replay, settles_throughout,
    Request,
};
use crate::ledger::{commit_answer, read_answer, Event, LedgerView};
use crate::payload::{Kind, Transaction};

verus! {

/// A writer: the transaction it submits, where its settlement stands, and
/// the action it performs when it next has the turn.
pub struct Writer {
    pub transaction: Transaction,
    pub settlement: Settlement,
    pub pending: Action,
}

/// A ledger and the writers that contend for it.
pub struct Race {
    pub ledger: LedgerView,
    pub writers: Seq<Writer>,
}

/// One turn: which writer moves, by its position, and what the clock shows
/// when it does.
pub struct Turn {
    pub who: int,
    pub now: i64,
}

/// A writer that has just begun: it is about to read the account.
pub open spec fn entered(id: i32, tx: Transaction, retries: u32) -> Writer {
    Writer {
        transaction: tx,
        settlement: Settlement {
            account_id: id,
            kind: tx.tipo.0,
            amount: tx.valor,
            retries,
            phase: Phase::Reading,
        },
        pending: Action::Read,
    }
}

/// The ledger after an action was performed against it, and what it
/// answered: a read changes nothing, and a write changes the ledger exactly
/// when it goes through.
pub open spec fn performed(ledger: LedgerView, id: i32, tx: Transaction, action: Action) -> (
    LedgerView,
    Event,
) {
    match action {
        Action::Read => (ledger, read_answer(ledger, id)),
        Action::Commit { expected, balance, occurred_at } => {
            let event = commit_answer(ledger, id, tx, expected, balance);
            if event == Event::Committed {
                (ledger.settled(id, tx, balance, occurred_at), event)
            } else {
                (ledger, event)
            }
        },
        Action::Finish(_) => (ledger, Event::Fault),
    }
}

/// The ledger and a writer after the writer had the turn. A writer that is
/// over does nothing.
pub open spec fn moved(ledger: LedgerView, writer: Writer, now: i64) -> (LedgerView, Writer) {
    if writer.pending is Finish {
        (ledger, writer)
    } else {
        let answer = performed(
            ledger,
            writer.settlement.account_id,
            writer.transaction,
            writer.pending,
        );
        let step = writer.settlement.transition(answer.1, now);
        (answer.0, Writer { transaction: writer.transaction, settlement: step.0, pending: step.1 })
    }
}

/// The race after one turn. A turn of a writer that is not there changes
/// nothing.
pub open spec fn advance(race: Race, turn: Turn) -> Race {
    if 0 <= turn.who < race.writers.len() {
        let after = moved(race.ledger, race.writers[turn.who], turn.now);
        Race { ledger: after.0, writers: race.writers.update(turn.who, after.1) }
    } else {
        race
    }
}

/// The race after a schedule of turns.
pub open spec fn run(race: Race, schedule: Seq<Turn>) -> Race
    decreases schedule.len(),
{
    if schedule.len() == 0 {
        race
    } else {
        advance(run(race, schedule.drop_last()), schedule.last())
    }
}

/// Whether a writer is over.
pub open spec fn finished(writer: Writer) -> bool {
    writer.pending is Finish
}

/// Whether a writer is over and was told that its transaction settled.
pub open spec fn accepted(writer: Writer) -> bool {
    writer.pending matches Action::Finish(Ok(_))
}

/// How many of the writers were accepted.
pub open spec fn accepted_among(writers: Seq<Writer>) -> int
    decreases writers.len(),
{
    if writers.len() == 0 {
        0
    } else {
        accepted_among(writers.drop_last()) + if accepted(writers.last()) {
            1int
        } else {
            0int
        }
    }
}

/// Whether the action a writer has pending is the one its settlement asked
/// for: a read while it is reading, the write it waits for, its result once
/// it is over. It holds of a writer that has just begun and of every turn
/// taken from there.
pub open spec fn coherent(writer: Writer) -> bool {
    match writer.pending {
        Action::Read => writer.settlement.phase is Reading,
        Action::Commit { balance, occurred_at, .. } => {
            &&& writer.settlement.phase matches Phase::Committing { balance: own, occurred_at: at, .. }
            &&& own == balance
            &&& at == occurred_at
        },
        Action::Finish(result) => writer.settlement.phase == Phase::Finished(result),
    }
}

/// Whether two states of a writer submit the same transaction for the same
/// account.
pub open spec fn same_errand(writer: Writer, other: Writer) -> bool {
    writer.transaction == other.transaction && writer.settlement.account_id
        == other.settlement.account_id
}

/// Whether a submission is the errand of one of the writers.
pub open spec fn submitted_by(writers: Seq<Writer>, request: Request) -> bool {
    exists|i: int|
        0 <= i < writers.len() && (#[trigger] writers[i]).transaction == request.transaction
            && writers[i].settlement.account_id == request.account_id
}

/// The submission that a writer's pending write stands for.
pub open spec fn written(writer: Writer) -> Request {
    Request {
        account_id: writer.settlement.account_id,
        transaction: writer.transaction,
        at: writer.pending->occurred_at,
    }
}

/// Whether a writer's turn changes the ledger: it has a write pending, and
/// the write goes through.
pub open spec fn lands(ledger: LedgerView, writer: Writer) -> bool {
    writer.pending matches Action::Commit { expected, balance, .. } && commit_answer(
        ledger,
        writer.settlement.account_id,
        writer.transaction,
        expected,
        balance,
    ) == Event::Committed
}

/// A turn of any writer, in whatever state, either leaves the ledger as it
/// was or settles the writer's own transaction on it, as one submission
/// applied in one step would. A writer whose pending action is the one its
/// settlement asked for is accepted by exactly the turn that changes the
/// ledger.
pub proof fn lemma_turn_settles_or_leaves(ledger: LedgerView, writer: Writer, now: i64)
    ensures
        same_errand(moved(ledger, writer, now).1, writer),
        !lands(ledger, writer) ==> moved(ledger, writer, now).0 == ledger,
        lands(ledger, writer) ==> {
            &&& ledger.verdict(writer.settlement.account_id, writer.transaction) is Ok
            &&& moved(ledger, writer, now).0 == ledger.applied(
                written(writer).account_id,
                written(writer).transaction,
                written(writer).at,
            )
        },
        coherent(writer) ==> {
            &&& coherent(moved(ledger, writer, now).1)
            &&& accepted(moved(ledger, writer, now).1) == (accepted(writer) || lands(
                ledger,
                writer,
            ))
            &&& !(accepted(writer) && lands(ledger, writer))
        },
{
}

/// Replacing one writer changes the count of the accepted by what that
/// writer adds or takes away.
proof fn lemma_count_after_turn(writers: Seq<Writer>, who: int, next: Writer)
    requires
        0 <= who < writers.len(),
    ensures
        accepted_among(writers.update(who, next)) == accepted_among(writers) - if accepted(
            writers[who],
        ) {
            1int
        } else {
            0int
        } + if accepted(next) {
            1int
        } else {
            0int
        },
    decreases writers.len(),
{
    if who == writers.len() - 1 {
        assert(writers.update(who, next).drop_last() =~= writers.drop_last());
    } else {
        assert(writers.update(who, next).drop_last() =~= writers.drop_last().update(who, next));
        lemma_count_after_turn(writers.drop_last(), who, next);
    }
}

/// Whatever the writers, however many, and in whatever order their reads and
/// writes fall: the ledger ends as a serial order of submissions leaves it,
/// the one this lemma hands back. Every submission in that order settles
/// when its turn comes and is the errand of one of the writers; there are as
/// many as writers were accepted on the way.
pub proof fn lemma_every_run_is_serial(race: Race, schedule: Seq<Turn>) -> (order: Seq<Request>)
    requires
        forall|i: int| 0 <= i < race.writers.len() ==> coherent(#[trigger] race.writers[i]),
    ensures
        run(race, schedule).ledger == replay(race.ledger, order),
        settles_throughout(race.ledger, order),
        forall|k: int| 0 <= k < order.len() ==> submitted_by(race.writers, #[trigger] order[k]),
        order.len() == accepted_among(run(race, schedule).writers) - accepted_among(race.writers),
        run(race, schedule).writers.len() == race.writers.len(),
        forall|i: int|
            0 <= i < race.writers.len() ==> coherent(#[trigger] run(race, schedule).writers[i])
                && same_errand(run(race, schedule).writers[i], race.writers[i]),
    decreases schedule.len(),
{
    if schedule.len() == 0 {
        Seq::empty()
    } else {
        let before = run(race, schedule.drop_last());
        let turn = schedule.last();
        let earlier = lemma_every_run_is_serial(race, schedule.drop_last());
        if 0 <= turn.who < before.writers.len() {
            let writer = before.writers[turn.who];
            assert(coherent(writer) && same_errand(writer, race.writers[turn.who]));
            lemma_turn_settles_or_leaves(before.ledger, writer, turn.now);
            lemma_count_after_turn(before.writers, turn.who, moved(before.ledger, writer, turn.now).1);
            if lands(before.ledger, writer) {
                let order = earlier.push(written(writer));
                assert(order.drop_last() =~= earlier);
                assert(submitted_by(race.writers, written(writer))) by {
                    assert(race.writers[turn.who].transaction == written(writer).transaction);
                }
                assert forall|k: int| 0 <= k < order.len() implies submitted_by(
                    race.writers,
                    #[trigger] order[k],
                ) by {
                    if k < earlier.len() {
                        assert(order[k] == earlier[k]);
                    }
                }
                order
            } else {
                earlier
            }
        } else {
            earlier
        }
    }
}

/// Whatever the writers and the schedule, every account ends with the limit
/// it had and at or above minus that limit, and its balance has moved by
/// exactly what the entries appended for it add up to: one entry for each
/// writer that was accepted, and none for any other.
pub proof fn lemma_every_run_keeps_the_books(race: Race, schedule: Seq<Turn>, a: i32)
    requires
        race.ledger.wf(),
        race.ledger.accounts.contains_key(a),
        forall|i: int| 0 <= i < race.writers.len() ==> coherent(#[trigger] race.writers[i]),
    ensures
        run(race, schedule).ledger.wf(),
        run(race, schedule).ledger.accounts.dom() == race.ledger.accounts.dom(),
        run(race, schedule).ledger.accounts[a].limit == race.ledger.accounts[a].limit,
        run(race, schedule).ledger.accounts[a].balance >= -race.ledger.accounts[a].limit,
        run(race, schedule).ledger.accounts[a].balance - net(run(race, schedule).ledger.log, a)
            == race.ledger.accounts[a].balance - net(race.ledger.log, a),
        run(race, schedule).ledger.log.len() == race.ledger.log.len() + accepted_among(
            run(race, schedule).writers,
        ) - accepted_among(race.writers),
{
    let order = lemma_every_run_is_serial(race, schedule);
    lemma_invariant_holds_throughout(race.ledger, order);
    lemma_balance_is_start_plus_settled(race.ledger, order, a);
    lemma_settled_replay_appends(race.ledger, order);
    lemma_limits_never_change(race.ledger, order, a);
}

/// Whether two transactions for one account exclude each other: the account
/// exists, each settles on the ledger as it stands, and neither settles once
/// the other has.
pub open spec fn exclusive(
    ledger: LedgerView,
    id: i32,
    first: Transaction,
    second: Transaction,
) -> bool {
    &&& ledger.accounts.contains_key(id)
    &&& first.valor@ > 0
    &&& second.valor@ > 0
    &&& ledger.verdict(id, first) is Ok
    &&& ledger.verdict(id, second) is Ok
    &&& refusal_after(ledger, id, first, second) is Err
    &&& refusal_after(ledger, id, second, first) is Err
}

/// What becomes of `later` on the account once `earlier` has settled.
pub open spec fn refusal_after(
    ledger: LedgerView,
    id: i32,
    earlier: Transaction,
    later: Transaction,
) -> Result<i64, LedgerError> {
    outcome(
        ledger.accounts[id].with_balance(ledger.verdict(id, earlier)->Ok_0),
        later.tipo.0,
        later.valor@,
    )
}

/// Two debits for one account exclude each other where the limit covers
/// either but not both; the one that comes second is then refused for
/// breaching the limit.
pub proof fn lemma_debits_beyond_limit_exclude(
    ledger: LedgerView,
    id: i32,
    first: Transaction,
    second: Transaction,
)
    requires
        ledger.accounts.contains_key(id),
        first.tipo.0 == Kind::Debit,
        second.tipo.0 == Kind::Debit,
        first.valor@ > 0,
        second.valor@ > 0,
        ledger.accounts[id].balance - first.valor@ >= -ledger.accounts[id].limit,
        ledger.accounts[id].balance - second.valor@ >= -ledger.accounts[id].limit,
        ledger.accounts[id].balance - first.valor@ - second.valor@ < -ledger.accounts[id].limit,
    ensures
        exclusive(ledger, id, first, second),
        ledger.verdict(id, first) == Ok::<i64, LedgerError>(
            (ledger.accounts[id].balance - first.valor@) as i64,
        ),
        ledger.verdict(id, second) == Ok::<i64, LedgerError>(
            (ledger.accounts[id].balance - second.valor@) as i64,
        ),
        refusal_after(ledger, id, first, second) == Err::<i64, LedgerError>(
            LedgerError::InvariantViolation,
        ),
        refusal_after(ledger, id, second, first) == Err::<i64, LedgerError>(
            LedgerError::InvariantViolation,
        ),
{
}

/// Whether a writer still is the settlement of `tx` for the account.
pub open spec fn carries(writer: Writer, id: i32, tx: Transaction) -> bool {
    &&& writer.transaction == tx
    &&& writer.settlement.account_id == id
    &&& writer.settlement.kind == tx.tipo.0
    &&& writer.settlement.amount == tx.valor
}

/// A writer that is about to read, with `retries` left.
pub open spec fn reading(writer: Writer, retries: int) -> bool {
    &&& writer.settlement.phase is Reading
    &&& writer.pending is Read
    &&& writer.settlement.retries == retries
}

/// A writer that decided on the balance `seen` and is about to write `own`.
pub open spec fn armed(writer: Writer, seen: i64, own: i64, limit: i64, retries: int) -> bool {
    &&& writer.settlement.phase matches Phase::Committing { balance, limit: held, occurred_at }
    &&& balance == own
    &&& held == limit
    &&& writer.pending == (Action::Commit { expected: seen, balance: own, occurred_at })
    &&& writer.settlement.retries == retries
}

/// A writer that is over because its write of `own` went through.
pub open spec fn won(writer: Writer, own: i64, limit: i64) -> bool {
    &&& writer.settlement.phase matches Phase::Finished(Ok(receipt))
    &&& receipt.balance == own
    &&& receipt.limit == limit
    &&& writer.pending == Action::Finish(Ok(receipt))
}

/// A writer that is over with the error `e`.
pub open spec fn lost(writer: Writer, e: LedgerError) -> bool {
    &&& writer.settlement.phase == Phase::Finished(Err(e))
    &&& writer.pending == Action::Finish(Err(e))
}

/// Where a writer can stand while nobody has written: about to read for the
/// first time, or about to write what it decided on the ledger as it stood.
pub open spec fn undecided(
    start: LedgerView,
    id: i32,
    writer: Writer,
    tx: Transaction,
    retries: u32,
) -> bool {
    ||| reading(writer, retries as int)
    ||| armed(
        writer,
        start.accounts[id].balance,
        start.verdict(id, tx)->Ok_0,
        start.accounts[id].limit,
        retries as int,
    )
}

/// Where a writer can stand once the other has written: as before, or
/// turned away by a conflict and about to read again, or over with the
/// refusal that its transaction meets after the other one, or over with a
/// storage fault where it was allowed no retry.
pub open spec fn overtaken(
    start: LedgerView,
    id: i32,
    writer: Writer,
    tx: Transaction,
    retries: u32,
    other: Transaction,
) -> bool {
    ||| undecided(start, id, writer, tx, retries)
    ||| retries > 0 && reading(writer, retries - 1)
    ||| lost(writer, refusal_after(start, id, other, tx)->Err_0)
    ||| retries == 0 && lost(writer, LedgerError::StorageFault)
}

/// What holds of a race between two writers whose transactions exclude each
/// other, at every moment: either nobody has written and the ledger is as it
/// was, or exactly one writer has, it is the one that was accepted, and the
/// ledger holds its settlement and nothing else.
pub open spec fn orderly(
    start: LedgerView,
    id: i32,
    first: Transaction,
    second: Transaction,
    first_retries: u32,
    second_retries: u32,
    race: Race,
) -> bool {
    &&& race.writers.len() == 2
    &&& carries(race.writers[0], id, first)
    &&& carries(race.writers[1], id, second)
    &&& {
        ||| {
            &&& race.ledger == start
            &&& undecided(start, id, race.writers[0], first, first_retries)
            &&& undecided(start, id, race.writers[1], second, second_retries)
        }
        ||| {
            &&& won(race.writers[0], start.verdict(id, first)->Ok_0, start.accounts[id].limit)
            &&& race.ledger == start.settled(
                id,
                first,
                start.verdict(id, first)->Ok_0,
                race.writers[0].settlement.phase->Finished_0->Ok_0.occurred_at,
            )
            &&& overtaken(start, id, race.writers[1], second, second_retries, first)
        }
        ||| {
            &&& won(race.writers[1], start.verdict(id, second)->Ok_0, start.accounts[id].limit)
            &&& race.ledger == start.settled(
                id,
                second,
                start.verdict(id, second)->Ok_0,
                race.writers[1].settlement.phase->Finished_0->Ok_0.occurred_at,
            )
            &&& overtaken(start, id, race.writers[0], first, first_retries, second)
        }
    }
}

/// A turn of either writer keeps a race orderly.
pub proof fn lemma_turn_keeps_order(
    start: LedgerView,
    id: i32,
    first: Transaction,
    second: Transaction,
    first_retries: u32,
    second_retries: u32,
    race: Race,
    turn: Turn,
)
    requires
        exclusive(start, id, first, second),
        orderly(start, id, first, second, first_retries, second_retries, race),
    ensures
        orderly(start, id, first, second, first_retries, second_retries, advance(race, turn)),
{
    let one = race.writers[0];
    let two = race.writers[1];
    if turn.who == 0 || turn.who == 1 {
        if race.ledger == start {
            if turn.who == 0 {
                lemma_undecided_moves(start, id, one, first, first_retries, turn.now);
            } else {
                lemma_undecided_moves(start, id, two, second, second_retries, turn.now);
            }
        } else if won(one, start.verdict(id, first)->Ok_0, start.accounts[id].limit) {
            if turn.who == 1 {
                lemma_overtaken_moves(
                    start,
                    id,
                    two,
                    second,
                    second_retries,
                    first,
                    one.settlement.phase->Finished_0->Ok_0.occurred_at,
                    turn.now,
                );
            }
        } else {
            if turn.who == 0 {
                lemma_overtaken_moves(
                    start,
                    id,
                    one,
                    first,
                    first_retries,
                    second,
                    two.settlement.phase->Finished_0->Ok_0.occurred_at,
                    turn.now,
                );
            }
        }
    }
}

/// While nobody has written, a writer's turn either leaves the ledger as it
/// was and the writer about to write, or writes its settlement and ends it.
proof fn lemma_undecided_moves(
    start: LedgerView,
    id: i32,
    writer: Writer,
    tx: Transaction,
    retries: u32,
    now: i64,
)
    requires
        start.accounts.contains_key(id),
        start.verdict(id, tx) is Ok,
        carries(writer, id, tx),
        undecided(start, id, writer, tx, retries),
    ensures
        carries(moved(start, writer, now).1, id, tx),
        reading(writer, retries as int) ==> moved(start, writer, now).0 == start && undecided(
            start,
            id,
            moved(start, writer, now).1,
            tx,
            retries,
        ),
        !reading(writer, retries as int) ==> {
            &&& won(
                moved(start, writer, now).1,
                start.verdict(id, tx)->Ok_0,
                start.accounts[id].limit,
            )
            &&& moved(start, writer, now).0 == start.settled(
                id,
                tx,
                start.verdict(id, tx)->Ok_0,
                moved(start, writer, now).1.settlement.phase->Finished_0->Ok_0.occurred_at,
            )
        },
{
}

/// Once the other has written, a writer's turn leaves the ledger as it is
/// and the writer overtaken.
proof fn lemma_overtaken_moves(
    start: LedgerView,
    id: i32,
    writer: Writer,
    tx: Transaction,
    retries: u32,
    other: Transaction,
    at: i64,
    now: i64,
)
    requires
        start.accounts.contains_key(id),
        other.valor@ > 0,
        start.verdict(id, tx) is Ok,
        start.verdict(id, other) is Ok,
        refusal_after(start, id, other, tx) is Err,
        carries(writer, id, tx),
        overtaken(start, id, writer, tx, retries, other),
    ensures
        ({
            let ledger = start.settled(id, other, start.verdict(id, other)->Ok_0, at);
            &&& moved(ledger, writer, now).0 == ledger
            &&& carries(moved(ledger, writer, now).1, id, tx)
            &&& overtaken(start, id, moved(ledger, writer, now).1, tx, retries, other)
        }),
{
}

/// The race of two writers that have just begun.
pub open spec fn duel(
    start: LedgerView,
    id: i32,
    first: Transaction,
    second: Transaction,
    first_retries: u32,
    second_retries: u32,
) -> Race {
    Race {
        ledger: start,
        writers: seq![entered(id, first, first_retries), entered(id, second, second_retries)],
    }
}

/// Of two writers whose transactions exclude each other, at most one is
/// accepted, in whatever order their reads and writes fall. The ledger ends
/// as the accepted one alone would have left it: its balance, and its entry
/// as the one addition to the log. Where none has been accepted yet the
/// ledger is as it was. A writer that is over without being accepted was
/// overtaken by the other, and was told the refusal that its transaction
/// meets after the other one; only a writer that was allowed no retry may
/// have been told of a storage fault instead.
pub proof fn lemma_at_most_one_settles(
    start: LedgerView,
    id: i32,
    first: Transaction,
    second: Transaction,
    first_retries: u32,
    second_retries: u32,
    schedule: Seq<Turn>,
)
    requires
        exclusive(start, id, first, second),
    ensures
        ({
            let end = run(
                duel(start, id, first, second, first_retries, second_retries),
                schedule,
            );
            let one = end.writers[0];
            let two = end.writers[1];
            let settled: int = if accepted(one) || accepted(two) {
                1
            } else {
                0
            };
            &&& orderly(start, id, first, second, first_retries, second_retries, end)
            &&& !(accepted(one) && accepted(two))
            &&& finished(one) && finished(two) ==> settled == 1
            &&& end.ledger.log.len() == start.log.len() + settled
            &&& end.ledger.log.take(start.log.len() as int) == start.log
            &&& end.ledger.accounts.dom() == start.accounts.dom()
            &&& end.ledger.accounts[id].balance == if accepted(one) {
                start.verdict(id, first)->Ok_0
            } else if accepted(two) {
                start.verdict(id, second)->Ok_0
            } else {
                start.accounts[id].balance
            }
            &&& accepted(one) ==> end.ledger.log.last().transaction == first
            &&& accepted(two) ==> end.ledger.log.last().transaction == second
            &&& finished(one) && !accepted(one) ==> accepted(two) && (lost(
                one,
                refusal_after(start, id, second, first)->Err_0,
            ) || first_retries == 0 && lost(one, LedgerError::StorageFault))
            &&& finished(two) && !accepted(two) ==> accepted(one) && (lost(
                two,
                refusal_after(start, id, first, second)->Err_0,
            ) || second_retries == 0 && lost(two, LedgerError::StorageFault))
        }),
    decreases schedule.len(),
{
    let begin = duel(start, id, first, second, first_retries, second_retries);
    if schedule.len() > 0 {
        lemma_at_most_one_settles(
            start,
            id,
            first,
            second,
            first_retries,
            second_retries,
            schedule.drop_last(),
        );
        lemma_turn_keeps_order(
            start,
            id,
            first,
            second,
            first_retries,
            second_retries,
            run(begin, schedule.drop_last()),
            schedule.last(),
        );
    }
    let end = run(begin, schedule);
    assert(orderly(start, id, first, second, first_retries, second_retries, end));
    assert(end.ledger.log.take(start.log.len() as int) =~= start.log);
    if end.ledger != start {
        assert(end.ledger.accounts.dom() =~= start.accounts.dom());
    }
}

/// Two debits for one account that the limit covers singly but not
/// together, submitted by two writers that may each read again at least
/// once: in whatever order their reads and writes fall, at most one is
/// accepted, the balance is lowered by the accepted one alone, the log holds
/// one entry more for each accepted one and none for the other, and the one
/// that is over without being accepted was told that the limit forbids it.
pub proof fn lemma_overtaken_debit_is_refused(
    start: LedgerView,
    id: i32,
    first: Transaction,
    second: Transaction,
    first_retries: u32,
    second_retries: u32,
    schedule: Seq<Turn>,
)
    requires
        start.accounts.contains_key(id),
        first.tipo.0 == Kind::Debit,
        second.tipo.0 == Kind::Debit,
        first.valor@ > 0,
        second.valor@ > 0,
        start.accounts[id].balance - first.valor@ >= -start.accounts[id].limit,
        start.accounts[id].balance - second.valor@ >= -start.accounts[id].limit,
        start.accounts[id].balance - first.valor@ - second.valor@ < -start.accounts[id].limit,
        first_retries >= 1,
        second_retries >= 1,
    ensures
        ({
            let end = run(
                duel(start, id, first, second, first_retries, second_retries),
                schedule,
            );
            let one = end.writers[0];
            let two = end.writers[1];
            &&& !(accepted(one) && accepted(two))
            &&& finished(one) && !accepted(one) ==> accepted(two) && one.pending == Action::Finish(
                Err(LedgerError::InvariantViolation),
            )
            &&& finished(two) && !accepted(two) ==> accepted(one) && two.pending == Action::Finish(
                Err(LedgerError::InvariantViolation),
            )
            &&& end.ledger.accounts[id].balance == start.accounts[id].balance - if accepted(one) {
                first.valor@
            } else if accepted(two) {
                second.valor@
            } else {
                0
            }
            &&& end.ledger.log.len() == start.log.len() + if accepted(one) || accepted(two) {
                1int
            } else {
                0int
            }
        }),
{
    lemma_debits_beyond_limit_exclude(start, id, first, second);
    lemma_at_most_one_settles(start, id, first, second, first_retries, second_retries, schedule);
}

} // verus!
