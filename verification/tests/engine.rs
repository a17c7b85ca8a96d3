use ledger::account::{Account, Receipt};
use ledger::engine::{Action, Phase, Settlement};
use ledger::error::LedgerError;
use ledger::journal::Entry;
use ledger::ledger::{Event, Ledger};
use ledger::payload::{
    Kind, Transaction, TransactionDescription, TransactionType, TransactionValue,
};

fn tx(kind: Kind, amount: i64, description: &str) -> Transaction {
    Transaction {
        valor: TransactionValue::try_from(amount).unwrap(),
        tipo: TransactionType(kind),
        descricao: TransactionDescription::try_from(description.to_string()).unwrap(),
    }
}

fn ledger_with(id: i32, balance: i64, limit: i64) -> Ledger {
    let mut ledger = Ledger::new();
    assert!(ledger.provision(Account { id, balance, limit }));
    ledger
}

/// Performs an action against the ledger and gives the store's answer.
fn perform(ledger: &mut Ledger, id: i32, tx: &Transaction, action: Action) -> Event {
    match action {
        Action::Read => ledger.read(id),
        Action::Commit { expected, balance, occurred_at } => {
            ledger.commit(id, tx, expected, balance, occurred_at)
        }
        Action::Finish(_) => panic!("nothing to perform"),
    }
}

#[test]
fn settlement_reads_then_writes_then_finishes() {
    let mut ledger = ledger_with(1, 0, 1000);
    let debit = tx(Kind::Debit, 500, "pay");
    let s = Settlement::begin(1, &debit, 3);
    assert_eq!(s.phase, Phase::Reading);
    assert_eq!(s.retries, 3);
    let event = ledger.read(1);
    assert_eq!(event, Event::Found { balance: 0, limit: 1000 });
    let (s, action) = s.step_at(event, 42);
    assert_eq!(action, Action::Commit { expected: 0, balance: -500, occurred_at: 42 });
    assert_eq!(s.phase, Phase::Committing { balance: -500, limit: 1000, occurred_at: 42 });
    let event = perform(&mut ledger, 1, &debit, action);
    assert_eq!(event, Event::Committed);
    let (s, action) = s.step_at(event, 43);
    let receipt = Receipt { balance: -500, limit: 1000, occurred_at: 42 };
    assert_eq!(action, Action::Finish(Ok(receipt)));
    assert_eq!(s.phase, Phase::Finished(Ok(receipt)));
    assert_eq!(s.step_at(Event::Conflict, 44).1, Action::Finish(Ok(receipt)));
    assert_eq!(ledger.get(1).unwrap().balance, -500);
    assert_eq!(
        ledger.recent(1, 10),
        vec![Entry { account_id: 1, transaction: debit, occurred_at: 42 }]
    );
}

#[test]
fn two_concurrent_debits_settle_at_most_one() {
    let mut ledger = ledger_with(1, 0, 1000);
    let first = tx(Kind::Debit, 600, "first");
    let second = tx(Kind::Debit, 600, "second");
    let a = Settlement::begin(1, &first, 3);
    let b = Settlement::begin(1, &second, 3);

    // Both read the account before either writes.
    let (a, write_a) = a.step_at(ledger.read(1), 10);
    let (b, write_b) = b.step_at(ledger.read(1), 11);
    assert_eq!(write_a, Action::Commit { expected: 0, balance: -600, occurred_at: 10 });
    assert_eq!(write_b, Action::Commit { expected: 0, balance: -600, occurred_at: 11 });

    let answer_a = perform(&mut ledger, 1, &first, write_a);
    assert_eq!(answer_a, Event::Committed);
    let answer_b = perform(&mut ledger, 1, &second, write_b);
    assert_eq!(answer_b, Event::Conflict);

    let (_, done_a) = a.step_at(answer_a, 12);
    assert_eq!(done_a, Action::Finish(Ok(Receipt { balance: -600, limit: 1000, occurred_at: 10 })));

    // The loser reads again and is refused on what it now sees.
    let (b, again) = b.step_at(answer_b, 13);
    assert_eq!(again, Action::Read);
    assert_eq!(b.retries, 2);
    let (_, done_b) = b.step_at(perform(&mut ledger, 1, &second, again), 14);
    assert_eq!(done_b, Action::Finish(Err(LedgerError::InvariantViolation)));

    assert_eq!(ledger.get(1).unwrap().balance, -600);
    assert_eq!(
        ledger.recent(1, 10),
        vec![Entry { account_id: 1, transaction: first, occurred_at: 10 }]
    );
}

#[test]
fn conflicting_writer_retries_and_settles_on_the_new_balance() {
    let mut ledger = ledger_with(1, 0, 1000);
    let first = tx(Kind::Debit, 300, "first");
    let second = tx(Kind::Debit, 400, "second");
    let a = Settlement::begin(1, &first, 1);
    let b = Settlement::begin(1, &second, 1);
    let (a, write_a) = a.step_at(ledger.read(1), 1);
    let (b, write_b) = b.step_at(ledger.read(1), 2);
    let (_, done_a) = a.step_at(perform(&mut ledger, 1, &first, write_a), 3);
    assert_eq!(done_a, Action::Finish(Ok(Receipt { balance: -300, limit: 1000, occurred_at: 1 })));
    let (b, again) = b.step_at(perform(&mut ledger, 1, &second, write_b), 4);
    assert_eq!(again, Action::Read);
    let (b, write_b) = b.step_at(perform(&mut ledger, 1, &second, again), 5);
    assert_eq!(write_b, Action::Commit { expected: -300, balance: -700, occurred_at: 5 });
    let (_, done_b) = b.step_at(perform(&mut ledger, 1, &second, write_b), 6);
    assert_eq!(done_b, Action::Finish(Ok(Receipt { balance: -700, limit: 1000, occurred_at: 5 })));
    assert_eq!(ledger.get(1).unwrap().balance, -700);
    assert_eq!(ledger.recent(1, 10).len(), 2);
}

#[test]
fn conflicts_beyond_the_retries_are_a_storage_fault() {
    let debit = tx(Kind::Debit, 1, "busy");
    let s = Settlement::begin(1, &debit, 1);
    let found = Event::Found { balance: 0, limit: 10 };
    let (s, action) = s.step_at(found, 1);
    assert_eq!(action, Action::Commit { expected: 0, balance: -1, occurred_at: 1 });
    let (s, action) = s.step_at(Event::Conflict, 2);
    assert_eq!(action, Action::Read);
    assert_eq!(s.retries, 0);
    let (s, action) = s.step_at(found, 3);
    assert_eq!(action, Action::Commit { expected: 0, balance: -1, occurred_at: 3 });
    let (s, action) = s.step_at(Event::Conflict, 4);
    assert_eq!(action, Action::Finish(Err(LedgerError::StorageFault)));
    assert_eq!(s.phase, Phase::Finished(Err(LedgerError::StorageFault)));

    let none = Settlement::begin(1, &debit, 0);
    let (none, _) = none.step_at(found, 1);
    assert_eq!(none.step_at(Event::Conflict, 2).1, Action::Finish(Err(LedgerError::StorageFault)));
}

#[test]
fn missing_account_and_faults_end_the_settlement() {
    let debit = tx(Kind::Debit, 1, "x");
    let s = Settlement::begin(9, &debit, 3);
    assert_eq!(s.step_at(Event::Missing, 1).1, Action::Finish(Err(LedgerError::NotFound)));
    assert_eq!(s.step_at(Event::Fault, 1).1, Action::Finish(Err(LedgerError::StorageFault)));
    assert_eq!(s.step_at(Event::Committed, 1).1, Action::Finish(Err(LedgerError::StorageFault)));
    assert_eq!(s.step_at(Event::Conflict, 1).1, Action::Finish(Err(LedgerError::StorageFault)));
    let (writing, _) = s.step_at(Event::Found { balance: 5, limit: 0 }, 1);
    assert_eq!(writing.step_at(Event::Missing, 2).1, Action::Finish(Err(LedgerError::NotFound)));
    assert_eq!(writing.step_at(Event::Fault, 2).1, Action::Finish(Err(LedgerError::StorageFault)));
    assert_eq!(
        writing.step_at(Event::Found { balance: 5, limit: 0 }, 2).1,
        Action::Finish(Err(LedgerError::StorageFault))
    );
}

#[test]
fn refusal_on_reading_asks_for_no_write() {
    let debit = tx(Kind::Debit, 11, "x");
    let s = Settlement::begin(1, &debit, 3);
    let (s, action) = s.step_at(Event::Found { balance: 0, limit: 10 }, 1);
    assert_eq!(action, Action::Finish(Err(LedgerError::InvariantViolation)));
    assert_eq!(s.phase, Phase::Finished(Err(LedgerError::InvariantViolation)));
    let credit = tx(Kind::Credit, 1, "y");
    let s = Settlement::begin(1, &credit, 3);
    assert_eq!(
        s.step_at(Event::Found { balance: i64::MAX, limit: 10 }, 1).1,
        Action::Finish(Err(LedgerError::StorageFault))
    );
}

#[test]
fn commit_refuses_stale_and_undecided_writes() {
    let mut ledger = ledger_with(1, 100, 1000);
    let debit = tx(Kind::Debit, 50, "x");
    assert_eq!(ledger.commit(2, &debit, 100, 50, 1), Event::Missing);
    assert_eq!(ledger.commit(1, &debit, 99, 49, 1), Event::Conflict);
    assert_eq!(ledger.commit(1, &debit, 100, 51, 1), Event::Fault);
    assert_eq!(ledger.commit(1, &debit, 100, -2000, 1), Event::Fault);
    let overdraw = tx(Kind::Debit, 5000, "y");
    assert_eq!(ledger.commit(1, &overdraw, 100, -4900, 1), Event::Fault);
    assert_eq!(ledger.get(1).unwrap().balance, 100);
    assert_eq!(ledger.recent(1, 10), vec![]);
    assert_eq!(ledger.commit(1, &debit, 100, 50, 7), Event::Committed);
    assert_eq!(ledger.get(1).unwrap().balance, 50);
    assert_eq!(
        ledger.recent(1, 10),
        vec![Entry { account_id: 1, transaction: debit, occurred_at: 7 }]
    );
}

#[test]
fn only_a_step_that_asks_for_a_write_needs_a_moment() {
    let debit = tx(Kind::Debit, 5, "x");
    let reading = Settlement::begin(1, &debit, 3);
    assert!(reading.stamps(Event::Found { balance: 0, limit: 10 }));
    assert!(reading.stamps(Event::Found { balance: -5, limit: 10 }));
    assert!(!reading.stamps(Event::Found { balance: -6, limit: 10 }));
    assert!(!reading.stamps(Event::Missing));
    assert!(!reading.stamps(Event::Fault));
    assert!(!reading.stamps(Event::Committed));
    assert!(!reading.stamps(Event::Conflict));
    let (writing, _) = reading.step_at(Event::Found { balance: 0, limit: 10 }, 7);
    for event in [
        Event::Found { balance: 0, limit: 10 },
        Event::Missing,
        Event::Committed,
        Event::Conflict,
        Event::Fault,
    ] {
        assert!(!writing.stamps(event));
        assert_eq!(writing.step_at(event, 1), writing.step_at(event, 2));
        let (over, _) = writing.step_at(event, 1);
        if over.phase != Phase::Reading {
            assert!(!over.stamps(Event::Found { balance: 0, limit: 10 }));
        }
    }
}

#[test]
fn interleaved_writers_never_breach_the_limit() {
    let mut ledger = ledger_with(1, 0, 1000);
    let mut seed: u64 = 0x9E37_79B9_7F4A_7C15;
    let mut next = move || {
        seed ^= seed << 13;
        seed ^= seed >> 7;
        seed ^= seed << 17;
        seed
    };
    let mut balance = 0i64;
    let mut settled = 0usize;
    for round in 0..400i64 {
        // A handful of writers all read first, then write in some order.
        let writers: Vec<Transaction> = (0..4)
            .map(|_| {
                let r = next();
                let kind = if r % 4 == 0 { Kind::Credit } else { Kind::Debit };
                tx(kind, (r >> 8) as i64 % 700 + 1, "w")
            })
            .collect();
        let mut running: Vec<(Settlement, Action)> = writers
            .iter()
            .map(|t| Settlement::begin(1, t, 8).step_at(ledger.read(1), round))
            .collect();
        let mut open = running.iter().filter(|(_, a)| !matches!(a, Action::Finish(_))).count();
        while open > 0 {
            let pick = (next() % writers.len() as u64) as usize;
            let (s, action) = running[pick];
            if let Action::Finish(_) = action {
                continue;
            }
            let event = perform(&mut ledger, 1, &writers[pick], action);
            let stepped = s.step_at(event, round);
            if let Action::Finish(result) = stepped.1 {
                open -= 1;
                if let Ok(receipt) = result {
                    settled += 1;
                    balance = receipt.balance;
                    assert_eq!(ledger.get(1).unwrap().balance, receipt.balance);
                }
            }
            running[pick] = stepped;
            let account = ledger.get(1).unwrap();
            assert!(account.balance >= -account.limit);
            assert_eq!(account.balance, balance);
        }
    }
    assert!(settled > 100);
    let log = ledger.recent(1, usize::MAX);
    assert_eq!(log.len(), settled);
    let net: i64 = log
        .iter()
        .map(|e| match e.transaction.tipo.kind() {
            Kind::Debit => -e.transaction.valor.minor_units(),
            Kind::Credit => e.transaction.valor.minor_units(),
        })
        .sum();
    assert_eq!(net, balance);
}

/// Runs two writers against a ledger under a schedule: bit `i` of `order`
/// says which of them has turn `i`. Gives what each was told, if it is over.
fn race(
    ledger: &mut Ledger,
    first: &Transaction,
    second: &Transaction,
    retries: u32,
    order: u32,
    turns: u32,
) -> [Option<Result<Receipt, LedgerError>>; 2] {
    let txs = [first, second];
    let mut writers = [
        (Settlement::begin(1, first, retries), Action::Read),
        (Settlement::begin(1, second, retries), Action::Read),
    ];
    for turn in 0..turns {
        let who = ((order >> turn) & 1) as usize;
        let (s, action) = writers[who];
        if let Action::Finish(_) = action {
            continue;
        }
        let event = perform(ledger, 1, txs[who], action);
        writers[who] = s.step_at(event, 100 + turn as i64);
    }
    [0, 1].map(|who| match writers[who].1 {
        Action::Finish(result) => Some(result),
        _ => None,
    })
}

#[test]
fn two_debits_beyond_the_limit_settle_at_most_one_under_every_schedule() {
    let first = tx(Kind::Debit, 600, "first");
    let second = tx(Kind::Debit, 600, "second");
    let turns = 10;
    let mut both_over = 0;
    for retries in [0, 1, 3] {
        for order in 0..(1u32 << turns) {
            let mut ledger = ledger_with(1, 0, 1000);
            let told = race(&mut ledger, &first, &second, retries, order, turns);
            let accepted = told.iter().filter(|t| matches!(t, Some(Ok(_)))).count();
            assert!(accepted <= 1, "order {order:#b}");
            let log = ledger.recent(1, 10);
            assert_eq!(log.len(), accepted);
            assert_eq!(ledger.get(1).unwrap().balance, -600 * accepted as i64);
            for (who, t) in told.iter().enumerate() {
                match t {
                    Some(Ok(receipt)) => {
                        assert_eq!(receipt.balance, -600);
                        assert_eq!(receipt.limit, 1000);
                        assert_eq!(log[0].transaction, *[&first, &second][who]);
                        assert_eq!(log[0].occurred_at, receipt.occurred_at);
                    }
                    Some(Err(LedgerError::InvariantViolation)) => assert_eq!(accepted, 1),
                    Some(Err(LedgerError::StorageFault)) => {
                        assert_eq!(retries, 0);
                        assert_eq!(accepted, 1);
                    }
                    Some(Err(other)) => panic!("unexpected {other:?}"),
                    None => {}
                }
            }
            if told.iter().all(|t| t.is_some()) {
                assert_eq!(accepted, 1);
                both_over += 1;
            }
        }
    }
    assert!(both_over > 1000);
}

#[test]
fn three_writers_end_as_a_serial_order_of_the_accepted_under_every_schedule() {
    let txs = [tx(Kind::Debit, 300, "a"), tx(Kind::Debit, 400, "b"), tx(Kind::Debit, 500, "c")];
    let turns = 9;
    let mut two_settled = 0;
    for schedule in 0..3u32.pow(turns) {
        let mut ledger = ledger_with(1, 0, 1000);
        let mut writers: Vec<(Settlement, Action)> =
            txs.iter().map(|t| (Settlement::begin(1, t, 4), Action::Read)).collect();
        let mut rest = schedule;
        for turn in 0..turns {
            let who = (rest % 3) as usize;
            rest /= 3;
            let (s, action) = writers[who];
            if let Action::Finish(_) = action {
                continue;
            }
            let event = perform(&mut ledger, 1, &txs[who], action);
            writers[who] = s.step_at(event, turn as i64);
        }
        let accepted: Vec<usize> = (0..3)
            .filter(|&who| matches!(writers[who].1, Action::Finish(Ok(_))))
            .collect();
        assert!(accepted.len() <= 2);
        for (who, (_, action)) in writers.iter().enumerate() {
            if let Action::Finish(Err(e)) = action {
                assert_eq!(*e, LedgerError::InvariantViolation, "writer {who}");
            }
        }
        let spent: i64 = accepted.iter().map(|&who| txs[who].valor.minor_units()).sum();
        let account = ledger.get(1).unwrap();
        assert_eq!(account.balance, -spent);
        assert!(account.balance >= -account.limit);
        assert_eq!(account.limit, 1000);

        // The log, oldest first, is a serial order: applied one by one to a
        // fresh ledger every entry settles, and the balance comes out equal.
        let mut log = ledger.recent(1, 10);
        log.reverse();
        assert_eq!(log.len(), accepted.len());
        let mut serial = ledger_with(1, 0, 1000);
        for entry in &log {
            assert!(accepted.iter().any(|&who| txs[who] == entry.transaction));
            let receipt = serial.apply_at(1, entry.transaction.clone(), entry.occurred_at).unwrap();
            assert_eq!(receipt.occurred_at, entry.occurred_at);
        }
        assert_eq!(serial.get(1), ledger.get(1));
        if accepted.len() == 2 {
            two_settled += 1;
        }
    }
    assert!(two_settled > 100);
}
