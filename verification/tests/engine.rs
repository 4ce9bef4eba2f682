//! End-to-end runs of the engine over transaction sequences.

use transaction_engine::client::Account;
use transaction_engine::engine::TransactionEngine;
use transaction_engine::transaction::Id;
use transaction_engine::transaction::Transaction;
use transaction_engine::transaction::TransactionType;

const UNIT: i64 = 10_000;

fn txn(txn_type: TransactionType, id: u32, client: u16, amount: Option<i64>) -> Transaction {
    Transaction { txn_type, id: Id(id), client, amount, disputed: false }
}

fn account_of(engine: &TransactionEngine, client: u16) -> Account {
    let snapshot = engine.clients.snapshot();
    for a in snapshot {
        if a.id.0 == client {
            return a;
        }
    }
    panic!("no account for client {}", client);
}

fn run(engine: &mut TransactionEngine, script: &[Transaction]) {
    for t in script {
        assert!(engine.try_process(*t));
    }
}

#[test]
fn sample_run() {
    let mut engine = TransactionEngine::new();
    run(
        &mut engine,
        &[
            txn(TransactionType::Deposit, 1, 1, Some(UNIT)),
            txn(TransactionType::Deposit, 2, 2, Some(2 * UNIT)),
            txn(TransactionType::Deposit, 3, 1, Some(2 * UNIT)),
            txn(TransactionType::Withdrawal, 4, 1, Some(3 * UNIT / 2)),
            txn(TransactionType::Dispute, 3, 1, None),
            txn(TransactionType::Withdrawal, 5, 2, Some(3 * UNIT)),
        ],
    );

    // client 1: deposits of 1.0 and 2.0, a withdrawal of 1.5, then a dispute
    // holding the 2.0 of the third transaction — driving available negative
    let one = account_of(&engine, 1);
    assert_eq!(-UNIT / 2, one.available);
    assert_eq!(2 * UNIT, one.held);
    assert_eq!((3 * UNIT / 2) as i128, one.total());
    assert!(!one.locked);

    // client 2's withdrawal of 3.0 exceeded the available 2.0 and was dropped
    let two = account_of(&engine, 2);
    assert_eq!(2 * UNIT, two.available);
    assert_eq!(0, two.held);
    assert_eq!((2 * UNIT) as i128, two.total());
    assert!(!two.locked);
}

#[test]
fn replay_twice_matches() {
    let script = [
        txn(TransactionType::Deposit, 1, 1, Some(10 * UNIT)),
        txn(TransactionType::Deposit, 2, 2, Some(4 * UNIT)),
        txn(TransactionType::Withdrawal, 3, 1, Some(3 * UNIT)),
        txn(TransactionType::Dispute, 1, 1, None),
        txn(TransactionType::Chargeback, 1, 1, None),
        txn(TransactionType::Deposit, 4, 1, Some(UNIT)),
        txn(TransactionType::Dispute, 2, 2, None),
        txn(TransactionType::Resolve, 2, 2, None),
    ];

    let mut first = TransactionEngine::new();
    run(&mut first, &script);
    let mut second = TransactionEngine::new();
    run(&mut second, &script);

    assert_eq!(first.clients.snapshot(), second.clients.snapshot());
}

#[test]
fn dispute_resolve_restores_balances() {
    let mut engine = TransactionEngine::new();
    run(
        &mut engine,
        &[
            txn(TransactionType::Deposit, 1, 1, Some(100 * UNIT)),
            txn(TransactionType::Deposit, 2, 1, Some(20 * UNIT)),
        ],
    );
    let before = account_of(&engine, 1);

    run(&mut engine, &[txn(TransactionType::Dispute, 2, 1, None)]);
    let during = account_of(&engine, 1);
    assert_eq!(100 * UNIT, during.available);
    assert_eq!(20 * UNIT, during.held);

    run(&mut engine, &[txn(TransactionType::Resolve, 2, 1, None)]);
    let after = account_of(&engine, 1);
    assert_eq!(before.available, after.available);
    assert_eq!(before.held, after.held);
    assert!(!after.locked);
}

#[test]
fn dispute_chargeback_locks_and_freezes() {
    let mut engine = TransactionEngine::new();
    run(
        &mut engine,
        &[
            txn(TransactionType::Deposit, 1, 1, Some(100 * UNIT)),
            txn(TransactionType::Deposit, 2, 1, Some(20 * UNIT)),
            txn(TransactionType::Dispute, 2, 1, None),
        ],
    );
    let during = account_of(&engine, 1);
    assert_eq!(100 * UNIT, during.available);
    assert_eq!(20 * UNIT, during.held);

    run(&mut engine, &[txn(TransactionType::Chargeback, 2, 1, None)]);
    let after = account_of(&engine, 1);
    // held dropped by the disputed amount, available untouched by the
    // chargeback itself, and the account is now locked
    assert_eq!(during.available, after.available);
    assert_eq!(during.held - 20 * UNIT, after.held);
    assert!(after.locked);

    // no further deposit or withdrawal moves the balances
    run(
        &mut engine,
        &[
            txn(TransactionType::Deposit, 3, 1, Some(5 * UNIT)),
            txn(TransactionType::Withdrawal, 4, 1, Some(5 * UNIT)),
        ],
    );
    let frozen = account_of(&engine, 1);
    assert_eq!(after.available, frozen.available);
    assert_eq!(after.held, frozen.held);
    assert!(frozen.locked);
}

#[test]
fn resolve_without_dispute_is_noop() {
    let mut engine = TransactionEngine::new();
    run(&mut engine, &[txn(TransactionType::Deposit, 1, 1, Some(50 * UNIT))]);
    let before = account_of(&engine, 1);

    run(&mut engine, &[txn(TransactionType::Resolve, 1, 1, None)]);
    assert_eq!(before, account_of(&engine, 1));
}

#[test]
fn chargeback_without_dispute_is_noop() {
    let mut engine = TransactionEngine::new();
    run(&mut engine, &[txn(TransactionType::Deposit, 1, 1, Some(50 * UNIT))]);
    let before = account_of(&engine, 1);

    run(&mut engine, &[txn(TransactionType::Chargeback, 1, 1, None)]);
    assert_eq!(before, account_of(&engine, 1));
}

#[test]
fn dispute_on_unknown_id_is_noop() {
    let mut engine = TransactionEngine::new();
    run(&mut engine, &[txn(TransactionType::Deposit, 1, 1, Some(50 * UNIT))]);
    let before = account_of(&engine, 1);

    run(&mut engine, &[txn(TransactionType::Dispute, 99, 1, None)]);
    assert_eq!(before, account_of(&engine, 1));
}

#[test]
fn resolved_dispute_cannot_be_resolved_again() {
    let mut engine = TransactionEngine::new();
    run(
        &mut engine,
        &[
            txn(TransactionType::Deposit, 1, 1, Some(50 * UNIT)),
            txn(TransactionType::Dispute, 1, 1, None),
            txn(TransactionType::Resolve, 1, 1, None),
        ],
    );
    let before = account_of(&engine, 1);

    run(&mut engine, &[txn(TransactionType::Resolve, 1, 1, None)]);
    assert_eq!(before, account_of(&engine, 1));
}

#[test]
fn history_insert_overwrites_same_id() {
    // a second deposit under the same id replaces the stored record, so a
    // later dispute holds the second amount
    let mut engine = TransactionEngine::new();
    run(
        &mut engine,
        &[
            txn(TransactionType::Deposit, 1, 1, Some(100 * UNIT)),
            txn(TransactionType::Deposit, 1, 1, Some(30 * UNIT)),
            txn(TransactionType::Dispute, 1, 1, None),
        ],
    );
    let a = account_of(&engine, 1);
    assert_eq!(100 * UNIT, a.available);
    assert_eq!(30 * UNIT, a.held);
}

#[test]
fn dispute_hits_the_incoming_client_account() {
    // the amount comes from the referenced record, but the account is the
    // incoming record's client — even when the two differ
    let mut engine = TransactionEngine::new();
    run(
        &mut engine,
        &[
            txn(TransactionType::Deposit, 1, 1, Some(40 * UNIT)),
            txn(TransactionType::Dispute, 1, 2, None),
        ],
    );
    let one = account_of(&engine, 1);
    assert_eq!(40 * UNIT, one.available);
    assert_eq!(0, one.held);
    let two = account_of(&engine, 2);
    assert_eq!(-40 * UNIT, two.available);
    assert_eq!(40 * UNIT, two.held);
}

#[test]
fn any_transaction_creates_the_account() {
    let mut engine = TransactionEngine::new();
    run(&mut engine, &[txn(TransactionType::Dispute, 5, 3, None)]);
    let a = account_of(&engine, 3);
    assert_eq!(0, a.available);
    assert_eq!(0, a.held);
    assert!(!a.locked);
}

#[test]
fn try_process_refuses_missing_amount() {
    let mut engine = TransactionEngine::new();
    assert!(!engine.try_process(txn(TransactionType::Deposit, 1, 1, None)));
    assert!(!engine.try_process(txn(TransactionType::Withdrawal, 2, 1, None)));
    assert!(engine.clients.snapshot().is_empty());
}

#[test]
fn try_process_refuses_negative_amount() {
    let mut engine = TransactionEngine::new();
    assert!(!engine.try_process(txn(TransactionType::Deposit, 1, 1, Some(-UNIT))));
    assert!(engine.clients.snapshot().is_empty());
}

#[test]
fn try_process_refuses_deposit_overflow() {
    let mut engine = TransactionEngine::new();
    assert!(engine.try_process(txn(TransactionType::Deposit, 1, 1, Some(i64::MAX))));
    assert!(!engine.try_process(txn(TransactionType::Deposit, 2, 1, Some(1))));
    let a = account_of(&engine, 1);
    assert_eq!(i64::MAX, a.available);
}

#[test]
fn snapshot_lists_accounts_in_order_of_first_reference() {
    let mut engine = TransactionEngine::new();
    run(
        &mut engine,
        &[
            txn(TransactionType::Deposit, 1, 8, Some(UNIT)),
            txn(TransactionType::Deposit, 2, 3, Some(UNIT)),
            txn(TransactionType::Deposit, 3, 8, Some(UNIT)),
        ],
    );
    let snapshot = engine.clients.snapshot();
    assert_eq!(2, snapshot.len());
    assert_eq!(8, snapshot[0].id.0);
    assert_eq!(3, snapshot[1].id.0);
}
