//! Balance transitions of a single account.
//!
//! Amounts are fixed-point: `UNIT` is one currency unit, counted in 1/10_000.

use transaction_engine::client::Account;
use transaction_engine::client::Id;

const UNIT: i64 = 10_000;

#[test]
fn depositing_works() {
    let mut test_account = Account::new(&Id(1));
    test_account.deposit(100 * UNIT);
    test_account.deposit(50 * UNIT);
    test_account.deposit(10 * UNIT);

    assert_eq!(160 * UNIT, test_account.available);
}

#[test]
fn withdrawing_works() {
    let mut test_account = Account::new(&Id(1));
    test_account.deposit(100 * UNIT);
    test_account.withdraw(80 * UNIT);

    assert_eq!(20 * UNIT, test_account.available);
}

#[test]
fn withdrawing_more_than_available_fails() {
    let mut test_account = Account::new(&Id(1));
    test_account.deposit(100 * UNIT);
    test_account.withdraw(101 * UNIT);
    assert_eq!(100 * UNIT, test_account.available);
}

#[test]
fn dispute() {
    let mut test_account = Account::new(&Id(1));
    test_account.deposit(100 * UNIT);
    test_account.dispute(20 * UNIT);

    assert_eq!(80 * UNIT, test_account.available);
    assert_eq!(20 * UNIT, test_account.held);
}

#[test]
fn resolve() {
    let mut test_account = Account::new(&Id(1));
    test_account.deposit(100 * UNIT);
    test_account.dispute(20 * UNIT);

    test_account.resolve(20 * UNIT);
    assert_eq!(100 * UNIT, test_account.available);
    assert_eq!(0, test_account.held);
}

#[test]
fn chargeback() {
    let mut test_account = Account::new(&Id(1));
    test_account.deposit(100 * UNIT);
    test_account.dispute(20 * UNIT);
    test_account.chargeback(20 * UNIT);

    assert_eq!(80 * UNIT, test_account.available);
    assert_eq!(0, test_account.held);
    assert!(test_account.locked);
}

#[test]
fn total_is_available_plus_held() {
    let mut a = Account::new(&Id(7));
    a.deposit(3 * UNIT / 2);
    a.dispute(UNIT / 2);
    assert_eq!(UNIT as i128, a.available as i128);
    assert_eq!((UNIT / 2) as i128, a.held as i128);
    assert_eq!((3 * UNIT / 2) as i128, a.total());
}

#[test]
fn deposit_on_locked_account_is_ignored() {
    let mut a = Account::new(&Id(1));
    a.deposit(100 * UNIT);
    a.dispute(20 * UNIT);
    a.chargeback(20 * UNIT);
    let before = a;
    a.deposit(5 * UNIT);
    assert_eq!(before, a);
}

#[test]
fn withdraw_on_locked_account_is_ignored() {
    let mut a = Account::new(&Id(1));
    a.deposit(100 * UNIT);
    a.dispute(20 * UNIT);
    a.chargeback(20 * UNIT);
    let before = a;
    a.withdraw(5 * UNIT);
    assert_eq!(before, a);
}

#[test]
fn dispute_can_drive_available_negative() {
    let mut a = Account::new(&Id(1));
    a.deposit(10 * UNIT);
    a.dispute(25 * UNIT);
    assert_eq!(-15 * UNIT, a.available);
    assert_eq!(25 * UNIT, a.held);
    assert_eq!((10 * UNIT) as i128, a.total());
}

#[test]
fn conservation_over_a_run_of_cash_ops() {
    let mut a = Account::new(&Id(9));
    let mut deposited: i64 = 0;
    let mut withdrawn: i64 = 0;

    let script: [(bool, i64); 6] = [
        (true, 40 * UNIT),
        (false, 15 * UNIT),
        (true, 7 * UNIT),
        (false, 100 * UNIT),  // exceeds available: dropped
        (false, 32 * UNIT),
        (true, 1),
    ];
    for (is_deposit, amount) in script {
        if is_deposit {
            a.deposit(amount);
            deposited += amount;
        } else {
            if amount <= a.available {
                withdrawn += amount;
            }
            a.withdraw(amount);
        }
        assert_eq!((deposited - withdrawn) as i128, a.total());
    }
    assert_eq!(1, a.available);
}
