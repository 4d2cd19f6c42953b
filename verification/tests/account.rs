use transactions_engine::account::{Account, SerializedAccount};
use transactions_engine::amount::Amount;
use transactions_engine::error::TransactionError;

fn str_amount(s: &str) -> Amount {
    s.parse().unwrap()
}

#[test]
fn account_test_locked_account_rejects_withdrawal() {
    let mut account = Account::new(1);
    account.available = str_amount("100.0");
    account.locked = true;
    assert!(matches!(account.withdraw(str_amount("10.0"), 1), Err(TransactionError::AccountLocked(1))));
    assert_eq!(account.available, str_amount("100.0"));
}

#[test]
fn test_hold_moves_available_to_held() {
    let mut account = Account::new(1);
    account.available = str_amount("100.0");
    account.hold(str_amount("40.0"), 1).unwrap();
    assert_eq!(account.available, str_amount("60.0"));
    assert_eq!(account.held, str_amount("40.0"));
    assert_eq!(account.total(), str_amount("100.0"));
}

#[test]
fn test_release_moves_held_to_available() {
    let mut account = Account::new(1);
    account.available = str_amount("60.0");
    account.held = str_amount("40.0");
    account.release(str_amount("40.0"), 1).unwrap();
    assert_eq!(account.available, str_amount("100.0"));
    assert_eq!(account.held, str_amount("0.0"));
}

#[test]
fn test_chargeback_removes_held_and_locks() {
    let mut account = Account::new(1);
    account.held = str_amount("50.0");
    account.chargeback(str_amount("50.0"), 1).unwrap();
    assert_eq!(account.held, str_amount("0.0"));
    assert!(account.locked);
}

#[test]
fn test_hold_prevents_negative_available_balance() {
    let mut account = Account::new(1);
    account.available = str_amount("30.0");
    account.held = str_amount("20.0");

    // Try to hold more than available - should fail
    let result = account.hold(str_amount("50.0"), 1);
    assert!(matches!(result, Err(TransactionError::InsufficientAmount { client: 1, tx: 1 })));

    // Account state should remain unchanged
    assert_eq!(account.available, str_amount("30.0"));
    assert_eq!(account.held, str_amount("20.0"));

    // Holding exactly available amount should work
    account.hold(str_amount("30.0"), 2).unwrap();
    assert_eq!(account.available, str_amount("0.0"));
    assert_eq!(account.held, str_amount("50.0"));
}

#[test]
fn test_total_is_available_plus_held() {
    let mut account = Account::new(1);
    account.available = str_amount("30.0");
    account.held = str_amount("70.0");
    assert_eq!(account.total(), str_amount("100.0"));
}

#[test]
fn total_is_zero_when_sum_overflows() {
    let mut account = Account::new(4);
    account.available = Amount(i64::MAX);
    account.held = Amount(1);
    assert_eq!(account.total(), Amount(0));
}

#[test]
fn deposit_on_locked_account_is_refused() {
    let mut account = Account::new(2);
    account.locked = true;
    assert!(matches!(account.deposit(Amount(5), 9), Err(TransactionError::AccountLocked(2))));
    assert_eq!(account.available, Amount(0));
}

#[test]
fn deposit_overflow_is_refused() {
    let mut account = Account::new(2);
    account.available = Amount(i64::MAX);
    assert!(matches!(account.deposit(Amount(1), 9), Err(TransactionError::NumericOverflow(9))));
    assert_eq!(account.available, Amount(i64::MAX));
}

#[test]
fn withdraw_more_than_available_is_refused() {
    let mut account = Account::new(3);
    account.available = Amount(10);
    assert!(matches!(
        account.withdraw(Amount(11), 4),
        Err(TransactionError::InsufficientAmount { client: 3, tx: 4 })
    ));
    account.withdraw(Amount(10), 5).unwrap();
    assert_eq!(account.available, Amount(0));
}

#[test]
fn hold_overflow_of_held_leaves_account_unchanged() {
    let mut account = Account::new(1);
    account.available = Amount(10);
    account.held = Amount(i64::MAX);
    assert!(matches!(account.hold(Amount(5), 7), Err(TransactionError::NumericOverflow(7))));
    assert_eq!(account.available, Amount(10));
    assert_eq!(account.held, Amount(i64::MAX));
}

#[test]
fn release_overflow_of_available_leaves_account_unchanged() {
    let mut account = Account::new(1);
    account.available = Amount(i64::MAX);
    account.held = Amount(5);
    assert!(matches!(account.release(Amount(5), 7), Err(TransactionError::NumericOverflow(7))));
    assert_eq!(account.available, Amount(i64::MAX));
    assert_eq!(account.held, Amount(5));
}

#[test]
fn release_undoes_hold() {
    let mut account = Account::new(1);
    account.available = Amount(100);
    account.held = Amount(3);
    account.hold(Amount(40), 1).unwrap();
    account.release(Amount(40), 1).unwrap();
    assert_eq!(account.available, Amount(100));
    assert_eq!(account.held, Amount(3));
    assert!(!account.locked);
}

#[test]
fn chargeback_overflow_is_refused_and_keeps_lock_off() {
    let mut account = Account::new(1);
    account.held = Amount(i64::MIN);
    assert!(matches!(account.chargeback(Amount(1), 3), Err(TransactionError::NumericOverflow(3))));
    assert!(!account.locked);
}

#[test]
fn serialized_account_carries_total() {
    let mut account = Account::new(8);
    account.available = Amount(30);
    account.held = Amount(12);
    account.locked = true;
    let s = SerializedAccount::from(&account);
    assert_eq!(s.client, 8);
    assert_eq!(s.available, Amount(30));
    assert_eq!(s.held, Amount(12));
    assert_eq!(s.total, Amount(42));
    assert!(s.locked);
}
