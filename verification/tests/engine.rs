use transactions_engine::amount::Amount;
use transactions_engine::engine::Ledger;
use transactions_engine::error::TransactionError;
use transactions_engine::transaction::{TransactionRow, TransactionState, TransactionType};

fn run_input(input: &str) -> Ledger {
    let mut ledger = Ledger::new();
    let mut read_stream = csv::ReaderBuilder::new()
        .trim(csv::Trim::None)
        .flexible(true)
        .from_reader(input.as_bytes());
    let mut raw = csv::ByteRecord::new();
    while read_stream.read_byte_record(&mut raw).unwrap() {
        if let Ok(record) = TransactionRow::from_byte_record(&raw) {
            let _ = ledger.apply(record);
        }
    }
    ledger
}

fn amount(s: &str) -> Amount {
    s.parse().unwrap()
}

#[test]
fn test_deposit_increases_available_and_total() {
    let ledger = run_input("type,client,tx,amount\ndeposit,1,1,100.0\n");
    let account = ledger.account(1).unwrap();
    assert_eq!(account.available, amount("100.0"));
    assert_eq!(account.total(), amount("100.0"));
    assert_eq!(account.held, Amount::zero());
}

#[test]
fn test_withdrawal_decreases_available_and_total() {
    let ledger = run_input("type,client,tx,amount\ndeposit,1,1,100.0\nwithdrawal,1,2,40.0\n");
    let account = ledger.account(1).unwrap();
    assert_eq!(account.available, amount("60.0"));
    assert_eq!(account.total(), amount("60.0"));
}

#[test]
fn test_withdrawal_insufficient_funds_ignored() {
    let ledger = run_input("type,client,tx,amount\ndeposit,1,1,10.0\nwithdrawal,1,2,50.0\n");
    let account = ledger.account(1).unwrap();
    assert_eq!(account.available, amount("10.0"));
}

#[test]
fn test_dispute_moves_funds_to_held() {
    let ledger = run_input("type,client,tx,amount\ndeposit,1,1,100.0\ndispute,1,1,\n");
    let account = ledger.account(1).unwrap();
    assert_eq!(account.available, amount("0.0"));
    assert_eq!(account.held, amount("100.0"));
    assert_eq!(account.total(), amount("100.0"));
}

#[test]
fn test_resolve_releases_held_funds() {
    let ledger = run_input("type,client,tx,amount\ndeposit,1,1,100.0\ndispute,1,1,\nresolve,1,1,\n");
    let account = ledger.account(1).unwrap();
    assert_eq!(account.available, amount("100.0"));
    assert_eq!(account.held, amount("0.0"));
    assert_eq!(account.total(), amount("100.0"));
}

#[test]
fn test_chargeback_removes_held_and_locks_account() {
    let ledger = run_input("type,client,tx,amount\ndeposit,1,1,100.0\ndispute,1,1,\nchargeback,1,1,\n");
    let account = ledger.account(1).unwrap();
    assert!(account.locked);
    assert_eq!(account.available, amount("0.0"));
    assert_eq!(account.held, amount("0.0"));
    assert_eq!(account.total(), amount("0.0"));
}

#[test]
fn test_locked_account_rejects_deposits() {
    let ledger = run_input("type,client,tx,amount\ndeposit,1,1,100.0\ndispute,1,1,\nchargeback,1,1,\ndeposit,1,2,50.0\n");
    let account = ledger.account(1).unwrap();
    assert_eq!(account.total(), amount("0.0"));
    assert!(account.locked);
}

#[test]
fn test_multiple_clients_are_independent() {
    let ledger = run_input("type,client,tx,amount\ndeposit,1,1,50.0\ndeposit,2,2,80.0\nwithdrawal,1,3,20.0\n");
    assert_eq!(ledger.account(1).unwrap().available, amount("30.0"));
    assert_eq!(ledger.account(2).unwrap().available, amount("80.0"));
}

#[test]
fn test_dispute_nonexistent_tx_ignored() {
    let ledger = run_input("type,client,tx,amount\ndeposit,1,1,100.0\ndispute,1,999,\n");
    let account = ledger.account(1).unwrap();
    assert_eq!(account.available, amount("100.0"));
    assert_eq!(account.held, amount("0.0"));
}

#[test]
fn test_resolve_without_dispute_ignored() {
    let ledger = run_input("type,client,tx,amount\ndeposit,1,1,100.0\nresolve,1,1,\n");
    let account = ledger.account(1).unwrap();
    assert_eq!(account.available, amount("100.0"));
    assert_eq!(account.held, amount("0.0"));
}

#[test]
fn test_chargeback_without_dispute_ignored() {
    let ledger = run_input("type,client,tx,amount\ndeposit,1,1,100.0\nchargeback,1,1,\n");
    let account = ledger.account(1).unwrap();
    assert_eq!(account.available, amount("100.0"));
    assert!(!account.locked);
}

#[test]
fn test_client_mismatch_on_dispute_ignored() {
    let ledger = run_input("type,client,tx,amount\ndeposit,1,1,100.0\ndispute,2,1,\n");
    let account = ledger.account(1).unwrap();
    assert_eq!(account.available, amount("100.0"));
    assert_eq!(account.held, amount("0.0"));
}

#[test]
fn test_double_dispute_ignored() {
    let ledger = run_input(
        "type,client,tx,amount\ndeposit,1,1,100.0\ndispute,1,1,\ndispute,1,1,\n",
    );
    let account = ledger.account(1).unwrap();
    assert_eq!(account.available, amount("0.0"));
    assert_eq!(account.held, amount("100.0"));
}

#[test]
fn engine_test_locked_account_rejects_withdrawal() {
    let ledger = run_input(
        "type,client,tx,amount\ndeposit,1,1,100.0\ndispute,1,1,\nchargeback,1,1,\ndeposit,1,2,50.0\nwithdrawal,1,3,10.0\n",
    );
    let account = ledger.account(1).unwrap();
    assert_eq!(account.total(), amount("0.0"));
    assert!(account.locked);
}

#[test]
fn test_client_mismatch_on_resolve_ignored() {
    let ledger = run_input(
        "type,client,tx,amount\ndeposit,1,1,100.0\ndispute,1,1,\nresolve,2,1,\n",
    );
    let account = ledger.account(1).unwrap();
    assert_eq!(account.held, amount("100.0"));
    assert_eq!(account.available, amount("0.0"));
}

#[test]
fn test_client_mismatch_on_chargeback_ignored() {
    let ledger = run_input(
        "type,client,tx,amount\ndeposit,1,1,100.0\ndispute,1,1,\nchargeback,2,1,\n",
    );
    let account = ledger.account(1).unwrap();
    assert_eq!(account.held, amount("100.0"));
    assert!(!account.locked);
}

#[test]
fn test_chargeback_then_resolve_ignored() {
    let ledger = run_input(
        "type,client,tx,amount\ndeposit,1,1,100.0\ndispute,1,1,\nchargeback,1,1,\nresolve,1,1,\n",
    );
    let account = ledger.account(1).unwrap();
    assert_eq!(account.total(), amount("0.0"));
    assert!(account.locked);
}

fn row(tx_type: TransactionType, client: u16, tx: u32, amount: Option<i64>) -> TransactionRow {
    TransactionRow { tx_type, client, tx, amount: amount.map(Amount) }
}

#[test]
fn apply_reports_each_refusal() {
    let mut ledger = Ledger::new();
    assert!(matches!(
        ledger.apply(row(TransactionType::Deposit, 1, 1, None)),
        Err(TransactionError::MissingAmount(1))
    ));
    assert!(ledger.account(1).is_none());
    ledger.apply(row(TransactionType::Deposit, 1, 1, Some(100))).unwrap();
    assert!(matches!(
        ledger.apply(row(TransactionType::Withdrawal, 1, 2, None)),
        Err(TransactionError::MissingAmount(2))
    ));
    assert!(matches!(
        ledger.apply(row(TransactionType::Dispute, 1, 9, None)),
        Err(TransactionError::TransactionNotFound(9))
    ));
    assert!(matches!(
        ledger.apply(row(TransactionType::Dispute, 2, 1, None)),
        Err(TransactionError::ClientMismatch { tx: 1, expected: 1, got: 2 })
    ));
    assert!(matches!(
        ledger.apply(row(TransactionType::Resolve, 1, 1, None)),
        Err(TransactionError::TransactionNotDisputed(1))
    ));
    ledger.apply(row(TransactionType::Dispute, 1, 1, None)).unwrap();
    assert!(matches!(
        ledger.apply(row(TransactionType::Dispute, 1, 1, None)),
        Err(TransactionError::TransactionAlreadyDisputed(1))
    ));
    ledger.apply(row(TransactionType::Chargeback, 1, 1, None)).unwrap();
    assert!(matches!(
        ledger.apply(row(TransactionType::Deposit, 1, 3, Some(5))),
        Err(TransactionError::AccountLocked(1))
    ));
    assert!(ledger.transaction(3).is_none());
    assert_eq!(ledger.transaction(1).unwrap().state, TransactionState::ChargedBack);
}

#[test]
fn refused_deposit_still_creates_the_account() {
    let mut ledger = Ledger::new();
    ledger.apply(row(TransactionType::Withdrawal, 5, 1, Some(10))).unwrap_err();
    let account = ledger.account(5).unwrap();
    assert_eq!(account.available, Amount(0));
    assert_eq!(account.client, 5);
}

#[test]
fn refused_dispute_leaves_the_transaction_normal() {
    let mut ledger = Ledger::new();
    ledger.apply(row(TransactionType::Deposit, 1, 1, Some(100))).unwrap();
    ledger.apply(row(TransactionType::Withdrawal, 1, 2, Some(60))).unwrap();
    assert!(matches!(
        ledger.apply(row(TransactionType::Dispute, 1, 1, None)),
        Err(TransactionError::InsufficientAmount { client: 1, tx: 1 })
    ));
    assert_eq!(ledger.transaction(1).unwrap().state, TransactionState::Normal);
    assert_eq!(ledger.account(1).unwrap().available, Amount(40));
    assert_eq!(ledger.account(1).unwrap().held, Amount(0));
    assert!(matches!(
        ledger.apply(row(TransactionType::Resolve, 1, 1, None)),
        Err(TransactionError::TransactionNotDisputed(1))
    ));
    assert_eq!(ledger.account(1).unwrap().available, Amount(40));
}

#[test]
fn resolve_after_dispute_restores_the_ledger() {
    let mut ledger = Ledger::new();
    ledger.apply(row(TransactionType::Deposit, 3, 7, Some(250))).unwrap();
    let before = ledger.account(3).unwrap();
    ledger.apply(row(TransactionType::Dispute, 3, 7, None)).unwrap();
    ledger.apply(row(TransactionType::Resolve, 3, 7, None)).unwrap();
    let after = ledger.account(3).unwrap();
    assert_eq!(after.available, before.available);
    assert_eq!(after.held, before.held);
    assert_eq!(ledger.transaction(7).unwrap().state, TransactionState::Normal);
}

#[test]
fn accounts_lists_each_client_once() {
    let ledger = run_input("type,client,tx,amount\ndeposit,1,1,50.0\ndeposit,2,2,80.0\ndeposit,1,3,1.0\n");
    let mut clients: Vec<u16> = ledger.accounts().iter().map(|a| a.client).collect();
    clients.sort();
    assert_eq!(clients, vec![1, 2]);
    let copy = ledger.clone();
    assert_eq!(copy.account(2).unwrap().available, amount("80.0"));
    assert!(Ledger::default().accounts().is_empty());
}

#[test]
fn error_messages() {
    assert_eq!(
        TransactionError::InsufficientAmount { client: 1, tx: 22 }.to_string(),
        "insufficient amount for client=1 transaction=22"
    );
    assert_eq!(TransactionError::AccountLocked(7).to_string(), "client=7 account locked");
    assert_eq!(TransactionError::TransactionNotFound(4).to_string(), "transaction=4 not found");
    assert_eq!(
        TransactionError::ClientMismatch { tx: 3, expected: 1, got: 2 }.to_string(),
        "client mismatch for transaction=3: expected=1 got=2"
    );
    assert_eq!(
        TransactionError::InvalidAmount("x".to_string()).to_string(),
        "invalid amount: x"
    );
    assert_eq!(TransactionError::MalformedRecord.to_string(), "malformed csv record");
    assert_eq!(
        TransactionError::NumericOverflow(4294967295).to_string(),
        "numeric overflow for transaction=4294967295"
    );
    let io = TransactionError::Io(std::io::Error::new(std::io::ErrorKind::Other, "boom"));
    assert_eq!(io.to_string(), "io error: boom");
    let e: TransactionError = std::io::Error::new(std::io::ErrorKind::Other, "x").into();
    assert!(matches!(e, TransactionError::Io(_)));
}
