use transactions_engine::amount::Amount;
use transactions_engine::error::TransactionError;
use transactions_engine::transaction::{
    parse_u16, parse_u32, trim, TransactionRecord, TransactionRow, TransactionState, TransactionType,
};

fn make_record(fields: &[&[u8]]) -> csv::ByteRecord {
    csv::ByteRecord::from(fields.iter().map(|f| *f).collect::<Vec<_>>())
}

#[test]
fn test_parse_deposit() {
    let record = make_record(&[b"deposit", b"1", b"42", b"10.5000"]);
    let row = TransactionRow::from_byte_record(&record).unwrap();
    assert_eq!(row.tx_type, TransactionType::Deposit);
    assert_eq!(row.client, 1);
    assert_eq!(row.tx, 42);
    assert_eq!(row.amount.unwrap(), "10.5000".parse().unwrap());
}

#[test]
fn test_parse_chargeback_no_amount() {
    let record = make_record(&[b"chargeback", b"3", b"7", b""]);
    let row = TransactionRow::from_byte_record(&record).unwrap();
    assert_eq!(row.tx_type, TransactionType::Chargeback);
    assert!(row.amount.is_none());
}

#[test]
fn test_parse_dispute_missing_amount_field() {
    let record = make_record(&[b"dispute", b"2", b"5"]);
    let row = TransactionRow::from_byte_record(&record).unwrap();
    assert_eq!(row.tx_type, TransactionType::Dispute);
    assert!(row.amount.is_none());
}

#[test]
fn test_parse_whitespace_trimmed() {
    let record = make_record(&[b"  deposit  ", b" 1 ", b" 10 ", b" 5.0000 "]);
    let row = TransactionRow::from_byte_record(&record).unwrap();
    assert_eq!(row.tx_type, TransactionType::Deposit);
    assert_eq!(row.client, 1);
    assert_eq!(row.tx, 10);
}

#[test]
fn test_unknown_tx_type_is_error() {
    assert!(matches!(
        TransactionRow::from_byte_record(&make_record(&[b"refund", b"1", b"1", b"10.0"])),
        Err(TransactionError::UnknownTransactionType(_))
    ));
}

#[test]
fn test_missing_fields_is_error() {
    assert!(matches!(
        TransactionRow::from_byte_record(&make_record(&[b"deposit", b"1"])),
        Err(TransactionError::MalformedRecord)
    ));
}

#[test]
fn test_invalid_client_id_is_error() {
    assert!(matches!(
        TransactionRow::from_byte_record(&make_record(&[b"deposit", b"notanumber", b"1", b"10.0"])),
        Err(TransactionError::MalformedRecord)
    ));
}

#[test]
fn test_client_id_overflow_is_error() {
    assert!(matches!(
        TransactionRow::from_byte_record(&make_record(&[b"deposit", b"99999", b"1", b"10.0"])),
        Err(TransactionError::MalformedRecord)
    ));
}

#[test]
fn all_transaction_types_are_recognised() {
    let words: [(&[u8], TransactionType); 5] = [
        (b"deposit", TransactionType::Deposit),
        (b"withdrawal", TransactionType::Withdrawal),
        (b"dispute", TransactionType::Dispute),
        (b"resolve", TransactionType::Resolve),
        (b"chargeback", TransactionType::Chargeback),
    ];
    for (word, ty) in words {
        assert_eq!(TransactionType::from_bytes(word).unwrap(), ty);
    }
    assert!(TransactionType::from_bytes(b"Deposit").is_err());
}

#[test]
fn unknown_type_carries_the_word() {
    match TransactionType::from_bytes(b"refund") {
        Err(TransactionError::UnknownTransactionType(s)) => assert_eq!(s, "refund"),
        other => panic!("unexpected {:?}", other),
    }
    match TransactionType::from_bytes(&[0x72, 0xff]) {
        Err(TransactionError::UnknownTransactionType(s)) => assert_eq!(s, "r\u{fffd}"),
        other => panic!("unexpected {:?}", other),
    }
}

#[test]
fn trim_removes_ascii_white_space_only() {
    assert_eq!(trim(b" \t\r\n\x0cab c \n"), b"ab c");
    assert_eq!(trim(b"   "), b"");
    assert_eq!(trim(b""), b"");
    assert_eq!(trim(b"\x0bx\x0b"), b"\x0bx\x0b");
}

#[test]
fn unsigned_fields_parse_like_str_parse() {
    assert_eq!(parse_u16(b"65535").unwrap(), 65535);
    assert!(parse_u16(b"65536").is_err());
    assert_eq!(parse_u16(b"+7").unwrap(), 7);
    assert!(parse_u16(b"+").is_err());
    assert!(parse_u16(b"-1").is_err());
    assert!(parse_u16(b"").is_err());
    assert_eq!(parse_u32(b"0004294967295").unwrap(), u32::MAX);
    assert!(parse_u32(b"4294967296").is_err());
    assert!(matches!(parse_u32(b"1x"), Err(TransactionError::MalformedRecord)));
}

#[test]
fn bad_amount_field_is_invalid_amount() {
    match TransactionRow::from_byte_record(&make_record(&[b"deposit", b"1", b"2", b" 1.23456 "])) {
        Err(TransactionError::InvalidAmount(s)) => assert_eq!(s, "1.23456"),
        other => panic!("unexpected {:?}", other),
    }
}

#[test]
fn invalid_tx_id_and_missing_tx_field() {
    assert!(matches!(
        TransactionRow::from_byte_record(&make_record(&[b"deposit", b"1", b"x", b"1"])),
        Err(TransactionError::MalformedRecord)
    ));
    assert!(matches!(
        TransactionRow::from_byte_record(&make_record(&[])),
        Err(TransactionError::MalformedRecord)
    ));
    let row = TransactionRow::from_byte_record(&make_record(&[b"withdrawal", b"1", b"2", b"  ", b"x"]))
        .unwrap();
    assert!(row.amount.is_none());
}

#[test]
fn transaction_record_starts_normal() {
    let rec = TransactionRecord::new(3, Amount(10));
    assert_eq!(rec.client, 3);
    assert_eq!(rec.amount, Amount(10));
    assert_eq!(rec.state, TransactionState::Normal);
    assert!(!rec.is_disputed());
    let disputed = TransactionRecord { state: TransactionState::Disputed, ..rec };
    assert!(disputed.is_disputed());
}
