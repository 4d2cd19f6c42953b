use transactions_engine::amount::Amount;
use transactions_engine::error::TransactionError;

#[test]
fn test_parse_integer() {
    let a: Amount = "100".parse().unwrap();
    assert_eq!(a.0, 1_000_000);
}

#[test]
fn test_parse_four_dp() {
    let a: Amount = "1.5000".parse().unwrap();
    assert_eq!(a.0, 15_000);
}

#[test]
fn test_parse_short_fraction_is_padded() {
    let a: Amount = "1.5".parse().unwrap();
    assert_eq!(a.0, 15_000);
}

#[test]
fn test_display_four_dp() {
    let a: Amount = "1.5".parse().unwrap();
    assert_eq!(a.to_string(), "1.5000");
}

#[test]
fn test_display_zero() {
    assert_eq!(Amount::zero().to_string(), "0.0000");
}

#[test]
fn test_add() {
    let a: Amount = "1.0001".parse().unwrap();
    let b: Amount = "5.0055".parse().unwrap();
    assert_eq!(a.checked_add(b).unwrap().to_string(), "6.0056");
}

#[test]
fn test_sub() {
    let a: Amount = "5.0000".parse().unwrap();
    let b: Amount = "3.0000".parse().unwrap();
    assert_eq!(a.checked_sub(b).unwrap().to_string(), "2.0000");
}

#[test]
fn test_too_many_decimals_is_error() {
    assert!("1.00001".parse::<Amount>().is_err());
}

#[test]
fn test_from_bytes_matches_from_str() {
    let cases = ["0", "1.5", "100.0000", "9999.9999", "0.0001"];
    for case in cases {
        let from_str: Amount = case.parse().unwrap();
        let from_bytes = Amount::from_bytes(case.as_bytes()).unwrap();
        assert_eq!(from_str, from_bytes, "mismatch for {case}");
    }
}

#[test]
fn test_parse_digits_rejects_non_numeric() {
    assert!(Amount::from_bytes(b"abc").is_err());
    assert!(Amount::from_bytes(b"1.2x").is_err());
}

#[test]
fn test_negative_amount_is_error() {
    assert!("-1.0".parse::<Amount>().is_err());
}

#[test]
fn test_empty_string_is_error() {
    assert!("".parse::<Amount>().is_err());
    assert!(Amount::from_bytes(b"").is_err());
}

#[test]
fn parse_trims_unicode_white_space() {
    let a: Amount = "\u{a0} 2.25\t\u{3000}".parse().unwrap();
    assert_eq!(a.0, 22_500);
}

#[test]
fn parse_error_carries_trimmed_text() {
    match "  1.2.3 ".parse::<Amount>() {
        Err(TransactionError::InvalidAmount(s)) => assert_eq!(s, "1.2.3"),
        other => panic!("unexpected {:?}", other),
    }
}

#[test]
fn from_bytes_invalid_utf8_error_text() {
    match Amount::from_bytes(&[0xff, 0x31]) {
        Err(TransactionError::InvalidAmount(s)) => assert_eq!(s, "invalid utf8"),
        other => panic!("unexpected {:?}", other),
    }
}

#[test]
fn parse_edge_forms() {
    assert_eq!("1.".parse::<Amount>().unwrap().0, 10_000);
    assert!(".5".parse::<Amount>().is_err());
    assert!("+1".parse::<Amount>().is_err());
    assert_eq!("007.0700".parse::<Amount>().unwrap().0, 70_700);
    assert_eq!("922337203685477.5807".parse::<Amount>().unwrap().0, i64::MAX);
    assert!("922337203685477.5808".parse::<Amount>().is_err());
    assert!("92233720368547758070".parse::<Amount>().is_err());
}

#[test]
fn checked_arithmetic_overflow() {
    assert!(Amount(i64::MAX).checked_add(Amount(1)).is_none());
    assert!(Amount(i64::MIN).checked_sub(Amount(1)).is_none());
    assert_eq!(Amount(7).checked_sub(Amount(9)).unwrap().0, -2);
}

#[test]
fn display_negative_and_large() {
    assert_eq!(Amount(-15_000).to_string(), "-1.5000");
    assert_eq!(Amount(-5_000).to_string(), "0.5000");
    assert_eq!(Amount(i64::MAX).to_string(), "922337203685477.5807");
    assert_eq!(Amount(i64::MIN).to_string(), "-922337203685477.5808");
    assert_eq!(Amount(1).to_string(), "0.0001");
}

#[test]
fn display_then_parse_gives_back_the_amount() {
    for v in [0i64, 1, 9_999, 10_000, 123_456_789, i64::MAX] {
        let a = Amount(v);
        let back: Amount = a.to_string().parse().unwrap();
        assert_eq!(back, a);
    }
}

#[test]
fn default_amount_is_zero() {
    assert_eq!(Amount::default(), Amount::zero());
}
