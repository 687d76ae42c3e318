use indexer_tap::unaggregated_receipts::{parse_sum, parse_u128, AggregateError, UnaggregatedReceipts};

#[test]
fn zero_and_default_agree() {
    assert_eq!(UnaggregatedReceipts::zero(), UnaggregatedReceipts { last_id: 0, value: 0 });
    assert_eq!(UnaggregatedReceipts::default(), UnaggregatedReceipts::zero());
}

#[test]
fn add_receipt_counts_a_newer_receipt() {
    let mut u = UnaggregatedReceipts { last_id: 4, value: 10 };
    assert_eq!(u.add_receipt(7, 5), (true, false));
    assert_eq!(u, UnaggregatedReceipts { last_id: 7, value: 15 });
}

#[test]
fn add_receipt_ignores_a_receipt_seen_before() {
    let mut u = UnaggregatedReceipts { last_id: 7, value: 15 };
    assert_eq!(u.add_receipt(7, 5), (false, false));
    assert_eq!(u.add_receipt(3, 5), (false, false));
    assert_eq!(u, UnaggregatedReceipts { last_id: 7, value: 15 });
}

#[test]
fn add_receipt_twice_counts_once() {
    let mut once = UnaggregatedReceipts::zero();
    once.add_receipt(1, 100);
    let mut twice = UnaggregatedReceipts::zero();
    twice.add_receipt(1, 100);
    twice.add_receipt(1, 100);
    assert_eq!(once, twice);
    assert_eq!(twice.value, 100);
}

#[test]
fn add_receipt_holds_the_sum_at_the_maximum() {
    let mut u = UnaggregatedReceipts { last_id: 1, value: u128::MAX - 1 };
    assert_eq!(u.add_receipt(2, 1), (true, false));
    assert_eq!(u.value, u128::MAX);
    assert_eq!(u.add_receipt(3, 1), (true, true));
    assert_eq!(u, UnaggregatedReceipts { last_id: 3, value: u128::MAX });
    assert_eq!(u.add_receipt(4, u128::MAX), (true, true));
    assert_eq!(u, UnaggregatedReceipts { last_id: 4, value: u128::MAX });
}

#[test]
fn parse_u128_reads_decimal_text() {
    assert_eq!(parse_u128("0"), Some(0));
    assert_eq!(parse_u128("45"), Some(45));
    assert_eq!(parse_u128("+45"), Some(45));
    assert_eq!(parse_u128("00045"), Some(45));
    assert_eq!(parse_u128("340282366920938463463374607431768211455"), Some(u128::MAX));
}

#[test]
fn parse_u128_refuses_other_text() {
    assert_eq!(parse_u128(""), None);
    assert_eq!(parse_u128("+"), None);
    assert_eq!(parse_u128("-1"), None);
    assert_eq!(parse_u128("-0"), None);
    assert_eq!(parse_u128("4 5"), None);
    assert_eq!(parse_u128("45.0"), None);
    assert_eq!(parse_u128("4e5"), None);
    assert_eq!(parse_u128("++45"), None);
    assert_eq!(parse_u128("٤٥"), None);
    assert_eq!(parse_u128("340282366920938463463374607431768211456"), None);
    assert_eq!(parse_u128("3402823669209384634633746074317682114550"), None);
    assert_eq!(parse_u128("9999999999999999999999999999999999999999x"), None);
}

#[test]
fn parse_u128_agrees_with_std() {
    let inputs = [
        "", "0", "+0", "-0", "1", "+1", "-1", "007", "12a", "a12", " 12", "12 ", "+", "-", "+-1",
        "340282366920938463463374607431768211455", "340282366920938463463374607431768211456",
        "99999999999999999999999999999999999999999999", "1_000", "0x10", "１２",
    ];
    for input in inputs {
        assert_eq!(parse_u128(input), input.parse::<u128>().ok(), "input {:?}", input);
    }
}

#[test]
fn parse_sum_reads_decimal_text() {
    assert_eq!(parse_sum("0"), Some((0, false)));
    assert_eq!(parse_sum("45"), Some((45, false)));
    assert_eq!(parse_sum("+45"), Some((45, false)));
    assert_eq!(parse_sum("00045"), Some((45, false)));
    assert_eq!(parse_sum("340282366920938463463374607431768211455"), Some((u128::MAX, false)));
}

#[test]
fn parse_sum_holds_a_sum_beyond_128_bits_at_the_maximum() {
    assert_eq!(parse_sum("340282366920938463463374607431768211456"), Some((u128::MAX, true)));
    assert_eq!(parse_sum("3402823669209384634633746074317682114550"), Some((u128::MAX, true)));
    assert_eq!(parse_sum("99999999999999999999999999999999999999999999999999"), Some((u128::MAX, true)));
    assert_eq!(parse_sum("0340282366920938463463374607431768211456"), Some((u128::MAX, true)));
}

#[test]
fn parse_sum_refuses_what_is_no_whole_number() {
    assert_eq!(parse_sum(""), None);
    assert_eq!(parse_sum("+"), None);
    assert_eq!(parse_sum("-1"), None);
    assert_eq!(parse_sum("45.0"), None);
    assert_eq!(parse_sum("4e5"), None);
    // also where the digits before the stray character are beyond 128 bits
    assert_eq!(parse_sum("9999999999999999999999999999999999999999x"), None);
    assert_eq!(parse_sum("340282366920938463463374607431768211456.5"), None);
}

#[test]
fn from_aggregate_of_no_rows_is_zero() {
    assert_eq!(UnaggregatedReceipts::from_aggregate(None, None), Ok((UnaggregatedReceipts::zero(), false)));
}

#[test]
fn from_aggregate_of_rows() {
    assert_eq!(
        UnaggregatedReceipts::from_aggregate(Some(9), Some("45")),
        Ok((UnaggregatedReceipts { last_id: 9, value: 45 }, false))
    );
    assert_eq!(
        UnaggregatedReceipts::from_aggregate(Some(i64::MAX), Some("340282366920938463463374607431768211455")),
        Ok((UnaggregatedReceipts { last_id: i64::MAX as u64, value: u128::MAX }, false))
    );
}

#[test]
fn from_aggregate_holds_a_sum_beyond_128_bits_at_the_maximum() {
    assert_eq!(
        UnaggregatedReceipts::from_aggregate(Some(7), Some("340282366920938463463374607431768211456")),
        Ok((UnaggregatedReceipts { last_id: 7, value: u128::MAX }, true))
    );
    assert_eq!(
        UnaggregatedReceipts::from_aggregate(Some(7), Some("680564733841876926926749214863536422910")),
        Ok((UnaggregatedReceipts { last_id: 7, value: u128::MAX }, true))
    );
}

#[test]
fn from_aggregate_refuses_exactly_one_missing() {
    assert_eq!(UnaggregatedReceipts::from_aggregate(Some(9), None), Err(AggregateError::NullMismatch));
    assert_eq!(UnaggregatedReceipts::from_aggregate(None, Some("45")), Err(AggregateError::NullMismatch));
    // the mismatch is found before anything else is looked at
    assert_eq!(UnaggregatedReceipts::from_aggregate(None, Some("x")), Err(AggregateError::NullMismatch));
}

#[test]
fn from_aggregate_refuses_a_negative_id() {
    assert_eq!(UnaggregatedReceipts::from_aggregate(Some(-1), Some("45")), Err(AggregateError::NegativeId));
    assert_eq!(UnaggregatedReceipts::from_aggregate(Some(-1), Some("x")), Err(AggregateError::NegativeId));
}

#[test]
fn from_aggregate_refuses_a_sum_that_is_no_number() {
    assert_eq!(UnaggregatedReceipts::from_aggregate(Some(1), Some("45.5")), Err(AggregateError::InvalidValue));
    assert_eq!(UnaggregatedReceipts::from_aggregate(Some(1), Some("-45")), Err(AggregateError::InvalidValue));
    assert_eq!(UnaggregatedReceipts::from_aggregate(Some(1), Some("")), Err(AggregateError::InvalidValue));
}
