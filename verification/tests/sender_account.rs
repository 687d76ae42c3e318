use indexer_tap::address::Address;
use indexer_tap::sender_account::{Changes, SenderAccountState};
use indexer_tap::unaggregated_receipts::UnaggregatedReceipts;

fn a(n: u8) -> Address {
    Address::new([n; 20])
}

fn fees(last_id: u64, value: u128) -> UnaggregatedReceipts {
    UnaggregatedReceipts { last_id, value }
}

#[test]
fn no_trigger_below_the_trigger_value() {
    let mut s = SenderAccountState::new(a(1), 100);
    assert_eq!(s.update_receipt_fees(a(10), fees(1, 40)), None);
    assert_eq!(s.update_receipt_fees(a(11), fees(2, 59)), None);
    assert!(!s.rav_request_in_flight());
    assert!(s.total_reaches(99));
    assert!(!s.total_reaches(100));
    assert_eq!(s.fees_of(&a(10)), Some(fees(1, 40)));
    assert_eq!(s.fees_of(&a(12)), None);
}

#[test]
fn trigger_goes_to_the_allocation_with_the_most_fees() {
    let mut s = SenderAccountState::new(a(1), 100);
    assert_eq!(s.update_receipt_fees(a(10), fees(1, 40)), None);
    assert_eq!(s.update_receipt_fees(a(11), fees(2, 50)), None);
    assert_eq!(s.update_receipt_fees(a(12), fees(3, 10)), Some(a(11)));
    assert!(s.rav_request_in_flight());
}

#[test]
fn trigger_at_exactly_the_trigger_value() {
    let mut s = SenderAccountState::new(a(1), 100);
    assert_eq!(s.update_receipt_fees(a(10), fees(1, 100)), Some(a(10)));
}

#[test]
fn tie_goes_to_the_oldest_last_id() {
    let mut s = SenderAccountState::new(a(1), 100);
    s.update_receipt_fees(a(10), fees(7, 40));
    s.update_receipt_fees(a(11), fees(3, 40));
    assert_eq!(s.update_receipt_fees(a(12), fees(5, 40)), Some(a(11)));
}

#[test]
fn full_tie_goes_to_the_first_to_report() {
    let mut s = SenderAccountState::new(a(1), 10);
    s.update_receipt_fees(a(12), fees(3, 4));
    s.update_receipt_fees(a(11), fees(3, 4));
    assert_eq!(s.update_receipt_fees(a(10), fees(3, 4)), Some(a(12)));
}

#[test]
fn no_second_trigger_while_a_request_is_in_flight() {
    let mut s = SenderAccountState::new(a(1), 100);
    assert_eq!(s.update_receipt_fees(a(10), fees(1, 150)), Some(a(10)));
    assert_eq!(s.update_receipt_fees(a(11), fees(2, 500)), None);
    assert_eq!(s.update_receipt_fees(a(10), fees(3, 151)), None);
    assert!(s.rav_request_in_flight());
    s.rav_request_finished();
    assert!(!s.rav_request_in_flight());
    // the allocation answers with what is left; the other one is next
    assert_eq!(s.update_receipt_fees(a(10), fees(0, 0)), Some(a(11)));
}

#[test]
fn update_replaces_the_fees_of_an_allocation() {
    let mut s = SenderAccountState::new(a(1), 100);
    s.update_receipt_fees(a(10), fees(1, 90));
    assert_eq!(s.update_receipt_fees(a(10), fees(2, 95)), None);
    assert!(s.total_reaches(95));
    assert!(!s.total_reaches(96));
    // a stopped allocation reports zero
    assert_eq!(s.update_receipt_fees(a(10), fees(0, 0)), None);
    assert!(!s.total_reaches(1));
    assert!(s.total_reaches(0));
}

#[test]
fn total_beyond_128_bits_reaches_every_amount() {
    let mut s = SenderAccountState::new(a(1), u128::MAX);
    assert_eq!(s.update_receipt_fees(a(10), fees(1, u128::MAX - 1)), None);
    assert_eq!(s.update_receipt_fees(a(11), fees(2, 5)), Some(a(10)));
    assert!(s.total_reaches(u128::MAX));
}

#[test]
fn nothing_to_trigger_without_reports() {
    let s = SenderAccountState::new(a(1), 0);
    assert_eq!(s.allocation_to_trigger(), None);
    assert!(s.total_reaches(0));
    assert!(!s.total_reaches(1));
}

#[test]
fn allocation_changes_name_what_to_start_and_stop() {
    let mut s = SenderAccountState::new(a(1), 100);
    assert_eq!(s.update_allocation_ids(vec![a(10), a(11)]), Changes { spawn: vec![a(10), a(11)], stop: vec![] });
    assert_eq!(s.update_allocation_ids(vec![a(11), a(12), a(12)]), Changes { spawn: vec![a(12)], stop: vec![a(10)] });
    assert!(s.has_allocation(&a(12)));
    assert!(!s.has_allocation(&a(10)));
    assert_eq!(s.update_allocation_ids(vec![a(12), a(11)]), Changes { spawn: vec![], stop: vec![] });
    assert_eq!(s.update_allocation_ids(vec![]), Changes { spawn: vec![], stop: vec![a(12), a(11)] });
}

#[test]
fn ineligible_sender_closes_all_its_allocations() {
    let mut s = SenderAccountState::new(a(1), 100);
    s.update_allocation_ids(vec![a(10), a(11), a(10)]);
    assert_eq!(s.allocations_to_close(), vec![a(10), a(11)]);
    let none = SenderAccountState::new(a(1), 100);
    assert!(none.allocations_to_close().is_empty());
}
