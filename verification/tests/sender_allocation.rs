use indexer_tap::address::Address;
use indexer_tap::address_map::AddressMap;
use indexer_tap::escrow::{EscrowAccounts, U256};
use indexer_tap::receipt::{Eip712Domain, NewReceiptNotification, ReceiptAggregateVoucher, Signature, SignedRav};
use indexer_tap::sender_account::SenderAccountMessage;
use indexer_tap::sender_allocation::{
    check_rows_affected, checked_total, compute_rav_cutoff, latest_timestamp_of, no_valid_receipts_hint,
    split_by_checks, AggregatorFailure, AggregatorResponse, HandleOutcome, RavEnvironment, RavRequestError, SenderAllocation,
    SenderAllocationArgs, SenderAllocationError, SenderAllocationMessage, SenderAllocationState, TapConfig,
};
use indexer_tap::store::{RavRejection, ReceiptRow, ReceiptStore, StorageError};
use indexer_tap::unaggregated_receipts::UnaggregatedReceipts;

fn a(n: u8) -> Address {
    Address::new([n; 20])
}

fn sig(n: u64) -> Signature {
    let mut bytes = [0u8; 65];
    bytes[..8].copy_from_slice(&n.to_be_bytes());
    bytes[64] = 28;
    Signature::new(bytes)
}

fn allocation_id_0() -> Address {
    Address::from_str("0xabababababababababababababababababababab").unwrap()
}

const SENDER: u8 = 0x51;
const SIGNER: u8 = 0x52;
const INDEXER: u8 = 0x53;
const DUMMY_URL: &str = "http://localhost:1234";

/// Well after every receipt of these tests, buffer included.
const NOW_NS: u64 = 10_000_000;

fn escrow() -> EscrowAccounts {
    EscrowAccounts::new(
        AddressMap::from_entries(vec![(a(SENDER), U256::from_u128(1000))]),
        AddressMap::from_entries(vec![(a(SENDER), vec![a(SIGNER)])]),
    )
}

fn config() -> TapConfig {
    TapConfig { rav_request_trigger_value: 100, rav_request_timestamp_buffer_ms: 1, rav_request_timeout_secs: 5 }
}

fn args(sender_aggregator_endpoint: String) -> SenderAllocationArgs {
    SenderAllocationArgs {
        config: config(),
        allocation_id: allocation_id_0(),
        sender: a(SENDER),
        escrow_accounts: escrow(),
        domain_separator: Eip712Domain::new(1, a(INDEXER)),
        sender_aggregator_endpoint,
    }
}

fn create_sender_allocation(store: &mut ReceiptStore, sender_aggregator_endpoint: String) -> SenderAllocationState {
    let (state, message, overflowed) = SenderAllocation.pre_start(args(sender_aggregator_endpoint), store);
    assert!(!overflowed);
    assert_eq!(message, SenderAccountMessage::UpdateReceiptFees(allocation_id_0(), state.unaggregated_fees()));
    state
}

/// Stores a receipt of the pair with the given nonce, timestamp and value.
fn store_receipt(store: &mut ReceiptStore, nonce: u64, timestamp_ns: u64, value: u128) -> NewReceiptNotification {
    // the signature stands for the signed content
    let signature = sig(nonce * 1_000_003 + timestamp_ns * 1_009 + value as u64);
    store.insert_receipt(a(SIGNER), allocation_id_0(), signature, nonce, timestamp_ns, value).unwrap()
}

fn rav(timestamp_ns: u64, value_aggregate: u128) -> SignedRav {
    SignedRav {
        message: ReceiptAggregateVoucher { allocation_id: allocation_id_0(), timestamp_ns, value_aggregate },
        signature: sig(0xaaaa_0000 + timestamp_ns),
    }
}

fn honest(timestamp_ns: u64, value_aggregate: u128) -> RavEnvironment {
    RavEnvironment {
        now_ns: NOW_NS,
        failed_checks: vec![],
        aggregator: Ok(AggregatorResponse { rav: rav(timestamp_ns, value_aggregate), recovered_signer: Some(a(SIGNER)) }),
    }
}

fn no_request() -> RavEnvironment {
    RavEnvironment { now_ns: NOW_NS, failed_checks: vec![], aggregator: Err(AggregatorFailure::Timeout) }
}

fn get_unaggregated_receipts(state: &mut SenderAllocationState, store: &mut ReceiptStore) -> UnaggregatedReceipts {
    SenderAllocation
        .handle(SenderAllocationMessage::GetUnaggregatedReceipts, state, store, &no_request())
        .unwrap()
        .reply
        .unwrap()
}

/// The total comes from the receipt log when there is no voucher: every
/// receipt of the pair counts.
#[test]
fn test_update_unaggregated_fees_no_rav() {
    let mut store = ReceiptStore::new();
    for i in 1..10 {
        store_receipt(&mut store, i, i, i.into());
    }

    let mut sender_allocation = create_sender_allocation(&mut store, DUMMY_URL.to_string());

    let total_unaggregated_fees = get_unaggregated_receipts(&mut sender_allocation, &mut store);

    assert_eq!(total_unaggregated_fees.value, 45u128);
    assert_eq!(total_unaggregated_fees.last_id, 9);
}

/// With a voucher in the store, only receipts with a timestamp greater than
/// the voucher's count.
#[test]
fn test_update_unaggregated_fees_with_rav() {
    let mut store = ReceiptStore::new();
    // This voucher has timestamp 4.
    let signed_rav = rav(4, 10);
    store.upsert_rav(allocation_id_0(), a(SENDER), signed_rav.message.timestamp_ns, signed_rav.message.value_aggregate, signed_rav.signature);

    for i in 1..10 {
        store_receipt(&mut store, i, i, i.into());
    }

    let mut sender_allocation = create_sender_allocation(&mut store, DUMMY_URL.to_string());

    let total_unaggregated_fees = get_unaggregated_receipts(&mut sender_allocation, &mut store);

    assert_eq!(total_unaggregated_fees.value, 35u128);
    assert_eq!(total_unaggregated_fees.last_id, 9);
    // the receipts that the voucher covers are gone from the log
    assert_eq!(store.receipt_count(), 5);
}

#[test]
fn test_rav_requester_manual() {
    let mut store = ReceiptStore::new();
    for i in 0..10 {
        store_receipt(&mut store, i, i + 1, i.into());
    }

    let mut sender_allocation = create_sender_allocation(&mut store, "http://".to_owned() + "127.0.0.1:8080");
    assert_eq!(sender_allocation.unaggregated_fees().value, 45);

    // The aggregator answers with the voucher over all ten receipts.
    let outcome = SenderAllocation
        .handle(SenderAllocationMessage::TriggerRAVRequest, &mut sender_allocation, &mut store, &honest(10, 45))
        .unwrap();
    let total_unaggregated_fees = outcome.reply.unwrap();

    assert_eq!(total_unaggregated_fees.value, 0u128);
    assert_eq!(total_unaggregated_fees, UnaggregatedReceipts { last_id: 0, value: 0 });
    assert_eq!(outcome, HandleOutcome { to_sender_account: None, reply: Some(total_unaggregated_fees), stop: false, overflowed: false });
    assert_eq!(sender_allocation.unaggregated_fees(), total_unaggregated_fees);
    let row = store.get_rav(&allocation_id_0(), &a(SENDER)).unwrap();
    assert_eq!((row.timestamp_ns, row.value_aggregate, row.last, row.is_final), (10, 45, false, false));
    assert_eq!(row.signature, rav(10, 45).signature);
    assert_eq!(store.receipt_count(), 0);
    assert_eq!(store.failed_rav_request_count(), 0);
}

#[test]
fn fresh_pair_nine_receipts() {
    let mut store = ReceiptStore::new();
    let mut state = create_sender_allocation(&mut store, DUMMY_URL.to_string());
    assert_eq!(state.unaggregated_fees(), UnaggregatedReceipts::zero());
    for i in 1..10u64 {
        let notification = store_receipt(&mut store, i, i, i as u128);
        assert_eq!(notification.id, i);
        let outcome = SenderAllocation
            .handle(SenderAllocationMessage::NewReceipt(notification), &mut state, &mut store, &no_request())
            .unwrap();
        assert_eq!(
            outcome.to_sender_account,
            Some(SenderAccountMessage::UpdateReceiptFees(allocation_id_0(), state.unaggregated_fees()))
        );
        assert!(!outcome.stop);
    }
    assert_eq!(state.unaggregated_fees(), UnaggregatedReceipts { last_id: 9, value: 45 });
}

#[test]
fn duplicate_new_receipt_is_not_counted_twice() {
    let mut store = ReceiptStore::new();
    let mut state = create_sender_allocation(&mut store, DUMMY_URL.to_string());
    let n = store_receipt(&mut store, 1, 1, 7);
    let first = SenderAllocation.handle(SenderAllocationMessage::NewReceipt(n), &mut state, &mut store, &no_request()).unwrap();
    assert!(first.to_sender_account.is_some());
    let second = SenderAllocation.handle(SenderAllocationMessage::NewReceipt(n), &mut state, &mut store, &no_request()).unwrap();
    assert_eq!(second, HandleOutcome { to_sender_account: None, reply: None, stop: false, overflowed: false });
    assert_eq!(state.unaggregated_fees(), UnaggregatedReceipts { last_id: 1, value: 7 });
}

#[test]
fn out_of_order_notification_is_left_out() {
    let mut store = ReceiptStore::new();
    let mut state = create_sender_allocation(&mut store, DUMMY_URL.to_string());
    let n1 = store_receipt(&mut store, 1, 1, 7);
    let n2 = store_receipt(&mut store, 2, 2, 8);
    SenderAllocation.handle(SenderAllocationMessage::NewReceipt(n2), &mut state, &mut store, &no_request()).unwrap();
    SenderAllocation.handle(SenderAllocationMessage::NewReceipt(n1), &mut state, &mut store, &no_request()).unwrap();
    assert_eq!(state.unaggregated_fees(), UnaggregatedReceipts { last_id: 2, value: 8 });
}

#[test]
fn overflow_of_the_total_is_held_at_the_maximum() {
    let mut store = ReceiptStore::new();
    let mut state = create_sender_allocation(&mut store, DUMMY_URL.to_string());
    let big = NewReceiptNotification { id: 1, allocation_id: allocation_id_0(), signer_address: a(SIGNER), timestamp_ns: 1, value: u128::MAX };
    let one = NewReceiptNotification { id: 2, allocation_id: allocation_id_0(), signer_address: a(SIGNER), timestamp_ns: 2, value: 1 };
    let first = SenderAllocation.handle(SenderAllocationMessage::NewReceipt(big), &mut state, &mut store, &no_request()).unwrap();
    assert!(!first.overflowed);
    let second = SenderAllocation.handle(SenderAllocationMessage::NewReceipt(one), &mut state, &mut store, &no_request()).unwrap();
    assert!(second.overflowed);
    assert_eq!(state.unaggregated_fees(), UnaggregatedReceipts { last_id: 2, value: u128::MAX });
    assert_eq!(
        second.to_sender_account,
        Some(SenderAccountMessage::UpdateReceiptFees(allocation_id_0(), UnaggregatedReceipts { last_id: 2, value: u128::MAX }))
    );
}

#[test]
fn restart_gives_the_total_of_the_running_accounting() {
    let mut store = ReceiptStore::new();
    store.upsert_rav(allocation_id_0(), a(SENDER), 3, 6, sig(1));
    for i in 1..6 {
        store_receipt(&mut store, i, i, 10 * i as u128);
    }
    let mut running = create_sender_allocation(&mut store, DUMMY_URL.to_string());
    for i in 6..10 {
        let n = store_receipt(&mut store, i, i, 10 * i as u128);
        SenderAllocation.handle(SenderAllocationMessage::NewReceipt(n), &mut running, &mut store, &no_request()).unwrap();
    }
    let restarted = create_sender_allocation(&mut store, DUMMY_URL.to_string());
    assert_eq!(restarted.unaggregated_fees(), running.unaggregated_fees());
    assert_eq!(running.unaggregated_fees(), UnaggregatedReceipts { last_id: 9, value: 40 + 50 + 60 + 70 + 80 + 90 });
}

#[test]
fn pre_start_holds_a_total_beyond_128_bits_at_the_maximum() {
    let mut store = ReceiptStore::new();
    store_receipt(&mut store, 1, 1, u128::MAX);
    store_receipt(&mut store, 2, 2, 1);
    store_receipt(&mut store, 3, 3, 1);
    let (state, message, overflowed) = SenderAllocation.pre_start(args(DUMMY_URL.to_string()), &mut store);
    assert!(overflowed);
    assert_eq!(state.unaggregated_fees(), UnaggregatedReceipts { last_id: 3, value: u128::MAX });
    assert_eq!(
        message,
        SenderAccountMessage::UpdateReceiptFees(allocation_id_0(), UnaggregatedReceipts { last_id: 3, value: u128::MAX })
    );
}

#[test]
fn restart_gives_the_held_total_of_the_running_accounting() {
    let mut store = ReceiptStore::new();
    let mut running = create_sender_allocation(&mut store, DUMMY_URL.to_string());
    for (i, value) in [(1u64, u128::MAX - 1), (2, 1), (3, 5)] {
        let n = store_receipt(&mut store, i, i, value);
        SenderAllocation.handle(SenderAllocationMessage::NewReceipt(n), &mut running, &mut store, &no_request()).unwrap();
    }
    let (restarted, _, overflowed) = SenderAllocation.pre_start(args(DUMMY_URL.to_string()), &mut store);
    assert!(overflowed);
    assert_eq!(restarted.unaggregated_fees(), running.unaggregated_fees());
    assert_eq!(running.unaggregated_fees(), UnaggregatedReceipts { last_id: 3, value: u128::MAX });
}

#[test]
fn trigger_holds_the_total_that_is_left_at_the_maximum() {
    let mut store = ReceiptStore::new();
    let cutoff = NOW_NS - 1_000_000;
    store_receipt(&mut store, 1, 1, 10);
    // two receipts inside the buffer, together beyond 128 bits
    store_receipt(&mut store, 2, cutoff + 1, u128::MAX);
    store_receipt(&mut store, 3, cutoff + 2, 1);
    let (mut state, _, overflowed) = SenderAllocation.pre_start(args(DUMMY_URL.to_string()), &mut store);
    assert!(overflowed);
    let outcome = SenderAllocation
        .handle(SenderAllocationMessage::TriggerRAVRequest, &mut state, &mut store, &honest(1, 10))
        .unwrap();
    assert_eq!(
        outcome,
        HandleOutcome {
            to_sender_account: None,
            reply: Some(UnaggregatedReceipts { last_id: 3, value: u128::MAX }),
            stop: false,
            overflowed: true,
        }
    );
    assert_eq!(state.unaggregated_fees(), UnaggregatedReceipts { last_id: 3, value: u128::MAX });
    assert_eq!(store.get_rav(&allocation_id_0(), &a(SENDER)).unwrap().value_aggregate, 10);
    assert_eq!(store.receipt_count(), 2);
}

#[test]
fn post_stop_clears_the_fees_with_the_sender_account() {
    let mut store = ReceiptStore::new();
    store_receipt(&mut store, 1, 1, 5);
    let state = create_sender_allocation(&mut store, DUMMY_URL.to_string());
    assert_eq!(
        SenderAllocation.post_stop(&state),
        SenderAccountMessage::UpdateReceiptFees(allocation_id_0(), UnaggregatedReceipts::default())
    );
}

#[test]
fn state_keeps_what_it_was_started_with() {
    let mut store = ReceiptStore::new();
    let state = create_sender_allocation(&mut store, DUMMY_URL.to_string());
    assert_eq!(state.allocation_id(), allocation_id_0());
    assert_eq!(state.sender(), a(SENDER));
    assert_eq!(state.sender_aggregator_endpoint(), DUMMY_URL);
    assert_eq!(state.config(), config());
    assert_eq!(state.domain_separator(), Eip712Domain { chain_id: 1, verifying_contract: a(INDEXER) });
    assert!(!state.rav_request_in_flight());
}

#[test]
fn trigger_without_receipts_explains_itself() {
    let mut store = ReceiptStore::new();
    let mut state = create_sender_allocation(&mut store, DUMMY_URL.to_string());
    let r = SenderAllocation.handle(SenderAllocationMessage::TriggerRAVRequest, &mut state, &mut store, &honest(0, 0));
    assert_eq!(r, Err(SenderAllocationError::RavRequest { source: RavRequestError::NoValidReceiptsForRavRequest }));
    let hint = no_valid_receipts_hint();
    assert!(hint.contains("no valid receipts"));
    assert!(hint.contains("`rav_request_trigger_value`"));
    assert!(hint.contains("`rav_request_timestamp_buffer_ms`"));
    assert!(!state.rav_request_in_flight());
    assert_eq!(store.get_rav(&allocation_id_0(), &a(SENDER)), None);
}

#[test]
fn receipt_inside_the_buffer_waits_for_the_next_rav() {
    let mut store = ReceiptStore::new();
    // buffer 1 ms: the cutoff is at NOW_NS - 1_000_000
    let cutoff = NOW_NS - 1_000_000;
    store_receipt(&mut store, 1, cutoff - 1, 10);
    store_receipt(&mut store, 2, cutoff, 20);
    store_receipt(&mut store, 3, cutoff + 1, 40);
    let mut state = create_sender_allocation(&mut store, DUMMY_URL.to_string());
    assert_eq!(state.unaggregated_fees().value, 70);

    let reply = SenderAllocation
        .handle(SenderAllocationMessage::TriggerRAVRequest, &mut state, &mut store, &honest(cutoff, 30))
        .unwrap()
        .reply
        .unwrap();

    assert_eq!(reply, UnaggregatedReceipts { last_id: 3, value: 40 });
    assert_eq!(store.receipt_count(), 1);
    assert_eq!(store.receipt_at(0).timestamp_ns, cutoff + 1);
    assert_eq!(store.get_rav(&allocation_id_0(), &a(SENDER)).unwrap().value_aggregate, 30);

    // later, the receipt goes into the next voucher, on top of the first
    let later = RavEnvironment {
        now_ns: NOW_NS + 2_000_000,
        failed_checks: vec![],
        aggregator: Ok(AggregatorResponse { rav: rav(cutoff + 1, 70), recovered_signer: Some(a(SIGNER)) }),
    };
    let reply = SenderAllocation.handle(SenderAllocationMessage::TriggerRAVRequest, &mut state, &mut store, &later).unwrap().reply.unwrap();
    assert_eq!(reply, UnaggregatedReceipts::zero());
    let row = store.get_rav(&allocation_id_0(), &a(SENDER)).unwrap();
    assert_eq!((row.timestamp_ns, row.value_aggregate), (cutoff + 1, 70));
}

#[test]
fn nothing_is_old_enough_when_the_buffer_reaches_before_the_start_of_time() {
    let mut store = ReceiptStore::new();
    store_receipt(&mut store, 1, 0, 10);
    let mut state = create_sender_allocation(&mut store, DUMMY_URL.to_string());
    let env = RavEnvironment { now_ns: 999_999, failed_checks: vec![], aggregator: Err(AggregatorFailure::Timeout) };
    let r = state.rav_requester_single(&mut store, &env);
    assert_eq!(r, Err(RavRequestError::NoValidReceiptsForRavRequest));
    assert_eq!(compute_rav_cutoff(999_999, 1), None);
    assert_eq!(compute_rav_cutoff(1_000_000, 1), Some(0));
    assert_eq!(compute_rav_cutoff(u64::MAX, 18_446_744_073_709), Some(u64::MAX - 18_446_744_073_709_000_000));
    assert_eq!(compute_rav_cutoff(u64::MAX, 18_446_744_073_710), None);
    assert_eq!(compute_rav_cutoff(5, 0), Some(5));
}

#[test]
fn rav_grows_in_value_and_time() {
    let mut store = ReceiptStore::new();
    for i in 1..4 {
        store_receipt(&mut store, i, i, i as u128);
    }
    let mut state = create_sender_allocation(&mut store, DUMMY_URL.to_string());
    assert_eq!(state.rav_requester_single(&mut store, &honest(3, 6)), Ok(()));
    let first = store.get_rav(&allocation_id_0(), &a(SENDER)).unwrap();
    for i in 4..6 {
        store_receipt(&mut store, i, i, i as u128);
    }
    // a receipt the first voucher has left behind: older than the voucher, it
    // never goes into a later one
    store_receipt(&mut store, 9, 2, 1000);
    assert_eq!(state.rav_requester_single(&mut store, &honest(5, 15)), Ok(()));
    let second = store.get_rav(&allocation_id_0(), &a(SENDER)).unwrap();
    assert!(second.value_aggregate >= first.value_aggregate);
    assert!(second.timestamp_ns >= first.timestamp_ns);
    assert_eq!((second.timestamp_ns, second.value_aggregate), (5, 15));
    // the receipt log is left to the recomputation
    assert_eq!(store.receipt_count(), 6);
}

#[test]
fn create_rav_request_gives_what_is_sent() {
    let mut store = ReceiptStore::new();
    store.upsert_rav(allocation_id_0(), a(SENDER), 2, 100, sig(1));
    for i in 1..6 {
        store_receipt(&mut store, i, i, i as u128);
    }
    let mut state = SenderAllocationState::new(args(DUMMY_URL.to_string()));
    // the receipt with id 4 failed a check made outside
    let request = state.create_rav_request(&mut store, NOW_NS, &vec![4]).unwrap();
    assert_eq!(request.valid_receipts.iter().map(|r| r.id).collect::<Vec<_>>(), vec![3, 5]);
    assert_eq!(request.invalid_receipts.iter().map(|r| r.id).collect::<Vec<_>>(), vec![4]);
    assert_eq!(
        request.previous_rav,
        Some(SignedRav {
            message: ReceiptAggregateVoucher { allocation_id: allocation_id_0(), timestamp_ns: 2, value_aggregate: 100 },
            signature: sig(1)
        })
    );
    assert_eq!(
        request.expected_rav,
        ReceiptAggregateVoucher { allocation_id: allocation_id_0(), timestamp_ns: 5, value_aggregate: 108 }
    );
    assert!(state.rav_request_in_flight());
    // the refused receipt is on record
    assert_eq!(store.invalid_receipt_count(), 1);
    assert_eq!(store.receipt_count(), 5);
}

#[test]
fn only_one_rav_request_at_a_time() {
    let mut store = ReceiptStore::new();
    store_receipt(&mut store, 1, 1, 1);
    let mut state = SenderAllocationState::new(args(DUMMY_URL.to_string()));
    assert_eq!(state.verify_and_store_rav(&mut store, Ok(AggregatorResponse { rav: rav(1, 1), recovered_signer: Some(a(SIGNER)) })), Err(RavRequestError::NoRequestInFlight));
    assert_eq!(store.get_rav(&allocation_id_0(), &a(SENDER)), None);
    assert!(state.create_rav_request(&mut store, NOW_NS, &vec![]).is_ok());
    assert_eq!(state.create_rav_request(&mut store, NOW_NS, &vec![]).err(), Some(RavRequestError::RequestInFlight));
    assert_eq!(state.rav_requester_single(&mut store, &honest(1, 1)), Err(RavRequestError::RequestInFlight));
    assert!(state.rav_request_in_flight());
    assert_eq!(state.verify_and_store_rav(&mut store, Ok(AggregatorResponse { rav: rav(1, 1), recovered_signer: Some(a(SIGNER)) })), Ok(()));
    assert!(!state.rav_request_in_flight());
    assert_eq!(state.verify_and_store_rav(&mut store, Err(AggregatorFailure::Transport)), Err(RavRequestError::NoRequestInFlight));
}

#[test]
fn unreachable_aggregator_leaves_everything_as_it_was() {
    let mut store = ReceiptStore::new();
    store_receipt(&mut store, 1, 1, 5);
    let mut state = create_sender_allocation(&mut store, DUMMY_URL.to_string());
    let r = SenderAllocation.handle(SenderAllocationMessage::TriggerRAVRequest, &mut state, &mut store, &no_request());
    assert_eq!(r, Err(SenderAllocationError::RavRequest { source: RavRequestError::AggregatorUnreachable }));
    assert_eq!(state.unaggregated_fees().value, 5);
    assert_eq!(store.receipt_count(), 1);
    assert_eq!(store.get_rav(&allocation_id_0(), &a(SENDER)), None);
    assert_eq!(store.failed_rav_request_count(), 0);
    // the next request can be made
    assert!(!state.rav_request_in_flight());
}

#[test]
fn rav_with_another_value_is_refused_and_recorded() {
    let mut store = ReceiptStore::new();
    store_receipt(&mut store, 1, 1, 5);
    let mut state = create_sender_allocation(&mut store, DUMMY_URL.to_string());
    let r = SenderAllocation.handle(SenderAllocationMessage::TriggerRAVRequest, &mut state, &mut store, &honest(1, 4));
    assert_eq!(
        r,
        Err(SenderAllocationError::RavRequest {
            source: RavRequestError::AggregatorMisbehavior { reason: RavRejection::InvalidReceivedRav }
        })
    );
    assert_eq!(store.get_rav(&allocation_id_0(), &a(SENDER)), None);
    assert_eq!(store.failed_rav_request_count(), 1);
    let failed = store.failed_rav_request_at(0);
    assert_eq!(failed.allocation_id, allocation_id_0());
    assert_eq!(failed.sender_address, a(SENDER));
    assert_eq!(failed.expected_rav, ReceiptAggregateVoucher { allocation_id: allocation_id_0(), timestamp_ns: 1, value_aggregate: 5 });
    assert_eq!(failed.rav_response, rav(1, 4));
    assert_eq!(failed.reason, RavRejection::InvalidReceivedRav);
    assert_eq!(state.unaggregated_fees().value, 5);
    assert_eq!(store.receipt_count(), 1);
}

#[test]
fn rav_with_another_timestamp_or_allocation_is_refused() {
    let mut store = ReceiptStore::new();
    store_receipt(&mut store, 1, 1, 5);
    let mut state = create_sender_allocation(&mut store, DUMMY_URL.to_string());
    assert_eq!(
        state.rav_requester_single(&mut store, &honest(2, 5)),
        Err(RavRequestError::AggregatorMisbehavior { reason: RavRejection::InvalidReceivedRav })
    );
    let mut other = rav(1, 5);
    other.message.allocation_id = a(0x01);
    let env = RavEnvironment { now_ns: NOW_NS, failed_checks: vec![], aggregator: Ok(AggregatorResponse { rav: other, recovered_signer: Some(a(SIGNER)) }) };
    assert_eq!(
        state.rav_requester_single(&mut store, &env),
        Err(RavRequestError::AggregatorMisbehavior { reason: RavRejection::InvalidReceivedRav })
    );
    assert_eq!(store.failed_rav_request_count(), 2);
}

#[test]
fn rav_without_recoverable_signer_is_refused() {
    let mut store = ReceiptStore::new();
    store_receipt(&mut store, 1, 1, 5);
    let mut state = create_sender_allocation(&mut store, DUMMY_URL.to_string());
    let env = RavEnvironment { now_ns: NOW_NS, failed_checks: vec![], aggregator: Ok(AggregatorResponse { rav: rav(1, 5), recovered_signer: None }) };
    assert_eq!(
        state.rav_requester_single(&mut store, &env),
        Err(RavRequestError::AggregatorMisbehavior { reason: RavRejection::SignatureError })
    );
    assert_eq!(store.failed_rav_request_at(0).reason, RavRejection::SignatureError);
    assert_eq!(store.get_rav(&allocation_id_0(), &a(SENDER)), None);
}

#[test]
fn rav_signed_by_a_stranger_is_refused() {
    let mut store = ReceiptStore::new();
    store_receipt(&mut store, 1, 1, 5);
    let mut state = create_sender_allocation(&mut store, DUMMY_URL.to_string());
    // the signer is looked at before the voucher: this one is wrong in both
    let env = RavEnvironment { now_ns: NOW_NS, failed_checks: vec![], aggregator: Ok(AggregatorResponse { rav: rav(1, 4), recovered_signer: Some(a(0x99)) }) };
    assert_eq!(
        state.rav_requester_single(&mut store, &env),
        Err(RavRequestError::AggregatorMisbehavior { reason: RavRejection::InvalidRecoveredSigner { address: a(0x99) } })
    );
    assert_eq!(store.failed_rav_request_at(0).reason, RavRejection::InvalidRecoveredSigner { address: a(0x99) });
}

#[test]
fn rav_value_beyond_128_bits_is_not_requested() {
    let mut store = ReceiptStore::new();
    store.upsert_rav(allocation_id_0(), a(SENDER), 1, u128::MAX, sig(1));
    store_receipt(&mut store, 1, 2, 1);
    let mut state = create_sender_allocation(&mut store, DUMMY_URL.to_string());
    assert_eq!(state.rav_requester_single(&mut store, &honest(2, 0)), Err(RavRequestError::AggregateOverflow));
    assert!(!state.rav_request_in_flight());
    assert_eq!(store.get_rav(&allocation_id_0(), &a(SENDER)).unwrap().value_aggregate, u128::MAX);
}

#[test]
fn receipts_that_failed_checks_stay_out_of_the_rav() {
    let mut store = ReceiptStore::new();
    for i in 1..5 {
        store_receipt(&mut store, i, i, 10 * i as u128);
    }
    let mut state = create_sender_allocation(&mut store, DUMMY_URL.to_string());
    let env = RavEnvironment {
        now_ns: NOW_NS,
        failed_checks: vec![2, 4, 77],
        aggregator: Ok(AggregatorResponse { rav: rav(3, 40), recovered_signer: Some(a(SIGNER)) }),
    };
    let reply = SenderAllocation.handle(SenderAllocationMessage::TriggerRAVRequest, &mut state, &mut store, &env).unwrap().reply.unwrap();
    assert_eq!(store.get_rav(&allocation_id_0(), &a(SENDER)).unwrap().value_aggregate, 40);
    assert_eq!(store.invalid_receipt_count(), 2);
    // the receipt with timestamp 4 is newer than the voucher and still counts
    assert_eq!(reply, UnaggregatedReceipts { last_id: 4, value: 40 });
    assert_eq!(store.receipt_count(), 1);
}

#[test]
fn all_receipts_failing_checks_is_no_valid_receipts() {
    let mut store = ReceiptStore::new();
    store_receipt(&mut store, 1, 1, 5);
    let mut state = create_sender_allocation(&mut store, DUMMY_URL.to_string());
    let env = RavEnvironment { now_ns: NOW_NS, failed_checks: vec![1], aggregator: Err(AggregatorFailure::Timeout) };
    assert_eq!(state.rav_requester_single(&mut store, &env), Err(RavRequestError::NoValidReceiptsForRavRequest));
    // nothing is recorded where no request is made
    assert_eq!(store.invalid_receipt_count(), 0);
}

#[test]
fn receipts_of_other_pairs_are_not_touched() {
    let mut store = ReceiptStore::new();
    store_receipt(&mut store, 1, 1, 5);
    store.insert_receipt(a(SIGNER), a(0x01), sig(900), 0, 1, 50).unwrap();
    store.insert_receipt(a(0x77), allocation_id_0(), sig(901), 0, 1, 60).unwrap();
    store.upsert_rav(a(0x01), a(SENDER), 9, 9, sig(902));
    let mut state = create_sender_allocation(&mut store, DUMMY_URL.to_string());
    assert_eq!(state.unaggregated_fees().value, 5);
    let reply = SenderAllocation.handle(SenderAllocationMessage::TriggerRAVRequest, &mut state, &mut store, &honest(1, 5)).unwrap().reply.unwrap();
    assert_eq!(reply.value, 0);
    assert_eq!(store.receipt_count(), 2);
    assert_eq!(store.get_rav(&a(0x01), &a(SENDER)).unwrap().value_aggregate, 9);
}

#[test]
fn close_allocation() {
    let mut store = ReceiptStore::new();
    for i in 1..4 {
        store_receipt(&mut store, i, i, i as u128);
    }
    let mut state = create_sender_allocation(&mut store, DUMMY_URL.to_string());
    let outcome = SenderAllocation.handle(SenderAllocationMessage::CloseAllocation, &mut state, &mut store, &honest(3, 6)).unwrap();
    assert_eq!(outcome, HandleOutcome { to_sender_account: None, reply: None, stop: true, overflowed: false });
    let row = store.get_rav(&allocation_id_0(), &a(SENDER)).unwrap();
    assert!(row.is_final);
    assert_eq!((row.timestamp_ns, row.value_aggregate), (3, 6));
    // stopping clears the fees with the sender's account
    assert_eq!(
        SenderAllocation.post_stop(&state),
        SenderAccountMessage::UpdateReceiptFees(allocation_id_0(), UnaggregatedReceipts { last_id: 0, value: 0 })
    );
}

#[test]
fn close_allocation_without_a_rav_does_not_stop() {
    let mut store = ReceiptStore::new();
    let mut state = create_sender_allocation(&mut store, DUMMY_URL.to_string());
    let r = SenderAllocation.handle(SenderAllocationMessage::CloseAllocation, &mut state, &mut store, &honest(0, 0));
    assert_eq!(r, Err(SenderAllocationError::RavRequest { source: RavRequestError::NoValidReceiptsForRavRequest }));
}

#[test]
fn mark_rav_needs_exactly_one_row() {
    let mut store = ReceiptStore::new();
    let state = SenderAllocationState::new(args(DUMMY_URL.to_string()));
    assert_eq!(state.mark_rav_last(&mut store), Err(SenderAllocationError::RavNotMarked { rows_affected: 0 }));
    assert_eq!(state.mark_rav_final(&mut store), Err(SenderAllocationError::RavNotMarked { rows_affected: 0 }));
    store.upsert_rav(allocation_id_0(), a(SENDER), 1, 1, sig(1));
    assert_eq!(state.mark_rav_last(&mut store), Ok(()));
    assert!(store.get_rav(&allocation_id_0(), &a(SENDER)).unwrap().last);
    assert!(!store.get_rav(&allocation_id_0(), &a(SENDER)).unwrap().is_final);
    assert_eq!(state.mark_rav_final(&mut store), Ok(()));
    assert!(store.get_rav(&allocation_id_0(), &a(SENDER)).unwrap().is_final);
    assert_eq!(check_rows_affected(1), Ok(()));
    assert_eq!(check_rows_affected(0), Err(SenderAllocationError::RavNotMarked { rows_affected: 0 }));
    assert_eq!(check_rows_affected(2), Err(SenderAllocationError::RavNotMarked { rows_affected: 2 }));
}

#[test]
fn store_invalid_receipts_and_failed_rav() {
    let mut store = ReceiptStore::new();
    let state = SenderAllocationState::new(args(DUMMY_URL.to_string()));
    let row = ReceiptRow { id: 5, allocation_id: allocation_id_0(), signer_address: a(SIGNER), signature: sig(5), timestamp_ns: 5, nonce: 5, value: 5 };
    assert_eq!(state.store_invalid_receipts(&mut store, &vec![row, row]), Ok(()));
    assert_eq!(store.invalid_receipt_count(), 2);
    let expected = ReceiptAggregateVoucher { allocation_id: allocation_id_0(), timestamp_ns: 5, value_aggregate: 5 };
    state.store_failed_rav(&mut store, &expected, &rav(5, 6), RavRejection::InvalidReceivedRav);
    assert_eq!(store.failed_rav_request_count(), 1);
    assert_eq!(store.failed_rav_request_at(0).sender_address, a(SENDER));
    assert_eq!(store.failed_rav_request_at(0).rav_response, rav(5, 6));
}

#[test]
fn new_signers_count_after_the_escrow_snapshot_is_replaced() {
    let mut store = ReceiptStore::new();
    store_receipt(&mut store, 1, 1, 5);
    store.insert_receipt(a(0x77), allocation_id_0(), sig(901), 0, 1, 60).unwrap();
    let mut state = create_sender_allocation(&mut store, DUMMY_URL.to_string());
    assert_eq!(state.calculate_unaggregated_fee(&mut store), (UnaggregatedReceipts { last_id: 1, value: 5 }, false));
    state.update_escrow_accounts(EscrowAccounts::new(
        AddressMap::from_entries(vec![(a(SENDER), U256::from_u128(1))]),
        AddressMap::from_entries(vec![(a(SENDER), vec![a(SIGNER), a(0x77)])]),
    ));
    assert_eq!(state.calculate_unaggregated_fee(&mut store), (UnaggregatedReceipts { last_id: 2, value: 65 }, false));
}

#[test]
fn helpers_for_a_rav_request() {
    let rows: Vec<ReceiptRow> = (1..5u64)
        .map(|i| ReceiptRow { id: i, allocation_id: allocation_id_0(), signer_address: a(SIGNER), signature: sig(i), timestamp_ns: 10 - i, nonce: 0, value: i as u128 })
        .collect();
    assert_eq!(checked_total(&rows), Some(10));
    assert_eq!(checked_total(&vec![]), Some(0));
    assert_eq!(latest_timestamp_of(&rows), 9);
    assert_eq!(latest_timestamp_of(&vec![]), 0);
    let (valid, invalid) = split_by_checks(&rows, &vec![3, 1]);
    assert_eq!(valid.iter().map(|r| r.id).collect::<Vec<_>>(), vec![2, 4]);
    assert_eq!(invalid.iter().map(|r| r.id).collect::<Vec<_>>(), vec![1, 3]);
    let mut big = rows.clone();
    big[0].value = u128::MAX;
    assert_eq!(checked_total(&big), None);
}

#[test]
fn rav_request_fails_where_a_refused_receipt_cannot_be_recorded() {
    // the table of refused receipts has one id left
    let mut store = ReceiptStore::with_next_ids(1, u64::MAX - 1);
    store_receipt(&mut store, 1, 1, 5);
    store_receipt(&mut store, 2, 2, 6);
    store_receipt(&mut store, 3, 3, 7);
    let mut state = create_sender_allocation(&mut store, DUMMY_URL.to_string());
    let env = RavEnvironment {
        now_ns: NOW_NS,
        failed_checks: vec![2, 3],
        aggregator: Ok(AggregatorResponse { rav: rav(1, 5), recovered_signer: Some(a(SIGNER)) }),
    };
    assert_eq!(
        state.rav_requester_single(&mut store, &env),
        Err(RavRequestError::Storage { source: StorageError::IdsExhausted })
    );
    assert!(!state.rav_request_in_flight());
    assert_eq!(store.get_rav(&allocation_id_0(), &a(SENDER)), None);
    // the refused receipt before the failing one is on record
    assert_eq!(store.invalid_receipt_count(), 1);
    assert_eq!(store.invalid_receipt_at(0).timestamp_ns, 2);
    assert_eq!(store.invalid_receipt_at(0).id, u64::MAX - 1);
    assert_eq!(store.receipt_count(), 3);
}

#[test]
fn store_invalid_receipts_stops_at_the_first_that_fails() {
    let mut store = ReceiptStore::with_next_ids(1, u64::MAX - 1);
    let state = SenderAllocationState::new(args(DUMMY_URL.to_string()));
    let row = |n: u64| ReceiptRow { id: n, allocation_id: allocation_id_0(), signer_address: a(SIGNER), signature: sig(n), timestamp_ns: n, nonce: n, value: n as u128 };
    assert_eq!(state.store_invalid_receipts(&mut store, &vec![row(5), row(6)]), Err(StorageError::IdsExhausted));
    assert_eq!(store.invalid_receipt_count(), 1);
    assert_eq!(store.invalid_receipt_at(0), ReceiptRow { id: u64::MAX - 1, ..row(5) });
}
