//! Accounting for one (allocation, sender) pair: the unaggregated-fee total,
//! requests for receipt aggregate vouchers, and the closing of the allocation.

use vstd::prelude::*;

use crate::address::Address;
use crate::escrow::EscrowAccounts;
use crate::receipt::{Eip712Domain, NewReceiptNotification, ReceiptAggregateVoucher, SignedRav};
use crate::sender_account::SenderAccountMessage;
use crate::store::{
    counted, counted_until, every, is_row_of, kept_after, lemma_select_members,
    max_id_where, max_timestamp_where, recordable, same_but_rav, same_tables, select, stamped,
    sum_where, FailedRavRequest, RavRejection, RavRow, ReceiptRow, ReceiptStore, StorageError,
};
use crate::unaggregated_receipts::{held_at_max, UnaggregatedReceipts};

verus! {

/// Manages unaggregated fees and the voucher lifecycle of one (allocation,
/// sender) pair.
#[derive(Clone, Copy, Debug, PartialEq, Eq, Structural)]
pub struct SenderAllocation;

/// What configuration says about voucher requests.
#[derive(Clone, Copy, Debug, PartialEq, Eq, Structural)]
pub struct TapConfig {
    /// Unaggregated fees of a sender at which a voucher is requested.
    pub rav_request_trigger_value: u128,
    /// Receipts newer than this many milliseconds are left for the next
    /// voucher.
    pub rav_request_timestamp_buffer_ms: u64,
    /// How long the aggregator is given to answer.
    pub rav_request_timeout_secs: u64,
}

/// What a pair's accounting is started with.
pub struct SenderAllocationArgs {
    pub config: TapConfig,
    pub allocation_id: Address,
    pub sender: Address,
    pub escrow_accounts: EscrowAccounts,
    pub domain_separator: Eip712Domain,
    pub sender_aggregator_endpoint: String,
}

/// The messages that a pair's accounting takes.
#[derive(Clone, Copy, Debug, PartialEq, Eq)]
pub enum SenderAllocationMessage {
    /// The store recorded a receipt of the pair.
    NewReceipt(NewReceiptNotification),
    /// The sender's account asks for a voucher.
    TriggerRAVRequest,
    /// The allocation is closed: a last voucher is due.
    CloseAllocation,
    /// Somebody asks for the current total.
    GetUnaggregatedReceipts,
}

/// What is sent to the aggregator and what is expected back.
#[derive(Clone, Debug, PartialEq, Eq)]
pub struct RavRequest {
    pub valid_receipts: Vec<ReceiptRow>,
    pub previous_rav: Option<SignedRav>,
    pub invalid_receipts: Vec<ReceiptRow>,
    pub expected_rav: ReceiptAggregateVoucher,
}

/// What the aggregator answered, with the signer recovered from the voucher's
/// signature (none where recovery failed).
#[derive(Clone, Copy, Debug, PartialEq, Eq)]
pub struct AggregatorResponse {
    pub rav: SignedRav,
    pub recovered_signer: Option<Address>,
}

/// Why the aggregator gave no answer.
#[derive(Clone, Copy, Debug, PartialEq, Eq, Structural)]
pub enum AggregatorFailure {
    /// The aggregator did not answer within the configured time.
    Timeout,
    /// The aggregator could not be reached or the answer could not be read.
    Transport,
}

/// Why a voucher request failed.
#[derive(Clone, Copy, Debug, PartialEq, Eq)]
pub enum RavRequestError {
    /// A request of this pair is still under way.
    RequestInFlight,
    /// No request of this pair is under way.
    NoRequestInFlight,
    /// No receipt of the pair is old enough and valid.
    NoValidReceiptsForRavRequest,
    /// The voucher's value would not fit in 128 bits.
    AggregateOverflow,
    /// The store refused a statement.
    Storage { source: StorageError },
    /// The aggregator did not answer in time or could not be reached.
    AggregatorUnreachable,
    /// The aggregator answered with a voucher that cannot be accepted.
    AggregatorMisbehavior { reason: RavRejection },
}

/// Why a message could not be handled.
#[derive(Clone, Copy, Debug, PartialEq, Eq)]
pub enum SenderAllocationError {
    /// The voucher request failed.
    RavRequest { source: RavRequestError },
    /// Marking the voucher updated this many rows and not one.
    RavNotMarked { rows_affected: u64 },
}

/// What handling a message leads to besides the new state.
#[derive(Clone, Copy, Debug, PartialEq, Eq)]
pub struct HandleOutcome {
    /// What the sender's account is told.
    pub to_sender_account: Option<SenderAccountMessage>,
    /// What the one who asked is answered.
    pub reply: Option<UnaggregatedReceipts>,
    /// Whether the accounting of the pair ends.
    pub stop: bool,
    /// Whether the total had to be held at `u128::MAX`.
    pub overflowed: bool,
}

/// What is known when a message is handled: the time, which receipts failed
/// the checks made outside, and what the aggregator answers to a request.
pub struct RavEnvironment {
    pub now_ns: u64,
    pub failed_checks: Vec<u64>,
    pub aggregator: Result<AggregatorResponse, AggregatorFailure>,
}

/// The latest timestamp a receipt may have to go into a voucher requested
/// now: the buffer before now. None where the buffer reaches back before the
/// start of time.
pub open spec fn rav_cutoff(now_ns: u64, buffer_ms: u64) -> Option<u64> {
    if buffer_ms * 1_000_000 <= now_ns {
        Some((now_ns - buffer_ms * 1_000_000) as u64)
    } else {
        None
    }
}

/// The receipts that did not fail the checks made outside.
pub open spec fn passed(failed: Seq<u64>) -> spec_fn(ReceiptRow) -> bool {
    |r: ReceiptRow| !failed.contains(r.id)
}

/// The receipts that failed the checks made outside.
pub open spec fn refused(failed: Seq<u64>) -> spec_fn(ReceiptRow) -> bool {
    |r: ReceiptRow| failed.contains(r.id)
}

/// The receipts of a pair that a voucher requested now would cover: those
/// newer than the previous voucher and not newer than the cutoff.
pub open spec fn candidates(
    rows: Seq<ReceiptRow>,
    allocation: Address,
    signers: Seq<Address>,
    previous: Option<u64>,
    cutoff: Option<u64>,
) -> Seq<ReceiptRow> {
    match cutoff {
        Some(c) => select(rows, counted_until(allocation, signers, previous, c)),
        None => Seq::empty(),
    }
}

/// The sum of the values of the rows.
pub open spec fn total_value(rows: Seq<ReceiptRow>) -> nat {
    sum_where(rows, every())
}

/// The latest timestamp of the rows, zero for none.
pub open spec fn latest_timestamp(rows: Seq<ReceiptRow>) -> u64 {
    match max_timestamp_where(rows, every()) {
        Some(t) => t,
        None => 0,
    }
}

/// The value of a pair's latest voucher, zero for none.
pub open spec fn rav_value(rav: Option<RavRow>) -> u128 {
    match rav {
        Some(row) => row.value_aggregate,
        None => 0,
    }
}

/// A pair's latest voucher as it is sent to the aggregator.
pub open spec fn signed_rav_of(rav: Option<RavRow>) -> Option<SignedRav> {
    match rav {
        Some(row) => Some(
            SignedRav {
                message: ReceiptAggregateVoucher {
                    allocation_id: row.allocation_id,
                    timestamp_ns: row.timestamp_ns,
                    value_aggregate: row.value_aggregate,
                },
                signature: row.signature,
            },
        ),
        None => None,
    }
}

/// The timestamp of a pair's latest voucher, if there is one.
pub open spec fn rav_timestamp_of(rav: Option<RavRow>) -> Option<u64> {
    match rav {
        Some(row) => Some(row.timestamp_ns),
        None => None,
    }
}

/// The total that the receipt log gives for a pair: highest id and sum of
/// the values of the pair's receipts newer than its latest voucher, the sum
/// held at `u128::MAX`.
pub open spec fn unaggregated_of(
    rows: Seq<ReceiptRow>,
    allocation: Address,
    signers: Seq<Address>,
    rav_timestamp_ns: Option<u64>,
) -> UnaggregatedReceipts {
    UnaggregatedReceipts {
        last_id: match max_id_where(rows, counted(allocation, signers, rav_timestamp_ns)) {
            Some(m) => m,
            None => 0,
        },
        value: held_at_max(sum_where(rows, counted(allocation, signers, rav_timestamp_ns))),
    }
}

/// What is to be made of the aggregator's answer: nothing to object, or the
/// first reason to refuse it. The signer is looked at first, then the voucher.
pub open spec fn rav_verdict(
    expected: ReceiptAggregateVoucher,
    response: AggregatorResponse,
    escrow: EscrowAccounts,
    sender: Address,
) -> Option<RavRejection> {
    if response.recovered_signer is None {
        Some(RavRejection::SignatureError)
    } else if !escrow.is_signer_of(response.recovered_signer->0, sender) {
        Some(RavRejection::InvalidRecoveredSigner { address: response.recovered_signer->0 })
    } else if response.rav.message != expected {
        Some(RavRejection::InvalidReceivedRav)
    } else {
        None
    }
}

/// The explanation given where a voucher was requested and no receipt could
/// go into it.
pub fn no_valid_receipts_hint() -> (s: &'static str)
    ensures
        s@
            == "It looks like there are no valid receipts for the RAV request.This may happen if your `rav_request_trigger_value` is too low and no receipts were found outside the `rav_request_timestamp_buffer_ms`.You can fix this by increasing the `rav_request_trigger_value`."@,
{
    "It looks like there are no valid receipts for the RAV request.This may happen if your `rav_request_trigger_value` is too low and no receipts were found outside the `rav_request_timestamp_buffer_ms`.You can fix this by increasing the `rav_request_trigger_value`."
}

/// The latest timestamp a receipt may have to go into a voucher requested
/// now.
pub fn compute_rav_cutoff(now_ns: u64, buffer_ms: u64) -> (r: Option<u64>)
    ensures
        r == rav_cutoff(now_ns, buffer_ms),
{
    match buffer_ms.checked_mul(1_000_000) {
        Some(buffer_ns) => {
            if buffer_ns <= now_ns {
                Some(now_ns - buffer_ns)
            } else {
                None
            }
        },
        None => None,
    }
}

fn contains_id(ids: &Vec<u64>, id: u64) -> (r: bool)
    ensures
        r == ids@.contains(id),
{
    let mut i: usize = 0;
    while i < ids.len()
        invariant
            i <= ids.len(),
            forall|j: int| 0 <= j < i ==> ids@[j] != id,
        decreases ids.len() - i,
    {
        if ids[i] == id {
            return true;
        }
        i += 1;
    }
    false
}

/// The sum of the values of the rows, if it fits in 128 bits.
pub fn checked_total(rows: &Vec<ReceiptRow>) -> (r: Option<u128>)
    ensures
        r is Some <==> total_value(rows@) <= u128::MAX,
        r matches Some(v) ==> v == total_value(rows@),
{
    let mut sum: u128 = 0;
    let mut i: usize = 0;
    while i < rows.len()
        invariant
            i <= rows.len(),
            sum == total_value(rows@.take(i as int)),
        decreases rows.len() - i,
    {
        proof {
            assert(rows@.take(i as int + 1).drop_last() =~= rows@.take(i as int));
            assert(rows@.take(i as int + 1).last() == rows@[i as int]);
        }
        match sum.checked_add(rows[i].value) {
            Some(v) => {
                sum = v;
            },
            None => {
                proof {
                    crate::store::lemma_sum_where_prefix(rows@, every(), i as int + 1);
                }
                return None;
            },
        }
        i += 1;
    }
    proof {
        assert(rows@.take(rows@.len() as int) =~= rows@);
    }
    Some(sum)
}

/// The latest timestamp of the rows, zero for none.
pub fn latest_timestamp_of(rows: &Vec<ReceiptRow>) -> (r: u64)
    ensures
        r == latest_timestamp(rows@),
{
    let mut latest: Option<u64> = None;
    let mut i: usize = 0;
    while i < rows.len()
        invariant
            i <= rows.len(),
            latest == max_timestamp_where(rows@.take(i as int), every()),
        decreases rows.len() - i,
    {
        proof {
            assert(rows@.take(i as int + 1).drop_last() =~= rows@.take(i as int));
            assert(rows@.take(i as int + 1).last() == rows@[i as int]);
        }
        let t: u64 = rows[i].timestamp_ns;
        latest = match latest {
            Some(m) => Some(if t > m { t } else { m }),
            None => Some(t),
        };
        i += 1;
    }
    proof {
        assert(rows@.take(rows@.len() as int) =~= rows@);
    }
    match latest {
        Some(t) => t,
        None => 0,
    }
}

/// Parts the candidates into those that passed the checks made outside and
/// those that failed them.
pub fn split_by_checks(rows: &Vec<ReceiptRow>, failed_checks: &Vec<u64>) -> (r: (
    Vec<ReceiptRow>,
    Vec<ReceiptRow>,
))
    ensures
        r.0@ == select(rows@, passed(failed_checks@)),
        r.1@ == select(rows@, refused(failed_checks@)),
{
    let mut valid: Vec<ReceiptRow> = Vec::new();
    let mut invalid: Vec<ReceiptRow> = Vec::new();
    let mut i: usize = 0;
    while i < rows.len()
        invariant
            i <= rows.len(),
            valid@ == select(rows@.take(i as int), passed(failed_checks@)),
            invalid@ == select(rows@.take(i as int), refused(failed_checks@)),
        decreases rows.len() - i,
    {
        proof {
            assert(rows@.take(i as int + 1).drop_last() =~= rows@.take(i as int));
            assert(rows@.take(i as int + 1).last() == rows@[i as int]);
        }
        let row = rows[i];
        if contains_id(failed_checks, row.id) {
            invalid.push(row);
        } else {
            valid.push(row);
        }
        i += 1;
    }
    proof {
        assert(rows@.take(rows@.len() as int) =~= rows@);
    }
    (valid, invalid)
}

/// The latest timestamp of one or more rows is the timestamp of one of them.
pub proof fn lemma_latest_timestamp_is_member(rows: Seq<ReceiptRow>)
    requires
        rows.len() > 0,
    ensures
        exists|i: int| 0 <= i < rows.len() && (#[trigger] rows[i]).timestamp_ns == latest_timestamp(rows),
        forall|i: int| 0 <= i < rows.len() ==> (#[trigger] rows[i]).timestamp_ns <= latest_timestamp(rows),
    decreases rows.len(),
{
    let init = rows.drop_last();
    if init.len() == 0 {
        assert(rows[0] == rows.last());
        assert(max_timestamp_where(init, every()) is None);
    } else {
        lemma_latest_timestamp_is_member(init);
        assert(every()(rows.last()));
        let i = choose|i: int|
            0 <= i < init.len() && (#[trigger] init[i]).timestamp_ns == latest_timestamp(init);
        assert(rows[i] == init[i]);
        assert(max_timestamp_where(init, every()) is Some);
        if rows.last().timestamp_ns > latest_timestamp(init) {
            assert(rows[rows.len() - 1].timestamp_ns == latest_timestamp(rows));
        } else {
            assert(rows[i].timestamp_ns == latest_timestamp(rows));
        }
        assert forall|j: int| 0 <= j < rows.len() implies (#[trigger] rows[j]).timestamp_ns
            <= latest_timestamp(rows) by {
            if j < init.len() {
                assert(rows[j] == init[j]);
            }
        }
    }
}

/// The voucher expected for valid receipts on top of a previous voucher: the
/// sum of both, as of the latest of the receipts.
pub open spec fn expected_rav_for(
    allocation: Address,
    previous: Option<RavRow>,
    valid: Seq<ReceiptRow>,
) -> ReceiptAggregateVoucher {
    ReceiptAggregateVoucher {
        allocation_id: allocation,
        timestamp_ns: latest_timestamp(valid),
        value_aggregate: (rav_value(previous) + total_value(valid)) as u128,
    }
}

/// Makes a voucher request of the candidates for it: they are parted by the
/// checks made outside, and the voucher expected for the valid ones on top of
/// the previous voucher is worked out. Without a valid receipt there is no
/// request, nor where the voucher's value would not fit in 128 bits.
pub fn plan_rav_request(
    allocation_id: Address,
    previous: Option<RavRow>,
    candidates: &Vec<ReceiptRow>,
    failed_checks: &Vec<u64>,
) -> (r: Result<RavRequest, RavRequestError>)
    ensures
        ({
            let valid = select(candidates@, passed(failed_checks@));
            let invalid = select(candidates@, refused(failed_checks@));
            if valid.len() == 0 {
                r == Err::<RavRequest, RavRequestError>(RavRequestError::NoValidReceiptsForRavRequest)
            } else if rav_value(previous) + total_value(valid) > u128::MAX {
                r == Err::<RavRequest, RavRequestError>(RavRequestError::AggregateOverflow)
            } else {
                &&& r matches Ok(request)
                &&& request.valid_receipts@ == valid
                &&& request.invalid_receipts@ == invalid
                &&& request.previous_rav == signed_rav_of(previous)
                &&& request.expected_rav == expected_rav_for(allocation_id, previous, valid)
            }
        }),
{
    let (valid, invalid) = split_by_checks(candidates, failed_checks);
    if valid.len() == 0 {
        return Err(RavRequestError::NoValidReceiptsForRavRequest);
    }
    let previous_value: u128 = match previous {
        Some(rav) => rav.value_aggregate,
        None => 0,
    };
    let value_aggregate = match checked_total(&valid) {
        Some(total) => match previous_value.checked_add(total) {
            Some(v) => v,
            None => {
                return Err(RavRequestError::AggregateOverflow);
            },
        },
        None => {
            return Err(RavRequestError::AggregateOverflow);
        },
    };
    let expected_rav = ReceiptAggregateVoucher {
        allocation_id,
        timestamp_ns: latest_timestamp_of(&valid),
        value_aggregate,
    };
    let previous_rav = match previous {
        Some(row) => Some(
            SignedRav {
                message: ReceiptAggregateVoucher {
                    allocation_id: row.allocation_id,
                    timestamp_ns: row.timestamp_ns,
                    value_aggregate: row.value_aggregate,
                },
                signature: row.signature,
            },
        ),
        None => None,
    };
    Ok(RavRequest { valid_receipts: valid, previous_rav, invalid_receipts: invalid, expected_rav })
}

/// Looks at the aggregator's answer: the signer first, then the voucher.
/// Returns the first reason to refuse the answer, if there is one.
pub fn check_rav_response(
    expected: &ReceiptAggregateVoucher,
    response: &AggregatorResponse,
    escrow: &EscrowAccounts,
    sender: &Address,
) -> (r: Option<RavRejection>)
    ensures
        r == rav_verdict(*expected, *response, *escrow, *sender),
{
    match response.recovered_signer {
        None => Some(RavRejection::SignatureError),
        Some(signer) => {
            let signers = escrow.get_signers_for_sender(sender);
            if !crate::escrow::contains_address(&signers, &signer) {
                Some(RavRejection::InvalidRecoveredSigner { address: signer })
            } else if !response.rav.message.same_as(expected) {
                Some(RavRejection::InvalidReceivedRav)
            } else {
                None
            }
        },
    }
}

/// The state of a pair's accounting.
pub struct SenderAllocationState {
    unaggregated_fees: UnaggregatedReceipts,
    allocation_id: Address,
    sender: Address,
    sender_aggregator_endpoint: String,
    config: TapConfig,
    escrow_accounts: EscrowAccounts,
    domain_separator: Eip712Domain,
    pending: Option<ReceiptAggregateVoucher>,
}

/// What a voucher request would be made of.
pub struct RavPlan {
    pub previous: Option<RavRow>,
    pub valid: Seq<ReceiptRow>,
    pub invalid: Seq<ReceiptRow>,
}

impl SenderAllocationState {
    /// The unaggregated fees of the pair.
    pub closed spec fn fees(&self) -> UnaggregatedReceipts {
        self.unaggregated_fees
    }

    /// The allocation of the pair.
    pub closed spec fn allocation(&self) -> Address {
        self.allocation_id
    }

    /// The sender of the pair.
    pub closed spec fn sender_address(&self) -> Address {
        self.sender
    }

    /// The escrow snapshot that the accounting works with.
    pub closed spec fn escrow(&self) -> EscrowAccounts {
        self.escrow_accounts
    }

    /// What configuration says about voucher requests.
    pub closed spec fn tap_config(&self) -> TapConfig {
        self.config
    }

    /// The domain under which receipts and vouchers are signed.
    pub closed spec fn domain(&self) -> Eip712Domain {
        self.domain_separator
    }

    /// Where the sender's aggregator is reached.
    pub closed spec fn endpoint(&self) -> Seq<char> {
        self.sender_aggregator_endpoint@
    }

    /// The voucher that the request under way expects, if one is under way.
    pub closed spec fn pending(&self) -> Option<ReceiptAggregateVoucher> {
        self.pending
    }

    /// The keys that may sign for the sender.
    pub open spec fn signers(&self) -> Seq<Address> {
        self.escrow().signers_of(self.sender_address())
    }

    /// Whether two states belong to the same pair and work with the same
    /// snapshot and configuration.
    pub open spec fn same_setup(&self, other: &SenderAllocationState) -> bool {
        &&& self.allocation() == other.allocation()
        &&& self.sender_address() == other.sender_address()
        &&& self.escrow() == other.escrow()
        &&& self.tap_config() == other.tap_config()
        &&& self.domain() == other.domain()
        &&& self.endpoint() == other.endpoint()
    }

    /// What a voucher requested now would be made of: the pair's latest
    /// voucher and the candidates, parted by the checks made outside.
    pub open spec fn plan(&self, store: ReceiptStore, now_ns: u64, failed: Seq<u64>) -> RavPlan {
        let previous = store.rav(self.allocation(), self.sender_address());
        let rows = candidates(
            store.receipts(),
            self.allocation(),
            self.signers(),
            rav_timestamp_of(previous),
            rav_cutoff(now_ns, self.tap_config().rav_request_timestamp_buffer_ms),
        );
        RavPlan {
            previous,
            valid: select(rows, passed(failed)),
            invalid: select(rows, refused(failed)),
        }
    }

    /// The voucher that the aggregator is expected to return: the sum of
    /// the previous voucher and the valid receipts, as of the latest of them.
    pub open spec fn expected_rav(&self, plan: RavPlan) -> ReceiptAggregateVoucher {
        expected_rav_for(self.allocation(), plan.previous, plan.valid)
    }

    /// Why no voucher can be requested, if it cannot.
    pub open spec fn request_error(&self, store: ReceiptStore, plan: RavPlan) -> Option<RavRequestError> {
        if self.pending() is Some {
            Some(RavRequestError::RequestInFlight)
        } else if plan.valid.len() == 0 {
            Some(RavRequestError::NoValidReceiptsForRavRequest)
        } else if rav_value(plan.previous) + total_value(plan.valid) > u128::MAX {
            Some(RavRequestError::AggregateOverflow)
        } else if store.next_invalid_id() + plan.invalid.len() > u64::MAX {
            Some(RavRequestError::Storage { source: StorageError::IdsExhausted })
        } else {
            None
        }
    }

    /// The row that an accepted voucher becomes.
    pub open spec fn rav_row(
        &self,
        previous: Option<RavRow>,
        expected: ReceiptAggregateVoucher,
        response: AggregatorResponse,
    ) -> RavRow {
        RavRow {
            allocation_id: self.allocation(),
            sender_address: self.sender_address(),
            timestamp_ns: expected.timestamp_ns,
            value_aggregate: expected.value_aggregate,
            signature: response.rav.signature,
            last: match previous {
                Some(row) => row.last,
                None => false,
            },
            is_final: match previous {
                Some(row) => row.is_final,
                None => false,
            },
        }
    }

    /// The state that a pair's accounting starts from: nothing owed, no
    /// request under way.
    pub fn new(args: SenderAllocationArgs) -> (s: SenderAllocationState)
        ensures
            s.fees() == (UnaggregatedReceipts { last_id: 0, value: 0 }),
            s.allocation() == args.allocation_id,
            s.sender_address() == args.sender,
            s.escrow() == args.escrow_accounts,
            s.tap_config() == args.config,
            s.domain() == args.domain_separator,
            s.endpoint() == args.sender_aggregator_endpoint@,
            s.pending() is None,
    {
        SenderAllocationState {
            unaggregated_fees: UnaggregatedReceipts { last_id: 0, value: 0 },
            allocation_id: args.allocation_id,
            sender: args.sender,
            sender_aggregator_endpoint: args.sender_aggregator_endpoint,
            config: args.config,
            escrow_accounts: args.escrow_accounts,
            domain_separator: args.domain_separator,
            pending: None,
        }
    }

    /// The unaggregated fees of the pair.
    pub fn unaggregated_fees(&self) -> (u: UnaggregatedReceipts)
        ensures
            u == self.fees(),
    {
        self.unaggregated_fees
    }

    /// The allocation of the pair.
    pub fn allocation_id(&self) -> (a: Address)
        ensures
            a == self.allocation(),
    {
        self.allocation_id
    }

    /// The sender of the pair.
    pub fn sender(&self) -> (a: Address)
        ensures
            a == self.sender_address(),
    {
        self.sender
    }

    /// Where the sender's aggregator is reached.
    pub fn sender_aggregator_endpoint(&self) -> (s: &str)
        ensures
            s@ == self.endpoint(),
    {
        self.sender_aggregator_endpoint.as_str()
    }

    /// What configuration says about voucher requests.
    pub fn config(&self) -> (c: TapConfig)
        ensures
            c == self.tap_config(),
    {
        self.config
    }

    /// The domain under which receipts and vouchers are signed.
    pub fn domain_separator(&self) -> (d: Eip712Domain)
        ensures
            d == self.domain(),
    {
        self.domain_separator
    }

    /// Whether a voucher request is under way.
    pub fn rav_request_in_flight(&self) -> (r: bool)
        ensures
            r == self.pending() is Some,
    {
        self.pending.is_some()
    }

    /// Takes a newer escrow snapshot.
    pub fn update_escrow_accounts(&mut self, escrow_accounts: EscrowAccounts)
        ensures
            final(self).escrow() == escrow_accounts,
            final(self).fees() == old(self).fees(),
            final(self).allocation() == old(self).allocation(),
            final(self).sender_address() == old(self).sender_address(),
            final(self).tap_config() == old(self).tap_config(),
            final(self).domain() == old(self).domain(),
            final(self).endpoint() == old(self).endpoint(),
            final(self).pending() == old(self).pending(),
    {
        self.escrow_accounts = escrow_accounts;
    }

    /// Counts a receipt that the store announced. Returns what the sender's
    /// account is told, if the total changed, and whether the sum had to be
    /// held at `u128::MAX`.
    pub fn handle_new_receipt(&mut self, notification: NewReceiptNotification) -> (r: (
        Option<SenderAccountMessage>,
        bool,
    ))
        ensures
            final(self).fees() == old(self).fees().spec_with_receipt(notification.id, notification.value),
            final(self).same_setup(old(self)),
            final(self).pending() == old(self).pending(),
            r.0 == (if notification.id > old(self).fees().last_id {
                Some(SenderAccountMessage::UpdateReceiptFees(old(self).allocation(), final(self).fees()))
            } else {
                None
            }),
            r.1 == (notification.id > old(self).fees().last_id && old(self).fees().value
                + notification.value > u128::MAX),
    {
        let (changed, overflowed) = self.unaggregated_fees.add_receipt(
            notification.id,
            notification.value,
        );
        if changed {
            (
                Some(SenderAccountMessage::UpdateReceiptFees(self.allocation_id, self.unaggregated_fees)),
                overflowed,
            )
        } else {
            (None, false)
        }
    }

    /// Removes the receipts that the pair's latest voucher covers, then sums
    /// up the pair's receipts that are newer than that voucher. A sum that
    /// does not fit in 128 bits is held at `u128::MAX`; the second part of the
    /// result says whether it was.
    pub fn calculate_unaggregated_fee(&self, store: &mut ReceiptStore) -> (r: (UnaggregatedReceipts, bool))
        ensures
            final(store).invalid_receipts() == old(store).invalid_receipts(),
            final(store).failed_rav_requests() == old(store).failed_rav_requests(),
            final(store).next_id() == old(store).next_id(),
            final(store).next_invalid_id() == old(store).next_invalid_id(),
            forall|a: Address, b: Address| final(store).rav(a, b) == old(store).rav(a, b),
            final(store).receipts() == receipts_after_rav(
                old(store).receipts(),
                self.allocation(),
                self.signers(),
                old(store).rav(self.allocation(), self.sender_address()),
            ),
            r.0 == unaggregated_of(
                final(store).receipts(),
                self.allocation(),
                self.signers(),
                rav_timestamp_of(old(store).rav(self.allocation(), self.sender_address())),
            ),
            r.1 == (sum_where(
                final(store).receipts(),
                counted(
                    self.allocation(),
                    self.signers(),
                    rav_timestamp_of(old(store).rav(self.allocation(), self.sender_address())),
                ),
            ) > u128::MAX),
    {
        let signers = self.escrow_accounts.get_signers_for_sender(&self.sender);
        store.delete_obsolete(&self.allocation_id, &self.sender, &signers);
        let since = match store.get_rav(&self.allocation_id, &self.sender) {
            Some(rav) => Some(rav.timestamp_ns),
            None => None,
        };
        let aggregate = store.sum_values(&self.allocation_id, &signers, since);
        proof {
            crate::store::lemma_max_id_where(
                store.receipts(),
                counted(self.allocation(), self.signers(), since),
            );
        }
        let fees = UnaggregatedReceipts {
            last_id: match aggregate.max_id {
                Some(m) => m,
                None => 0,
            },
            value: match aggregate.sum {
                Some(v) => v,
                None => 0,
            },
        };
        (fees, aggregate.held)
    }

    /// Prepares a voucher request: the pair's receipts that are newer than
    /// its latest voucher and not newer than the buffer before now are parted
    /// by the checks made outside; the refused ones are recorded as such, one
    /// after another; the voucher expected for the valid ones is remembered
    /// until the answer is in. No request is prepared while one is under way,
    /// nor without a valid receipt. Where a refused receipt cannot be
    /// recorded, the request fails and the ones before it stay recorded.
    pub fn create_rav_request(&mut self, store: &mut ReceiptStore, now_ns: u64, failed_checks: &Vec<u64>) -> (r:
        Result<RavRequest, RavRequestError>)
        ensures
            final(self).same_setup(old(self)),
            final(self).fees() == old(self).fees(),
            final(store).receipts() == old(store).receipts(),
            final(store).failed_rav_requests() == old(store).failed_rav_requests(),
            final(store).next_id() == old(store).next_id(),
            forall|a: Address, b: Address| final(store).rav(a, b) == old(store).rav(a, b),
            final(store).invalid_receipts() == old(store).invalid_receipts() + old(
                self,
            ).invalid_receipts_recorded(*old(store), now_ns, failed_checks@),
            final(store).next_invalid_id() == old(store).next_invalid_id() + old(
                self,
            ).invalid_receipts_recorded(*old(store), now_ns, failed_checks@).len(),
            match old(self).request_error(*old(store), old(self).plan(*old(store), now_ns, failed_checks@)) {
                Some(e) => {
                    &&& r == Err::<RavRequest, RavRequestError>(e)
                    &&& final(self).pending() == old(self).pending()
                },
                None => {
                    let plan = old(self).plan(*old(store), now_ns, failed_checks@);
                    &&& r matches Ok(request)
                    &&& request.valid_receipts@ == plan.valid
                    &&& request.invalid_receipts@ == plan.invalid
                    &&& request.previous_rav == signed_rav_of(plan.previous)
                    &&& request.expected_rav == old(self).expected_rav(plan)
                    &&& final(self).pending() == Some(old(self).expected_rav(plan))
                },
            },
    {
        if self.pending.is_some() {
            return Err(RavRequestError::RequestInFlight);
        }
        let signers = self.escrow_accounts.get_signers_for_sender(&self.sender);
        let previous = store.get_rav(&self.allocation_id, &self.sender);
        let since = match previous {
            Some(rav) => Some(rav.timestamp_ns),
            None => None,
        };
        let rows = match compute_rav_cutoff(now_ns, self.config.rav_request_timestamp_buffer_ms) {
            Some(cutoff) => store.receipts_in_range(&self.allocation_id, &signers, since, cutoff),
            None => Vec::new(),
        };
        let request = match plan_rav_request(self.allocation_id, previous, &rows, failed_checks) {
            Ok(request) => request,
            Err(e) => {
                return Err(e);
            },
        };
        match store.insert_invalid_receipts(&request.invalid_receipts) {
            Ok(()) => {},
            Err(e) => {
                return Err(RavRequestError::Storage { source: e });
            },
        }
        self.pending = Some(request.expected_rav);
        Ok(request)
    }

    /// Takes the aggregator's answer to the request under way. A voucher that
    /// is the expected one, signed by a key of the sender, takes the place of
    /// the pair's latest voucher. Any other voucher is recorded as refused,
    /// with the reason. In every case the request is over.
    pub fn verify_and_store_rav(&mut self, store: &mut ReceiptStore, response: Result<AggregatorResponse, AggregatorFailure>) -> (r:
        Result<(), RavRequestError>)
        ensures
            final(self).same_setup(old(self)),
            final(self).fees() == old(self).fees(),
            final(self).pending() is None,
            final(store).receipts() == old(store).receipts(),
            final(store).invalid_receipts() == old(store).invalid_receipts(),
            final(store).next_id() == old(store).next_id(),
            final(store).next_invalid_id() == old(store).next_invalid_id(),
            forall|a: Address, b: Address|
                !(a == old(self).allocation() && b == old(self).sender_address()) ==> final(store).rav(
                    a,
                    b,
                ) == old(store).rav(a, b),
            match old(self).pending() {
                None => r == Err::<(), RavRequestError>(RavRequestError::NoRequestInFlight) && same_tables(
                    *final(store),
                    *old(store),
                ),
                Some(expected) => match response {
                    Err(_) => r == Err::<(), RavRequestError>(RavRequestError::AggregatorUnreachable)
                        && same_tables(*final(store), *old(store)),
                    Ok(answer) => match rav_verdict(
                        expected,
                        answer,
                        old(self).escrow(),
                        old(self).sender_address(),
                    ) {
                        Some(reason) => {
                            &&& r == Err::<(), RavRequestError>(
                                RavRequestError::AggregatorMisbehavior { reason },
                            )
                            &&& final(store).rav(old(self).allocation(), old(self).sender_address())
                                == old(store).rav(old(self).allocation(), old(self).sender_address())
                            &&& final(store).failed_rav_requests() == old(store).failed_rav_requests().push(
                                FailedRavRequest {
                                    allocation_id: old(self).allocation(),
                                    sender_address: old(self).sender_address(),
                                    expected_rav: expected,
                                    rav_response: answer.rav,
                                    reason,
                                },
                            )
                        },
                        None => {
                            &&& r == Ok::<(), RavRequestError>(())
                            &&& final(store).failed_rav_requests() == old(store).failed_rav_requests()
                            &&& final(store).rav(old(self).allocation(), old(self).sender_address())
                                == Some(
                                old(self).rav_row(
                                    old(store).rav(old(self).allocation(), old(self).sender_address()),
                                    expected,
                                    answer,
                                ),
                            )
                        },
                    },
                },
            },
    {
        let expected = match self.pending {
            Some(e) => e,
            None => {
                return Err(RavRequestError::NoRequestInFlight);
            },
        };
        self.pending = None;
        let answer = match response {
            Ok(a) => a,
            Err(_) => {
                return Err(RavRequestError::AggregatorUnreachable);
            },
        };
        let rejection = check_rav_response(&expected, &answer, &self.escrow_accounts, &self.sender);
        match rejection {
            Some(reason) => {
                store.insert_failed_rav(self.allocation_id, self.sender, expected, answer.rav, reason);
                Err(RavRequestError::AggregatorMisbehavior { reason })
            },
            None => {
                store.upsert_rav(
                    self.allocation_id,
                    self.sender,
                    expected.timestamp_ns,
                    expected.value_aggregate,
                    answer.rav.signature,
                );
                Ok(())
            },
        }
    }

    /// What a voucher request made now comes to, given what the aggregator
    /// answers.
    pub open spec fn rav_request_result(&self, store: ReceiptStore, env: RavEnvironment) -> Result<
        (),
        RavRequestError,
    > {
        let plan = self.plan(store, env.now_ns, env.failed_checks@);
        match self.request_error(store, plan) {
            Some(e) => Err(e),
            None => match env.aggregator {
                Err(_) => Err(RavRequestError::AggregatorUnreachable),
                Ok(answer) => match rav_verdict(
                    self.expected_rav(plan),
                    answer,
                    self.escrow(),
                    self.sender_address(),
                ) {
                    Some(reason) => Err(RavRequestError::AggregatorMisbehavior { reason }),
                    None => Ok(()),
                },
            },
        }
    }

    /// The rows that preparing a voucher request adds to the log of refused
    /// receipts: the receipts refused on the way, as far as the table has ids
    /// for them. Nothing is recorded where the request fails before that.
    pub open spec fn invalid_receipts_recorded(&self, store: ReceiptStore, now_ns: u64, failed: Seq<u64>) -> Seq<
        ReceiptRow,
    > {
        let plan = self.plan(store, now_ns, failed);
        match self.request_error(store, plan) {
            Some(RavRequestError::RequestInFlight)
            | Some(RavRequestError::NoValidReceiptsForRavRequest)
            | Some(RavRequestError::AggregateOverflow) => Seq::empty(),
            _ => stamped(
                plan.invalid.take(recordable(plan.invalid.len(), store.next_invalid_id()) as int),
                store.next_invalid_id(),
            ),
        }
    }

    /// The log of refused receipts after a voucher request.
    pub open spec fn invalid_receipts_after(&self, store: ReceiptStore, env: RavEnvironment) -> Seq<
        ReceiptRow,
    > {
        store.invalid_receipts() + self.invalid_receipts_recorded(store, env.now_ns, env.failed_checks@)
    }

    /// The log of refused vouchers after a voucher request: a voucher that
    /// cannot be accepted is recorded with the reason.
    pub open spec fn failed_rav_requests_after(&self, store: ReceiptStore, env: RavEnvironment) -> Seq<
        FailedRavRequest,
    > {
        let plan = self.plan(store, env.now_ns, env.failed_checks@);
        match self.rav_request_result(store, env) {
            Err(RavRequestError::AggregatorMisbehavior { reason }) => store.failed_rav_requests().push(
                FailedRavRequest {
                    allocation_id: self.allocation(),
                    sender_address: self.sender_address(),
                    expected_rav: self.expected_rav(plan),
                    rav_response: env.aggregator->Ok_0.rav,
                    reason,
                },
            ),
            _ => store.failed_rav_requests(),
        }
    }

    /// The pair's latest voucher after a voucher request: the accepted one,
    /// or the one that was there.
    pub open spec fn rav_after(&self, store: ReceiptStore, env: RavEnvironment) -> Option<RavRow> {
        let plan = self.plan(store, env.now_ns, env.failed_checks@);
        if self.rav_request_result(store, env) is Ok {
            Some(self.rav_row(plan.previous, self.expected_rav(plan), env.aggregator->Ok_0))
        } else {
            plan.previous
        }
    }

    /// Requests a voucher from the sender's aggregator and takes the answer:
    /// one request from preparation to the recorded outcome. The receipt log
    /// is left as it is. An accepted voucher is worth no less than the one it
    /// replaces and is as of a later time.
    pub fn rav_requester_single(&mut self, store: &mut ReceiptStore, env: &RavEnvironment) -> (r: Result<
        (),
        RavRequestError,
    >)
        ensures
            r == old(self).rav_request_result(*old(store), *env),
            final(self).same_setup(old(self)),
            final(self).fees() == old(self).fees(),
            final(self).pending() == (if old(self).pending() is Some {
                old(self).pending()
            } else {
                None
            }),
            final(store).receipts() == old(store).receipts(),
            final(store).next_id() == old(store).next_id(),
            forall|a: Address, b: Address|
                !(a == old(self).allocation() && b == old(self).sender_address()) ==> final(store).rav(
                    a,
                    b,
                ) == old(store).rav(a, b),
            ({
                let plan = old(self).plan(*old(store), env.now_ns, env.failed_checks@);
                let expected = old(self).expected_rav(plan);
                let pair_rav = final(store).rav(old(self).allocation(), old(self).sender_address());
                &&& final(store).invalid_receipts() == old(self).invalid_receipts_after(*old(store), *env)
                &&& final(store).next_invalid_id() == old(store).next_invalid_id()
                    + final(store).invalid_receipts().len() - old(store).invalid_receipts().len()
                &&& final(store).failed_rav_requests() == old(self).failed_rav_requests_after(
                    *old(store),
                    *env,
                )
                &&& pair_rav == old(self).rav_after(*old(store), *env)
                &&& r is Ok ==> {
                    &&& pair_rav->0.value_aggregate == rav_value(plan.previous) + total_value(plan.valid)
                    &&& pair_rav->0.value_aggregate >= rav_value(plan.previous)
                    &&& plan.previous matches Some(before) ==> pair_rav->0.timestamp_ns
                        > before.timestamp_ns
                    &&& rav_cutoff(env.now_ns, old(self).tap_config().rav_request_timestamp_buffer_ms)
                        matches Some(cutoff) && pair_rav->0.timestamp_ns <= cutoff
                }
            }),
    {
        let ghost plan = self.plan(*store, env.now_ns, env.failed_checks@);
        match self.create_rav_request(store, env.now_ns, &env.failed_checks) {
            Ok(_) => {},
            Err(e) => {
                return Err(e);
            },
        }
        proof {
            lemma_valid_receipts_in_window(
                old(store).receipts(),
                self.allocation(),
                self.signers(),
                rav_timestamp_of(plan.previous),
                rav_cutoff(env.now_ns, self.tap_config().rav_request_timestamp_buffer_ms),
                env.failed_checks@,
            );
        }
        self.verify_and_store_rav(store, env.aggregator)
    }

    /// Marks the pair's latest voucher as the last one. Exactly one row has
    /// to be updated by that.
    pub fn mark_rav_last(&self, store: &mut ReceiptStore) -> (r: Result<(), SenderAllocationError>)
        ensures
            same_but_rav(*final(store), *old(store), self.allocation(), self.sender_address()),
            match old(store).rav(self.allocation(), self.sender_address()) {
                Some(row) => r == Ok::<(), SenderAllocationError>(()) && final(store).rav(
                    self.allocation(),
                    self.sender_address(),
                ) == Some(RavRow { last: true, ..row }),
                None => r == Err::<(), SenderAllocationError>(
                    SenderAllocationError::RavNotMarked { rows_affected: 0 },
                ) && final(store).rav(self.allocation(), self.sender_address()) is None,
            },
    {
        let rows_affected = store.set_rav_last(self.allocation_id, self.sender);
        check_rows_affected(rows_affected)
    }

    /// Marks the pair's latest voucher as final: no further voucher follows.
    /// Exactly one row has to be updated by that.
    pub fn mark_rav_final(&self, store: &mut ReceiptStore) -> (r: Result<(), SenderAllocationError>)
        ensures
            same_but_rav(*final(store), *old(store), self.allocation(), self.sender_address()),
            match old(store).rav(self.allocation(), self.sender_address()) {
                Some(row) => r == Ok::<(), SenderAllocationError>(()) && final(store).rav(
                    self.allocation(),
                    self.sender_address(),
                ) == Some(RavRow { is_final: true, ..row }),
                None => r == Err::<(), SenderAllocationError>(
                    SenderAllocationError::RavNotMarked { rows_affected: 0 },
                ) && final(store).rav(self.allocation(), self.sender_address()) is None,
            },
    {
        let rows_affected = store.set_rav_final(self.allocation_id, self.sender);
        check_rows_affected(rows_affected)
    }

    /// Records receipts that failed the checks, one after another, and stops
    /// at the first that the table cannot take: the ones before it stay
    /// recorded.
    pub fn store_invalid_receipts(&self, store: &mut ReceiptStore, receipts: &Vec<ReceiptRow>) -> (r: Result<
        (),
        StorageError,
    >)
        ensures
            final(store).receipts() == old(store).receipts(),
            final(store).failed_rav_requests() == old(store).failed_rav_requests(),
            final(store).next_id() == old(store).next_id(),
            forall|a: Address, b: Address| final(store).rav(a, b) == old(store).rav(a, b),
            r is Ok <==> old(store).next_invalid_id() + receipts@.len() <= u64::MAX,
            r matches Err(e) ==> e == StorageError::IdsExhausted,
            final(store).invalid_receipts() == old(store).invalid_receipts() + stamped(
                receipts@.take(recordable(receipts@.len(), old(store).next_invalid_id()) as int),
                old(store).next_invalid_id(),
            ),
            final(store).next_invalid_id() == old(store).next_invalid_id() + recordable(
                receipts@.len(),
                old(store).next_invalid_id(),
            ),
    {
        store.insert_invalid_receipts(receipts)
    }

    /// Records a voucher of the pair that was refused, with what was expected
    /// and why.
    pub fn store_failed_rav(
        &self,
        store: &mut ReceiptStore,
        expected_rav: &ReceiptAggregateVoucher,
        rav: &SignedRav,
        reason: RavRejection,
    )
        ensures
            final(store).receipts() == old(store).receipts(),
            final(store).invalid_receipts() == old(store).invalid_receipts(),
            final(store).next_id() == old(store).next_id(),
            final(store).next_invalid_id() == old(store).next_invalid_id(),
            forall|a: Address, b: Address| final(store).rav(a, b) == old(store).rav(a, b),
            final(store).failed_rav_requests() == old(store).failed_rav_requests().push(
                FailedRavRequest {
                    allocation_id: self.allocation(),
                    sender_address: self.sender_address(),
                    expected_rav: *expected_rav,
                    rav_response: *rav,
                    reason,
                },
            ),
    {
        store.insert_failed_rav(self.allocation_id, self.sender, *expected_rav, *rav, reason);
    }
}

/// Whether marking a voucher updated exactly one row; any other number is an
/// error that names it.
pub fn check_rows_affected(rows_affected: u64) -> (r: Result<(), SenderAllocationError>)
    ensures
        r == (if rows_affected == 1 {
            Ok::<(), SenderAllocationError>(())
        } else {
            Err::<(), SenderAllocationError>(SenderAllocationError::RavNotMarked { rows_affected })
        }),
{
    if rows_affected == 1 {
        Ok(())
    } else {
        Err(SenderAllocationError::RavNotMarked { rows_affected })
    }
}

/// Every receipt that goes into a voucher, and every receipt refused on the
/// way, is a receipt of the pair from the window between the previous voucher
/// and the cutoff; so the voucher is as of a time in that window.
pub proof fn lemma_valid_receipts_in_window(
    rows: Seq<ReceiptRow>,
    allocation: Address,
    signers: Seq<Address>,
    previous: Option<u64>,
    cutoff: Option<u64>,
    failed: Seq<u64>,
)
    ensures
        ({
            let c = candidates(rows, allocation, signers, previous, cutoff);
            let valid = select(c, passed(failed));
            let invalid = select(c, refused(failed));
            &&& forall|i: int|
                0 <= i < valid.len() ==> is_row_of(rows, #[trigger] valid[i]) && cutoff is Some
                    && counted_until(allocation, signers, previous, cutoff->0)(valid[i])
                    && !failed.contains(valid[i].id)
            &&& forall|i: int|
                0 <= i < invalid.len() ==> is_row_of(rows, #[trigger] invalid[i]) && cutoff is Some
                    && counted_until(allocation, signers, previous, cutoff->0)(invalid[i])
                    && failed.contains(invalid[i].id)
            &&& valid.len() > 0 ==> cutoff is Some && latest_timestamp(valid) <= cutoff->0 && (
            previous matches Some(p) ==> latest_timestamp(valid) > p)
        }),
{
    let c = candidates(rows, allocation, signers, previous, cutoff);
    let valid = select(c, passed(failed));
    let invalid = select(c, refused(failed));
    lemma_select_members(c, passed(failed));
    lemma_select_members(c, refused(failed));
    if let Some(limit) = cutoff {
        lemma_select_members(rows, counted_until(allocation, signers, previous, limit));
        assert forall|i: int| 0 <= i < valid.len() implies is_row_of(rows, #[trigger] valid[i])
            && counted_until(allocation, signers, previous, limit)(valid[i]) && !failed.contains(
            valid[i].id,
        ) by {
            assert(is_row_of(c, valid[i]));
            let k = choose|k: int| 0 <= k < c.len() && #[trigger] c[k] == valid[i];
            assert(is_row_of(rows, c[k]));
        }
        assert forall|i: int| 0 <= i < invalid.len() implies is_row_of(rows, #[trigger] invalid[i])
            && counted_until(allocation, signers, previous, limit)(invalid[i]) && failed.contains(
            invalid[i].id,
        ) by {
            assert(is_row_of(c, invalid[i]));
            let k = choose|k: int| 0 <= k < c.len() && #[trigger] c[k] == invalid[i];
            assert(is_row_of(rows, c[k]));
        }
        if valid.len() > 0 {
            lemma_latest_timestamp_is_member(valid);
            let i = choose|i: int|
                0 <= i < valid.len() && (#[trigger] valid[i]).timestamp_ns == latest_timestamp(valid);
            assert(counted_until(allocation, signers, previous, limit)(valid[i]));
        }
    } else {
        assert(c.len() == 0);
    }
}

/// The receipt log after the receipts that a voucher of the pair covers were
/// removed.
pub open spec fn receipts_after_rav(
    rows: Seq<ReceiptRow>,
    allocation: Address,
    signers: Seq<Address>,
    rav: Option<RavRow>,
) -> Seq<ReceiptRow> {
    match rav {
        Some(row) => select(rows, kept_after(allocation, signers, row.timestamp_ns)),
        None => rows,
    }
}

impl SenderAllocation {
    /// Starts the accounting of a pair: the total is computed from the
    /// receipt log, and the sender's account is told of it. Returns the
    /// state, what the sender's account is told, and whether the total had to
    /// be held at `u128::MAX`.
    pub fn pre_start(&self, args: SenderAllocationArgs, store: &mut ReceiptStore) -> (r: (
        SenderAllocationState,
        SenderAccountMessage,
        bool,
    ))
        ensures
            final(store).invalid_receipts() == old(store).invalid_receipts(),
            final(store).failed_rav_requests() == old(store).failed_rav_requests(),
            final(store).next_id() == old(store).next_id(),
            final(store).next_invalid_id() == old(store).next_invalid_id(),
            forall|a: Address, b: Address| final(store).rav(a, b) == old(store).rav(a, b),
            ({
                let signers = args.escrow_accounts.signers_of(args.sender);
                let rav = old(store).rav(args.allocation_id, args.sender);
                &&& final(store).receipts() == receipts_after_rav(
                    old(store).receipts(),
                    args.allocation_id,
                    signers,
                    rav,
                )
                &&& r.0.fees() == unaggregated_of(
                    final(store).receipts(),
                    args.allocation_id,
                    signers,
                    rav_timestamp_of(rav),
                )
                &&& r.1 == SenderAccountMessage::UpdateReceiptFees(args.allocation_id, r.0.fees())
                &&& r.2 == (sum_where(
                    final(store).receipts(),
                    counted(args.allocation_id, signers, rav_timestamp_of(rav)),
                ) > u128::MAX)
                &&& r.0.allocation() == args.allocation_id
                &&& r.0.sender_address() == args.sender
                &&& r.0.escrow() == args.escrow_accounts
                &&& r.0.tap_config() == args.config
                &&& r.0.domain() == args.domain_separator
                &&& r.0.endpoint() == args.sender_aggregator_endpoint@
                &&& r.0.pending() is None
            }),
    {
        let mut state = SenderAllocationState::new(args);
        let (fees, held) = state.calculate_unaggregated_fee(store);
        state.unaggregated_fees = fees;
        let message = SenderAccountMessage::UpdateReceiptFees(state.allocation_id, fees);
        (state, message, held)
    }

    /// Ends the accounting of a pair: the sender's account is told that the
    /// allocation has no unaggregated fees left.
    pub fn post_stop(&self, state: &SenderAllocationState) -> (message: SenderAccountMessage)
        ensures
            message == SenderAccountMessage::UpdateReceiptFees(
                state.allocation(),
                UnaggregatedReceipts { last_id: 0, value: 0 },
            ),
    {
        SenderAccountMessage::UpdateReceiptFees(state.allocation_id, UnaggregatedReceipts::zero())
    }

    /// Handles one message.
    ///
    /// A new receipt is counted if its id is above the highest one seen, and
    /// the sender's account is told the new total. A triggered voucher
    /// request is made once; if the voucher is accepted, the receipts it
    /// covers are removed, the total is computed anew from the receipt log,
    /// held at `u128::MAX` if need be, and given in reply. On closing, a last voucher is requested and marked
    /// final, and the accounting stops. A failed request leaves the total and
    /// the receipt log as they were.
    pub fn handle(
        &self,
        message: SenderAllocationMessage,
        state: &mut SenderAllocationState,
        store: &mut ReceiptStore,
        env: &RavEnvironment,
    ) -> (r: Result<HandleOutcome, SenderAllocationError>)
        ensures
            final(state).same_setup(old(state)),
            final(store).next_id() == old(store).next_id(),
            forall|a: Address, b: Address|
                !(a == old(state).allocation() && b == old(state).sender_address()) ==> final(store).rav(
                    a,
                    b,
                ) == old(store).rav(a, b),
            message is TriggerRAVRequest || message is CloseAllocation ==> {
                &&& final(store).invalid_receipts() == old(state).invalid_receipts_after(*old(store), *env)
                &&& final(store).failed_rav_requests() == old(state).failed_rav_requests_after(
                    *old(store),
                    *env,
                )
                &&& old(state).rav_request_result(*old(store), *env) is Err ==> final(store).rav(
                    old(state).allocation(),
                    old(state).sender_address(),
                ) == old(store).rav(old(state).allocation(), old(state).sender_address())
                    && final(state).pending() == old(state).pending()
            },
            match message {
                SenderAllocationMessage::NewReceipt(n) => {
                    &&& same_tables(*final(store), *old(store))
                    &&& final(state).pending() == old(state).pending()
                    &&& final(state).fees() == old(state).fees().spec_with_receipt(n.id, n.value)
                    &&& r == Ok::<HandleOutcome, SenderAllocationError>(
                        HandleOutcome {
                            to_sender_account: if n.id > old(state).fees().last_id {
                                Some(
                                    SenderAccountMessage::UpdateReceiptFees(
                                        old(state).allocation(),
                                        final(state).fees(),
                                    ),
                                )
                            } else {
                                None
                            },
                            reply: None,
                            stop: false,
                            overflowed: n.id > old(state).fees().last_id && old(state).fees().value
                                + n.value > u128::MAX,
                        },
                    )
                },
                SenderAllocationMessage::GetUnaggregatedReceipts => {
                    &&& same_tables(*final(store), *old(store))
                    &&& final(state).pending() == old(state).pending()
                    &&& final(state).fees() == old(state).fees()
                    &&& r == Ok::<HandleOutcome, SenderAllocationError>(
                        HandleOutcome {
                            to_sender_account: None,
                            reply: Some(old(state).fees()),
                            stop: false,
                            overflowed: false,
                        },
                    )
                },
                SenderAllocationMessage::TriggerRAVRequest => match old(state).rav_request_result(
                    *old(store),
                    *env,
                ) {
                    Err(e) => {
                        &&& r == Err::<HandleOutcome, SenderAllocationError>(
                            SenderAllocationError::RavRequest { source: e },
                        )
                        &&& final(state).fees() == old(state).fees()
                        &&& final(store).receipts() == old(store).receipts()
                    },
                    Ok(_) => {
                        let plan = old(state).plan(*old(store), env.now_ns, env.failed_checks@);
                        let expected = old(state).expected_rav(plan);
                        let since = Some(expected.timestamp_ns);
                        let total = sum_where(
                            final(store).receipts(),
                            counted(old(state).allocation(), old(state).signers(), since),
                        );
                        &&& final(state).pending() is None
                        &&& final(store).rav(old(state).allocation(), old(state).sender_address())
                            == Some(old(state).rav_row(plan.previous, expected, env.aggregator->Ok_0))
                        &&& final(store).receipts() == select(
                            old(store).receipts(),
                            kept_after(
                                old(state).allocation(),
                                old(state).signers(),
                                expected.timestamp_ns,
                            ),
                        )
                        &&& final(state).fees() == unaggregated_of(
                            final(store).receipts(),
                            old(state).allocation(),
                            old(state).signers(),
                            since,
                        )
                        &&& r == Ok::<HandleOutcome, SenderAllocationError>(
                            HandleOutcome {
                                to_sender_account: None,
                                reply: Some(final(state).fees()),
                                stop: false,
                                overflowed: total > u128::MAX,
                            },
                        )
                    },
                },
                SenderAllocationMessage::CloseAllocation => match old(state).rav_request_result(
                    *old(store),
                    *env,
                ) {
                    Err(e) => {
                        &&& r == Err::<HandleOutcome, SenderAllocationError>(
                            SenderAllocationError::RavRequest { source: e },
                        )
                        &&& final(state).fees() == old(state).fees()
                        &&& final(store).receipts() == old(store).receipts()
                    },
                    Ok(_) => {
                        let plan = old(state).plan(*old(store), env.now_ns, env.failed_checks@);
                        let expected = old(state).expected_rav(plan);
                        &&& final(state).pending() is None
                        &&& final(state).fees() == old(state).fees()
                        &&& final(store).receipts() == old(store).receipts()
                        &&& final(store).rav(old(state).allocation(), old(state).sender_address())
                            == Some(
                            RavRow {
                                is_final: true,
                                ..old(state).rav_row(plan.previous, expected, env.aggregator->Ok_0)
                            },
                        )
                        &&& r == Ok::<HandleOutcome, SenderAllocationError>(
                            HandleOutcome {
                                to_sender_account: None,
                                reply: None,
                                stop: true,
                                overflowed: false,
                            },
                        )
                    },
                },
            },
    {
        match message {
            SenderAllocationMessage::NewReceipt(notification) => {
                let (to_sender_account, overflowed) = state.handle_new_receipt(notification);
                Ok(HandleOutcome { to_sender_account, reply: None, stop: false, overflowed })
            },
            SenderAllocationMessage::TriggerRAVRequest => {
                match state.rav_requester_single(store, env) {
                    Ok(()) => {},
                    Err(e) => {
                        return Err(SenderAllocationError::RavRequest { source: e });
                    },
                }
                let (fees, held) = state.calculate_unaggregated_fee(store);
                state.unaggregated_fees = fees;
                Ok(HandleOutcome { to_sender_account: None, reply: Some(fees), stop: false, overflowed: held })
            },
            SenderAllocationMessage::CloseAllocation => {
                match state.rav_requester_single(store, env) {
                    Ok(()) => {},
                    Err(e) => {
                        return Err(SenderAllocationError::RavRequest { source: e });
                    },
                }
                match state.mark_rav_final(store) {
                    Ok(()) => {},
                    Err(e) => {
                        return Err(e);
                    },
                }
                Ok(HandleOutcome { to_sender_account: None, reply: None, stop: true, overflowed: false })
            },
            SenderAllocationMessage::GetUnaggregatedReceipts => Ok(
                HandleOutcome {
                    to_sender_account: None,
                    reply: Some(state.unaggregated_fees),
                    stop: false,
                    overflowed: false,
                },
            ),
        }
    }
}

} // verus!
