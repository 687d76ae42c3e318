//! What holds between the running total of a pair and the receipt log,
//! whatever the receipts are.

use vstd::prelude::*;

use crate::address::Address;
use crate::sender_allocation::{candidates, unaggregated_of};
use crate::store::{
    counted, counted_until, has_signature, ids_increasing, in_pair, is_row_of, kept_after,
    lemma_aggregates_push, lemma_max_id_where, lemma_select_members, max_id_where, select,
    sum_where, ReceiptRow,
};
use crate::unaggregated_receipts::{held_at_max, UnaggregatedReceipts};

verus! {

/// Whether a running total is what the receipt log gives for the pair: the
/// highest id among the pair's receipts newer than its latest voucher (zero
/// for none), and the sum of their values, held at `u128::MAX`.
pub open spec fn tracks(
    fees: UnaggregatedReceipts,
    rows: Seq<ReceiptRow>,
    allocation: Address,
    signers: Seq<Address>,
    since: Option<u64>,
) -> bool {
    let p = counted(allocation, signers, since);
    &&& fees.last_id == (match max_id_where(rows, p) {
        Some(m) => m,
        None => 0,
    })
    &&& fees.value == held_at_max(sum_where(rows, p))
}

/// A total that tracks the receipt log still tracks it after the store
/// recorded one more receipt of the pair, newer than the pair's latest
/// voucher, and the receipt was counted.
pub proof fn lemma_new_receipt_keeps_total(
    fees: UnaggregatedReceipts,
    rows: Seq<ReceiptRow>,
    row: ReceiptRow,
    allocation: Address,
    signers: Seq<Address>,
    since: Option<u64>,
)
    requires
        tracks(fees, rows, allocation, signers, since),
        ids_increasing(rows.push(row)),
        row.id >= 1,
        counted(allocation, signers, since)(row),
    ensures
        tracks(fees.spec_with_receipt(row.id, row.value), rows.push(row), allocation, signers, since),
{
    let p = counted(allocation, signers, since);
    lemma_aggregates_push(rows, row, p);
    lemma_max_id_where(rows, p);
    if let Some(m) = max_id_where(rows, p) {
        let i = choose|i: int| 0 <= i < rows.len() && p(rows[i]) && (#[trigger] rows[i]).id == m;
        assert(rows.push(row)[i] == rows[i]);
        assert(rows.push(row)[rows.len() as int] == row);
        assert(m < row.id);
    }
}

/// A receipt of another pair changes nothing for this pair: the total that
/// tracked the receipt log before still tracks it.
pub proof fn lemma_other_receipt_keeps_total(
    fees: UnaggregatedReceipts,
    rows: Seq<ReceiptRow>,
    row: ReceiptRow,
    allocation: Address,
    signers: Seq<Address>,
    since: Option<u64>,
)
    requires
        tracks(fees, rows, allocation, signers, since),
        !in_pair(row, allocation, signers),
    ensures
        tracks(fees, rows.push(row), allocation, signers, since),
{
    lemma_aggregates_push(rows, row, counted(allocation, signers, since));
}

/// The total that is computed from the receipt log tracks the log, whether
/// or not the sum fits in 128 bits.
pub proof fn lemma_computed_total_tracks(
    rows: Seq<ReceiptRow>,
    allocation: Address,
    signers: Seq<Address>,
    since: Option<u64>,
)
    ensures
        tracks(unaggregated_of(rows, allocation, signers, since), rows, allocation, signers, since),
{
}

/// A total that tracks the receipt log is the total that is computed anew
/// from the log: starting again gives the total of the running accounting.
pub proof fn lemma_restart_gives_same_total(
    fees: UnaggregatedReceipts,
    rows: Seq<ReceiptRow>,
    allocation: Address,
    signers: Seq<Address>,
    since: Option<u64>,
)
    requires
        tracks(fees, rows, allocation, signers, since),
    ensures
        fees == unaggregated_of(rows, allocation, signers, since),
{
}

/// Removing the receipts that a voucher covers changes neither the sum nor
/// the highest id of the receipts newer than the voucher.
pub proof fn lemma_obsolete_receipts_not_counted(
    rows: Seq<ReceiptRow>,
    allocation: Address,
    signers: Seq<Address>,
    rav_timestamp_ns: u64,
)
    ensures
        sum_where(
            select(rows, kept_after(allocation, signers, rav_timestamp_ns)),
            counted(allocation, signers, Some(rav_timestamp_ns)),
        ) == sum_where(rows, counted(allocation, signers, Some(rav_timestamp_ns))),
        max_id_where(
            select(rows, kept_after(allocation, signers, rav_timestamp_ns)),
            counted(allocation, signers, Some(rav_timestamp_ns)),
        ) == max_id_where(rows, counted(allocation, signers, Some(rav_timestamp_ns))),
        unaggregated_of(
            select(rows, kept_after(allocation, signers, rav_timestamp_ns)),
            allocation,
            signers,
            Some(rav_timestamp_ns),
        ) == unaggregated_of(rows, allocation, signers, Some(rav_timestamp_ns)),
    decreases rows.len(),
{
    if rows.len() > 0 {
        let keep = kept_after(allocation, signers, rav_timestamp_ns);
        let p = counted(allocation, signers, Some(rav_timestamp_ns));
        lemma_obsolete_receipts_not_counted(rows.drop_last(), allocation, signers, rav_timestamp_ns);
        if keep(rows.last()) {
            lemma_aggregates_push(select(rows.drop_last(), keep), rows.last(), p);
        }
    }
}

/// A receipt that is newer than the cutoff of a voucher request is no
/// candidate for the voucher, and it stays in the receipt log when the
/// receipts that the voucher covers are removed.
pub proof fn lemma_newer_receipts_wait(
    rows: Seq<ReceiptRow>,
    row: ReceiptRow,
    allocation: Address,
    signers: Seq<Address>,
    previous: Option<u64>,
    cutoff: u64,
    rav_timestamp_ns: u64,
)
    requires
        is_row_of(rows, row),
        row.timestamp_ns > cutoff,
        rav_timestamp_ns <= cutoff,
    ensures
        !is_row_of(candidates(rows, allocation, signers, previous, Some(cutoff)), row),
        is_row_of(select(rows, kept_after(allocation, signers, rav_timestamp_ns)), row),
{
    let c = candidates(rows, allocation, signers, previous, Some(cutoff));
    lemma_select_members(rows, counted_until(allocation, signers, previous, cutoff));
    lemma_select_members(rows, kept_after(allocation, signers, rav_timestamp_ns));
    if is_row_of(c, row) {
        let k = choose|k: int| 0 <= k < c.len() && #[trigger] c[k] == row;
        assert(counted_until(allocation, signers, previous, cutoff)(c[k]));
    }
    let m = choose|m: int| 0 <= m < rows.len() && #[trigger] rows[m] == row;
    assert(kept_after(allocation, signers, rav_timestamp_ns)(rows[m]));
}

/// Once a receipt is in the log, the log holds its signature: the store
/// refuses to record the same signed receipt again.
pub proof fn lemma_recorded_receipt_is_known(rows: Seq<ReceiptRow>, row: ReceiptRow)
    ensures
        has_signature(rows.push(row), row.signature),
{
    assert(rows.push(row)[rows.len() as int].signature == row.signature);
}

} // verus!
