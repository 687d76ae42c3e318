//! The receipt store: the receipt log, the log of refused receipts, the latest
//! voucher of each (allocation, sender) pair and the log of refused vouchers.
//!
//! The store here keeps its tables in memory. Its operations state, over the
//! tables' contents, what each statement against the database does.

use vstd::prelude::*;

use crate::address::Address;
use crate::address_map::AddressMap;
use crate::escrow::contains_address;
use crate::receipt::{NewReceiptNotification, ReceiptAggregateVoucher, Signature, SignedRav};
use crate::unaggregated_receipts::held_at_max;

verus! {

/// A row of the receipt log.
#[derive(Clone, Copy, Debug, PartialEq, Eq)]
pub struct ReceiptRow {
    pub id: u64,
    pub allocation_id: Address,
    pub signer_address: Address,
    pub signature: Signature,
    pub timestamp_ns: u64,
    pub nonce: u64,
    pub value: u128,
}

/// The latest voucher of an (allocation, sender) pair.
#[derive(Clone, Copy, Debug, PartialEq, Eq)]
pub struct RavRow {
    pub allocation_id: Address,
    pub sender_address: Address,
    pub timestamp_ns: u64,
    pub value_aggregate: u128,
    pub signature: Signature,
    pub last: bool,
    pub is_final: bool,
}

/// Why a voucher that an aggregator returned was refused.
#[derive(Clone, Copy, Debug, PartialEq, Eq)]
pub enum RavRejection {
    /// The voucher differs from the one that was expected.
    InvalidReceivedRav,
    /// No signer could be recovered from the voucher's signature.
    SignatureError,
    /// The voucher was signed by a key that the sender has not authorised.
    InvalidRecoveredSigner { address: Address },
}

/// A row of the log of refused vouchers.
#[derive(Clone, Copy, Debug, PartialEq, Eq)]
pub struct FailedRavRequest {
    pub allocation_id: Address,
    pub sender_address: Address,
    pub expected_rav: ReceiptAggregateVoucher,
    pub rav_response: SignedRav,
    pub reason: RavRejection,
}

/// Why the store refused a statement.
#[derive(Clone, Copy, Debug, PartialEq, Eq, Structural)]
pub enum StorageError {
    /// The receipt log already holds a receipt with this signature.
    DuplicateSignature,
    /// The table has handed out its last row id.
    IdsExhausted,
}

/// What the receipt log gives for a pair: the highest id and the sum of the
/// values of the counted receipts, both missing where no receipt is counted.
/// A sum that does not fit in 128 bits is held at `u128::MAX`, and `held`
/// says so.
#[derive(Clone, Copy, Debug, PartialEq, Eq, Structural)]
pub struct ValueSum {
    pub max_id: Option<u64>,
    pub sum: Option<u128>,
    pub held: bool,
}

/// How many of a number of rows a table can still take, given the id that
/// its next row gets: the last id is never handed out.
pub open spec fn recordable(rows: nat, next_id: u64) -> nat {
    if next_id + rows <= u64::MAX {
        rows
    } else {
        (u64::MAX - next_id) as nat
    }
}

/// Whether a receipt belongs to an allocation and was signed by one of the
/// given keys.
pub open spec fn in_pair(r: ReceiptRow, allocation: Address, signers: Seq<Address>) -> bool {
    r.allocation_id == allocation && signers.contains(r.signer_address)
}

/// Whether a receipt is strictly newer than a timestamp, if one is given.
pub open spec fn newer_than(r: ReceiptRow, since: Option<u64>) -> bool {
    match since {
        Some(ts) => r.timestamp_ns > ts,
        None => true,
    }
}

/// The receipts of a pair that are strictly newer than a timestamp.
pub open spec fn counted(allocation: Address, signers: Seq<Address>, since: Option<u64>) -> spec_fn(
    ReceiptRow,
) -> bool {
    |r: ReceiptRow| in_pair(r, allocation, signers) && newer_than(r, since)
}

/// The receipts of a pair that are strictly newer than a timestamp and not
/// newer than another.
pub open spec fn counted_until(
    allocation: Address,
    signers: Seq<Address>,
    since: Option<u64>,
    until: u64,
) -> spec_fn(ReceiptRow) -> bool {
    |r: ReceiptRow| in_pair(r, allocation, signers) && newer_than(r, since) && r.timestamp_ns <= until
}

/// The receipts that a voucher with the given timestamp leaves in the log:
/// all but those of the pair that are not newer than the voucher.
pub open spec fn kept_after(allocation: Address, signers: Seq<Address>, rav_timestamp_ns: u64) -> spec_fn(
    ReceiptRow,
) -> bool {
    |r: ReceiptRow| !(in_pair(r, allocation, signers) && r.timestamp_ns <= rav_timestamp_ns)
}

/// The rows that a predicate holds of, in their order.
pub open spec fn select(rows: Seq<ReceiptRow>, p: spec_fn(ReceiptRow) -> bool) -> Seq<ReceiptRow>
    decreases rows.len(),
{
    if rows.len() == 0 {
        Seq::empty()
    } else if p(rows.last()) {
        select(rows.drop_last(), p).push(rows.last())
    } else {
        select(rows.drop_last(), p)
    }
}

/// The sum of the values of the rows that a predicate holds of.
pub open spec fn sum_where(rows: Seq<ReceiptRow>, p: spec_fn(ReceiptRow) -> bool) -> nat
    decreases rows.len(),
{
    if rows.len() == 0 {
        0
    } else if p(rows.last()) {
        sum_where(rows.drop_last(), p) + rows.last().value as nat
    } else {
        sum_where(rows.drop_last(), p)
    }
}

/// The highest id among the rows that a predicate holds of, if there is such a
/// row.
pub open spec fn max_id_where(rows: Seq<ReceiptRow>, p: spec_fn(ReceiptRow) -> bool) -> Option<u64>
    decreases rows.len(),
{
    if rows.len() == 0 {
        None
    } else if p(rows.last()) {
        match max_id_where(rows.drop_last(), p) {
            Some(m) => Some(if rows.last().id > m { rows.last().id } else { m }),
            None => Some(rows.last().id),
        }
    } else {
        max_id_where(rows.drop_last(), p)
    }
}

/// The latest timestamp among the rows that a predicate holds of, if there is
/// such a row.
pub open spec fn max_timestamp_where(rows: Seq<ReceiptRow>, p: spec_fn(ReceiptRow) -> bool) -> Option<
    u64,
>
    decreases rows.len(),
{
    if rows.len() == 0 {
        None
    } else if p(rows.last()) {
        match max_timestamp_where(rows.drop_last(), p) {
            Some(m) => Some(if rows.last().timestamp_ns > m { rows.last().timestamp_ns } else { m }),
            None => Some(rows.last().timestamp_ns),
        }
    } else {
        max_timestamp_where(rows.drop_last(), p)
    }
}

/// The rows with ids counted up from a first id, as the table hands them
/// out.
pub open spec fn stamped(rows: Seq<ReceiptRow>, first_id: u64) -> Seq<ReceiptRow> {
    Seq::new(rows.len(), |i: int| ReceiptRow { id: (first_id + i) as u64, ..rows[i] })
}

/// Every row.
pub open spec fn every() -> spec_fn(ReceiptRow) -> bool {
    |r: ReceiptRow| true
}

/// Whether a row of the log carries the signature.
pub open spec fn has_signature(rows: Seq<ReceiptRow>, signature: Signature) -> bool {
    exists|i: int| 0 <= i < rows.len() && (#[trigger] rows[i]).signature == signature
}

/// Whether ids grow along the log.
pub open spec fn ids_increasing(rows: Seq<ReceiptRow>) -> bool {
    forall|i: int, j: int| 0 <= i < j < rows.len() ==> (#[trigger] rows[i]).id < (#[trigger] rows[j]).id
}

/// Whether no two rows of the log carry one signature.
pub open spec fn signatures_distinct(rows: Seq<ReceiptRow>) -> bool {
    forall|i: int, j: int|
        0 <= i < j < rows.len() ==> (#[trigger] rows[i]).signature != (#[trigger] rows[j]).signature
}

/// Whether the row occurs in the log.
pub open spec fn is_row_of(rows: Seq<ReceiptRow>, x: ReceiptRow) -> bool {
    exists|m: int| 0 <= m < rows.len() && #[trigger] rows[m] == x
}

/// Every selected row is a row of the log that the predicate holds of, and
/// every such row is selected.
pub proof fn lemma_select_members(rows: Seq<ReceiptRow>, p: spec_fn(ReceiptRow) -> bool)
    ensures
        forall|k: int|
            0 <= k < select(rows, p).len() ==> p(#[trigger] select(rows, p)[k]) && is_row_of(
                rows,
                select(rows, p)[k],
            ),
        forall|m: int|
            0 <= m < rows.len() && p(#[trigger] rows[m]) ==> is_row_of(select(rows, p), rows[m]),
        select(rows, p).len() <= rows.len(),
    decreases rows.len(),
{
    if rows.len() > 0 {
        let init = rows.drop_last();
        let s = select(rows, p);
        let t = select(init, p);
        lemma_select_members(init, p);
        assert forall|k: int| 0 <= k < s.len() implies p(#[trigger] s[k]) && is_row_of(rows, s[k]) by {
            if p(rows.last()) && k == t.len() {
                assert(rows[rows.len() - 1] == s[k]);
            } else {
                assert(s[k] == t[k]);
                assert(is_row_of(init, t[k]));
                let m = choose|m: int| 0 <= m < init.len() && #[trigger] init[m] == t[k];
                assert(rows[m] == s[k]);
            }
        }
        assert forall|m: int| 0 <= m < rows.len() && p(#[trigger] rows[m]) implies is_row_of(
            s,
            rows[m],
        ) by {
            if m == rows.len() - 1 {
                assert(s[t.len() as int] == rows[m]);
            } else {
                assert(init[m] == rows[m]);
                assert(is_row_of(t, init[m]));
                let k = choose|k: int| 0 <= k < t.len() && #[trigger] t[k] == init[m];
                assert(s[k] == rows[m]);
            }
        }
    }
}

/// Selecting rows keeps the ids growing and the signatures distinct.
pub proof fn lemma_select_keeps_order(rows: Seq<ReceiptRow>, p: spec_fn(ReceiptRow) -> bool)
    requires
        ids_increasing(rows),
        signatures_distinct(rows),
    ensures
        ids_increasing(select(rows, p)),
        signatures_distinct(select(rows, p)),
    decreases rows.len(),
{
    if rows.len() > 0 {
        let init = rows.drop_last();
        assert(ids_increasing(init)) by {
            assert forall|i: int, j: int| 0 <= i < j < init.len() implies (#[trigger] init[i]).id < (
            #[trigger] init[j]).id by {
                assert(init[i] == rows[i] && init[j] == rows[j]);
            }
        }
        assert(signatures_distinct(init)) by {
            assert forall|i: int, j: int| 0 <= i < j < init.len() implies (#[trigger] init[i]).signature
                != (#[trigger] init[j]).signature by {
                assert(init[i] == rows[i] && init[j] == rows[j]);
            }
        }
        lemma_select_keeps_order(init, p);
        lemma_select_members(init, p);
        if p(rows.last()) {
            let s = select(rows, p);
            let t = select(init, p);
            assert forall|i: int, j: int| 0 <= i < j < s.len() implies (#[trigger] s[i]).id < (
            #[trigger] s[j]).id && s[i].signature != s[j].signature by {
                if j < t.len() {
                    assert(s[i] == t[i] && s[j] == t[j]);
                } else {
                    assert(s[i] == t[i]);
                    assert(is_row_of(init, t[i]));
                    let m = choose|m: int| 0 <= m < init.len() && #[trigger] init[m] == t[i];
                    assert(rows[m] == t[i]);
                    assert(rows[rows.len() - 1] == s[j]);
                }
            }
        }
    }
}

/// The sum over a log is at least the sum over any of its beginnings.
pub proof fn lemma_sum_where_prefix(rows: Seq<ReceiptRow>, p: spec_fn(ReceiptRow) -> bool, n: int)
    requires
        0 <= n <= rows.len(),
    ensures
        sum_where(rows.take(n), p) <= sum_where(rows, p),
    decreases rows.len(),
{
    if n == rows.len() {
        assert(rows.take(n) =~= rows);
    } else {
        assert(rows.drop_last().take(n) =~= rows.take(n));
        lemma_sum_where_prefix(rows.drop_last(), p, n);
    }
}

/// A row is counted or has no part in sum, highest id and latest timestamp.
pub proof fn lemma_aggregates_push(rows: Seq<ReceiptRow>, row: ReceiptRow, p: spec_fn(ReceiptRow) -> bool)
    ensures
        p(row) ==> select(rows.push(row), p) == select(rows, p).push(row),
        p(row) ==> sum_where(rows.push(row), p) == sum_where(rows, p) + row.value,
        !p(row) ==> select(rows.push(row), p) == select(rows, p),
        !p(row) ==> sum_where(rows.push(row), p) == sum_where(rows, p),
        !p(row) ==> max_id_where(rows.push(row), p) == max_id_where(rows, p),
        !p(row) ==> max_timestamp_where(rows.push(row), p) == max_timestamp_where(rows, p),
        p(row) ==> max_id_where(rows.push(row), p) == Some(
            match max_id_where(rows, p) {
                Some(m) => if row.id > m { row.id } else { m },
                None => row.id,
            },
        ),
{
    assert(rows.push(row).drop_last() =~= rows);
    assert(rows.push(row).last() == row);
}

/// The highest id of the counted rows belongs to a counted row and is not
/// below the id of any counted row; there is none exactly when no row is
/// counted, and the sum is then zero.
pub proof fn lemma_max_id_where(rows: Seq<ReceiptRow>, p: spec_fn(ReceiptRow) -> bool)
    ensures
        max_id_where(rows, p) is None <==> (forall|i: int|
            0 <= i < rows.len() ==> !p(#[trigger] rows[i])),
        max_id_where(rows, p) is None ==> sum_where(rows, p) == 0,
        max_id_where(rows, p) matches Some(m) ==> (exists|i: int|
            0 <= i < rows.len() && p(rows[i]) && (#[trigger] rows[i]).id == m) && (forall|i: int|
            0 <= i < rows.len() && p(rows[i]) ==> (#[trigger] rows[i]).id <= m),
    decreases rows.len(),
{
    if rows.len() > 0 {
        let init = rows.drop_last();
        lemma_max_id_where(init, p);
        assert forall|i: int| 0 <= i < init.len() implies #[trigger] init[i] == rows[i] by {}
        match max_id_where(rows, p) {
            Some(m) => {
                if p(rows.last()) && rows.last().id == m {
                    assert(rows[rows.len() - 1].id == m);
                } else {
                    let i = choose|i: int|
                        0 <= i < init.len() && p(init[i]) && (#[trigger] init[i]).id == m;
                    assert(rows[i] == init[i]);
                }
                assert forall|i: int| 0 <= i < rows.len() && p(rows[i]) implies (#[trigger] rows[i]).id
                    <= m by {
                    if i < init.len() {
                        assert(rows[i] == init[i]);
                        assert(p(init[i]));
                    }
                }
                if forall|i: int| 0 <= i < rows.len() ==> !p(#[trigger] rows[i]) {
                    let i = choose|i: int|
                        0 <= i < rows.len() && p(rows[i]) && (#[trigger] rows[i]).id == m;
                    assert(!p(rows[i]));
                }
            },
            None => {
                assert forall|i: int| 0 <= i < rows.len() implies !p(#[trigger] rows[i]) by {
                    if i < init.len() {
                        assert(rows[i] == init[i]);
                        assert(!p(init[i]));
                    }
                }
            },
        }
    }
}

/// Whether two stores hold the same tables and hand out the same ids next.
pub open spec fn same_tables(a: ReceiptStore, b: ReceiptStore) -> bool {
    &&& a.receipts() == b.receipts()
    &&& a.invalid_receipts() == b.invalid_receipts()
    &&& a.failed_rav_requests() == b.failed_rav_requests()
    &&& a.next_id() == b.next_id()
    &&& a.next_invalid_id() == b.next_invalid_id()
    &&& forall|x: Address, y: Address| a.rav(x, y) == b.rav(x, y)
}

/// Whether two stores differ at most in the latest voucher of one pair.
pub open spec fn same_but_rav(a: ReceiptStore, b: ReceiptStore, allocation: Address, sender: Address) -> bool {
    &&& a.receipts() == b.receipts()
    &&& a.invalid_receipts() == b.invalid_receipts()
    &&& a.failed_rav_requests() == b.failed_rav_requests()
    &&& a.next_id() == b.next_id()
    &&& a.next_invalid_id() == b.next_invalid_id()
    &&& forall|x: Address, y: Address| !(x == allocation && y == sender) ==> a.rav(x, y) == b.rav(x, y)
}

/// The receipt store.
pub struct ReceiptStore {
    receipts: Vec<ReceiptRow>,
    receipts_invalid: Vec<ReceiptRow>,
    ravs: AddressMap<AddressMap<RavRow>>,
    rav_requests_failed: Vec<FailedRavRequest>,
    next_id: u64,
    next_invalid_id: u64,
}

impl ReceiptStore {
    #[verifier::type_invariant]
    spec fn inv(self) -> bool {
        &&& ids_increasing(self.receipts@)
        &&& signatures_distinct(self.receipts@)
        &&& forall|i: int|
            0 <= i < self.receipts@.len() ==> 1 <= (#[trigger] self.receipts@[i]).id < self.next_id
        &&& self.next_id >= 1
    }

    /// The receipt log, oldest row first.
    pub closed spec fn receipts(&self) -> Seq<ReceiptRow> {
        self.receipts@
    }

    /// The log of refused receipts, oldest row first.
    pub closed spec fn invalid_receipts(&self) -> Seq<ReceiptRow> {
        self.receipts_invalid@
    }

    /// The latest voucher of a pair, if the pair has one.
    pub closed spec fn rav(&self, allocation: Address, sender: Address) -> Option<RavRow> {
        if self.ravs@.contains_key(allocation) && self.ravs@[allocation]@.contains_key(sender) {
            Some(self.ravs@[allocation]@[sender])
        } else {
            None
        }
    }

    /// The log of refused vouchers, oldest row first.
    pub closed spec fn failed_rav_requests(&self) -> Seq<FailedRavRequest> {
        self.rav_requests_failed@
    }

    /// The id that the next recorded receipt gets.
    pub closed spec fn next_id(&self) -> u64 {
        self.next_id
    }

    /// The id that the next refused receipt gets.
    pub closed spec fn next_invalid_id(&self) -> u64 {
        self.next_invalid_id
    }

    /// The timestamp of the pair's latest voucher, if the pair has one.
    pub open spec fn rav_timestamp(&self, allocation: Address, sender: Address) -> Option<u64> {
        match self.rav(allocation, sender) {
            Some(row) => Some(row.timestamp_ns),
            None => None,
        }
    }

    /// An empty store. The first receipt gets the id 1.
    pub fn new() -> (s: ReceiptStore)
        ensures
            s.receipts().len() == 0,
            s.invalid_receipts().len() == 0,
            s.failed_rav_requests().len() == 0,
            forall|a: Address, b: Address| s.rav(a, b) is None,
            s.next_id() == 1,
            s.next_invalid_id() == 1,
    {
        ReceiptStore {
            receipts: Vec::new(),
            receipts_invalid: Vec::new(),
            ravs: AddressMap::new(),
            rav_requests_failed: Vec::new(),
            next_id: 1,
            next_invalid_id: 1,
        }
    }

    /// An empty store whose tables hand out ids from the given ones on; an id
    /// of zero stands for one.
    pub fn with_next_ids(next_id: u64, next_invalid_id: u64) -> (s: ReceiptStore)
        ensures
            s.receipts().len() == 0,
            s.invalid_receipts().len() == 0,
            s.failed_rav_requests().len() == 0,
            forall|a: Address, b: Address| s.rav(a, b) is None,
            s.next_id() == (if next_id == 0 { 1 } else { next_id }),
            s.next_invalid_id() == (if next_invalid_id == 0 { 1 } else { next_invalid_id }),
    {
        ReceiptStore {
            receipts: Vec::new(),
            receipts_invalid: Vec::new(),
            ravs: AddressMap::new(),
            rav_requests_failed: Vec::new(),
            next_id: if next_id == 0 { 1 } else { next_id },
            next_invalid_id: if next_invalid_id == 0 { 1 } else { next_invalid_id },
        }
    }

    /// States what holds of every store: ids grow along the receipt log, from
    /// one up and below the next id, and no signature occurs twice.
    pub fn log_is_ordered(&self)
        ensures
            ids_increasing(self.receipts()),
            signatures_distinct(self.receipts()),
            forall|i: int|
                0 <= i < self.receipts().len() ==> 1 <= (#[trigger] self.receipts()[i]).id
                    < self.next_id(),
            self.next_id() >= 1,
    {
        proof {
            use_type_invariant(&*self);
        }
    }

    /// Number of rows in the receipt log.
    pub fn receipt_count(&self) -> (n: usize)
        ensures
            n == self.receipts().len(),
    {
        self.receipts.len()
    }

    /// The row of the receipt log at a position.
    pub fn receipt_at(&self, i: usize) -> (row: ReceiptRow)
        requires
            i < self.receipts().len(),
        ensures
            row == self.receipts()[i as int],
    {
        self.receipts[i]
    }

    /// Number of rows in the log of refused receipts.
    pub fn invalid_receipt_count(&self) -> (n: usize)
        ensures
            n == self.invalid_receipts().len(),
    {
        self.receipts_invalid.len()
    }

    /// The row of the log of refused receipts at a position.
    pub fn invalid_receipt_at(&self, i: usize) -> (row: ReceiptRow)
        requires
            i < self.invalid_receipts().len(),
        ensures
            row == self.invalid_receipts()[i as int],
    {
        self.receipts_invalid[i]
    }

    /// Number of rows in the log of refused vouchers.
    pub fn failed_rav_request_count(&self) -> (n: usize)
        ensures
            n == self.failed_rav_requests().len(),
    {
        self.rav_requests_failed.len()
    }

    /// The row of the log of refused vouchers at a position.
    pub fn failed_rav_request_at(&self, i: usize) -> (row: FailedRavRequest)
        requires
            i < self.failed_rav_requests().len(),
        ensures
            row == self.failed_rav_requests()[i as int],
    {
        self.rav_requests_failed[i]
    }

    fn signature_position(&self, signature: &Signature) -> (r: Option<usize>)
        ensures
            match r {
                Some(i) => i < self.receipts().len() && self.receipts()[i as int].signature == *signature,
                None => !has_signature(self.receipts(), *signature),
            },
    {
        let mut i: usize = 0;
        while i < self.receipts.len()
            invariant
                i <= self.receipts.len(),
                forall|j: int| 0 <= j < i ==> (#[trigger] self.receipts@[j]).signature != *signature,
            decreases self.receipts.len() - i,
        {
            if self.receipts[i].signature == *signature {
                return Some(i);
            }
            i += 1;
        }
        None
    }

    /// Records a receipt and says what is announced of it. A receipt whose
    /// signature the log already holds is refused, and so is any receipt once
    /// the ids have run out; the store is then left as it was.
    pub fn insert_receipt(
        &mut self,
        signer: Address,
        allocation: Address,
        signature: Signature,
        nonce: u64,
        timestamp_ns: u64,
        value: u128,
    ) -> (r: Result<NewReceiptNotification, StorageError>)
        ensures
            final(self).invalid_receipts() == old(self).invalid_receipts(),
            final(self).failed_rav_requests() == old(self).failed_rav_requests(),
            final(self).next_invalid_id() == old(self).next_invalid_id(),
            forall|a: Address, b: Address| final(self).rav(a, b) == old(self).rav(a, b),
            r is Ok <==> !has_signature(old(self).receipts(), signature) && old(self).next_id() < u64::MAX,
            r matches Ok(n) ==> {
                &&& final(self).receipts() == old(self).receipts().push(
                    ReceiptRow {
                        id: old(self).next_id(),
                        allocation_id: allocation,
                        signer_address: signer,
                        signature,
                        timestamp_ns,
                        nonce,
                        value,
                    },
                )
                &&& final(self).next_id() == old(self).next_id() + 1
                &&& n == (NewReceiptNotification {
                    id: old(self).next_id(),
                    allocation_id: allocation,
                    signer_address: signer,
                    timestamp_ns,
                    value,
                })
            },
            r matches Err(e) ==> {
                &&& final(self).receipts() == old(self).receipts()
                &&& final(self).next_id() == old(self).next_id()
                &&& e == (if has_signature(old(self).receipts(), signature) {
                    StorageError::DuplicateSignature
                } else {
                    StorageError::IdsExhausted
                })
            },
    {
        proof {
            use_type_invariant(&*self);
        }
        if self.signature_position(&signature).is_some() {
            return Err(StorageError::DuplicateSignature);
        }
        if self.next_id == u64::MAX {
            return Err(StorageError::IdsExhausted);
        }
        let id: u64 = self.next_id;
        let row = ReceiptRow {
            id,
            allocation_id: allocation,
            signer_address: signer,
            signature,
            timestamp_ns,
            nonce,
            value,
        };
        let ghost before = self.receipts@;
        let mut rows: Vec<ReceiptRow> = Vec::new();
        std::mem::swap(&mut rows, &mut self.receipts);
        rows.push(row);
        proof {
            let after = rows@;
            assert forall|i: int, j: int| 0 <= i < j < after.len() implies (#[trigger] after[i]).id < (
            #[trigger] after[j]).id && after[i].signature != after[j].signature by {
                assert(after[i] == before[i]);
                if j < before.len() {
                    assert(after[j] == before[j]);
                }
            }
        }
        self.next_id = id + 1;
        self.receipts = rows;
        Ok(
            NewReceiptNotification {
                id,
                allocation_id: allocation,
                signer_address: signer,
                timestamp_ns,
                value,
            },
        )
    }

    /// Records a refused receipt and returns its row id. Nothing is announced.
    pub fn insert_invalid_receipt(
        &mut self,
        signer: Address,
        allocation: Address,
        signature: Signature,
        nonce: u64,
        timestamp_ns: u64,
        value: u128,
    ) -> (r: Result<u64, StorageError>)
        ensures
            final(self).receipts() == old(self).receipts(),
            final(self).failed_rav_requests() == old(self).failed_rav_requests(),
            final(self).next_id() == old(self).next_id(),
            forall|a: Address, b: Address| final(self).rav(a, b) == old(self).rav(a, b),
            r is Ok <==> old(self).next_invalid_id() < u64::MAX,
            r matches Ok(id) ==> {
                &&& id == old(self).next_invalid_id()
                &&& final(self).next_invalid_id() == id + 1
                &&& final(self).invalid_receipts() == old(self).invalid_receipts().push(
                    ReceiptRow {
                        id,
                        allocation_id: allocation,
                        signer_address: signer,
                        signature,
                        timestamp_ns,
                        nonce,
                        value,
                    },
                )
            },
            r matches Err(e) ==> {
                &&& e == StorageError::IdsExhausted
                &&& final(self).invalid_receipts() == old(self).invalid_receipts()
                &&& final(self).next_invalid_id() == old(self).next_invalid_id()
            },
    {
        proof {
            use_type_invariant(&*self);
        }
        if self.next_invalid_id == u64::MAX {
            return Err(StorageError::IdsExhausted);
        }
        let id: u64 = self.next_invalid_id;
        let mut rows: Vec<ReceiptRow> = Vec::new();
        std::mem::swap(&mut rows, &mut self.receipts_invalid);
        rows.push(
            ReceiptRow {
                id,
                allocation_id: allocation,
                signer_address: signer,
                signature,
                timestamp_ns,
                nonce,
                value,
            },
        );
        self.receipts_invalid = rows;
        self.next_invalid_id = id + 1;
        Ok(id)
    }

    /// Records refused receipts one after another and stops at the first
    /// that the table cannot take: the rows before it stay recorded.
    pub fn insert_invalid_receipts(&mut self, rows: &Vec<ReceiptRow>) -> (r: Result<(), StorageError>)
        ensures
            final(self).receipts() == old(self).receipts(),
            final(self).failed_rav_requests() == old(self).failed_rav_requests(),
            final(self).next_id() == old(self).next_id(),
            forall|a: Address, b: Address| final(self).rav(a, b) == old(self).rav(a, b),
            r is Ok <==> old(self).next_invalid_id() + rows@.len() <= u64::MAX,
            r matches Err(e) ==> e == StorageError::IdsExhausted,
            final(self).invalid_receipts() == old(self).invalid_receipts() + stamped(
                rows@.take(recordable(rows@.len(), old(self).next_invalid_id()) as int),
                old(self).next_invalid_id(),
            ),
            final(self).next_invalid_id() == old(self).next_invalid_id() + recordable(
                rows@.len(),
                old(self).next_invalid_id(),
            ),
    {
        let ghost first = self.next_invalid_id;
        let mut i: usize = 0;
        while i < rows.len()
            invariant
                i <= rows.len(),
                first == old(self).next_invalid_id(),
                first + i <= u64::MAX,
                self.receipts() == old(self).receipts(),
                self.failed_rav_requests() == old(self).failed_rav_requests(),
                self.next_id() == old(self).next_id(),
                forall|a: Address, b: Address| self.rav(a, b) == old(self).rav(a, b),
                self.next_invalid_id() == first + i,
                self.invalid_receipts() == old(self).invalid_receipts() + stamped(
                    rows@.take(i as int),
                    first,
                ),
            decreases rows.len() - i,
        {
            let row = rows[i];
            match self.insert_invalid_receipt(
                row.signer_address,
                row.allocation_id,
                row.signature,
                row.nonce,
                row.timestamp_ns,
                row.value,
            ) {
                Ok(_) => {},
                Err(e) => {
                    assert(recordable(rows@.len(), first) == i);
                    return Err(e);
                },
            }
            proof {
                let before = stamped(rows@.take(i as int), first);
                let after = stamped(rows@.take(i as int + 1), first);
                assert(after =~= before.push(ReceiptRow { id: (first + i) as u64, ..row }));
                assert(self.invalid_receipts() =~= old(self).invalid_receipts() + after);
            }
            i += 1;
        }
        proof {
            assert(rows@.take(rows@.len() as int) =~= rows@);
        }
        Ok(())
    }

    fn row_counted(row: &ReceiptRow, allocation: &Address, signers: &Vec<Address>, since: Option<u64>) -> (r:
        bool)
        ensures
            r == counted(*allocation, signers@, since)(*row),
    {
        if !(row.allocation_id == *allocation) {
            return false;
        }
        if !contains_address(signers, &row.signer_address) {
            return false;
        }
        match since {
            Some(ts) => row.timestamp_ns > ts,
            None => true,
        }
    }

    /// The highest id and the sum of the values of the receipts of a pair
    /// that are strictly newer than `since`; both are missing where there is
    /// no such receipt. A sum that does not fit in 128 bits is held at
    /// `u128::MAX`, and the result says so.
    pub fn sum_values(&self, allocation: &Address, signers: &Vec<Address>, since: Option<u64>) -> (r: ValueSum)
        ensures
            r.max_id == max_id_where(self.receipts(), counted(*allocation, signers@, since)),
            r.max_id is None <==> r.sum is None,
            r.sum matches Some(v) ==> v == held_at_max(
                sum_where(self.receipts(), counted(*allocation, signers@, since)),
            ),
            r.held == (sum_where(self.receipts(), counted(*allocation, signers@, since)) > u128::MAX),
    {
        let ghost p = counted(*allocation, signers@, since);
        let ghost rows = self.receipts@;
        let mut max_id: Option<u64> = None;
        let mut sum: u128 = 0;
        let mut held: bool = false;
        let mut i: usize = 0;
        while i < self.receipts.len()
            invariant
                i <= self.receipts.len(),
                rows == self.receipts@,
                p == counted(*allocation, signers@, since),
                max_id == max_id_where(rows.take(i as int), p),
                sum == held_at_max(sum_where(rows.take(i as int), p)),
                held == (sum_where(rows.take(i as int), p) > u128::MAX),
            decreases self.receipts.len() - i,
        {
            let row = self.receipts[i];
            proof {
                assert(rows.take(i as int + 1).drop_last() =~= rows.take(i as int));
                assert(rows.take(i as int + 1).last() == row);
            }
            if Self::row_counted(&row, allocation, signers, since) {
                max_id = match max_id {
                    Some(m) => Some(if row.id > m { row.id } else { m }),
                    None => Some(row.id),
                };
                match sum.checked_add(row.value) {
                    Some(v) => {
                        sum = v;
                    },
                    None => {
                        sum = u128::MAX;
                        held = true;
                    },
                }
            }
            i += 1;
        }
        proof {
            assert(rows.take(rows.len() as int) =~= rows);
            lemma_max_id_where(rows, p);
        }
        match max_id {
            Some(m) => ValueSum { max_id: Some(m), sum: Some(sum), held },
            None => ValueSum { max_id: None, sum: None, held },
        }
    }

    /// The receipts of a pair that are strictly newer than `since` and not
    /// newer than `until`, oldest row first.
    pub fn receipts_in_range(
        &self,
        allocation: &Address,
        signers: &Vec<Address>,
        since: Option<u64>,
        until: u64,
    ) -> (r: Vec<ReceiptRow>)
        ensures
            r@ == select(self.receipts(), counted_until(*allocation, signers@, since, until)),
    {
        let ghost p = counted_until(*allocation, signers@, since, until);
        let ghost rows = self.receipts@;
        let mut r: Vec<ReceiptRow> = Vec::new();
        let mut i: usize = 0;
        while i < self.receipts.len()
            invariant
                i <= self.receipts.len(),
                rows == self.receipts@,
                p == counted_until(*allocation, signers@, since, until),
                r@ == select(rows.take(i as int), p),
            decreases self.receipts.len() - i,
        {
            let row = self.receipts[i];
            proof {
                assert(rows.take(i as int + 1).drop_last() =~= rows.take(i as int));
                assert(rows.take(i as int + 1).last() == row);
            }
            if Self::row_counted(&row, allocation, signers, since) && row.timestamp_ns <= until {
                r.push(row);
            }
            i += 1;
        }
        proof {
            assert(rows.take(rows.len() as int) =~= rows);
        }
        r
    }

    /// The latest voucher of a pair, if the pair has one.
    pub fn get_rav(&self, allocation: &Address, sender: &Address) -> (r: Option<RavRow>)
        ensures
            r == self.rav(*allocation, *sender),
    {
        match self.ravs.get(allocation) {
            Some(inner) => match inner.get(sender) {
                Some(row) => Some(*row),
                None => None,
            },
            None => None,
        }
    }

    fn put_rav(&mut self, allocation: Address, sender: Address, row: RavRow)
        ensures
            final(self).receipts() == old(self).receipts(),
            final(self).invalid_receipts() == old(self).invalid_receipts(),
            final(self).failed_rav_requests() == old(self).failed_rav_requests(),
            final(self).next_id() == old(self).next_id(),
            final(self).next_invalid_id() == old(self).next_invalid_id(),
            final(self).rav(allocation, sender) == Some(row),
            forall|a: Address, b: Address|
                !(a == allocation && b == sender) ==> final(self).rav(a, b) == old(self).rav(a, b),
    {
        proof {
            use_type_invariant(&*self);
        }
        let mut ravs: AddressMap<AddressMap<RavRow>> = AddressMap::new();
        std::mem::swap(&mut ravs, &mut self.ravs);
        let ghost before = ravs@;
        let mut inner = match ravs.remove(&allocation) {
            Some(m) => m,
            None => AddressMap::new(),
        };
        let ghost inner_before = inner@;
        inner.insert(sender, row);
        ravs.insert(allocation, inner);
        self.ravs = ravs;
        proof {
            assert forall|a: Address, b: Address| !(a == allocation && b == sender) implies self.rav(a, b)
                == old(self).rav(a, b) by {
                if a == allocation {
                    assert(self.ravs@[a]@ == inner_before.insert(sender, row));
                }
            }
        }
    }

    /// Puts a voucher in place of the pair's latest one. The marks `last` and
    /// `is_final` of a row that was there stay; a new row has neither.
    pub fn upsert_rav(
        &mut self,
        allocation: Address,
        sender: Address,
        timestamp_ns: u64,
        value_aggregate: u128,
        signature: Signature,
    )
        ensures
            final(self).receipts() == old(self).receipts(),
            final(self).invalid_receipts() == old(self).invalid_receipts(),
            final(self).failed_rav_requests() == old(self).failed_rav_requests(),
            final(self).next_id() == old(self).next_id(),
            final(self).next_invalid_id() == old(self).next_invalid_id(),
            final(self).rav(allocation, sender) == Some(
                RavRow {
                    allocation_id: allocation,
                    sender_address: sender,
                    timestamp_ns,
                    value_aggregate,
                    signature,
                    last: match old(self).rav(allocation, sender) {
                        Some(row) => row.last,
                        None => false,
                    },
                    is_final: match old(self).rav(allocation, sender) {
                        Some(row) => row.is_final,
                        None => false,
                    },
                },
            ),
            forall|a: Address, b: Address|
                !(a == allocation && b == sender) ==> final(self).rav(a, b) == old(self).rav(a, b),
    {
        let (last, is_final) = match self.get_rav(&allocation, &sender) {
            Some(row) => (row.last, row.is_final),
            None => (false, false),
        };
        self.put_rav(
            allocation,
            sender,
            RavRow {
                allocation_id: allocation,
                sender_address: sender,
                timestamp_ns,
                value_aggregate,
                signature,
                last,
                is_final,
            },
        );
    }

    /// Marks the pair's voucher as the last one. Returns the number of rows
    /// that were updated: one if the pair has a voucher, none otherwise.
    pub fn set_rav_last(&mut self, allocation: Address, sender: Address) -> (rows_affected: u64)
        ensures
            final(self).receipts() == old(self).receipts(),
            final(self).invalid_receipts() == old(self).invalid_receipts(),
            final(self).failed_rav_requests() == old(self).failed_rav_requests(),
            final(self).next_id() == old(self).next_id(),
            final(self).next_invalid_id() == old(self).next_invalid_id(),
            forall|a: Address, b: Address|
                !(a == allocation && b == sender) ==> final(self).rav(a, b) == old(self).rav(a, b),
            match old(self).rav(allocation, sender) {
                Some(row) => rows_affected == 1 && final(self).rav(allocation, sender) == Some(
                    RavRow { last: true, ..row },
                ),
                None => rows_affected == 0 && final(self).rav(allocation, sender) is None,
            },
    {
        match self.get_rav(&allocation, &sender) {
            Some(row) => {
                self.put_rav(allocation, sender, RavRow { last: true, ..row });
                1
            },
            None => 0,
        }
    }

    /// Marks the pair's voucher as final: no further voucher will follow it.
    /// Returns the number of rows that were updated: one if the pair has a
    /// voucher, none otherwise.
    pub fn set_rav_final(&mut self, allocation: Address, sender: Address) -> (rows_affected: u64)
        ensures
            final(self).receipts() == old(self).receipts(),
            final(self).invalid_receipts() == old(self).invalid_receipts(),
            final(self).failed_rav_requests() == old(self).failed_rav_requests(),
            final(self).next_id() == old(self).next_id(),
            final(self).next_invalid_id() == old(self).next_invalid_id(),
            forall|a: Address, b: Address|
                !(a == allocation && b == sender) ==> final(self).rav(a, b) == old(self).rav(a, b),
            match old(self).rav(allocation, sender) {
                Some(row) => rows_affected == 1 && final(self).rav(allocation, sender) == Some(
                    RavRow { is_final: true, ..row },
                ),
                None => rows_affected == 0 && final(self).rav(allocation, sender) is None,
            },
    {
        match self.get_rav(&allocation, &sender) {
            Some(row) => {
                self.put_rav(allocation, sender, RavRow { is_final: true, ..row });
                1
            },
            None => 0,
        }
    }

    /// Records a voucher that was refused, with what was expected and why.
    pub fn insert_failed_rav(
        &mut self,
        allocation: Address,
        sender: Address,
        expected_rav: ReceiptAggregateVoucher,
        rav_response: SignedRav,
        reason: RavRejection,
    )
        ensures
            final(self).receipts() == old(self).receipts(),
            final(self).invalid_receipts() == old(self).invalid_receipts(),
            final(self).next_id() == old(self).next_id(),
            final(self).next_invalid_id() == old(self).next_invalid_id(),
            forall|a: Address, b: Address| final(self).rav(a, b) == old(self).rav(a, b),
            final(self).failed_rav_requests() == old(self).failed_rav_requests().push(
                FailedRavRequest {
                    allocation_id: allocation,
                    sender_address: sender,
                    expected_rav,
                    rav_response,
                    reason,
                },
            ),
    {
        proof {
            use_type_invariant(&*self);
        }
        let mut rows: Vec<FailedRavRequest> = Vec::new();
        std::mem::swap(&mut rows, &mut self.rav_requests_failed);
        rows.push(
            FailedRavRequest {
                allocation_id: allocation,
                sender_address: sender,
                expected_rav,
                rav_response,
                reason,
            },
        );
        self.rav_requests_failed = rows;
    }

    /// Removes the receipts of a pair that the pair's latest voucher covers:
    /// those that are not newer than it. Without a voucher nothing is removed.
    /// Returns the number of rows removed.
    pub fn delete_obsolete(&mut self, allocation: &Address, sender: &Address, signers: &Vec<Address>) -> (removed:
        usize)
        ensures
            final(self).invalid_receipts() == old(self).invalid_receipts(),
            final(self).failed_rav_requests() == old(self).failed_rav_requests(),
            final(self).next_id() == old(self).next_id(),
            final(self).next_invalid_id() == old(self).next_invalid_id(),
            forall|a: Address, b: Address| final(self).rav(a, b) == old(self).rav(a, b),
            final(self).receipts() == (match old(self).rav(*allocation, *sender) {
                Some(rav) => select(
                    old(self).receipts(),
                    kept_after(*allocation, signers@, rav.timestamp_ns),
                ),
                None => old(self).receipts(),
            }),
            removed == old(self).receipts().len() - final(self).receipts().len(),
    {
        proof {
            use_type_invariant(&*self);
        }
        let rav = match self.get_rav(allocation, sender) {
            Some(rav) => rav,
            None => {
                return 0;
            },
        };
        let ghost p = kept_after(*allocation, signers@, rav.timestamp_ns);
        let ghost rows = self.receipts@;
        let mut old_rows: Vec<ReceiptRow> = Vec::new();
        std::mem::swap(&mut old_rows, &mut self.receipts);
        let mut kept: Vec<ReceiptRow> = Vec::new();
        let mut i: usize = 0;
        while i < old_rows.len()
            invariant
                i <= old_rows.len(),
                rows == old_rows@,
                p == kept_after(*allocation, signers@, rav.timestamp_ns),
                kept@ == select(rows.take(i as int), p),
                kept@.len() <= i,
            decreases old_rows.len() - i,
        {
            let row = old_rows[i];
            proof {
                assert(rows.take(i as int + 1).drop_last() =~= rows.take(i as int));
                assert(rows.take(i as int + 1).last() == row);
            }
            let covered = row.allocation_id == *allocation && contains_address(
                signers,
                &row.signer_address,
            ) && row.timestamp_ns <= rav.timestamp_ns;
            if !covered {
                kept.push(row);
            }
            i += 1;
        }
        proof {
            assert(rows.take(rows.len() as int) =~= rows);
            lemma_select_keeps_order(rows, p);
            lemma_select_members(rows, p);
            assert forall|k: int| 0 <= k < kept@.len() implies 1 <= (#[trigger] kept@[k]).id
                < self.next_id by {
                assert(is_row_of(rows, kept@[k]));
            }
        }
        let removed: usize = old_rows.len() - kept.len();
        self.receipts = kept;
        removed
    }
}

} // verus!
