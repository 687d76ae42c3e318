//! Accounting for one sender: the unaggregated fees of each of its
//! allocations, and the decision when to ask which allocation for a voucher.

use vstd::prelude::*;

use crate::address::Address;
use crate::address_map::{entries_map, keys_distinct, AddressMap};
use crate::escrow::{contains_address, difference};
use crate::unaggregated_receipts::UnaggregatedReceipts;

verus! {

/// What a sender's account is told.
#[derive(Clone, Copy, Debug, PartialEq, Eq)]
pub enum SenderAccountMessage {
    /// The unaggregated fees of an allocation are now these.
    UpdateReceiptFees(Address, UnaggregatedReceipts),
}

/// Which pairs' accounting to start and which to stop.
#[derive(Clone, Debug, PartialEq, Eq)]
pub struct Changes {
    pub spawn: Vec<Address>,
    pub stop: Vec<Address>,
}

/// The sum of the unaggregated fees of all allocations.
pub open spec fn total_fees(entries: Seq<(Address, UnaggregatedReceipts)>) -> nat
    decreases entries.len(),
{
    if entries.len() == 0 {
        0
    } else {
        total_fees(entries.drop_last()) + entries.last().1.value as nat
    }
}

/// Whether one allocation is asked for a voucher before another: the one
/// with more unaggregated fees, and of two with the same fees the one whose
/// last receipt is older.
pub open spec fn better(a: UnaggregatedReceipts, b: UnaggregatedReceipts) -> bool {
    a.value > b.value || (a.value == b.value && a.last_id < b.last_id)
}

/// Whether the entry at a position is the one to ask for a voucher: no entry
/// comes before it in rank, and it is the first of those that rank equal.
pub open spec fn is_first_best(entries: Seq<(Address, UnaggregatedReceipts)>, i: int) -> bool {
    &&& 0 <= i < entries.len()
    &&& forall|j: int| 0 <= j < entries.len() ==> !better((#[trigger] entries[j]).1, entries[i].1)
    &&& forall|j: int| 0 <= j < i ==> better(entries[i].1, (#[trigger] entries[j]).1)
}

/// The sum over a list is at least the sum over any of its beginnings.
pub proof fn lemma_total_fees_prefix(entries: Seq<(Address, UnaggregatedReceipts)>, n: int)
    requires
        0 <= n <= entries.len(),
    ensures
        total_fees(entries.take(n)) <= total_fees(entries),
    decreases entries.len(),
{
    if n == entries.len() {
        assert(entries.take(n) =~= entries);
    } else {
        assert(entries.drop_last().take(n) =~= entries.take(n));
        lemma_total_fees_prefix(entries.drop_last(), n);
    }
}

/// One more entry adds its fees to the sum.
pub proof fn lemma_total_fees_push(
    entries: Seq<(Address, UnaggregatedReceipts)>,
    entry: (Address, UnaggregatedReceipts),
)
    ensures
        total_fees(entries.push(entry)) == total_fees(entries) + entry.1.value,
{
    assert(entries.push(entry).drop_last() =~= entries);
}

/// An entry put in place of another changes the sum by the difference of
/// their fees.
pub proof fn lemma_total_fees_update(
    entries: Seq<(Address, UnaggregatedReceipts)>,
    i: int,
    entry: (Address, UnaggregatedReceipts),
)
    requires
        0 <= i < entries.len(),
    ensures
        total_fees(entries.update(i, entry)) == total_fees(entries) - entries[i].1.value
            + entry.1.value,
    decreases entries.len(),
{
    if i == entries.len() - 1 {
        assert(entries.update(i, entry).drop_last() =~= entries.drop_last());
    } else {
        assert(entries.update(i, entry).drop_last() =~= entries.drop_last().update(i, entry));
        lemma_total_fees_update(entries.drop_last(), i, entry);
    }
}

/// The state of a sender's account.
pub struct SenderAccountState {
    sender: Address,
    totals: AddressMap<UnaggregatedReceipts>,
    allocation_ids: Vec<Address>,
    rav_request_in_flight: bool,
    rav_request_trigger_value: u128,
}

impl SenderAccountState {
    /// The sender.
    pub closed spec fn sender_address(&self) -> Address {
        self.sender
    }

    /// The unaggregated fees of each allocation that has reported any.
    pub closed spec fn totals(&self) -> Map<Address, UnaggregatedReceipts> {
        self.totals@
    }

    /// The reported fees in the order in which the allocations first
    /// reported.
    pub closed spec fn entries(&self) -> Seq<(Address, UnaggregatedReceipts)> {
        self.totals.entries()
    }

    /// The allocations whose accounting runs.
    pub closed spec fn allocations(&self) -> Seq<Address> {
        self.allocation_ids@
    }

    /// Whether an allocation was asked for a voucher and has not answered.
    pub closed spec fn in_flight(&self) -> bool {
        self.rav_request_in_flight
    }

    /// The sum of unaggregated fees at which a voucher is asked for.
    pub closed spec fn trigger_value(&self) -> u128 {
        self.rav_request_trigger_value
    }

    /// The account of a sender of which nothing is known yet.
    pub fn new(sender: Address, rav_request_trigger_value: u128) -> (s: SenderAccountState)
        ensures
            s.sender_address() == sender,
            s.trigger_value() == rav_request_trigger_value,
            s.totals() == Map::<Address, UnaggregatedReceipts>::empty(),
            s.entries() == Seq::<(Address, UnaggregatedReceipts)>::empty(),
            total_fees(s.entries()) == 0,
            s.allocations().len() == 0,
            !s.in_flight(),
    {
        SenderAccountState {
            sender,
            totals: AddressMap::new(),
            allocation_ids: Vec::new(),
            rav_request_in_flight: false,
            rav_request_trigger_value,
        }
    }

    /// States what holds of every account: no allocation occurs twice among
    /// the reported fees, and the fees in their order are exactly what is
    /// held under each allocation.
    pub fn entries_denote_totals(&self)
        ensures
            keys_distinct(self.entries()),
            self.totals() == entries_map(self.entries()),
            forall|i: int|
                0 <= i < self.entries().len() ==> self.totals().contains_key(
                    (#[trigger] self.entries()[i]).0,
                ) && self.totals()[self.entries()[i].0] == self.entries()[i].1,
    {
        self.totals.entries_are_distinct();
    }

    /// Whether an allocation was asked for a voucher and has not answered.
    pub fn rav_request_in_flight(&self) -> (r: bool)
        ensures
            r == self.in_flight(),
    {
        self.rav_request_in_flight
    }

    /// The unaggregated fees that an allocation reported last.
    pub fn fees_of(&self, allocation: &Address) -> (r: Option<UnaggregatedReceipts>)
        ensures
            match r {
                Some(u) => self.totals().contains_key(*allocation) && u == self.totals()[*allocation],
                None => !self.totals().contains_key(*allocation),
            },
    {
        match self.totals.get(allocation) {
            Some(u) => Some(*u),
            None => None,
        }
    }

    /// Whether the unaggregated fees of all allocations together reach an
    /// amount.
    pub fn total_reaches(&self, amount: u128) -> (r: bool)
        ensures
            r == (total_fees(self.entries()) >= amount),
    {
        let ghost e = self.totals.entries();
        let mut sum: u128 = 0;
        let mut i: usize = 0;
        while i < self.totals.len()
            invariant
                i <= e.len(),
                e == self.totals.entries(),
                sum == total_fees(e.take(i as int)),
            decreases e.len() - i,
        {
            proof {
                assert(e.take(i as int + 1).drop_last() =~= e.take(i as int));
                assert(e.take(i as int + 1).last() == e[i as int]);
            }
            match sum.checked_add(self.totals.value_at(i).value) {
                Some(v) => {
                    sum = v;
                },
                None => {
                    proof {
                        lemma_total_fees_prefix(e, i as int + 1);
                    }
                    return true;
                },
            }
            i += 1;
        }
        proof {
            assert(e.take(e.len() as int) =~= e);
        }
        sum >= amount
    }

    /// The allocation to ask for a voucher: the one with the most
    /// unaggregated fees, of several with the same fees the one whose last
    /// receipt is oldest, and of several that agree in both the one that
    /// reported first. None where no allocation has reported.
    pub fn allocation_to_trigger(&self) -> (r: Option<Address>)
        ensures
            r is None <==> self.entries().len() == 0,
            r matches Some(a) ==> exists|i: int|
                is_first_best(self.entries(), i) && (#[trigger] self.entries()[i]).0 == a,
    {
        let ghost e = self.totals.entries();
        if self.totals.len() == 0 {
            return None;
        }
        let mut best: usize = 0;
        let mut i: usize = 1;
        while i < self.totals.len()
            invariant
                1 <= i <= e.len(),
                e == self.totals.entries(),
                best < i,
                forall|j: int| 0 <= j < i ==> !better((#[trigger] e[j]).1, e[best as int].1),
                forall|j: int| 0 <= j < best ==> better(e[best as int].1, (#[trigger] e[j]).1),
            decreases e.len() - i,
        {
            let candidate = *self.totals.value_at(i);
            let current = *self.totals.value_at(best);
            if candidate.value > current.value || (candidate.value == current.value
                && candidate.last_id < current.last_id) {
                best = i;
            }
            i += 1;
        }
        let a = *self.totals.key_at(best);
        proof {
            assert(is_first_best(self.entries(), best as int));
            assert(self.entries()[best as int].0 == a);
        }
        Some(a)
    }

    /// Takes the unaggregated fees that an allocation reports. If no voucher
    /// request of this sender is under way and the fees of all allocations
    /// together have reached the trigger value, the allocation to ask for a
    /// voucher is returned, and a request counts as under way from then on.
    pub fn update_receipt_fees(&mut self, allocation: Address, fees: UnaggregatedReceipts) -> (r: Option<
        Address,
    >)
        ensures
            final(self).totals() == old(self).totals().insert(allocation, fees),
            !old(self).totals().contains_key(allocation) ==> final(self).entries() == old(
                self,
            ).entries().push((allocation, fees)),
            old(self).totals().contains_key(allocation) ==> exists|i: int|
                0 <= i < old(self).entries().len() && (#[trigger] old(self).entries()[i]).0
                    == allocation && final(self).entries() == old(self).entries().update(
                    i,
                    (allocation, fees),
                ),
            total_fees(final(self).entries()) == total_fees(old(self).entries()) - (if old(
                self,
            ).totals().contains_key(allocation) {
                old(self).totals()[allocation].value
            } else {
                0
            }) + fees.value,
            final(self).sender_address() == old(self).sender_address(),
            final(self).trigger_value() == old(self).trigger_value(),
            final(self).allocations() == old(self).allocations(),
            r is Some <==> !old(self).in_flight() && total_fees(final(self).entries()) >= old(
                self,
            ).trigger_value(),
            r matches Some(a) ==> exists|i: int|
                is_first_best(final(self).entries(), i) && (#[trigger] final(self).entries()[i]).0 == a,
            final(self).in_flight() == (old(self).in_flight() || r is Some),
    {
        self.totals.entries_are_distinct();
        self.totals.insert(allocation, fees);
        proof {
            let before = old(self).entries();
            if old(self).totals().contains_key(allocation) {
                let i = choose|i: int|
                    0 <= i < before.len() && (#[trigger] before[i]).0 == allocation && self.entries()
                        == before.update(i, (allocation, fees));
                lemma_total_fees_update(before, i, (allocation, fees));
            } else {
                lemma_total_fees_push(before, (allocation, fees));
            }
        }
        if self.rav_request_in_flight {
            return None;
        }
        if !self.total_reaches(self.rav_request_trigger_value) {
            return None;
        }
        let r = self.allocation_to_trigger();
        proof {
            assert(self.totals@.contains_key(allocation));
            self.totals.lemma_nonempty(allocation);
        }
        self.rav_request_in_flight = true;
        r
    }

    /// Takes note that the allocation that was asked for a voucher has
    /// answered or failed: no request is under way any more.
    pub fn rav_request_finished(&mut self)
        ensures
            !final(self).in_flight(),
            final(self).totals() == old(self).totals(),
            final(self).entries() == old(self).entries(),
            final(self).sender_address() == old(self).sender_address(),
            final(self).trigger_value() == old(self).trigger_value(),
            final(self).allocations() == old(self).allocations(),
    {
        self.rav_request_in_flight = false;
    }

    /// Takes the set of allocations that are eligible now. Returns the
    /// allocations whose accounting is to be started, those that are eligible
    /// and do not run yet, and the ones to be stopped, those that run and are
    /// no longer eligible.
    pub fn update_allocation_ids(&mut self, allocation_ids: Vec<Address>) -> (changes: Changes)
        ensures
            final(self).allocations() == allocation_ids@,
            final(self).totals() == old(self).totals(),
            final(self).entries() == old(self).entries(),
            final(self).sender_address() == old(self).sender_address(),
            final(self).trigger_value() == old(self).trigger_value(),
            final(self).in_flight() == old(self).in_flight(),
            changes.spawn@.no_duplicates(),
            changes.stop@.no_duplicates(),
            forall|a: Address|
                changes.spawn@.contains(a) <==> allocation_ids@.contains(a) && !old(
                    self,
                ).allocations().contains(a),
            forall|a: Address|
                changes.stop@.contains(a) <==> old(self).allocations().contains(a)
                    && !allocation_ids@.contains(a),
    {
        let spawn = difference(&allocation_ids, &self.allocation_ids);
        let stop = difference(&self.allocation_ids, &allocation_ids);
        self.allocation_ids = allocation_ids;
        Changes { spawn, stop }
    }

    /// The allocations to close when the sender is no longer eligible: all
    /// whose accounting runs, each once.
    pub fn allocations_to_close(&self) -> (r: Vec<Address>)
        ensures
            r@.no_duplicates(),
            forall|a: Address| r@.contains(a) <==> self.allocations().contains(a),
    {
        let none: Vec<Address> = Vec::new();
        difference(&self.allocation_ids, &none)
    }

    /// Whether the accounting of an allocation runs.
    pub fn has_allocation(&self, allocation: &Address) -> (r: bool)
        ensures
            r == self.allocations().contains(*allocation),
    {
        contains_address(&self.allocation_ids, allocation)
    }
}

} // verus!
