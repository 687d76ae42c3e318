//! The supervisor of the senders' accounts: which senders and allocations are
//! accounted for, and where a notification of a new receipt goes.

use vstd::prelude::*;

use crate::address::Address;
use crate::address_map::AddressMap;
use crate::allocation::Allocation;
use crate::escrow::{contains_address, difference, EscrowAccounts};
use crate::receipt::NewReceiptNotification;
use crate::sender_account::Changes;

verus! {

/// Where a notification of a new receipt goes.
#[derive(Clone, Copy, Debug, PartialEq, Eq)]
pub struct Route {
    pub sender: Address,
    pub allocation_id: Address,
}

/// What the supervisor knows: the senders whose accounts run and the
/// allocations that are eligible.
pub struct SenderAccountsManagerState {
    senders: Vec<Address>,
    allocation_ids: Vec<Address>,
}

impl SenderAccountsManagerState {
    /// The senders whose accounts run.
    pub closed spec fn senders(&self) -> Seq<Address> {
        self.senders@
    }

    /// The allocations that are eligible.
    pub closed spec fn allocations(&self) -> Seq<Address> {
        self.allocation_ids@
    }

    /// A supervisor that accounts for nobody yet.
    pub fn new() -> (s: SenderAccountsManagerState)
        ensures
            s.senders().len() == 0,
            s.allocations().len() == 0,
    {
        SenderAccountsManagerState { senders: Vec::new(), allocation_ids: Vec::new() }
    }

    /// Takes a new escrow snapshot: the senders to account for are those
    /// with a balance above zero. Returns the senders whose accounts are to be
    /// started and those whose accounts are to be stopped.
    pub fn update_senders(&mut self, escrow: &EscrowAccounts) -> (changes: Changes)
        ensures
            final(self).allocations() == old(self).allocations(),
            final(self).senders().no_duplicates(),
            forall|s: Address| final(self).senders().contains(s) <==> escrow.sender_is_eligible(s),
            changes.spawn@.no_duplicates(),
            changes.stop@.no_duplicates(),
            forall|s: Address|
                changes.spawn@.contains(s) <==> escrow.sender_is_eligible(s) && !old(
                    self,
                ).senders().contains(s),
            forall|s: Address|
                changes.stop@.contains(s) <==> old(self).senders().contains(s)
                    && !escrow.sender_is_eligible(s),
    {
        let current = escrow.eligible_senders();
        let spawn = difference(&current, &self.senders);
        let stop = difference(&self.senders, &current);
        self.senders = current;
        Changes { spawn, stop }
    }

    /// Takes a new allocations snapshot: the eligible allocations are its
    /// keys. Returns them, to be handed on to every sender's account.
    pub fn update_allocations(&mut self, allocations: &AddressMap<Allocation>) -> (ids: Vec<Address>)
        ensures
            final(self).senders() == old(self).senders(),
            final(self).allocations() == ids@,
            ids@.len() == allocations.entries().len(),
            forall|i: int| 0 <= i < ids@.len() ==> ids@[i] == (#[trigger] allocations.entries()[i]).0,
            forall|a: Address| ids@.contains(a) <==> allocations@.contains_key(a),
    {
        let ids = allocations.keys();
        let kept = allocations.keys();
        proof {
            assert forall|a: Address| ids@.contains(a) <==> allocations@.contains_key(a) by {
                if ids@.contains(a) {
                    let i = choose|i: int| 0 <= i < ids@.len() && ids@[i] == a;
                    assert(allocations.entries()[i].0 == a);
                }
                if allocations@.contains_key(a) {
                    let i = choose|i: int|
                        0 <= i < allocations.entries().len() && (#[trigger] allocations.entries()[i]).0
                            == a;
                    assert(ids@[i] == a);
                }
            }
            assert forall|i: int| 0 <= i < ids@.len() implies kept@[i] == ids@[i] by {
                assert(ids@[i] == allocations.entries()[i].0);
            }
            assert(kept@ =~= ids@);
        }
        self.allocation_ids = kept;
        ids
    }

    /// Where a notification of a new receipt goes: to the account of the
    /// sender that the receipt's signer belongs to, for the receipt's
    /// allocation. A notification for a sender without a running account or
    /// for an allocation that is not eligible goes nowhere; the receipt is in
    /// the log and is counted when the pair's accounting starts.
    pub fn route_notification(&self, escrow: &EscrowAccounts, notification: &NewReceiptNotification) -> (r:
        Option<Route>)
        ensures
            r == (match escrow.sender_of(notification.signer_address) {
                Some(sender) => if self.senders().contains(sender) && self.allocations().contains(
                    notification.allocation_id,
                ) {
                    Some(Route { sender, allocation_id: notification.allocation_id })
                } else {
                    None
                },
                None => None,
            }),
    {
        match escrow.get_sender_for_signer(&notification.signer_address) {
            Some(sender) => {
                if contains_address(&self.senders, &sender) && contains_address(
                    &self.allocation_ids,
                    &notification.allocation_id,
                ) {
                    Some(Route { sender, allocation_id: notification.allocation_id })
                } else {
                    None
                }
            },
            None => None,
        }
    }
}

} // verus!
