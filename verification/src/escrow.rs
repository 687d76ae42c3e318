//! The escrow snapshot: what each sender has deposited and which keys may
//! sign for it.

use vstd::prelude::*;

use crate::address::{hex_of, Address};
use crate::address_map::{has_key, AddressMap};

verus! {

/// An unsigned 256-bit amount, held as two 128-bit halves.
#[derive(Clone, Copy, Debug, PartialEq, Eq, Structural, Hash)]
pub struct U256 {
    pub hi: u128,
    pub lo: u128,
}

impl U256 {
    /// The amount as a number.
    pub open spec fn value(self) -> nat {
        (self.hi as nat) * 0x1_0000_0000_0000_0000_0000_0000_0000_0000nat + self.lo as nat
    }

    /// The amount zero.
    pub fn zero() -> (z: U256)
        ensures
            z.value() == 0,
    {
        U256 { hi: 0, lo: 0 }
    }

    /// The amount of a 128-bit number.
    pub fn from_u128(v: u128) -> (z: U256)
        ensures
            z.value() == v,
    {
        U256 { hi: 0, lo: v }
    }

    /// Whether the amount is zero.
    pub fn is_zero(&self) -> (r: bool)
        ensures
            r == (self.value() == 0),
    {
        assert(self.hi > 0 ==> self.value() > 0) by (nonlinear_arith)
            requires
                self.value() == (self.hi as nat) * 0x1_0000_0000_0000_0000_0000_0000_0000_0000nat
                    + self.lo as nat,
        ;
        self.hi == 0 && self.lo == 0
    }
}

/// Whether an identifier occurs in a list.
pub fn contains_address(list: &Vec<Address>, a: &Address) -> (r: bool)
    ensures
        r == list@.contains(*a),
{
    let mut i: usize = 0;
    while i < list.len()
        invariant
            i <= list.len(),
            forall|j: int| 0 <= j < i ==> list@[j] != *a,
        decreases list.len() - i,
    {
        if list[i] == *a {
            return true;
        }
        i += 1;
    }
    false
}

/// The identifiers of the first list that the second does not hold, each
/// once.
pub fn difference(a: &Vec<Address>, b: &Vec<Address>) -> (r: Vec<Address>)
    ensures
        r@.no_duplicates(),
        forall|x: Address| r@.contains(x) <==> a@.contains(x) && !b@.contains(x),
{
    let mut r: Vec<Address> = Vec::new();
    let mut i: usize = 0;
    while i < a.len()
        invariant
            i <= a.len(),
            r@.no_duplicates(),
            forall|x: Address| r@.contains(x) <==> a@.take(i as int).contains(x) && !b@.contains(x),
        decreases a.len() - i,
    {
        let x = a[i];
        let ghost before = r@;
        let ghost t0 = a@.take(i as int);
        let ghost t1 = a@.take(i as int + 1);
        proof {
            assert(t1 =~= t0.push(x));
        }
        if !contains_address(b, &x) && !contains_address(&r, &x) {
            r.push(x);
        }
        proof {
            let after = r@;
            assert forall|y: Address| after.contains(y) <==> t1.contains(y) && !b@.contains(y) by {
                if after.contains(y) {
                    let k = choose|k: int| 0 <= k < after.len() && after[k] == y;
                    if k < before.len() {
                        assert(before[k] == y);
                        assert(before.contains(y));
                        let m = choose|m: int| 0 <= m < t0.len() && t0[m] == y;
                        assert(t1[m] == y);
                    } else {
                        assert(y == x);
                        assert(t1[i as int] == x);
                    }
                }
                if t1.contains(y) && !b@.contains(y) {
                    let m = choose|m: int| 0 <= m < t1.len() && t1[m] == y;
                    if m < i {
                        assert(t0[m] == y);
                        assert(t0.contains(y));
                        assert(before.contains(y));
                        let k = choose|k: int| 0 <= k < before.len() && before[k] == y;
                        assert(after[k] == y);
                    } else {
                        assert(y == x);
                        if before.contains(x) {
                            let k = choose|k: int| 0 <= k < before.len() && before[k] == x;
                            assert(after[k] == x);
                        } else {
                            assert(after[before.len() as int] == x);
                        }
                    }
                }
            }
        }
        i += 1;
    }
    proof {
        assert(a@.take(a@.len() as int) =~= a@);
    }
    r
}

/// Whether the entry at a position lists the key and is what the map holds
/// under the entry's sender.
pub open spec fn lists(
    e: Seq<(Address, Vec<Address>)>,
    m: Map<Address, Vec<Address>>,
    signer: Address,
    i: int,
) -> bool {
    0 <= i < e.len() && e[i].1@.contains(signer) && m.contains_key(e[i].0) && m[e[i].0] == e[i].1
}

/// The sender of the first entry, from a position on, that lists the key.
pub open spec fn first_listing(
    e: Seq<(Address, Vec<Address>)>,
    m: Map<Address, Vec<Address>>,
    signer: Address,
    from: int,
) -> Option<Address>
    decreases e.len() - from,
{
    if from < 0 || from >= e.len() {
        None
    } else if lists(e, m, signer, from) {
        Some(e[from].0)
    } else {
        first_listing(e, m, signer, from + 1)
    }
}

/// The first listing is a sender under which the map lists the key; there is
/// none only where no entry from the position on lists the key.
pub proof fn lemma_first_listing(
    e: Seq<(Address, Vec<Address>)>,
    m: Map<Address, Vec<Address>>,
    signer: Address,
    from: int,
)
    requires
        0 <= from,
    ensures
        match first_listing(e, m, signer, from) {
            Some(sender) => m.contains_key(sender) && m[sender]@.contains(signer),
            None => forall|j: int| from <= j < e.len() ==> !lists(e, m, signer, j),
        },
    decreases e.len() - from,
{
    if from < e.len() && !lists(e, m, signer, from) {
        lemma_first_listing(e, m, signer, from + 1);
    }
}

/// Balances and authorised signers of the senders, as last read from the
/// escrow subgraph.
pub struct EscrowAccounts {
    balances: AddressMap<U256>,
    signers: AddressMap<Vec<Address>>,
}

impl EscrowAccounts {
    /// The balance of each sender that the snapshot knows.
    pub closed spec fn balances(&self) -> Map<Address, U256> {
        self.balances@
    }

    /// The signers of each sender that the snapshot knows.
    pub closed spec fn signers(&self) -> Map<Address, Vec<Address>> {
        self.signers@
    }

    /// The signers listed for a sender; none for a sender that is not listed.
    pub open spec fn signers_of(&self, sender: Address) -> Seq<Address> {
        if self.signers().contains_key(sender) {
            self.signers()[sender]@
        } else {
            Seq::empty()
        }
    }

    /// Whether the key is authorised to sign for the sender.
    pub open spec fn is_signer_of(&self, signer: Address, sender: Address) -> bool {
        self.signers().contains_key(sender) && self.signers()[sender]@.contains(signer)
    }

    /// The sender that a key signs for: the first sender in the snapshot's
    /// order that lists the key, if any does.
    pub closed spec fn sender_of(&self, signer: Address) -> Option<Address> {
        first_listing(self.signers.entries(), self.signers@, signer, 0)
    }

    /// What the sender of a key is: a sender that lists the key; and where a
    /// key has no sender, no sender lists it.
    pub proof fn lemma_sender_of(&self, signer: Address)
        ensures
            match self.sender_of(signer) {
                Some(sender) => self.is_signer_of(signer, sender),
                None => forall|s: Address| !self.is_signer_of(signer, s),
            },
    {
        let e = self.signers.entries();
        let m = self.signers@;
        lemma_first_listing(e, m, signer, 0);
        if self.sender_of(signer) is None {
            assert forall|s: Address| !self.is_signer_of(signer, s) by {
                if self.is_signer_of(signer, s) {
                    assert(has_key(e, s));
                    let c = choose|i: int| 0 <= i < e.len() && (#[trigger] e[i]).0 == s;
                    assert(m[s] == e[c].1);
                    assert(lists(e, m, signer, c));
                }
            }
        }
    }

    /// Whether the sender has a balance above zero.
    pub open spec fn sender_is_eligible(&self, sender: Address) -> bool {
        self.balances().contains_key(sender) && self.balances()[sender].value() > 0
    }

    /// A snapshot from the two mappings.
    pub fn new(balances: AddressMap<U256>, signers: AddressMap<Vec<Address>>) -> (e: EscrowAccounts)
        ensures
            e.balances() == balances@,
            e.signers() == signers@,
    {
        EscrowAccounts { balances, signers }
    }

    /// The balance of a sender, if the snapshot lists it.
    pub fn get_balance_for_sender(&self, sender: &Address) -> (r: Option<U256>)
        ensures
            match r {
                Some(b) => self.balances().contains_key(*sender) && b == self.balances()[*sender],
                None => !self.balances().contains_key(*sender),
            },
    {
        match self.balances.get(sender) {
            Some(b) => Some(*b),
            None => None,
        }
    }

    /// Whether a sender may pay with receipts: its balance is above zero.
    pub fn is_sender_eligible(&self, sender: &Address) -> (r: bool)
        ensures
            r == self.sender_is_eligible(*sender),
    {
        match self.balances.get(sender) {
            Some(b) => !b.is_zero(),
            None => false,
        }
    }

    /// The keys that may sign for a sender.
    pub fn get_signers_for_sender(&self, sender: &Address) -> (r: Vec<Address>)
        ensures
            r@ == self.signers_of(*sender),
    {
        match self.signers.get(sender) {
            Some(list) => {
                let mut r: Vec<Address> = Vec::new();
                let mut i: usize = 0;
                while i < list.len()
                    invariant
                        i <= list.len(),
                        r@ == list@.take(i as int),
                    decreases list.len() - i,
                {
                    r.push(list[i]);
                    assert(list@.take(i as int + 1) =~= list@.take(i as int).push(list@[i as int]));
                    i += 1;
                }
                assert(list@.take(list.len() as int) =~= list@);
                r
            },
            None => Vec::new(),
        }
    }

    /// The sender that a key signs for. Where the snapshot lists the key under
    /// several senders, the first of them in the snapshot's order is given.
    pub fn get_sender_for_signer(&self, signer: &Address) -> (r: Option<Address>)
        ensures
            r == self.sender_of(*signer),
            match r {
                Some(sender) => self.is_signer_of(*signer, sender),
                None => forall|s: Address| !self.is_signer_of(*signer, s),
            },
    {
        self.signers.entries_are_distinct();
        let ghost e = self.signers.entries();
        let ghost m = self.signers@;
        let mut i: usize = 0;
        while i < self.signers.len()
            invariant
                i <= e.len(),
                e == self.signers.entries(),
                m == self.signers@,
                forall|j: int|
                    0 <= j < e.len() ==> m.contains_key((#[trigger] e[j]).0) && m[e[j].0] == e[j].1,
                self.sender_of(*signer) == first_listing(e, m, *signer, i as int),
            decreases e.len() - i,
        {
            let list = self.signers.value_at(i);
            if contains_address(list, signer) {
                let sender = *self.signers.key_at(i);
                proof {
                    assert(lists(e, m, *signer, i as int));
                    self.lemma_sender_of(*signer);
                }
                return Some(sender);
            }
            i += 1;
        }
        proof {
            self.lemma_sender_of(*signer);
        }
        None
    }

    /// The senders that may pay with receipts: those with a balance above
    /// zero, each once.
    pub fn eligible_senders(&self) -> (r: Vec<Address>)
        ensures
            r@.no_duplicates(),
            forall|s: Address| r@.contains(s) <==> self.sender_is_eligible(s),
    {
        self.balances.entries_are_distinct();
        let ghost e = self.balances.entries();
        let mut r: Vec<Address> = Vec::new();
        let mut i: usize = 0;
        while i < self.balances.len()
            invariant
                i <= e.len(),
                e == self.balances.entries(),
                crate::address_map::keys_distinct(e),
                forall|j: int|
                    0 <= j < e.len() ==> self.balances@.contains_key((#[trigger] e[j]).0)
                        && self.balances@[e[j].0] == e[j].1,
                forall|k: Address| self.balances@.contains_key(k) <==> has_key(e, k),
                r@.no_duplicates(),
                forall|s: Address|
                    r@.contains(s) <==> exists|j: int|
                        0 <= j < i && (#[trigger] e[j]).0 == s && e[j].1.value() > 0,
            decreases e.len() - i,
        {
            let balance = *self.balances.value_at(i);
            let sender = *self.balances.key_at(i);
            let ghost before = r@;
            if !balance.is_zero() {
                proof {
                    if before.contains(sender) {
                        let j = choose|j: int| 0 <= j < i && (#[trigger] e[j]).0 == sender && e[j].1.value() > 0;
                        assert(e[j].0 != e[i as int].0);
                    }
                }
                r.push(sender);
            }
            proof {
                assert forall|s: Address|
                    r@.contains(s) <==> exists|j: int|
                        0 <= j < i + 1 && (#[trigger] e[j]).0 == s && e[j].1.value() > 0 by {
                    if r@.contains(s) {
                        let k = choose|k: int| 0 <= k < r@.len() && r@[k] == s;
                        if k < before.len() {
                            assert(before[k] == s);
                            assert(before.contains(s));
                        } else {
                            assert(e[i as int].0 == s && e[i as int].1.value() > 0);
                        }
                    }
                    if exists|j: int| 0 <= j < i + 1 && (#[trigger] e[j]).0 == s && e[j].1.value() > 0 {
                        let j = choose|j: int|
                            0 <= j < i + 1 && (#[trigger] e[j]).0 == s && e[j].1.value() > 0;
                        if j < i {
                            assert(before.contains(s));
                            let k = choose|k: int| 0 <= k < before.len() && before[k] == s;
                            assert(r@[k] == s);
                        } else {
                            assert(r@[before.len() as int] == s);
                        }
                    }
                }
            }
            i += 1;
        }
        proof {
            assert forall|s: Address| r@.contains(s) <==> self.sender_is_eligible(s) by {
                if r@.contains(s) {
                    let j = choose|j: int|
                        0 <= j < e.len() && (#[trigger] e[j]).0 == s && e[j].1.value() > 0;
                    assert(self.balances@[e[j].0] == e[j].1);
                }
                if self.sender_is_eligible(s) {
                    let j = choose|j: int| 0 <= j < e.len() && (#[trigger] e[j]).0 == s;
                    assert(self.balances@[e[j].0] == e[j].1);
                }
            }
        }
        r
    }

    /// The signers of a sender as stored in the receipt table: lower-case
    /// hexadecimal text without a prefix.
    pub fn signers_trimmed(&self, sender: &Address) -> (r: Vec<String>)
        ensures
            r@.len() == self.signers_of(*sender).len(),
            forall|i: int| 0 <= i < r@.len() ==> (#[trigger] r@[i])@ == hex_of(self.signers_of(*sender)[i]@),
    {
        let signers = self.get_signers_for_sender(sender);
        let mut r: Vec<String> = Vec::new();
        let mut i: usize = 0;
        while i < signers.len()
            invariant
                i <= signers.len(),
                r@.len() == i,
                forall|j: int| 0 <= j < i ==> (#[trigger] r@[j])@ == hex_of(signers@[j]@),
            decreases signers.len() - i,
        {
            r.push(signers[i].encode_hex());
            i += 1;
        }
        r
    }
}

} // verus!
