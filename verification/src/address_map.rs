//! A map keyed by account identifier, held as a list in which no key occurs
//! twice.

use vstd::prelude::*;

use crate::address::Address;

verus! {

/// Whether no two entries of the list share a key.
pub open spec fn keys_distinct<V>(s: Seq<(Address, V)>) -> bool {
    forall|i: int, j: int| 0 <= i < j < s.len() ==> (#[trigger] s[i]).0 != (#[trigger] s[j]).0
}

/// Whether some entry of the list has the key.
pub open spec fn has_key<V>(s: Seq<(Address, V)>, k: Address) -> bool {
    exists|i: int| 0 <= i < s.len() && (#[trigger] s[i]).0 == k
}

/// The map that a list of entries with distinct keys denotes.
pub open spec fn entries_map<V>(s: Seq<(Address, V)>) -> Map<Address, V> {
    Map::new(
        |k: Address| has_key(s, k),
        |k: Address| s[choose|i: int| 0 <= i < s.len() && (#[trigger] s[i]).0 == k].1,
    )
}

/// The map after the entries of a list were inserted one after another, so
/// that of two entries with one key the later stays.
pub open spec fn insert_all<V>(m: Map<Address, V>, s: Seq<(Address, V)>) -> Map<Address, V>
    decreases s.len(),
{
    if s.len() == 0 {
        m
    } else {
        insert_all(m, s.drop_last()).insert(s.last().0, s.last().1)
    }
}

/// Each entry of a list with distinct keys is what the map holds under the
/// entry's key.
pub proof fn lemma_entries_map_get<V>(s: Seq<(Address, V)>, i: int)
    requires
        keys_distinct(s),
        0 <= i < s.len(),
    ensures
        entries_map(s).contains_key(s[i].0),
        entries_map(s)[s[i].0] == s[i].1,
{
    let k = s[i].0;
    assert(has_key(s, k));
    let j = choose|j: int| 0 <= j < s.len() && (#[trigger] s[j]).0 == k;
    assert(j == i);
}

/// A map keyed by account identifier.
pub struct AddressMap<V> {
    entries: Vec<(Address, V)>,
}

impl<V> View for AddressMap<V> {
    type V = Map<Address, V>;

    open spec fn view(&self) -> Map<Address, V> {
        entries_map(self.entries())
    }
}

impl<V> AddressMap<V> {
    #[verifier::type_invariant]
    spec fn inv(self) -> bool {
        keys_distinct(self.entries@)
    }

    /// The entries in the order in which their keys were first inserted.
    pub closed spec fn entries(&self) -> Seq<(Address, V)> {
        self.entries@
    }

    /// The empty map.
    pub fn new() -> (m: Self)
        ensures
            m@ == Map::<Address, V>::empty(),
            m.entries().len() == 0,
    {
        let m = AddressMap { entries: Vec::new() };
        assert(m@ =~= Map::<Address, V>::empty());
        m
    }

    /// States what holds of every map: no key occurs twice among the entries,
    /// and the entries are exactly what the map holds.
    pub fn entries_are_distinct(&self)
        ensures
            keys_distinct(self.entries()),
            forall|i: int|
                0 <= i < self.entries().len() ==> self@.contains_key((#[trigger] self.entries()[i]).0)
                    && self@[self.entries()[i].0] == self.entries()[i].1,
            forall|k: Address| self@.contains_key(k) <==> has_key(self.entries(), k),
    {
        proof {
            use_type_invariant(&*self);
            assert forall|i: int| 0 <= i < self.entries().len() implies self@.contains_key(
                (#[trigger] self.entries()[i]).0,
            ) && self@[self.entries()[i].0] == self.entries()[i].1 by {
                lemma_entries_map_get(self.entries(), i);
            }
        }
    }

    /// A map that holds a key has an entry.
    pub proof fn lemma_nonempty(&self, k: Address)
        requires
            self@.contains_key(k),
        ensures
            self.entries().len() > 0,
    {
    }

    /// Number of keys.
    pub fn len(&self) -> (n: usize)
        ensures
            n == self.entries().len(),
    {
        self.entries.len()
    }

    /// The key of the entry at a position.
    pub fn key_at(&self, i: usize) -> (k: &Address)
        requires
            i < self.entries().len(),
        ensures
            *k == self.entries()[i as int].0,
            self@.contains_key(*k),
    {
        proof {
            use_type_invariant(&*self);
            lemma_entries_map_get(self.entries(), i as int);
        }
        &self.entries[i].0
    }

    /// The value of the entry at a position.
    pub fn value_at(&self, i: usize) -> (v: &V)
        requires
            i < self.entries().len(),
        ensures
            *v == self.entries()[i as int].1,
            self@.contains_key(self.entries()[i as int].0),
            self@[self.entries()[i as int].0] == *v,
    {
        proof {
            use_type_invariant(&*self);
            lemma_entries_map_get(self.entries(), i as int);
        }
        &self.entries[i].1
    }

    fn position(&self, k: &Address) -> (r: Option<usize>)
        ensures
            match r {
                Some(i) => i < self.entries().len() && self.entries()[i as int].0 == *k,
                None => !has_key(self.entries(), *k),
            },
    {
        let mut i: usize = 0;
        while i < self.entries.len()
            invariant
                i <= self.entries.len(),
                forall|j: int| 0 <= j < i ==> (#[trigger] self.entries@[j]).0 != *k,
            decreases self.entries.len() - i,
        {
            if self.entries[i].0 == *k {
                return Some(i);
            }
            i += 1;
        }
        None
    }

    /// Whether the map holds the key.
    pub fn contains_key(&self, k: &Address) -> (r: bool)
        ensures
            r == self@.contains_key(*k),
    {
        self.position(k).is_some()
    }

    /// The value under a key, if the map holds the key.
    pub fn get(&self, k: &Address) -> (r: Option<&V>)
        ensures
            match r {
                Some(v) => self@.contains_key(*k) && *v == self@[*k],
                None => !self@.contains_key(*k),
            },
    {
        match self.position(k) {
            Some(i) => {
                proof {
                    use_type_invariant(&*self);
                    lemma_entries_map_get(self.entries(), i as int);
                }
                Some(&self.entries[i].1)
            },
            None => None,
        }
    }

    /// Puts a value under a key, in place of the one that was there.
    pub fn insert(&mut self, k: Address, v: V)
        ensures
            final(self)@ == old(self)@.insert(k, v),
            old(self)@.contains_key(k) ==> exists|i: int|
                0 <= i < old(self).entries().len() && (#[trigger] old(self).entries()[i]).0 == k
                    && final(self).entries() == old(self).entries().update(i, (k, v)),
            !old(self)@.contains_key(k) ==> final(self).entries() == old(self).entries().push((k, v)),
    {
        proof {
            use_type_invariant(&*self);
        }
        let pos = self.position(&k);
        let ghost before = self.entries@;
        let mut e: Vec<(Address, V)> = Vec::new();
        std::mem::swap(&mut e, &mut self.entries);
        match pos {
            Some(i) => {
                e.set(i, (k, v));
            },
            None => {
                e.push((k, v));
            },
        }
        proof {
            let after = e@;
            assert(keys_distinct(after)) by {
                assert forall|a: int, b: int| 0 <= a < b < after.len() implies (#[trigger] after[a]).0
                    != (#[trigger] after[b]).0 by {
                    if pos is Some {
                        assert(after[a].0 == before[a].0);
                        assert(after[b].0 == before[b].0);
                    } else {
                        if b < before.len() {
                            assert(after[a] == before[a]);
                            assert(after[b] == before[b]);
                        } else {
                            assert(after[a] == before[a]);
                        }
                    }
                }
            }
            assert forall|q: Address| #[trigger]
                entries_map(after).contains_key(q) <==> entries_map(before).insert(
                    k,
                    v,
                ).contains_key(q) by {
                if has_key(after, q) {
                    let a = choose|a: int| 0 <= a < after.len() && (#[trigger] after[a]).0 == q;
                    if q != k {
                        assert(before[a].0 == q);
                    }
                }
                if has_key(before, q) {
                    let a = choose|a: int| 0 <= a < before.len() && (#[trigger] before[a]).0 == q;
                    assert(after[a].0 == q);
                }
                if q == k {
                    match pos {
                        Some(i) => {
                            assert(after[i as int].0 == k);
                        },
                        None => {
                            assert(after[before.len() as int].0 == k);
                        },
                    }
                }
            }
            assert forall|q: Address| #[trigger]
                entries_map(after).contains_key(q) implies entries_map(after)[q] == entries_map(
                before,
            ).insert(k, v)[q] by {
                let a = choose|a: int| 0 <= a < after.len() && (#[trigger] after[a]).0 == q;
                lemma_entries_map_get(after, a);
                if q != k {
                    assert(before[a] == after[a]);
                    lemma_entries_map_get(before, a);
                } else {
                    match pos {
                        Some(i) => {
                            assert(after[i as int].0 == k);
                            assert(a == i);
                        },
                        None => {
                            assert(after[before.len() as int].0 == k);
                            assert(a == before.len());
                        },
                    }
                }
            }
            assert(entries_map(after) =~= entries_map(before).insert(k, v));
            match pos {
                Some(i) => {
                    assert(before[i as int].0 == k);
                    assert(after =~= before.update(i as int, (k, v)));
                },
                None => {
                    assert(after =~= before.push((k, v)));
                },
            }
        }
        self.entries = e;
    }

    /// Takes a key and its value out of the map.
    pub fn remove(&mut self, k: &Address) -> (r: Option<V>)
        ensures
            final(self)@ == old(self)@.remove(*k),
            match r {
                Some(v) => old(self)@.contains_key(*k) && v == old(self)@[*k],
                None => !old(self)@.contains_key(*k),
            },
    {
        proof {
            use_type_invariant(&*self);
        }
        let pos = self.position(k);
        let ghost before = self.entries@;
        match pos {
            Some(i) => {
                let mut e: Vec<(Address, V)> = Vec::new();
                std::mem::swap(&mut e, &mut self.entries);
                let removed = e.remove(i);
                proof {
                    let after = e@;
                    lemma_entries_map_get(before, i as int);
                    assert(after == before.remove(i as int));
                    assert forall|a: int| 0 <= a < after.len() implies (#[trigger] after[a])
                        == before[if a < i { a } else { a + 1 }] by {}
                    assert(keys_distinct(after)) by {
                        assert forall|a: int, b: int| 0 <= a < b < after.len() implies (
                        #[trigger] after[a]).0 != (#[trigger] after[b]).0 by {
                            let a0 = if a < i { a } else { a + 1 };
                            let b0 = if b < i { b } else { b + 1 };
                            assert(after[a] == before[a0]);
                            assert(after[b] == before[b0]);
                        }
                    }
                    assert forall|q: Address| #[trigger]
                        entries_map(after).contains_key(q) <==> entries_map(before).remove(
                            *k,
                        ).contains_key(q) by {
                        if has_key(after, q) {
                            let a = choose|a: int| 0 <= a < after.len() && (#[trigger] after[a]).0 == q;
                            let a0 = if a < i { a } else { a + 1 };
                            assert(before[a0].0 == q);
                        }
                        if has_key(before, q) && q != *k {
                            let a0 = choose|a: int|
                                0 <= a < before.len() && (#[trigger] before[a]).0 == q;
                            let a = if a0 < i { a0 } else { a0 - 1 };
                            assert(after[a] == before[a0]);
                        }
                    }
                    assert forall|q: Address| #[trigger]
                        entries_map(after).contains_key(q) implies entries_map(after)[q]
                        == entries_map(before).remove(*k)[q] by {
                        let a = choose|a: int| 0 <= a < after.len() && (#[trigger] after[a]).0 == q;
                        let a0 = if a < i { a } else { a + 1 };
                        assert(after[a] == before[a0]);
                        lemma_entries_map_get(after, a);
                        lemma_entries_map_get(before, a0);
                    }
                    assert(entries_map(after) =~= entries_map(before).remove(*k));
                }
                self.entries = e;
                Some(removed.1)
            },
            None => {
                assert(self@ =~= old(self)@.remove(*k));
                None
            },
        }
    }

    /// The keys, in the order of the entries.
    pub fn keys(&self) -> (r: Vec<Address>)
        ensures
            r@.len() == self.entries().len(),
            forall|i: int| 0 <= i < r@.len() ==> r@[i] == (#[trigger] self.entries()[i]).0,
    {
        let mut r: Vec<Address> = Vec::new();
        let mut i: usize = 0;
        while i < self.entries.len()
            invariant
                i <= self.entries.len(),
                r@.len() == i,
                forall|j: int| 0 <= j < i ==> r@[j] == (#[trigger] self.entries@[j]).0,
            decreases self.entries.len() - i,
        {
            r.push(self.entries[i].0);
            i += 1;
        }
        r
    }

    /// The map that holds the entries of a list, the later of two entries with
    /// one key.
    pub fn from_entries(list: Vec<(Address, V)>) -> (m: Self)
        ensures
            m@ == insert_all(Map::<Address, V>::empty(), list@),
    {
        let mut m = AddressMap::new();
        let mut list = list;
        let ghost all = list@;
        let mut rest: Vec<(Address, V)> = Vec::new();
        // Entries are taken from the back; they are put back in order first.
        while list.len() > 0
            invariant
                rest@.len() + list@.len() == all.len(),
                forall|j: int| 0 <= j < list@.len() ==> list@[j] == all[j],
                forall|j: int| 0 <= j < rest@.len() ==> rest@[j] == all[all.len() - 1 - j],
            decreases list@.len(),
        {
            let e = list.pop().unwrap();
            rest.push(e);
        }
        let ghost done: int = 0;
        while rest.len() > 0
            invariant
                0 <= done <= all.len(),
                rest@.len() + done == all.len(),
                forall|j: int| 0 <= j < rest@.len() ==> rest@[j] == all[all.len() - 1 - j],
                m@ == insert_all(Map::<Address, V>::empty(), all.take(done)),
            decreases rest@.len(),
        {
            let e = rest.pop().unwrap();
            proof {
                assert(e == all[done]);
                assert(all.take(done + 1).drop_last() =~= all.take(done));
                assert(all.take(done + 1).last() == all[done]);
            }
            m.insert(e.0, e.1);
            proof {
                done = done + 1;
            }
        }
        assert(all.take(all.len() as int) =~= all);
        m
    }
}

} // verus!
