//! A finite map kept as a list of entries with distinct keys; its contents are
//! a `Map` from key views to values.
use vstd::prelude::*;

verus! {

/// A key of a ledger: equality and copying are decided on its view.
pub trait LedgerKey: View + Sized {
    fn same_key(&self, other: &Self) -> (r: bool)
        ensures
            r == (self@ == other@);

    fn copy_key(&self) -> (r: Self)
        ensures
            r@ == self@;
}

impl LedgerKey for String {
    fn same_key(&self, other: &Self) -> (r: bool) {
        *self == *other
    }

    fn copy_key(&self) -> (r: Self) {
        self.clone()
    }
}

impl LedgerKey for (String, String) {
    fn same_key(&self, other: &Self) -> (r: bool) {
        self.0 == other.0 && self.1 == other.1
    }

    fn copy_key(&self) -> (r: Self) {
        (self.0.clone(), self.1.clone())
    }
}

/// A value of a ledger that can be compared.
pub trait LedgerValue: Copy + Sized {
    fn same_value(&self, other: &Self) -> (r: bool)
        ensures
            r == (*self == *other);
}

impl LedgerValue for u128 {
    fn same_value(&self, other: &Self) -> (r: bool) {
        *self == *other
    }
}

impl LedgerValue for u64 {
    fn same_value(&self, other: &Self) -> (r: bool) {
        *self == *other
    }
}

/// Entries `(key, value)`, no two with the same key view.
#[derive(Debug)]
pub struct Ledger<K, V> {
    entries: Vec<(K, V)>,
}

impl<K: LedgerKey, V: Copy> View for Ledger<K, V> {
    type V = Map<K::V, V>;

    closed spec fn view(&self) -> Map<K::V, V> {
        Map::new(
            |k: K::V| exists|i: int| 0 <= i < self.entries@.len() && #[trigger] self.entries@[i].0@ == k,
            |k: K::V|
                self.entries@[choose|i: int|
                    0 <= i < self.entries@.len() && #[trigger] self.entries@[i].0@ == k].1,
        )
    }
}

impl<K: LedgerKey, V: Copy> Ledger<K, V> {
    /// Keys are distinct.
    pub closed spec fn wf(&self) -> bool {
        forall|i: int, j: int|
            0 <= i < j < self.entries@.len() ==> #[trigger] self.entries@[i].0@
                != #[trigger] self.entries@[j].0@
    }

    /// The entries in their stored order.
    pub closed spec fn items(&self) -> Seq<(K::V, V)> {
        self.entries@.map_values(|e: (K, V)| (e.0@, e.1))
    }

    proof fn lemma_entry(&self, i: int)
        requires
            self.wf(),
            0 <= i < self.entries@.len(),
        ensures
            self@.contains_key(self.entries@[i].0@),
            self@[self.entries@[i].0@] == self.entries@[i].1,
    {
        let k = self.entries@[i].0@;
        assert(self.entries@[i].0@ == k);
        let j = choose|j: int| 0 <= j < self.entries@.len() && #[trigger] self.entries@[j].0@ == k;
        if i != j {
            if i < j {
                assert(self.entries@[i].0@ != self.entries@[j].0@);
            } else {
                assert(self.entries@[j].0@ != self.entries@[i].0@);
            }
        }
    }

    /// What `items` says of the contents.
    pub proof fn lemma_items(&self)
        requires
            self.wf(),
        ensures
            forall|i: int|
                0 <= i < self.items().len() ==> #[trigger] self@.contains_key(self.items()[i].0)
                    && self@[self.items()[i].0] == self.items()[i].1,
            forall|k: K::V|
                #[trigger] self@.contains_key(k) ==> exists|i: int|
                    0 <= i < self.items().len() && #[trigger] self.items()[i].0 == k,
            forall|i: int, j: int|
                0 <= i < j < self.items().len() ==> #[trigger] self.items()[i].0
                    != #[trigger] self.items()[j].0,
            self.items().len() == self@.dom().len(),
            self@.dom().finite(),
    {
        assert forall|i: int| 0 <= i < self.items().len() implies #[trigger] self@.contains_key(
            self.items()[i].0,
        ) && self@[self.items()[i].0] == self.items()[i].1 by {
            self.lemma_entry(i);
        }
        assert forall|k: K::V| #[trigger] self@.contains_key(k) implies exists|i: int|
            0 <= i < self.items().len() && #[trigger] self.items()[i].0 == k by {
            let i = choose|i: int| 0 <= i < self.entries@.len() && #[trigger] self.entries@[i].0@ == k;
            assert(self.items()[i].0 == k);
        }
        let keys = self.items().map_values(|e: (K::V, V)| e.0);
        assert(keys.no_duplicates()) by {
            assert forall|i: int, j: int| 0 <= i < keys.len() && 0 <= j < keys.len() && i != j implies keys[i]
                != keys[j] by {
                if i < j {
                    assert(self.entries@[i].0@ != self.entries@[j].0@);
                } else {
                    assert(self.entries@[j].0@ != self.entries@[i].0@);
                }
            }
        }
        assert(keys.to_set() =~= self@.dom()) by {
            assert forall|k: K::V| keys.to_set().contains(k) implies self@.dom().contains(k) by {
                let i = choose|i: int| 0 <= i < keys.len() && keys[i] == k;
                assert(self.entries@[i].0@ == k);
            }
            assert forall|k: K::V| self@.dom().contains(k) implies keys.to_set().contains(k) by {
                let i = choose|i: int| 0 <= i < self.entries@.len() && #[trigger] self.entries@[i].0@ == k;
                assert(keys[i] == k);
            }
        }
        keys.unique_seq_to_set();
    }

    pub fn new() -> (r: Self)
        ensures
            r.wf(),
            r@ == Map::<K::V, V>::empty(),
    {
        let r = Ledger { entries: Vec::new() };
        assert(r@ =~= Map::<K::V, V>::empty());
        r
    }

    fn position(&self, k: &K) -> (r: Option<usize>)
        requires
            self.wf(),
        ensures
            match r {
                Some(i) => i < self.entries@.len() && self.entries@[i as int].0@ == k@,
                None => !self@.contains_key(k@),
            },
    {
        let mut i: usize = 0;
        while i < self.entries.len()
            invariant
                i <= self.entries@.len(),
                forall|j: int| 0 <= j < i ==> #[trigger] self.entries@[j].0@ != k@,
            decreases self.entries.len() - i,
        {
            if self.entries[i].0.same_key(k) {
                return Some(i);
            }
            i = i + 1;
        }
        None
    }

    /// The value under `k`, if any.
    pub fn get(&self, k: &K) -> (r: Option<V>)
        requires
            self.wf(),
        ensures
            r == if self@.contains_key(k@) {
                Some(self@[k@])
            } else {
                None::<V>
            },
    {
        match self.position(k) {
            Some(i) => {
                proof {
                    self.lemma_entry(i as int);
                }
                Some(self.entries[i].1)
            },
            None => None,
        }
    }

    /// Puts `v` under `k`, replacing what was there.
    pub fn insert(&mut self, k: K, v: V)
        requires
            old(self).wf(),
        ensures
            final(self).wf(),
            final(self)@ == old(self)@.insert(k@, v),
    {
        let ghost kv = k@;
        match self.position(&k) {
            Some(i) => {
                self.entries.set(i, (k, v));
                proof {
                    assert forall|a: int, b: int| 0 <= a < b < self.entries@.len() implies #[trigger] self.entries@[a].0@
                        != #[trigger] self.entries@[b].0@ by {
                        assert(old(self).entries@[a].0@ != old(self).entries@[b].0@);
                    }
                    assert forall|key: K::V| #[trigger] self@.contains_key(key) == old(self)@.insert(kv, v).contains_key(key) by {
                        if key != kv && old(self)@.contains_key(key) {
                            let j = choose|j: int| 0 <= j < old(self).entries@.len() && #[trigger] old(self).entries@[j].0@ == key;
                            assert(self.entries@[j].0@ == key);
                        }
                        if self@.contains_key(key) && key != kv {
                            let j = choose|j: int| 0 <= j < self.entries@.len() && #[trigger] self.entries@[j].0@ == key;
                            assert(old(self).entries@[j].0@ == key);
                        }
                        if key == kv {
                            assert(self.entries@[i as int].0@ == key);
                        }
                    }
                    assert forall|key: K::V| #[trigger] self@.contains_key(key) implies self@[key] == old(self)@.insert(kv, v)[key] by {
                        let j = choose|j: int| 0 <= j < self.entries@.len() && #[trigger] self.entries@[j].0@ == key;
                        self.lemma_entry(j);
                        if j != i {
                            old(self).lemma_entry(j);
                        }
                    }
                    assert(self@ =~= old(self)@.insert(kv, v));
                }
            },
            None => {
                self.entries.push((k, v));
                proof {
                    let n = old(self).entries@.len() as int;
                    assert forall|a: int, b: int| 0 <= a < b < self.entries@.len() implies #[trigger] self.entries@[a].0@
                        != #[trigger] self.entries@[b].0@ by {
                        if b == n {
                            assert(old(self)@.contains_key(old(self).entries@[a].0@)) by {
                                old(self).lemma_entry(a);
                            }
                        } else {
                            assert(old(self).entries@[a].0@ != old(self).entries@[b].0@);
                        }
                    }
                    assert forall|key: K::V| #[trigger] self@.contains_key(key) == old(self)@.insert(kv, v).contains_key(key) by {
                        if key != kv && old(self)@.contains_key(key) {
                            let j = choose|j: int| 0 <= j < old(self).entries@.len() && #[trigger] old(self).entries@[j].0@ == key;
                            assert(self.entries@[j].0@ == key);
                        }
                        if self@.contains_key(key) && key != kv {
                            let j = choose|j: int| 0 <= j < self.entries@.len() && #[trigger] self.entries@[j].0@ == key;
                            assert(old(self).entries@[j].0@ == key);
                        }
                        if key == kv {
                            assert(self.entries@[n].0@ == key);
                        }
                    }
                    assert forall|key: K::V| #[trigger] self@.contains_key(key) implies self@[key] == old(self)@.insert(kv, v)[key] by {
                        let j = choose|j: int| 0 <= j < self.entries@.len() && #[trigger] self.entries@[j].0@ == key;
                        self.lemma_entry(j);
                        if j != n {
                            old(self).lemma_entry(j);
                        }
                    }
                    assert(self@ =~= old(self)@.insert(kv, v));
                }
            },
        }
    }

    /// Number of keys.
    pub fn len(&self) -> (r: usize)
        requires
            self.wf(),
        ensures
            r == self@.dom().len(),
    {
        proof {
            self.lemma_items();
        }
        self.entries.len()
    }

    /// A separate copy with the same contents.
    pub fn duplicate(&self) -> (r: Self)
        requires
            self.wf(),
        ensures
            r.wf(),
            r@ == self@,
            r.items() == self.items(),
    {
        let mut entries: Vec<(K, V)> = Vec::new();
        let mut i: usize = 0;
        while i < self.entries.len()
            invariant
                i <= self.entries@.len(),
                entries@.len() == i,
                forall|j: int| 0 <= j < i ==> (#[trigger] entries@[j]).0@ == self.entries@[j].0@
                    && entries@[j].1 == self.entries@[j].1,
            decreases self.entries.len() - i,
        {
            let e = &self.entries[i];
            entries.push((e.0.copy_key(), e.1));
            i = i + 1;
        }
        let r = Ledger { entries };
        proof {
            assert(r.items() =~= self.items());
            assert forall|a: int, b: int| 0 <= a < b < r.entries@.len() implies #[trigger] r.entries@[a].0@
                != #[trigger] r.entries@[b].0@ by {
                assert(self.entries@[a].0@ != self.entries@[b].0@);
            }
            assert forall|key: K::V| #[trigger] r@.contains_key(key) == self@.contains_key(key) by {
                if r@.contains_key(key) {
                    let j = choose|j: int| 0 <= j < r.entries@.len() && #[trigger] r.entries@[j].0@ == key;
                    assert(self.entries@[j].0@ == key);
                }
                if self@.contains_key(key) {
                    let j = choose|j: int| 0 <= j < self.entries@.len() && #[trigger] self.entries@[j].0@ == key;
                    assert(r.entries@[j].0@ == key);
                }
            }
            assert forall|key: K::V| #[trigger] r@.contains_key(key) implies r@[key] == self@[key] by {
                let j = choose|j: int| 0 <= j < r.entries@.len() && #[trigger] r.entries@[j].0@ == key;
                r.lemma_entry(j);
                self.lemma_entry(j);
            }
            assert(r@ =~= self@);
        }
        r
    }

    /// Whether both ledgers hold the same contents.
    pub fn same_contents(&self, other: &Self) -> (r: bool)
        where V: LedgerValue,
        requires
            self.wf(),
            other.wf(),
        ensures
            r == (self@ == other@),
    {
        proof {
            self.lemma_items();
            other.lemma_items();
        }
        if self.entries.len() != other.entries.len() {
            return false;
        }
        let mut i: usize = 0;
        while i < self.entries.len()
            invariant
                self.wf(),
                other.wf(),
                i <= self.entries@.len(),
                forall|j: int|
                    0 <= j < i ==> #[trigger] other@.contains_key(self.items()[j].0) && other@[self.items()[j].0]
                        == self.items()[j].1,
            decreases self.entries.len() - i,
        {
            proof {
                self.lemma_items();
            }
            let found = other.get(&self.entries[i].0);
            assert(self.items()[i as int].0 == self.entries@[i as int].0@);
            match found {
                Some(v) => {
                    if !v.same_value(&self.entries[i].1) {
                        return false;
                    }
                },
                None => {
                    return false;
                },
            }
            i = i + 1;
        }
        proof {
            assert(self@.dom().subset_of(other@.dom())) by {
                assert forall|k: K::V| self@.dom().contains(k) implies other@.dom().contains(k) by {
                    let j = choose|j: int| 0 <= j < self.items().len() && #[trigger] self.items()[j].0 == k;
                    assert(other@.contains_key(self.items()[j].0));
                }
            }
            vstd::set_lib::lemma_subset_equality(self@.dom(), other@.dom());
            assert forall|k: K::V| #[trigger] self@.contains_key(k) implies self@[k] == other@[k] by {
                let j = choose|j: int| 0 <= j < self.items().len() && #[trigger] self.items()[j].0 == k;
                assert(other@.contains_key(self.items()[j].0));
            }
            assert(self@ =~= other@);
        }
        true
    }

    /// The key and value of the `i`-th entry.
    pub fn entry(&self, i: usize) -> (r: (&K, V))
        requires
            i < self.items().len(),
        ensures
            r.0@ == self.items()[i as int].0,
            r.1 == self.items()[i as int].1,
    {
        (&self.entries[i].0, self.entries[i].1)
    }

    /// Number of entries, which is the number of keys.
    pub fn entry_count(&self) -> (r: usize)
        ensures
            r == self.items().len(),
    {
        self.entries.len()
    }
}

} // verus!
