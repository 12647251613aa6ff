//! A finite map held as a vector of (key, value) pairs with distinct keys.

use vstd::prelude::*;
use crate::hashes::{Key, Commitment};
use crate::types::OutPoint;

verus! {

/// Keys that can be compared for equality in executable code.
pub trait TableKey: Copy + Sized {
    fn key_eq(&self, other: &Self) -> (r: bool)
        ensures
            r == (*self == *other),
    ;
}

impl TableKey for Key {
    fn key_eq(&self, other: &Self) -> (r: bool) {
        self.same(other)
    }
}

impl TableKey for Commitment {
    fn key_eq(&self, other: &Self) -> (r: bool) {
        self.same(other)
    }
}

impl TableKey for OutPoint {
    fn key_eq(&self, other: &Self) -> (r: bool) {
        self.same(other)
    }
}

#[verifier::reject_recursive_types(K)]
pub struct Table<K, V> {
    entries: Vec<(K, V)>,
    map: Ghost<Map<K, V>>,
}

impl<K: TableKey, V: Copy> Table<K, V> {
    pub closed spec fn view(&self) -> Map<K, V> {
        self.map@
    }

    /// Keys are distinct, and the pairs are exactly the map.
    pub closed spec fn wf(&self) -> bool {
        &&& forall|i: int, j: int|
            0 <= i < j < self.entries@.len() ==> self.entries@[i].0 != self.entries@[j].0
        &&& forall|i: int|
            0 <= i < self.entries@.len() ==> #[trigger] self.map@.contains_key(self.entries@[i].0)
                && self.map@[self.entries@[i].0] == self.entries@[i].1
        &&& forall|k: K|
            #[trigger] self.map@.contains_key(k) ==> exists|i: int|
                0 <= i < self.entries@.len() && self.entries@[i].0 == k
    }

    pub fn new() -> (r: Self)
        ensures
            r.wf(),
            r@ == Map::<K, V>::empty(),
    {
        Table { entries: Vec::new(), map: Ghost(Map::empty()) }
    }

    fn find(&self, k: &K) -> (r: Option<usize>)
        requires
            self.wf(),
        ensures
            match r {
                Some(i) => i < self.entries@.len() && self.entries@[i as int].0 == *k,
                None => !self@.contains_key(*k),
            },
    {
        let mut i: usize = 0;
        while i < self.entries.len()
            invariant
                self.wf(),
                0 <= i <= self.entries@.len(),
                forall|j: int| 0 <= j < i ==> self.entries@[j].0 != *k,
            decreases self.entries@.len() - i,
        {
            if self.entries[i].0.key_eq(k) {
                return Some(i);
            }
            i += 1;
        }
        None
    }

    pub fn get(&self, k: &K) -> (r: Option<V>)
        requires
            self.wf(),
        ensures
            r == (if self@.contains_key(*k) {
                Some(self@[*k])
            } else {
                None
            }),
    {
        match self.find(k) {
            Some(i) => Some(self.entries[i].1),
            None => None,
        }
    }

    pub fn contains_key(&self, k: &K) -> (r: bool)
        requires
            self.wf(),
        ensures
            r == self@.contains_key(*k),
    {
        self.find(k).is_some()
    }

    pub fn insert(&mut self, k: K, v: V)
        requires
            old(self).wf(),
        ensures
            final(self).wf(),
            final(self)@ == old(self)@.insert(k, v),
    {
        let idx: usize = match self.find(&k) {
            Some(i) => {
                self.entries.set(i, (k, v));
                i
            },
            None => {
                self.entries.push((k, v));
                self.entries.len() - 1
            },
        };
        self.map = Ghost(self.map@.insert(k, v));
        assert forall|i: int, j: int|
            0 <= i < j < self.entries@.len() implies self.entries@[i].0 != self.entries@[j].0 by {
            if j == old(self).entries@.len() {
                assert(old(self).map@.contains_key(old(self).entries@[i].0));
            }
        }
        assert forall|i: int| 0 <= i < self.entries@.len() implies #[trigger] self.map@.contains_key(
            self.entries@[i].0,
        ) && self.map@[self.entries@[i].0] == self.entries@[i].1 by {
            if i != idx {
                assert(old(self).entries@[i] == self.entries@[i]);
                assert(old(self).entries@[i].0 != k) by {
                    if i < old(self).entries@.len() && idx < old(self).entries@.len() {
                        assert(old(self).entries@[idx as int].0 == k);
                    } else {
                        assert(old(self).map@.contains_key(old(self).entries@[i].0));
                    }
                }
            }
        }
        assert forall|key: K| #[trigger] self.map@.contains_key(key) implies exists|i: int|
            0 <= i < self.entries@.len() && self.entries@[i].0 == key by {
            if key != k {
                let j = choose|j: int|
                    0 <= j < old(self).entries@.len() && old(self).entries@[j].0 == key;
                assert(self.entries@[j].0 == key);
            } else {
                assert(self.entries@[idx as int].0 == key);
            }
        }
    }

    pub fn remove(&mut self, k: &K)
        requires
            old(self).wf(),
        ensures
            final(self).wf(),
            final(self)@ == old(self)@.remove(*k),
    {
        let found = self.find(k);
        if let Some(i) = found {
            self.entries.remove(i);
        }
        self.map = Ghost(self.map@.remove(*k));
        proof {
            if let Some(i) = found {
                let e0 = old(self).entries@;
                let e1 = self.entries@;
                assert forall|j: int| 0 <= j < e1.len() implies e1[j] == (if j < i {
                    e0[j]
                } else {
                    e0[j + 1]
                }) by {}
                assert forall|j: int| 0 <= j < e1.len() implies e1[j].0 != *k by {
                    if j < i {
                        assert(e0[j].0 != e0[i as int].0);
                    } else {
                        assert(e0[i as int].0 != e0[j + 1].0);
                    }
                }
                assert forall|a: int, b: int| 0 <= a < b < e1.len() implies e1[a].0 != e1[b].0 by {
                    let a0 = if a < i { a } else { a + 1 };
                    let b0 = if b < i { b } else { b + 1 };
                    assert(e1[a] == e0[a0] && e1[b] == e0[b0]);
                }
                assert forall|j: int| 0 <= j < e1.len() implies #[trigger] self.map@.contains_key(
                    e1[j].0,
                ) && self.map@[e1[j].0] == e1[j].1 by {
                    let j0 = if j < i { j } else { j + 1 };
                    assert(e1[j] == e0[j0]);
                    assert(old(self).map@.contains_key(e0[j0].0));
                }
                assert forall|key: K| #[trigger] self.map@.contains_key(key) implies exists|j: int|
                    0 <= j < e1.len() && e1[j].0 == key by {
                    let j = choose|j: int| 0 <= j < e0.len() && e0[j].0 == key;
                    if j < i {
                        assert(e1[j].0 == key);
                    } else {
                        assert(e1[j - 1].0 == key);
                    }
                }
            } else {
                assert forall|j: int| 0 <= j < self.entries@.len() implies
                    #[trigger] self.map@.contains_key(self.entries@[j].0)
                    && self.map@[self.entries@[j].0] == self.entries@[j].1 by {
                    assert(old(self).map@.contains_key(self.entries@[j].0));
                }
                assert forall|key: K| #[trigger] self.map@.contains_key(key) implies exists|j: int|
                    0 <= j < self.entries@.len() && self.entries@[j].0 == key by {
                    assert(old(self).map@.contains_key(key));
                    let j = choose|j: int|
                        0 <= j < old(self).entries@.len() && old(self).entries@[j].0 == key;
                    assert(self.entries@[j].0 == key);
                }
            }
        }
    }

    /// The keys, each once.
    pub fn keys(&self) -> (r: Vec<K>)
        requires
            self.wf(),
        ensures
            r@.no_duplicates(),
            forall|k: K| self@.contains_key(k) <==> r@.contains(k),
    {
        let mut r: Vec<K> = Vec::new();
        let mut i: usize = 0;
        while i < self.entries.len()
            invariant
                self.wf(),
                0 <= i <= self.entries@.len(),
                r@.len() == i,
                forall|j: int| 0 <= j < i ==> r@[j] == self.entries@[j].0,
            decreases self.entries@.len() - i,
        {
            r.push(self.entries[i].0);
            i += 1;
        }
        assert forall|k: K| self@.contains_key(k) implies r@.contains(k) by {
            let j = choose|j: int| 0 <= j < self.entries@.len() && self.entries@[j].0 == k;
            assert(r@[j] == k);
        }
        r
    }
}

} // verus!
