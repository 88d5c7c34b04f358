//! The in-memory map from hash to index entry.
//!
//! Entries live in a vector; a hash map keyed by the first eight bytes of a
//! hash lists, for each such prefix, the positions of the entries whose keys
//! start with it. A lookup reads one bucket.
use std::collections::HashMap;
use vstd::bytes::*;
use vstd::prelude::*;

use crate::codec::{hash_eq, IndexEntry};

verus! {

broadcast use vstd::std_specs::hash::group_hash_axioms;

/// The bucket of a hash: its first eight bytes, little-endian.
pub open spec fn bucket_of(h: crate::codec::Hash) -> u64 {
    spec_u64_from_le_bytes(h@.subrange(0, 8))
}

fn bucket(h: &crate::codec::Hash) -> (r: u64)
    ensures
        r == bucket_of(*h),
{
    let b: [u8; 8] = [h[0], h[1], h[2], h[3], h[4], h[5], h[6], h[7]];
    assert(b@ =~= h@.subrange(0, 8));
    u64_from_le_bytes(b.as_slice())
}

/// Map from hash to index entry, one entry per distinct hash.
pub struct HashIndex {
    entries: Vec<IndexEntry>,
    buckets: HashMap<u64, Vec<usize>>,
    map: Ghost<Map<crate::codec::Hash, IndexEntry>>,
}

impl HashIndex {
    /// The entries, keyed by hash.
    pub closed spec fn view(&self) -> Map<crate::codec::Hash, IndexEntry> {
        self.map@
    }

    pub closed spec fn in_bucket(&self, b: u64, i: int) -> bool {
        self.buckets@.contains_key(b) && self.buckets@[b]@.contains(i as usize)
    }

    pub closed spec fn wf(&self) -> bool {
        let entries = self.entries@;
        &&& forall|i: int|
            0 <= i < entries.len() ==> {
                &&& self.map@.contains_key(#[trigger] entries[i].key)
                &&& self.map@[entries[i].key] == entries[i]
                &&& self.in_bucket(bucket_of(entries[i].key), i)
            }
        &&& forall|k: crate::codec::Hash| #[trigger]
            self.map@.contains_key(k) ==> exists|i: int|
                0 <= i < entries.len() && #[trigger] entries[i].key == k
        &&& forall|i: int, j: int|
            0 <= i < entries.len() && 0 <= j < entries.len() && #[trigger] entries[i].key
                == #[trigger] entries[j].key ==> i == j
        &&& forall|b: u64, t: int| #[trigger]
            self.buckets@.contains_key(b) && 0 <= t < self.buckets@[b]@.len() ==> {
                &&& (#[trigger] self.buckets@[b]@[t]) < entries.len()
                &&& bucket_of(entries[self.buckets@[b]@[t] as int].key) == b
            }
    }

    /// An empty index.
    pub fn new() -> (r: HashIndex)
        ensures
            r.wf(),
            r@ == Map::<crate::codec::Hash, IndexEntry>::empty(),
    {
        HashIndex { entries: Vec::new(), buckets: HashMap::new(), map: Ghost(Map::empty()) }
    }

    /// Position of the entry with key `k`, if any.
    fn find(&self, k: &crate::codec::Hash) -> (r: Option<usize>)
        requires
            self.wf(),
        ensures
            match r {
                Some(i) => i < self.entries@.len() && self.entries@[i as int].key == *k,
                None => !self@.contains_key(*k),
            },
    {
        let n = self.entries.len();
        let b = bucket(k);
        match self.buckets.get(&b) {
            None => {
                proof {
                    if self@.contains_key(*k) {
                        let i = choose|i: int|
                            0 <= i < self.entries@.len() && self.entries@[i].key == *k;
                        assert(self.in_bucket(bucket_of(self.entries@[i].key), i));
                        assert(false);
                    }
                }
                None
            },
            Some(v) => {
                let mut t: usize = 0;
                while t < v.len()
                    invariant
                        self.wf(),
                        self.buckets@.contains_key(b),
                        self.buckets@[b] == *v,
                        b == bucket_of(*k),
                        n == self.entries@.len(),
                        0 <= t <= v@.len(),
                        forall|s: int| 0 <= s < t ==> self.entries@[v@[s] as int].key != *k,
                    decreases v@.len() - t,
                {
                    let i = v[t];
                    assert(self.buckets@[b]@[t as int] == i);
                    assert(i < self.entries@.len());
                    let found = hash_eq(&self.entries[i].key, k);
                    if found {
                        assert(self.entries@[i as int].key == *k);
                        return Some(i);
                    }
                    t += 1;
                }
                proof {
                    if self@.contains_key(*k) {
                        let i = choose|i: int|
                            0 <= i < self.entries@.len() && self.entries@[i].key == *k;
                        assert(self.in_bucket(bucket_of(self.entries@[i].key), i));
                        let s = choose|s: int| 0 <= s < v@.len() && v@[s] == i as usize;
                        assert(self.entries@[v@[s] as int].key != *k);
                        assert(v@[s] as int == i);
                        assert(false);
                    }
                }
                None
            },
        }
    }

    /// Whether an entry with key `k` is present.
    pub fn contains(&self, k: &crate::codec::Hash) -> (r: bool)
        requires
            self.wf(),
        ensures
            r == self@.contains_key(*k),
    {
        self.find(k).is_some()
    }

    /// The entry with key `k`, if any.
    pub fn get(&self, k: &crate::codec::Hash) -> (r: Option<IndexEntry>)
        requires
            self.wf(),
        ensures
            r == (if self@.contains_key(*k) {
                Some(self@[*k])
            } else {
                None
            }),
    {
        match self.find(k) {
            Some(i) => Some(self.entries[i]),
            None => None,
        }
    }

    /// Inserts `e` under its key, replacing any entry with the same key.
    pub fn insert(&mut self, e: IndexEntry)
        requires
            old(self).wf(),
        ensures
            final(self).wf(),
            final(self)@ == old(self)@.insert(e.key, e),
    {
        match self.find(&e.key) {
            Some(i) => {
                self.entries.set(i, e);
                self.map = Ghost(self.map@.insert(e.key, e));
                assert forall|k: crate::codec::Hash| #[trigger]
                    self.map@.contains_key(k) implies exists|j: int|
                        0 <= j < self.entries@.len() && #[trigger] self.entries@[j].key == k by {
                    if k == e.key {
                        assert(self.entries@[i as int].key == k);
                    } else {
                        assert(old(self).map@.contains_key(k));
                        let j = choose|j: int|
                            0 <= j < old(self).entries@.len() && old(self).entries@[j].key == k;
                        assert(self.entries@[j].key == k);
                    }
                }
            },
            None => {
                let i = self.entries.len();
                let b = bucket(&e.key);
                self.entries.push(e);
                let mut v = match self.buckets.remove(&b) {
                    Some(v) => v,
                    None => Vec::new(),
                };
                let ghost v0 = v@;
                v.push(i);
                self.buckets.insert(b, v);
                self.map = Ghost(self.map@.insert(e.key, e));
                assert(self.buckets@[b]@[v0.len() as int] == i);
                assert forall|j: int| 0 <= j < self.entries@.len() implies {
                    &&& self.map@.contains_key(#[trigger] self.entries@[j].key)
                    &&& self.map@[self.entries@[j].key] == self.entries@[j]
                    &&& self.in_bucket(bucket_of(self.entries@[j].key), j)
                } by {
                    if j < i {
                        assert(old(self).entries@[j] == self.entries@[j]);
                        assert(old(self).in_bucket(bucket_of(self.entries@[j].key), j));
                        let bj = bucket_of(self.entries@[j].key);
                        if bj == b {
                            let s = choose|s: int| 0 <= s < v0.len() && v0[s] == j as usize;
                            assert(self.buckets@[b]@[s] == j as usize);
                        }
                    } else {
                        assert(self.buckets@[b]@[v0.len() as int] == j as usize);
                    }
                }
                assert forall|k: crate::codec::Hash| #[trigger]
                    self.map@.contains_key(k) implies exists|j: int|
                        0 <= j < self.entries@.len() && #[trigger] self.entries@[j].key == k by {
                    if k == e.key {
                        assert(self.entries@[i as int].key == k);
                    } else {
                        assert(old(self).map@.contains_key(k));
                        let j = choose|j: int|
                            0 <= j < old(self).entries@.len() && old(self).entries@[j].key == k;
                        assert(self.entries@[j].key == k);
                    }
                }
                assert forall|j1: int, j2: int|
                    0 <= j1 < self.entries@.len() && 0 <= j2 < self.entries@.len()
                        && #[trigger] self.entries@[j1].key == #[trigger] self.entries@[j2].key
                    implies j1 == j2 by {
                    if j1 < i && j2 == i {
                        assert(old(self).map@.contains_key(old(self).entries@[j1].key));
                    } else if j2 < i && j1 == i {
                        assert(old(self).map@.contains_key(old(self).entries@[j2].key));
                    }
                }
                assert forall|c: u64, t: int| #[trigger]
                    self.buckets@.contains_key(c) && 0 <= t < self.buckets@[c]@.len() implies {
                    &&& (#[trigger] self.buckets@[c]@[t]) < self.entries@.len()
                    &&& bucket_of(self.entries@[self.buckets@[c]@[t] as int].key) == c
                } by {
                    if c == b {
                        if t < v0.len() {
                            assert(self.buckets@[c]@[t] == v0[t]);
                            assert(old(self).buckets@.contains_key(c));
                            assert(old(self).buckets@[c]@[t] == v0[t]);
                        }
                    } else {
                        assert(old(self).buckets@.contains_key(c));
                        assert(old(self).buckets@[c] == self.buckets@[c]);
                        assert(old(self).buckets@[c]@[t] < old(self).entries@.len());
                    }
                }
            },
        }
    }
}

} // verus!
