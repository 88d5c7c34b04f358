//! What the hash-index log and the height-index log hold, and how the
//! in-memory maps are rebuilt from them.
use std::collections::HashMap;
use vstd::prelude::*;

use crate::codec::{
    hash_is_zero, height_entry_decoding, height_entry_encoding, index_entry_decoding,
    index_entry_encoding, lemma_height_entry_round_trip, lemma_index_entry_round_trip,
    take_bytes, HeightEntry, IndexEntry, ZERO_HASH,
};
use crate::hash_index::HashIndex;

verus! {

broadcast use vstd::std_specs::hash::group_hash_axioms;

/// Size of a hash-index record in bytes.
pub const INDEX_RECORD: usize = 56;

/// Size of a height-index record in bytes.
pub const HEIGHT_RECORD: usize = 40;

/// The `i`-th record of a hash-index log.
pub open spec fn index_record(log: Seq<u8>, i: int) -> IndexEntry {
    index_entry_decoding(log.subrange(i * 56, i * 56 + 56))
}

/// The `i`-th record of a height-index log.
pub open spec fn height_record(log: Seq<u8>, i: int) -> HeightEntry {
    height_entry_decoding(log.subrange(i * 40, i * 40 + 40))
}

/// The map rebuilt from the first `n` records of a hash-index log: records
/// with the zero hash are skipped, a later record replaces an earlier one.
pub open spec fn replay_index(log: Seq<u8>, n: nat) -> Map<crate::codec::Hash, IndexEntry>
    decreases n,
{
    if n == 0 {
        Map::empty()
    } else {
        let m = replay_index(log, (n - 1) as nat);
        let e = index_record(log, n - 1);
        if e.key == ZERO_HASH {
            m
        } else {
            m.insert(e.key, e)
        }
    }
}

/// The map rebuilt from the first `n` records of a height-index log: records
/// with the zero hash are skipped, a later record replaces an earlier one.
pub open spec fn replay_heights(log: Seq<u8>, n: nat) -> Map<u64, crate::codec::Hash>
    decreases n,
{
    if n == 0 {
        Map::empty()
    } else {
        let m = replay_heights(log, (n - 1) as nat);
        let e = height_record(log, n - 1);
        if e.hash == ZERO_HASH {
            m
        } else {
            m.insert(e.height, e.hash)
        }
    }
}

/// The hash map rebuilt from every full record of a hash-index log; a
/// trailing partial record is ignored.
pub open spec fn index_of_log(log: Seq<u8>) -> Map<crate::codec::Hash, IndexEntry> {
    replay_index(log, log.len() / 56)
}

/// The height map rebuilt from every full record of a height-index log; a
/// trailing partial record is ignored.
pub open spec fn heights_of_log(log: Seq<u8>) -> Map<u64, crate::codec::Hash> {
    replay_heights(log, log.len() / 40)
}

proof fn lemma_replay_index_prefix(log: Seq<u8>, extra: Seq<u8>, n: nat)
    requires
        n * 56 <= log.len(),
    ensures
        replay_index(log + extra, n) == replay_index(log, n),
    decreases n,
{
    if n > 0 {
        lemma_replay_index_prefix(log, extra, (n - 1) as nat);
        let i = n - 1;
        assert((log + extra).subrange(i * 56, i * 56 + 56) =~= log.subrange(i * 56, i * 56 + 56));
    }
}

proof fn lemma_replay_heights_prefix(log: Seq<u8>, extra: Seq<u8>, n: nat)
    requires
        n * 40 <= log.len(),
    ensures
        replay_heights(log + extra, n) == replay_heights(log, n),
    decreases n,
{
    if n > 0 {
        lemma_replay_heights_prefix(log, extra, (n - 1) as nat);
        let i = n - 1;
        assert((log + extra).subrange(i * 40, i * 40 + 40) =~= log.subrange(i * 40, i * 40 + 40));
    }
}

/// Appending the record of `e` to a log of whole records adds `e` to the
/// rebuilt map, unless its key is the zero hash.
pub proof fn lemma_index_log_append(log: Seq<u8>, e: IndexEntry)
    requires
        log.len() % 56 == 0,
    ensures
        index_of_log(log + index_entry_encoding(e)) == (if e.key == ZERO_HASH {
            index_of_log(log)
        } else {
            index_of_log(log).insert(e.key, e)
        }),
{
    vstd::bytes::lemma_auto_spec_u64_to_from_le_bytes();
    vstd::bytes::lemma_auto_spec_u32_to_from_le_bytes();
    let rec = index_entry_encoding(e);
    let l2 = log + rec;
    let k: int = (log.len() / 56) as int;
    assert(rec.len() == 56);
    assert(log.len() == k * 56);
    assert(l2.len() / 56 == k + 1);
    lemma_replay_index_prefix(log, rec, k as nat);
    assert(l2.subrange(k * 56, k * 56 + 56) =~= rec);
    lemma_index_entry_round_trip(e);
}

/// Appending the record of `e` to a log of whole records maps its height to
/// its hash in the rebuilt map, unless the hash is the zero hash.
pub proof fn lemma_height_log_append(log: Seq<u8>, e: HeightEntry)
    requires
        log.len() % 40 == 0,
    ensures
        heights_of_log(log + height_entry_encoding(e)) == (if e.hash == ZERO_HASH {
            heights_of_log(log)
        } else {
            heights_of_log(log).insert(e.height, e.hash)
        }),
{
    vstd::bytes::lemma_auto_spec_u64_to_from_le_bytes();
    let rec = height_entry_encoding(e);
    let l2 = log + rec;
    let k: int = (log.len() / 40) as int;
    assert(rec.len() == 40);
    assert(log.len() == k * 40);
    assert(l2.len() / 40 == k + 1);
    lemma_replay_heights_prefix(log, rec, k as nat);
    assert(l2.subrange(k * 40, k * 40 + 40) =~= rec);
    lemma_height_entry_round_trip(e);
}

/// Rebuilds the hash map from a hash-index log.
pub fn load_hash_index(log: &[u8]) -> (r: HashIndex)
    ensures
        r.wf(),
        r@ == index_of_log(log@),
{
    let len = log.len();
    let n = len / INDEX_RECORD;
    let mut index = HashIndex::new();
    let mut i: usize = 0;
    while i < n
        invariant
            len == log@.len(),
            n == log@.len() / 56,
            0 <= i <= n,
            index.wf(),
            index@ == replay_index(log@, i as nat),
        decreases n - i,
    {
        assert(i * 56 + 56 <= log@.len()) by (nonlinear_arith)
            requires
                i < n,
                n == log@.len() / 56,
        ;
        let rec: [u8; 56] = take_bytes(log, i * INDEX_RECORD);
        let e = IndexEntry::from_bytes(&rec);
        if !hash_is_zero(&e.key) {
            index.insert(e);
        }
        i += 1;
    }
    index
}

/// The height map, with the list of its heights in some order.
pub(crate) struct HeightIndex {
    pub(crate) map: HashMap<u64, crate::codec::Hash>,
    pub(crate) heights: Vec<u64>,
}

impl HeightIndex {
    pub(crate) open spec fn wf(&self) -> bool {
        &&& self.heights@.no_duplicates()
        &&& forall|h: u64| #[trigger] self.heights@.contains(h) <==> self.map@.contains_key(h)
    }

    pub(crate) fn new() -> (r: HeightIndex)
        ensures
            r.wf(),
            r.map@ == Map::<u64, crate::codec::Hash>::empty(),
    {
        HeightIndex { map: HashMap::new(), heights: Vec::new() }
    }

    /// Maps `height` to `hash`, replacing any earlier hash at that height.
    pub(crate) fn insert(&mut self, height: u64, hash: crate::codec::Hash)
        requires
            old(self).wf(),
        ensures
            final(self).wf(),
            final(self).map@ == old(self).map@.insert(height, hash),
    {
        let previous = self.map.insert(height, hash);
        if previous.is_none() {
            let ghost s0 = self.heights@;
            self.heights.push(height);
            assert forall|i: int, j: int|
                0 <= i < self.heights@.len() && 0 <= j < self.heights@.len() && i != j implies
                self.heights@[i] != self.heights@[j] by {
                if i < s0.len() && j < s0.len() {
                    assert(s0[i] == self.heights@[i] && s0[j] == self.heights@[j]);
                } else if i < s0.len() {
                    assert(s0.contains(s0[i]));
                } else {
                    assert(s0.contains(s0[j]));
                }
            }
            assert forall|h: u64| #[trigger]
                self.heights@.contains(h) <==> self.map@.contains_key(h) by {
                if h != height && self.heights@.contains(h) {
                    let i = choose|i: int| 0 <= i < self.heights@.len() && self.heights@[i] == h;
                    assert(s0[i] == h);
                }
                if s0.contains(h) {
                    let i = choose|i: int| 0 <= i < s0.len() && s0[i] == h;
                    assert(self.heights@[i] == h);
                }
                if h == height {
                    assert(self.heights@[s0.len() as int] == h);
                }
            }
        }
    }
}

/// Rebuilds the height map from a height-index log.
pub(crate) fn load_height_index(log: &[u8]) -> (r: HeightIndex)
    ensures
        r.wf(),
        r.map@ == heights_of_log(log@),
{
    let len = log.len();
    let n = len / HEIGHT_RECORD;
    let mut index = HeightIndex::new();
    let mut i: usize = 0;
    while i < n
        invariant
            len == log@.len(),
            n == log@.len() / 40,
            0 <= i <= n,
            index.wf(),
            index.map@ == replay_heights(log@, i as nat),
        decreases n - i,
    {
        assert(i * 40 + 40 <= log@.len()) by (nonlinear_arith)
            requires
                i < n,
                n == log@.len() / 40,
        ;
        let rec: [u8; 40] = take_bytes(log, i * HEIGHT_RECORD);
        let e = HeightEntry::from_bytes(&rec);
        if !hash_is_zero(&e.hash) {
            index.insert(e.height, e.hash);
        }
        i += 1;
    }
    index
}

} // verus!
