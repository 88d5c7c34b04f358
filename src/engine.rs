//! The database engine's state and decisions: recovery from the logs, the
//! write path's guards and bookkeeping, lookups and statistics.
//!
//! File access stays with the caller, which hands this engine the bytes it
//! read and writes the records the engine returns.
use vstd::prelude::*;

use crate::codec::{
    height_entry_encoding, index_entry_encoding, metadata_decoding,
    metadata_encoding, metadata_is_valid, take_bytes, HeightEntry, IndexEntry, Metadata,
    MAGIC, MAX_REASONABLE_HEIGHT, ZERO_HASH,
};
use crate::error::Error;
use crate::hash_index::HashIndex;
use crate::replay::{
    heights_of_log, index_of_log, lemma_height_log_append, lemma_index_log_append,
    load_hash_index, load_height_index, HeightIndex,
};

verus! {

broadcast use vstd::std_specs::hash::group_hash_axioms;

/// A snapshot of the aggregate state.
#[derive(Debug, Clone, Copy, PartialEq, Eq)]
pub struct DatabaseStats {
    /// Total number of entries.
    pub entry_count: u64,
    /// Total data size in bytes.
    pub data_size: u64,
    /// Latest block height.
    pub latest_height: u64,
    /// Latest block hash.
    pub latest_hash: crate::codec::Hash,
    /// Genesis block hash.
    pub genesis_hash: crate::codec::Hash,
}

/// What a write under `hash` at `height` does: refused for an implausible
/// height, nothing for a hash already stored (`false`), else a write of the
/// value and its records (`true`).
pub open spec fn put_decision(
    index: Map<crate::codec::Hash, IndexEntry>,
    hash: crate::codec::Hash,
    height: u64,
) -> Result<bool, Error> {
    if height > MAX_REASONABLE_HEIGHT {
        Err(Error::HeightTooLarge(height))
    } else {
        Ok(!index.contains_key(hash))
    }
}

/// The index entry of a value of `len` bytes written at `offset`.
pub open spec fn entry_for(hash: crate::codec::Hash, height: u64, offset: u64, len: usize) -> IndexEntry {
    IndexEntry { key: hash, offset, size: len as u32, height, flags: 0 }
}

/// The index entry of a value of `data_len` bytes under `hash` at `height`,
/// written to the data log at `offset`; the size field keeps the low 32 bits
/// of the length.
pub fn new_index_entry(hash: &crate::codec::Hash, height: u64, offset: u64, data_len: usize) -> (r:
    IndexEntry)
    ensures
        r == entry_for(*hash, height, offset, data_len),
{
    IndexEntry { key: *hash, offset, size: data_len as u32, height, flags: 0 }
}

/// The aggregate after storing `e`, whose value is `len` bytes long.
pub open spec fn metadata_after_put(m: Metadata, e: IndexEntry, len: u64) -> Metadata {
    let raised = e.height > m.latest_height;
    Metadata {
        entry_count: (m.entry_count + 1) as u64,
        data_size: (m.data_size + len) as u64,
        latest_height: if raised {
            e.height
        } else {
            m.latest_height
        },
        latest_hash: if raised {
            e.key
        } else {
            m.latest_hash
        },
        genesis_hash: if e.height == 0 {
            e.key
        } else {
            m.genesis_hash
        },
        ..m
    }
}

/// The value that `e` locates in a data log.
pub open spec fn stored_value(data_log: Seq<u8>, e: IndexEntry) -> Seq<u8> {
    data_log.subrange(e.offset as int, e.offset + e.size)
}

/// Whether `s` is in strictly ascending order.
pub open spec fn strictly_ascending(s: Seq<u64>) -> bool {
    forall|i: int, j: int| 0 <= i < j < s.len() ==> s[i] < s[j]
}

/// Relies on slice::sort: orders the elements ascending and keeps them.
#[verifier::external_body]
fn sort_ascending(v: &mut Vec<u64>)
    ensures
        final(v)@.to_multiset() == old(v)@.to_multiset(),
        forall|i: int, j: int| 0 <= i < j < final(v)@.len() ==> final(v)@[i] <= final(v)@[j],
{
    v.sort();
}

/// The in-memory state of a database: the hash map and height map rebuilt
/// from the logs, and the aggregate metadata.
pub struct Engine {
    hash_index: HashIndex,
    height_index: HeightIndex,
    metadata: Metadata,
    sync_on_write: bool,
    index_log: Ghost<Seq<u8>>,
    height_log: Ghost<Seq<u8>>,
}

impl Engine {
    /// Hash to index entry.
    pub closed spec fn index_map(&self) -> Map<crate::codec::Hash, IndexEntry> {
        self.hash_index@
    }

    /// Height to hash.
    pub closed spec fn height_map(&self) -> Map<u64, crate::codec::Hash> {
        self.height_index.map@
    }

    /// The aggregate metadata.
    pub closed spec fn meta(&self) -> Metadata {
        self.metadata
    }

    /// Whether each write is to be followed by a sync.
    pub closed spec fn syncs_on_write(&self) -> bool {
        self.sync_on_write
    }

    /// The hash-index log as this engine has read and extended it.
    pub closed spec fn logged_index(&self) -> Seq<u8> {
        self.index_log@
    }

    /// The height-index log as this engine has read and extended it.
    pub closed spec fn logged_heights(&self) -> Seq<u8> {
        self.height_log@
    }

    pub closed spec fn wf(&self) -> bool {
        &&& self.hash_index.wf()
        &&& self.height_index.wf()
        &&& metadata_is_valid(self.metadata)
    }

    /// Whether both logs hold whole records and rebuild exactly the maps held
    /// in memory.
    pub open spec fn logs_agree(&self) -> bool {
        &&& self.logged_index().len() % 56 == 0
        &&& self.logged_heights().len() % 40 == 0
        &&& index_of_log(self.logged_index()) == self.index_map()
        &&& heights_of_log(self.logged_heights()) == self.height_map()
    }

    /// Whether this state is the one that the metadata record `meta` and
    /// the two logs rebuild.
    pub open spec fn rebuilt_from(self, meta: Seq<u8>, index_log: Seq<u8>, height_log: Seq<u8>) -> bool {
        &&& self.meta() == metadata_decoding(meta)
        &&& self.index_map() == index_of_log(index_log)
        &&& self.height_map() == heights_of_log(height_log)
        &&& self.logged_index() == index_log
        &&& self.logged_heights() == height_log
    }

    /// The state of a newly created database: empty maps and logs, initial
    /// metadata.
    pub fn create(sync_on_write: bool) -> (r: Engine)
        ensures
            r.wf(),
            r.logs_agree(),
            r.index_map() == Map::<crate::codec::Hash, IndexEntry>::empty(),
            r.height_map() == Map::<u64, crate::codec::Hash>::empty(),
            r.meta() == crate::codec::initial_metadata(),
            r.syncs_on_write() == sync_on_write,
            r.logged_index() == Seq::<u8>::empty(),
            r.logged_heights() == Seq::<u8>::empty(),
    {
        let metadata = Metadata::default();
        assert(metadata.magic == MAGIC);
        Engine {
            hash_index: HashIndex::new(),
            height_index: HeightIndex::new(),
            metadata,
            sync_on_write,
            index_log: Ghost(Seq::empty()),
            height_log: Ghost(Seq::empty()),
        }
    }

    /// Recovers the state of an existing database from the contents of its
    /// metadata file and of its two index logs.
    ///
    /// The metadata must hold at least one record; its first record must
    /// carry the magic bytes and a plausible latest height. The logs are
    /// replayed record by record, a trailing partial record ignored.
    pub fn recover(meta_file: &[u8], index_log: &[u8], height_log: &[u8], sync_on_write: bool) -> (r:
        Result<Engine, Error>)
        ensures
            meta_file@.len() < 96 ==> (r matches Err(Error::Corruption(msg)) && msg@
                == "Metadata file too small"@),
            meta_file@.len() >= 96 ==> ({
                let b = meta_file@.subrange(0, 96);
                match r {
                    Ok(e) => {
                        &&& b.subrange(0, 4) == MAGIC@
                        &&& metadata_decoding(b).latest_height <= MAX_REASONABLE_HEIGHT
                        &&& e.wf()
                        &&& e.rebuilt_from(b, index_log@, height_log@)
                        &&& e.syncs_on_write() == sync_on_write
                    },
                    Err(Error::Corruption(msg)) => b.subrange(0, 4) != MAGIC@ && msg@
                        == "Invalid magic bytes"@,
                    Err(Error::HeightTooLarge(h)) => b.subrange(0, 4) == MAGIC@ && h
                        == metadata_decoding(b).latest_height && h > MAX_REASONABLE_HEIGHT,
                    Err(_) => false,
                }
            }),
    {
        if meta_file.len() < Metadata::SIZE {
            return Err(Error::Corruption("Metadata file too small".to_string()));
        }
        let record: [u8; 96] = take_bytes(meta_file, 0);
        let metadata = match Metadata::from_bytes(&record) {
            Ok(m) => m,
            Err(e) => {
                return Err(e);
            },
        };
        proof {
            let b = record@;
            if metadata.magic != MAGIC {
                crate::codec::lemma_bytes4_of(MAGIC);
                assert(b.subrange(0, 4) =~= MAGIC@);
            }
        }
        let hash_index = load_hash_index(index_log);
        let height_index = load_height_index(height_log);
        Ok(
            Engine {
                hash_index,
                height_index,
                metadata,
                sync_on_write,
                index_log: Ghost(index_log@),
                height_log: Ghost(height_log@),
            },
        )
    }

    /// Decides a write under `hash` at `height`: an implausible height is
    /// refused; `false` when the hash is already stored and nothing is to be
    /// done; `true` when the value and its records are to be appended and
    /// committed.
    pub fn prepare_put(&self, hash: &crate::codec::Hash, height: u64) -> (r: Result<bool, Error>)
        requires
            self.wf(),
        ensures
            r == put_decision(self.index_map(), *hash, height),
    {
        if height > MAX_REASONABLE_HEIGHT {
            return Err(Error::HeightTooLarge(height));
        }
        Ok(!self.hash_index.contains(hash))
    }

    /// Whether the counters have room for one more value of `data_len` bytes.
    pub fn has_room(&self, data_len: u64) -> (r: bool)
        ensures
            r == (self.meta().entry_count < u64::MAX && self.meta().data_size + data_len
                <= u64::MAX),
    {
        self.metadata.entry_count < u64::MAX && data_len <= u64::MAX - self.metadata.data_size
    }

    /// Records a value of `data_len` bytes, located by `entry`, whose data
    /// and records have been appended to the logs: updates both maps and the
    /// aggregate.
    pub fn commit_put(&mut self, entry: IndexEntry, data_len: u64)
        requires
            old(self).wf(),
            !old(self).index_map().contains_key(entry.key),
            entry.height <= MAX_REASONABLE_HEIGHT,
            old(self).meta().entry_count < u64::MAX,
            old(self).meta().data_size + data_len <= u64::MAX,
        ensures
            final(self).wf(),
            final(self).index_map() == old(self).index_map().insert(entry.key, entry),
            final(self).height_map() == old(self).height_map().insert(entry.height, entry.key),
            final(self).meta() == metadata_after_put(old(self).meta(), entry, data_len),
            final(self).syncs_on_write() == old(self).syncs_on_write(),
            final(self).logged_index() == old(self).logged_index() + index_entry_encoding(entry),
            final(self).logged_heights() == old(self).logged_heights() + height_entry_encoding(
                HeightEntry { height: entry.height, hash: entry.key },
            ),
            old(self).logs_agree() && entry.key != ZERO_HASH ==> final(self).logs_agree(),
    {
        let ghost old_index_log = self.index_log@;
        let ghost old_height_log = self.height_log@;
        let height_entry = HeightEntry { height: entry.height, hash: entry.key };
        self.hash_index.insert(entry);
        self.height_index.insert(entry.height, entry.key);
        self.metadata.entry_count = self.metadata.entry_count + 1;
        self.metadata.data_size = self.metadata.data_size + data_len;
        if entry.height > self.metadata.latest_height {
            self.metadata.latest_height = entry.height;
            self.metadata.latest_hash = entry.key;
        }
        if entry.height == 0 {
            self.metadata.genesis_hash = entry.key;
        }
        self.index_log = Ghost(old_index_log + index_entry_encoding(entry));
        self.height_log = Ghost(old_height_log + height_entry_encoding(height_entry));
        proof {
            if old_index_log.len() % 56 == 0 && old_height_log.len() % 40 == 0 {
                lemma_index_log_append(old_index_log, entry);
                lemma_height_log_append(old_height_log, height_entry);
                vstd::bytes::lemma_auto_spec_u64_to_from_le_bytes();
                vstd::bytes::lemma_auto_spec_u32_to_from_le_bytes();
                assert(index_entry_encoding(entry).len() == 56);
                assert(height_entry_encoding(height_entry).len() == 40);
            }
        }
    }

    /// Whether a value is stored under `hash`.
    pub fn contains(&self, hash: &crate::codec::Hash) -> (r: bool)
        requires
            self.wf(),
        ensures
            r == self.index_map().contains_key(*hash),
    {
        self.hash_index.contains(hash)
    }

    /// Whether some hash is recorded at `height`.
    pub fn contains_height(&self, height: u64) -> (r: bool)
        requires
            self.wf(),
        ensures
            r == self.height_map().contains_key(height),
    {
        self.height_index.map.contains_key(&height)
    }

    /// The index entry of `hash`, which locates its value in the data log.
    pub fn locate(&self, hash: &crate::codec::Hash) -> (r: Result<IndexEntry, Error>)
        requires
            self.wf(),
        ensures
            self.index_map().contains_key(*hash) ==> r == Ok::<IndexEntry, Error>(
                self.index_map()[*hash],
            ),
            !self.index_map().contains_key(*hash) ==> r == Err::<IndexEntry, Error>(
                Error::NotFound,
            ),
    {
        match self.hash_index.get(hash) {
            Some(e) => Ok(e),
            None => Err(Error::NotFound),
        }
    }

    /// The hash recorded at `height`.
    pub fn get_hash_by_height(&self, height: u64) -> (r: Result<crate::codec::Hash, Error>)
        requires
            self.wf(),
        ensures
            self.height_map().contains_key(height) ==> r == Ok::<crate::codec::Hash, Error>(
                self.height_map()[height],
            ),
            !self.height_map().contains_key(height) ==> r == Err::<crate::codec::Hash, Error>(
                Error::NotFound,
            ),
    {
        match self.height_index.map.get(&height) {
            Some(h) => Ok(*h),
            None => Err(Error::NotFound),
        }
    }

    /// The index entry of the hash recorded at `height`.
    pub fn locate_by_height(&self, height: u64) -> (r: Result<IndexEntry, Error>)
        requires
            self.wf(),
        ensures
            ({
                let m = self.height_map();
                if m.contains_key(height) && self.index_map().contains_key(m[height]) {
                    r == Ok::<IndexEntry, Error>(self.index_map()[m[height]])
                } else {
                    r == Err::<IndexEntry, Error>(Error::NotFound)
                }
            }),
    {
        match self.get_hash_by_height(height) {
            Ok(h) => self.locate(&h),
            Err(e) => Err(e),
        }
    }

    /// Latest block height.
    pub fn latest_height(&self) -> (r: u64)
        ensures
            r == self.meta().latest_height,
    {
        self.metadata.latest_height
    }

    /// Latest block hash.
    pub fn latest_hash(&self) -> (r: crate::codec::Hash)
        ensures
            r == self.meta().latest_hash,
    {
        self.metadata.latest_hash
    }

    /// Genesis block hash.
    pub fn genesis_hash(&self) -> (r: crate::codec::Hash)
        ensures
            r == self.meta().genesis_hash,
    {
        self.metadata.genesis_hash
    }

    /// Total entry count.
    pub fn entry_count(&self) -> (r: u64)
        ensures
            r == self.meta().entry_count,
    {
        self.metadata.entry_count
    }

    /// Whether each write is to be followed by a sync.
    pub fn sync_on_write(&self) -> (r: bool)
        ensures
            r == self.syncs_on_write(),
    {
        self.sync_on_write
    }

    /// The metadata record to write to the metadata file on sync.
    pub fn metadata_record(&self) -> (r: [u8; 96])
        ensures
            r@ == metadata_encoding(self.meta()),
    {
        self.metadata.to_bytes()
    }

    /// A snapshot of the aggregate state.
    pub fn stats(&self) -> (r: DatabaseStats)
        ensures
            r.entry_count == self.meta().entry_count,
            r.data_size == self.meta().data_size,
            r.latest_height == self.meta().latest_height,
            r.latest_hash == self.meta().latest_hash,
            r.genesis_hash == self.meta().genesis_hash,
    {
        DatabaseStats {
            entry_count: self.metadata.entry_count,
            data_size: self.metadata.data_size,
            latest_height: self.metadata.latest_height,
            latest_hash: self.metadata.latest_hash,
            genesis_hash: self.metadata.genesis_hash,
        }
    }

    /// Every recorded height, ascending.
    pub fn iter_heights(&self) -> (r: Vec<u64>)
        requires
            self.wf(),
        ensures
            strictly_ascending(r@),
            forall|h: u64| #[trigger] r@.contains(h) <==> self.height_map().contains_key(h),
    {
        let mut v = self.height_index.heights.clone();
        let ghost before = v@;
        sort_ascending(&mut v);
        proof {
            broadcast use vstd::seq_lib::group_to_multiset_ensures;
            before.lemma_multiset_has_no_duplicates();
            assert(before =~= self.height_index.heights@);
            assert forall|h: u64| #[trigger]
                v@.contains(h) <==> self.height_map().contains_key(h) by {
                assert(v@.to_multiset().contains(h) == before.to_multiset().contains(h));
                assert(before.contains(h) <==> self.height_index.heights@.contains(h));
            }
            assert forall|x: u64| v@.to_multiset().contains(x) implies v@.to_multiset().count(x)
                == 1 by {
                assert(before.to_multiset().contains(x));
            }
            v@.lemma_multiset_has_no_duplicates_conv();
            assert forall|i: int, j: int| 0 <= i < j < v@.len() implies v@[i] < v@[j] by {
                assert(v@[i] <= v@[j]);
                assert(v@[i] != v@[j]);
            }
        }
        v
    }
}


/// A write under a hash not yet stored is carried out, and afterwards the
/// hash is present and its entry locates exactly the written bytes in the
/// data log extended by them.
pub proof fn lemma_put_then_get(
    index: Map<crate::codec::Hash, IndexEntry>,
    data_log: Seq<u8>,
    hash: crate::codec::Hash,
    height: u64,
    data: Seq<u8>,
)
    requires
        !index.contains_key(hash),
        height <= MAX_REASONABLE_HEIGHT,
        data.len() <= u32::MAX,
        data_log.len() + data.len() <= u64::MAX,
    ensures
        put_decision(index, hash, height) == Ok::<bool, Error>(true),
        ({
            let e = entry_for(hash, height, data_log.len() as u64, data.len() as usize);
            let after = index.insert(e.key, e);
            &&& after.contains_key(hash)
            &&& stored_value(data_log + data, after[hash]) == data
        }),
{
    let e = entry_for(hash, height, data_log.len() as u64, data.len() as usize);
    assert((data_log + data).subrange(e.offset as int, e.offset + e.size) =~= data);
}

/// Once a hash is stored, a later write under it, whatever its height and
/// data, writes nothing and leaves the stored entry as it was: a plausible
/// height gives success with nothing to do, an implausible one the height
/// error.
pub proof fn lemma_put_dedup(index: Map<crate::codec::Hash, IndexEntry>, first: IndexEntry, height: u64)
    ensures
        ({
            let after = index.insert(first.key, first);
            &&& put_decision(after, first.key, height) == (if height > MAX_REASONABLE_HEIGHT {
                Err::<bool, Error>(Error::HeightTooLarge(height))
            } else {
                Ok::<bool, Error>(false)
            })
            &&& after[first.key] == first
        }),
{
}

/// A write at an implausible height fails with the height error, so nothing
/// is appended or committed.
pub proof fn lemma_put_height_guard(
    index: Map<crate::codec::Hash, IndexEntry>,
    hash: crate::codec::Hash,
    height: u64,
)
    requires
        height > MAX_REASONABLE_HEIGHT,
    ensures
        put_decision(index, hash, height) == Err::<bool, Error>(Error::HeightTooLarge(height)),
{
}

/// Reopening: the metadata record written on sync is accepted, and it and
/// the two logs rebuild exactly the state that wrote them.
pub proof fn lemma_reopen(e: Engine, reopened: Engine)
    requires
        e.wf(),
        e.logs_agree(),
        reopened.rebuilt_from(metadata_encoding(e.meta()), e.logged_index(), e.logged_heights()),
    ensures
        metadata_encoding(e.meta()).len() == 96,
        metadata_encoding(e.meta()).subrange(0, 96) == metadata_encoding(e.meta()),
        metadata_encoding(e.meta()).subrange(0, 4) == MAGIC@,
        metadata_decoding(metadata_encoding(e.meta())).latest_height <= MAX_REASONABLE_HEIGHT,
        reopened.meta() == e.meta(),
        reopened.index_map() == e.index_map(),
        reopened.height_map() == e.height_map(),
{
    vstd::bytes::lemma_auto_spec_u64_to_from_le_bytes();
    vstd::bytes::lemma_auto_spec_u32_to_from_le_bytes();
    crate::codec::lemma_metadata_round_trip(e.meta());
    assert(metadata_encoding(e.meta()).subrange(0, 96) =~= metadata_encoding(e.meta()));
}

/// Two hashes written in turn at one height: a replay of the logs maps the
/// height to the second, and keeps both hashes with their entries.
pub proof fn lemma_height_overwrite(
    index_log: Seq<u8>,
    height_log: Seq<u8>,
    first: IndexEntry,
    second: IndexEntry,
)
    requires
        index_log.len() % 56 == 0,
        height_log.len() % 40 == 0,
        first.key != second.key,
        first.key != ZERO_HASH,
        second.key != ZERO_HASH,
        first.height == second.height,
    ensures
        ({
            let index_after = index_log + index_entry_encoding(first) + index_entry_encoding(
                second,
            );
            let heights_after = height_log + height_entry_encoding(
                HeightEntry { height: first.height, hash: first.key },
            ) + height_entry_encoding(HeightEntry { height: second.height, hash: second.key });
            &&& heights_of_log(heights_after)[first.height] == second.key
            &&& index_of_log(index_after)[first.key] == first
            &&& index_of_log(index_after)[second.key] == second
        }),
{
    vstd::bytes::lemma_auto_spec_u64_to_from_le_bytes();
    vstd::bytes::lemma_auto_spec_u32_to_from_le_bytes();
    let h1 = HeightEntry { height: first.height, hash: first.key };
    let h2 = HeightEntry { height: second.height, hash: second.key };
    lemma_index_log_append(index_log, first);
    let mid = index_log + index_entry_encoding(first);
    assert(index_entry_encoding(first).len() == 56);
    assert(mid.len() % 56 == 0);
    lemma_index_log_append(mid, second);
    lemma_height_log_append(height_log, h1);
    let hmid = height_log + height_entry_encoding(h1);
    assert(height_entry_encoding(h1).len() == 40);
    assert(hmid.len() % 40 == 0);
    lemma_height_log_append(hmid, h2);
}

} // verus!
