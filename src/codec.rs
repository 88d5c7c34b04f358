//! Fixed-width little-endian encodings of the three on-disk record kinds.
use vstd::bytes::*;
use vstd::prelude::*;

use crate::error::Error;

verus! {

broadcast use vstd::array::group_array_axioms;

/// 256-bit content identifier.
pub type Hash = [u8; 32];

/// The all-zero hash: the sentinel meaning "no value".
pub const ZERO_HASH: Hash = [
    0u8, 0u8, 0u8, 0u8, 0u8, 0u8, 0u8, 0u8, 0u8, 0u8, 0u8, 0u8, 0u8, 0u8, 0u8, 0u8, 0u8, 0u8, 0u8, 0u8, 0u8, 0u8, 0u8, 0u8, 0u8, 0u8, 0u8, 0u8, 0u8, 0u8, 0u8, 0u8
];

/// Magic bytes at the start of the metadata record ("ADZB").
pub const MAGIC: [u8; 4] = [65u8, 68u8, 90u8, 66u8];

/// Current file format version.
pub const VERSION: u32 = 1;

/// Maximum value size (1 GiB). Declared, not enforced by any write path.
pub const MAX_VALUE_SIZE: u64 = 1073741824;

/// Largest block height accepted before data is considered corrupt.
pub const MAX_REASONABLE_HEIGHT: u64 = 10_000_000;

pub open spec fn is_zero_hash(h: Hash) -> bool {
    forall|i: int| 0 <= i < 32 ==> #[trigger] h@[i] == 0u8
}

/// Byte-wise equality of two hashes.
pub fn hash_eq(a: &Hash, b: &Hash) -> (r: bool)
    ensures
        r == (*a == *b),
{
    let mut i: usize = 0;
    while i < 32
        invariant
            0 <= i <= 32,
            forall|j: int| 0 <= j < i ==> a@[j] == b@[j],
        decreases 32 - i,
    {
        if a[i] != b[i] {
            assert(a@[i as int] != b@[i as int]);
            return false;
        }
        i += 1;
    }
    assert(*a =~= *b);
    true
}

/// Whether `h` is the all-zero sentinel hash.
pub fn hash_is_zero(h: &Hash) -> (r: bool)
    ensures
        r == is_zero_hash(*h),
        r == (*h == ZERO_HASH),
{
    let mut i: usize = 0;
    while i < 32
        invariant
            0 <= i <= 32,
            forall|j: int| 0 <= j < i ==> h@[j] == 0u8,
        decreases 32 - i,
    {
        if h[i] != 0 {
            assert(h@[i as int] != ZERO_HASH@[i as int]);
            return false;
        }
        i += 1;
    }
    assert(*h =~= ZERO_HASH);
    true
}

/// Copies `src` into `buf` starting at `at`.
fn put_bytes<const N: usize>(buf: &mut [u8; N], at: usize, src: &[u8])
    requires
        at + src@.len() <= N,
    ensures
        final(buf)@ == old(buf)@.subrange(0, at as int) + src@ + old(buf)@.subrange(
            at + src@.len(),
            N as int,
        ),
{
    let ghost start = buf@;
    let mut i: usize = 0;
    while i < src.len()
        invariant
            at + src@.len() <= N,
            0 <= i <= src@.len(),
            buf@.len() == N,
            forall|j: int| 0 <= j < at ==> buf@[j] == start[j],
            forall|j: int| at <= j < at + i ==> buf@[j] == src@[j - at],
            forall|j: int| at + i <= j < N ==> buf@[j] == start[j],
        decreases src@.len() - i,
    {
        buf[at + i] = src[i];
        i += 1;
    }
    assert(buf@ =~= start.subrange(0, at as int) + src@ + start.subrange(
        at + src@.len(),
        N as int,
    ));
}

/// The `N` bytes of `src` starting at `at`.
pub(crate) fn take_bytes<const N: usize>(src: &[u8], at: usize) -> (r: [u8; N])
    requires
        at + N <= src@.len(),
    ensures
        r@ == src@.subrange(at as int, at + N),
{
    let len = src.len();
    let mut r = [0u8; N];
    let mut i: usize = 0;
    while i < N
        invariant
            at + N <= src@.len() == len,
            0 <= i <= N,
            r@.len() == N,
            forall|j: int| 0 <= j < i ==> r@[j] == src@[at + j],
        decreases N - i,
    {
        r[i] = src[at + i];
        i += 1;
    }
    assert(r@ =~= src@.subrange(at as int, at + N));
    r
}

fn read_u64(src: &[u8], at: usize) -> (r: u64)
    requires
        at + 8 <= src@.len(),
    ensures
        r == spec_u64_from_le_bytes(src@.subrange(at as int, at + 8)),
{
    let b: [u8; 8] = take_bytes(src, at);
    u64_from_le_bytes(b.as_slice())
}

fn read_u32(src: &[u8], at: usize) -> (r: u32)
    requires
        at + 4 <= src@.len(),
    ensures
        r == spec_u32_from_le_bytes(src@.subrange(at as int, at + 4)),
{
    let b: [u8; 4] = take_bytes(src, at);
    u32_from_le_bytes(b.as_slice())
}

/// Index entry: maps a hash to where its value lies in the data log (56 bytes).
#[derive(Debug, Clone, Copy, PartialEq, Eq)]
pub struct IndexEntry {
    /// Full key hash.
    pub key: Hash,
    /// Offset of the value in the data log.
    pub offset: u64,
    /// Length of the value in bytes.
    pub size: u32,
    /// Block height of the value.
    pub height: u64,
    /// Reserved flags.
    pub flags: u32,
}

/// Height entry: maps a height to a hash (40 bytes).
#[derive(Debug, Clone, Copy, PartialEq, Eq)]
pub struct HeightEntry {
    /// Block height.
    pub height: u64,
    /// Block hash at this height.
    pub hash: Hash,
}

/// The aggregate state of a database, stored in the metadata file (96 bytes).
#[derive(Debug, Clone, Copy, PartialEq, Eq)]
pub struct Metadata {
    /// Magic bytes.
    pub magic: [u8; 4],
    /// Format version.
    pub version: u32,
    /// Number of stored entries.
    pub entry_count: u64,
    /// Total payload bytes stored.
    pub data_size: u64,
    /// Highest height stored.
    pub latest_height: u64,
    /// Hash stored at the latest height.
    pub latest_hash: Hash,
    /// Hash stored at height zero.
    pub genesis_hash: Hash,
}

pub open spec fn index_entry_encoding(e: IndexEntry) -> Seq<u8> {
    e.key@ + spec_u64_to_le_bytes(e.offset) + spec_u32_to_le_bytes(e.size)
        + spec_u64_to_le_bytes(e.height) + spec_u32_to_le_bytes(e.flags)
}

/// The index entry held by a 56-byte record.
pub open spec fn index_entry_decoding(b: Seq<u8>) -> IndexEntry
    recommends
        b.len() == 56,
{
    IndexEntry {
        key: hash_of(b.subrange(0, 32)),
        offset: spec_u64_from_le_bytes(b.subrange(32, 40)),
        size: spec_u32_from_le_bytes(b.subrange(40, 44)),
        height: spec_u64_from_le_bytes(b.subrange(44, 52)),
        flags: spec_u32_from_le_bytes(b.subrange(52, 56)),
    }
}

pub open spec fn height_entry_encoding(e: HeightEntry) -> Seq<u8> {
    spec_u64_to_le_bytes(e.height) + e.hash@
}

/// The height entry held by a 40-byte record.
pub open spec fn height_entry_decoding(b: Seq<u8>) -> HeightEntry
    recommends
        b.len() == 40,
{
    HeightEntry {
        height: spec_u64_from_le_bytes(b.subrange(0, 8)),
        hash: hash_of(b.subrange(8, 40)),
    }
}

pub open spec fn metadata_encoding(m: Metadata) -> Seq<u8> {
    m.magic@ + spec_u32_to_le_bytes(m.version) + spec_u64_to_le_bytes(m.entry_count)
        + spec_u64_to_le_bytes(m.data_size) + spec_u64_to_le_bytes(m.latest_height)
        + m.latest_hash@ + m.genesis_hash@
}

/// The metadata held by a 96-byte record, before validation.
pub open spec fn metadata_decoding(b: Seq<u8>) -> Metadata
    recommends
        b.len() == 96,
{
    Metadata {
        magic: bytes4_of(b.subrange(0, 4)),
        version: spec_u32_from_le_bytes(b.subrange(4, 8)),
        entry_count: spec_u64_from_le_bytes(b.subrange(8, 16)),
        data_size: spec_u64_from_le_bytes(b.subrange(16, 24)),
        latest_height: spec_u64_from_le_bytes(b.subrange(24, 32)),
        latest_hash: hash_of(b.subrange(32, 64)),
        genesis_hash: hash_of(b.subrange(64, 96)),
    }
}

/// The hash whose bytes are `s`.
pub open spec fn hash_of(s: Seq<u8>) -> Hash
    recommends
        s.len() == 32,
{
    choose|h: Hash| h@ == s
}

/// The four-byte array whose bytes are `s`.
pub open spec fn bytes4_of(s: Seq<u8>) -> [u8; 4]
    recommends
        s.len() == 4,
{
    choose|a: [u8; 4]| a@ == s
}


/// The metadata of a freshly created database.
pub open spec fn initial_metadata() -> Metadata {
    Metadata {
        magic: MAGIC,
        version: VERSION,
        entry_count: 0,
        data_size: 0,
        latest_height: 0,
        latest_hash: ZERO_HASH,
        genesis_hash: ZERO_HASH,
    }
}

/// Metadata that decoding accepts: the right magic and a plausible height.
pub open spec fn metadata_is_valid(m: Metadata) -> bool {
    m.magic == MAGIC && m.latest_height <= MAX_REASONABLE_HEIGHT
}

pub proof fn lemma_hash_of(h: Hash)
    ensures
        hash_of(h@) == h,
{
    let c = hash_of(h@);
    assert(c@ == h@);
    assert(c =~= h);
}

pub proof fn lemma_bytes4_of(a: [u8; 4])
    ensures
        bytes4_of(a@) == a,
{
    let c = bytes4_of(a@);
    assert(c@ == a@);
    assert(c =~= a);
}

impl IndexEntry {
    /// Size of an encoded index entry in bytes.
    pub const SIZE: usize = 56;

    /// Encodes the entry as its 56-byte record.
    pub fn to_bytes(&self) -> (r: [u8; 56])
        ensures
            r@ == index_entry_encoding(*self),
    {
        proof {
            lemma_auto_spec_u64_to_from_le_bytes();
            lemma_auto_spec_u32_to_from_le_bytes();
        }
        let mut buf = [0u8; 56];
        put_bytes(&mut buf, 0, self.key.as_slice());
        let offset = u64_to_le_bytes(self.offset);
        put_bytes(&mut buf, 32, offset.as_slice());
        let size = u32_to_le_bytes(self.size);
        put_bytes(&mut buf, 40, size.as_slice());
        let height = u64_to_le_bytes(self.height);
        put_bytes(&mut buf, 44, height.as_slice());
        let flags = u32_to_le_bytes(self.flags);
        put_bytes(&mut buf, 52, flags.as_slice());
        assert(buf@ =~= index_entry_encoding(*self));
        buf
    }

    /// Decodes a 56-byte record; any bytes decode.
    pub fn from_bytes(bytes: &[u8; 56]) -> (r: IndexEntry)
        ensures
            r == index_entry_decoding(bytes@),
    {
        let b = bytes.as_slice();
        let key: [u8; 32] = take_bytes(b, 0);
        proof {
            lemma_hash_of(key);
        }
        IndexEntry {
            key,
            offset: read_u64(b, 32),
            size: read_u32(b, 40),
            height: read_u64(b, 44),
            flags: read_u32(b, 52),
        }
    }
}

impl HeightEntry {
    /// Size of an encoded height entry in bytes.
    pub const SIZE: usize = 40;

    /// Encodes the entry as its 40-byte record.
    pub fn to_bytes(&self) -> (r: [u8; 40])
        ensures
            r@ == height_entry_encoding(*self),
    {
        proof {
            lemma_auto_spec_u64_to_from_le_bytes();
        }
        let mut buf = [0u8; 40];
        let height = u64_to_le_bytes(self.height);
        put_bytes(&mut buf, 0, height.as_slice());
        put_bytes(&mut buf, 8, self.hash.as_slice());
        assert(buf@ =~= height_entry_encoding(*self));
        buf
    }

    /// Decodes a 40-byte record; any bytes decode.
    pub fn from_bytes(bytes: &[u8; 40]) -> (r: HeightEntry)
        ensures
            r == height_entry_decoding(bytes@),
    {
        let b = bytes.as_slice();
        let hash: [u8; 32] = take_bytes(b, 8);
        proof {
            lemma_hash_of(hash);
        }
        HeightEntry { height: read_u64(b, 0), hash }
    }
}

impl Default for Metadata {
    fn default() -> (r: Metadata)
        ensures
            r == initial_metadata(),
    {
        Metadata {
            magic: MAGIC,
            version: VERSION,
            entry_count: 0,
            data_size: 0,
            latest_height: 0,
            latest_hash: ZERO_HASH,
            genesis_hash: ZERO_HASH,
        }
    }
}

impl Metadata {
    /// Size of an encoded metadata record in bytes.
    pub const SIZE: usize = 96;

    /// Encodes the metadata as its 96-byte record.
    pub fn to_bytes(&self) -> (r: [u8; 96])
        ensures
            r@ == metadata_encoding(*self),
    {
        proof {
            lemma_auto_spec_u64_to_from_le_bytes();
            lemma_auto_spec_u32_to_from_le_bytes();
        }
        let mut buf = [0u8; 96];
        put_bytes(&mut buf, 0, self.magic.as_slice());
        let version = u32_to_le_bytes(self.version);
        put_bytes(&mut buf, 4, version.as_slice());
        let count = u64_to_le_bytes(self.entry_count);
        put_bytes(&mut buf, 8, count.as_slice());
        let size = u64_to_le_bytes(self.data_size);
        put_bytes(&mut buf, 16, size.as_slice());
        let height = u64_to_le_bytes(self.latest_height);
        put_bytes(&mut buf, 24, height.as_slice());
        put_bytes(&mut buf, 32, self.latest_hash.as_slice());
        put_bytes(&mut buf, 64, self.genesis_hash.as_slice());
        assert(buf@ =~= metadata_encoding(*self));
        buf
    }

    /// Decodes and validates a 96-byte record: the magic bytes must match,
    /// and the latest height must not exceed the maximum reasonable height.
    pub fn from_bytes(bytes: &[u8; 96]) -> (r: Result<Metadata, Error>)
        ensures
            match r {
                Ok(m) => bytes@.subrange(0, 4) == MAGIC@ && m == metadata_decoding(bytes@)
                    && m.latest_height <= MAX_REASONABLE_HEIGHT,
                Err(Error::Corruption(msg)) => bytes@.subrange(0, 4) != MAGIC@ && msg@
                    == "Invalid magic bytes"@,
                Err(Error::HeightTooLarge(h)) => bytes@.subrange(0, 4) == MAGIC@ && h
                    == metadata_decoding(bytes@).latest_height && h > MAX_REASONABLE_HEIGHT,
                Err(_) => false,
            },
    {
        let b = bytes.as_slice();
        let magic: [u8; 4] = take_bytes(b, 0);
        if !(magic[0] == MAGIC[0] && magic[1] == MAGIC[1] && magic[2] == MAGIC[2] && magic[3]
            == MAGIC[3]) {
            assert(magic@ != MAGIC@) by {
                if magic@ == MAGIC@ {
                    assert(magic@[0] == MAGIC@[0]);
                    assert(magic@[1] == MAGIC@[1]);
                    assert(magic@[2] == MAGIC@[2]);
                    assert(magic@[3] == MAGIC@[3]);
                }
            }
            return Err(Error::Corruption("Invalid magic bytes".to_string()));
        }
        assert(magic@ =~= MAGIC@);
        let latest_hash: [u8; 32] = take_bytes(b, 32);
        let genesis_hash: [u8; 32] = take_bytes(b, 64);
        proof {
            lemma_bytes4_of(magic);
            lemma_hash_of(latest_hash);
            lemma_hash_of(genesis_hash);
        }
        let meta = Metadata {
            magic,
            version: read_u32(b, 4),
            entry_count: read_u64(b, 8),
            data_size: read_u64(b, 16),
            latest_height: read_u64(b, 24),
            latest_hash,
            genesis_hash,
        };
        if meta.latest_height > MAX_REASONABLE_HEIGHT {
            return Err(Error::HeightTooLarge(meta.latest_height));
        }
        Ok(meta)
    }
}

/// Decoding an encoded index entry gives the entry back.
pub proof fn lemma_index_entry_round_trip(e: IndexEntry)
    ensures
        index_entry_decoding(index_entry_encoding(e)) == e,
{
    lemma_auto_spec_u64_to_from_le_bytes();
    lemma_auto_spec_u32_to_from_le_bytes();
    lemma_hash_of(e.key);
    let b = index_entry_encoding(e);
    assert(b.subrange(0, 32) =~= e.key@);
    assert(b.subrange(32, 40) =~= spec_u64_to_le_bytes(e.offset));
    assert(b.subrange(40, 44) =~= spec_u32_to_le_bytes(e.size));
    assert(b.subrange(44, 52) =~= spec_u64_to_le_bytes(e.height));
    assert(b.subrange(52, 56) =~= spec_u32_to_le_bytes(e.flags));
}

/// Decoding an encoded height entry gives the entry back.
pub proof fn lemma_height_entry_round_trip(e: HeightEntry)
    ensures
        height_entry_decoding(height_entry_encoding(e)) == e,
{
    lemma_auto_spec_u64_to_from_le_bytes();
    lemma_hash_of(e.hash);
    let b = height_entry_encoding(e);
    assert(b.subrange(0, 8) =~= spec_u64_to_le_bytes(e.height));
    assert(b.subrange(8, 40) =~= e.hash@);
}

/// Decoding encoded metadata gives it back, and accepts it exactly when it
/// is valid.
pub proof fn lemma_metadata_round_trip(m: Metadata)
    ensures
        metadata_decoding(metadata_encoding(m)) == m,
        metadata_encoding(m).subrange(0, 4) == MAGIC@ <==> m.magic == MAGIC,
{
    lemma_auto_spec_u64_to_from_le_bytes();
    lemma_auto_spec_u32_to_from_le_bytes();
    lemma_hash_of(m.latest_hash);
    lemma_hash_of(m.genesis_hash);
    lemma_bytes4_of(m.magic);
    let b = metadata_encoding(m);
    assert(b.subrange(0, 4) =~= m.magic@);
    assert(b.subrange(4, 8) =~= spec_u32_to_le_bytes(m.version));
    assert(b.subrange(8, 16) =~= spec_u64_to_le_bytes(m.entry_count));
    assert(b.subrange(16, 24) =~= spec_u64_to_le_bytes(m.data_size));
    assert(b.subrange(24, 32) =~= spec_u64_to_le_bytes(m.latest_height));
    assert(b.subrange(32, 64) =~= m.latest_hash@);
    assert(b.subrange(64, 96) =~= m.genesis_hash@);
    if m.magic@ == MAGIC@ {
        assert(m.magic =~= MAGIC);
    }
}

} // verus!
