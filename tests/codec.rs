use adzdb::codec::{hash_eq, hash_is_zero};
use adzdb::{Error, HeightEntry, IndexEntry, Metadata, MAGIC, MAX_REASONABLE_HEIGHT, VERSION, ZERO_HASH};

#[test]
fn test_index_entry_roundtrip() {
    let entry = IndexEntry {
        key: [1u8; 32],
        offset: 12345,
        size: 1000,
        height: 42,
        flags: 0,
    };

    let bytes = entry.to_bytes();
    let recovered = IndexEntry::from_bytes(&bytes);

    assert_eq!(entry.key, recovered.key);
    assert_eq!(entry.offset, recovered.offset);
    assert_eq!(entry.size, recovered.size);
    assert_eq!(entry.height, recovered.height);
}

#[test]
fn test_metadata_roundtrip() {
    let meta = Metadata {
        magic: MAGIC,
        version: VERSION,
        entry_count: 100,
        data_size: 50000,
        latest_height: 42,
        latest_hash: [1u8; 32],
        genesis_hash: [2u8; 32],
    };

    let bytes = meta.to_bytes();
    let recovered = Metadata::from_bytes(&bytes).unwrap();

    assert_eq!(meta.entry_count, recovered.entry_count);
    assert_eq!(meta.latest_height, recovered.latest_height);
}

#[test]
fn index_entry_layout_is_little_endian() {
    let entry = IndexEntry {
        key: [7u8; 32],
        offset: 0x0102030405060708,
        size: 0x0A0B0C0D,
        height: 3,
        flags: 0x11223344,
    };
    let b = entry.to_bytes();
    assert_eq!(b.len(), IndexEntry::SIZE);
    assert_eq!(&b[0..32], &[7u8; 32]);
    assert_eq!(&b[32..40], &[8, 7, 6, 5, 4, 3, 2, 1]);
    assert_eq!(&b[40..44], &[0x0D, 0x0C, 0x0B, 0x0A]);
    assert_eq!(&b[44..52], &[3, 0, 0, 0, 0, 0, 0, 0]);
    assert_eq!(&b[52..56], &[0x44, 0x33, 0x22, 0x11]);
    assert_eq!(IndexEntry::from_bytes(&b), entry);
}

#[test]
fn height_entry_roundtrip_and_layout() {
    let entry = HeightEntry { height: 258, hash: [9u8; 32] };
    let b = entry.to_bytes();
    assert_eq!(b.len(), HeightEntry::SIZE);
    assert_eq!(&b[0..8], &[2, 1, 0, 0, 0, 0, 0, 0]);
    assert_eq!(&b[8..40], &[9u8; 32]);
    assert_eq!(HeightEntry::from_bytes(&b), entry);
}

#[test]
fn metadata_layout_and_full_roundtrip() {
    let meta = Metadata {
        magic: MAGIC,
        version: VERSION,
        entry_count: 5,
        data_size: 300,
        latest_height: 4,
        latest_hash: [3u8; 32],
        genesis_hash: [4u8; 32],
    };
    let b = meta.to_bytes();
    assert_eq!(b.len(), Metadata::SIZE);
    assert_eq!(&b[0..4], b"ADZB");
    assert_eq!(&b[4..8], &[1, 0, 0, 0]);
    assert_eq!(&b[8..16], &[5, 0, 0, 0, 0, 0, 0, 0]);
    assert_eq!(&b[16..24], &[44, 1, 0, 0, 0, 0, 0, 0]);
    assert_eq!(&b[24..32], &[4, 0, 0, 0, 0, 0, 0, 0]);
    assert_eq!(Metadata::from_bytes(&b).unwrap(), meta);
}

#[test]
fn default_metadata_is_empty() {
    let meta = Metadata::default();
    assert_eq!(meta.magic, MAGIC);
    assert_eq!(meta.version, VERSION);
    assert_eq!(meta.entry_count, 0);
    assert_eq!(meta.data_size, 0);
    assert_eq!(meta.latest_height, 0);
    assert_eq!(meta.latest_hash, ZERO_HASH);
    assert_eq!(meta.genesis_hash, ZERO_HASH);
}

#[test]
fn metadata_with_bad_magic_is_corrupt() {
    let mut b = Metadata::default().to_bytes();
    b[0] = b'X';
    match Metadata::from_bytes(&b) {
        Err(Error::Corruption(msg)) => assert_eq!(msg, "Invalid magic bytes"),
        other => panic!("unexpected: {:?}", other),
    }
}

#[test]
fn metadata_with_huge_height_is_refused() {
    let mut meta = Metadata::default();
    meta.latest_height = MAX_REASONABLE_HEIGHT + 1;
    let b = meta.to_bytes();
    assert!(matches!(Metadata::from_bytes(&b), Err(Error::HeightTooLarge(h)) if h == MAX_REASONABLE_HEIGHT + 1));
    meta.latest_height = MAX_REASONABLE_HEIGHT;
    assert!(Metadata::from_bytes(&meta.to_bytes()).is_ok());
}

#[test]
fn hash_helpers() {
    assert!(hash_is_zero(&ZERO_HASH));
    let mut h = ZERO_HASH;
    h[31] = 1;
    assert!(!hash_is_zero(&h));
    assert!(hash_eq(&h, &h));
    assert!(!hash_eq(&h, &ZERO_HASH));
}

#[test]
fn from_io_error_wraps() {
    let e: Error = std::io::Error::new(std::io::ErrorKind::Other, "boom").into();
    assert!(matches!(e, Error::Io(_)));
}
