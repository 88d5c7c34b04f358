use adzdb::engine::new_index_entry;
use adzdb::{Config, Engine, Error, HeightEntry, MAX_REASONABLE_HEIGHT, ZERO_HASH};

/// The four files of a database, held in memory.
#[derive(Clone, Default)]
struct Files {
    data: Vec<u8>,
    index: Vec<u8>,
    heights: Vec<u8>,
    meta: Vec<u8>,
}

struct Db {
    engine: Engine,
    files: Files,
}

fn create(config: Config) -> Db {
    let engine = Engine::create(config.sync_on_write);
    let files = Files { meta: engine.metadata_record().to_vec(), ..Files::default() };
    Db { engine, files }
}

fn open(files: Files) -> Result<Db, Error> {
    let engine = Engine::recover(&files.meta, &files.index, &files.heights, true)?;
    Ok(Db { engine, files })
}

impl Db {
    fn put(&mut self, hash: &[u8; 32], height: u64, data: &[u8]) -> Result<(), Error> {
        if !self.engine.prepare_put(hash, height)? {
            return Ok(());
        }
        let offset = self.files.data.len() as u64;
        let entry = new_index_entry(hash, height, offset, data.len());
        self.files.data.extend_from_slice(data);
        self.files.index.extend_from_slice(&entry.to_bytes());
        self.files.heights.extend_from_slice(&HeightEntry { height, hash: *hash }.to_bytes());
        assert!(self.engine.has_room(data.len() as u64));
        self.engine.commit_put(entry, data.len() as u64);
        if self.engine.sync_on_write() {
            self.sync();
        }
        Ok(())
    }

    fn sync(&mut self) {
        self.files.meta = self.engine.metadata_record().to_vec();
    }

    fn get(&self, hash: &[u8; 32]) -> Result<Vec<u8>, Error> {
        let e = self.engine.locate(hash)?;
        let start = e.offset as usize;
        Ok(self.files.data[start..start + e.size as usize].to_vec())
    }

    fn get_by_height(&self, height: u64) -> Result<Vec<u8>, Error> {
        let hash = self.engine.get_hash_by_height(height)?;
        self.get(&hash)
    }
}

#[test]
fn test_database_create_and_put() {
    let config = Config::new("adzdb-test-create");
    let mut db = create(config);

    let hash = [42u8; 32];
    let data = b"test block data";

    db.put(&hash, 0, data).unwrap();

    assert!(db.engine.contains(&hash));
    assert_eq!(db.engine.entry_count(), 1);

    let retrieved = db.get(&hash).unwrap();
    assert_eq!(retrieved, data);
}

#[test]
fn test_database_height_index() {
    let config = Config::new("adzdb-test-height");
    let mut db = create(config);

    let hash0 = [0u8; 32];
    let hash1 = [1u8; 32];
    let hash2 = [2u8; 32];

    db.put(&hash0, 0, b"genesis").unwrap();
    db.put(&hash1, 1, b"block 1").unwrap();
    db.put(&hash2, 2, b"block 2").unwrap();

    assert_eq!(db.get_by_height(0).unwrap(), b"genesis");
    assert_eq!(db.get_by_height(1).unwrap(), b"block 1");
    assert_eq!(db.get_by_height(2).unwrap(), b"block 2");

    assert_eq!(db.engine.get_hash_by_height(0).unwrap(), hash0);
    assert_eq!(db.engine.get_hash_by_height(1).unwrap(), hash1);
    assert_eq!(db.engine.get_hash_by_height(2).unwrap(), hash2);
}

#[test]
fn test_corruption_detection() {
    let config = Config::new("adzdb-test-corrupt");
    let mut db = create(config);

    let hash = [42u8; 32];

    let result = db.put(&hash, MAX_REASONABLE_HEIGHT + 1, b"corrupt");
    assert!(matches!(result, Err(Error::HeightTooLarge(_))));
}

#[test]
fn test_database_reopen() {
    let config = Config::new("adzdb-test-reopen");

    let files = {
        let mut db = create(config.clone());
        db.put(&[1u8; 32], 0, b"genesis").unwrap();
        db.put(&[2u8; 32], 1, b"block 1").unwrap();
        db.sync();
        db.files
    };

    {
        let db = open(files).unwrap();
        assert_eq!(db.engine.entry_count(), 2);
        assert_eq!(db.engine.latest_height(), 1);
        assert_eq!(db.get_by_height(0).unwrap(), b"genesis");
        assert_eq!(db.get_by_height(1).unwrap(), b"block 1");
    }
}

#[test]
fn test_deduplication() {
    let config = Config::new("adzdb-test-dedup");
    let mut db = create(config);

    let hash = [42u8; 32];

    db.put(&hash, 0, b"first").unwrap();
    db.put(&hash, 0, b"second").unwrap();

    assert_eq!(db.engine.entry_count(), 1);
    assert_eq!(db.get(&hash).unwrap(), b"first");
}

#[test]
fn dedup_ignores_other_height_and_writes_nothing() {
    let mut db = create(Config::new("dedup-other-height"));
    let hash = [5u8; 32];
    db.put(&hash, 3, b"A").unwrap();
    let before = db.files.clone();
    db.put(&hash, 9, b"BBBB").unwrap();
    assert_eq!(db.engine.entry_count(), 1);
    assert_eq!(db.get(&hash).unwrap(), b"A");
    assert_eq!(db.files.data, before.data);
    assert_eq!(db.files.index, before.index);
    assert_eq!(db.files.heights, before.heights);
    assert!(!db.engine.contains_height(9));
}

#[test]
fn height_guard_leaves_everything_unchanged() {
    let mut db = create(Config::new("guard"));
    db.put(&[1u8; 32], 1, b"one").unwrap();
    let before = db.files.clone();
    let r = db.put(&[2u8; 32], MAX_REASONABLE_HEIGHT + 1, b"two");
    assert!(matches!(r, Err(Error::HeightTooLarge(h)) if h == MAX_REASONABLE_HEIGHT + 1));
    assert_eq!(db.engine.entry_count(), 1);
    assert_eq!(db.files.data, before.data);
    assert_eq!(db.files.index, before.index);
    assert_eq!(db.files.heights, before.heights);
    // The bound itself is accepted.
    db.put(&[3u8; 32], MAX_REASONABLE_HEIGHT, b"edge").unwrap();
    assert_eq!(db.engine.latest_height(), MAX_REASONABLE_HEIGHT);
}

#[test]
fn height_overwrite_last_record_wins_on_reopen() {
    let mut db = create(Config::new("overwrite"));
    let h1 = [11u8; 32];
    let h2 = [12u8; 32];
    db.put(&h1, 5, b"A").unwrap();
    db.put(&h2, 5, b"B").unwrap();
    assert_eq!(db.get_by_height(5).unwrap(), b"B");
    let db = open(db.files).unwrap();
    assert_eq!(db.get_by_height(5).unwrap(), b"B");
    assert_eq!(db.get(&h1).unwrap(), b"A");
    assert_eq!(db.get(&h2).unwrap(), b"B");
    assert_eq!(db.engine.entry_count(), 2);
}

#[test]
fn concrete_genesis_scenario() {
    let mut db = create(Config::new("scenario"));
    db.put(&[0u8; 32], 0, b"genesis").unwrap();
    db.put(&[1u8; 32], 1, b"block1").unwrap();
    assert_eq!(db.engine.entry_count(), 2);
    assert_eq!(db.get_by_height(0).unwrap(), b"genesis");
    assert_eq!(db.engine.get_hash_by_height(1).unwrap(), [1u8; 32]);
    assert!(!db.engine.contains(&[2u8; 32]));
}

#[test]
fn genesis_write_does_not_set_latest_hash() {
    let mut db = create(Config::new("latest"));
    let g = [9u8; 32];
    db.put(&g, 0, b"g").unwrap();
    assert_eq!(db.engine.latest_height(), 0);
    assert_eq!(db.engine.latest_hash(), ZERO_HASH);
    assert_eq!(db.engine.genesis_hash(), g);
    db.put(&[8u8; 32], 2, b"two").unwrap();
    db.put(&[7u8; 32], 1, b"one").unwrap();
    assert_eq!(db.engine.latest_height(), 2);
    assert_eq!(db.engine.latest_hash(), [8u8; 32]);
    let stats = db.engine.stats();
    assert_eq!(stats.entry_count, 3);
    assert_eq!(stats.data_size, 7);
    assert_eq!(stats.latest_height, 2);
    assert_eq!(stats.latest_hash, [8u8; 32]);
    assert_eq!(stats.genesis_hash, g);
}

#[test]
fn put_records_offsets_in_the_data_log() {
    let mut db = create(Config::new("offsets"));
    db.put(&[1u8; 32], 1, b"abc").unwrap();
    db.put(&[2u8; 32], 2, b"defgh").unwrap();
    let e = db.engine.locate(&[2u8; 32]).unwrap();
    assert_eq!(e.offset, 3);
    assert_eq!(e.size, 5);
    assert_eq!(e.height, 2);
    assert_eq!(e.flags, 0);
    let e = db.engine.locate_by_height(1).unwrap();
    assert_eq!(e.key, [1u8; 32]);
    assert_eq!(e.offset, 0);
    assert_eq!(db.files.index.len(), 2 * 56);
    assert_eq!(db.files.heights.len(), 2 * 40);
}

#[test]
fn missing_keys_are_not_found() {
    let mut db = create(Config::new("missing"));
    assert!(matches!(db.get(&[3u8; 32]), Err(Error::NotFound)));
    assert!(matches!(db.get_by_height(0), Err(Error::NotFound)));
    assert!(matches!(db.engine.get_hash_by_height(0), Err(Error::NotFound)));
    assert!(matches!(db.engine.locate_by_height(0), Err(Error::NotFound)));
    db.put(&[3u8; 32], 4, b"x").unwrap();
    assert!(db.engine.contains_height(4));
    assert!(!db.engine.contains_height(5));
}

#[test]
fn iter_heights_is_sorted() {
    let mut db = create(Config::new("iter"));
    for (i, h) in [7u64, 2, 9, 0, 4].iter().enumerate() {
        db.put(&[(i + 1) as u8; 32], *h, b"v").unwrap();
    }
    db.put(&[99u8; 32], 4, b"again").unwrap();
    assert_eq!(db.engine.iter_heights(), vec![0, 2, 4, 7, 9]);
    assert_eq!(create(Config::new("empty")).engine.iter_heights(), Vec::<u64>::new());
}

#[test]
fn reopen_skips_zero_hash_records() {
    let mut db = create(Config::new("zero"));
    db.put(&ZERO_HASH, 0, b"genesis").unwrap();
    assert!(db.engine.contains(&ZERO_HASH));
    let db = open(db.files).unwrap();
    assert!(!db.engine.contains(&ZERO_HASH));
    assert!(!db.engine.contains_height(0));
    assert_eq!(db.engine.entry_count(), 1);
}

#[test]
fn reopen_drops_partial_trailing_records() {
    let mut db = create(Config::new("partial"));
    db.put(&[1u8; 32], 1, b"one").unwrap();
    let mut files = db.files.clone();
    files.index.extend_from_slice(&[5u8; 30]);
    files.heights.extend_from_slice(&[5u8; 39]);
    let db = open(files).unwrap();
    assert_eq!(db.get(&[1u8; 32]).unwrap(), b"one");
    assert_eq!(db.engine.iter_heights(), vec![1]);
}

#[test]
fn reopen_rejects_bad_metadata() {
    let db = create(Config::new("badmeta"));
    let mut files = db.files.clone();
    files.meta.truncate(95);
    match open(files) {
        Err(Error::Corruption(msg)) => assert_eq!(msg, "Metadata file too small"),
        _ => panic!("expected corruption"),
    }
    let mut files = db.files.clone();
    files.meta[1] = 0;
    match open(files) {
        Err(Error::Corruption(msg)) => assert_eq!(msg, "Invalid magic bytes"),
        _ => panic!("expected corruption"),
    }
    let mut files = db.files.clone();
    files.meta[24..32].copy_from_slice(&(MAX_REASONABLE_HEIGHT + 1).to_le_bytes());
    assert!(matches!(open(files), Err(Error::HeightTooLarge(_))));
}

#[test]
fn unsynced_metadata_is_not_persisted() {
    let mut db = create(Config::new("nosync").with_sync_on_write(false));
    assert!(!db.engine.sync_on_write());
    db.put(&[1u8; 32], 1, b"one").unwrap();
    let reopened = open(db.files.clone()).unwrap();
    assert_eq!(reopened.engine.entry_count(), 0);
    assert!(reopened.engine.contains(&[1u8; 32]));
    db.sync();
    let reopened = open(db.files).unwrap();
    assert_eq!(reopened.engine.entry_count(), 1);
}

#[test]
fn config_defaults() {
    let c = Config::new("/var/lib/blockchain");
    assert_eq!(c.path, "/var/lib/blockchain");
    assert!(c.sync_on_write);
    let c = c.with_sync_on_write(false);
    assert!(!c.sync_on_write);
    let d = Config::default();
    assert_eq!(d.path, "./adzdb");
    assert!(d.sync_on_write);
}
