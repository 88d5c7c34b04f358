//! Database configuration.
use vstd::prelude::*;

verus! {

/// Configuration of a database: where its files live and whether every
/// write is made durable before it is acknowledged.
#[derive(Debug, Clone)]
pub struct Config {
    /// Base directory of the database files.
    pub path: String,
    /// Sync data to disk after each write (default: true).
    pub sync_on_write: bool,
}

impl Default for Config {
    fn default() -> (r: Config)
        ensures
            r.path@ == "./adzdb"@,
            r.sync_on_write,
    {
        Config { path: "./adzdb".to_string(), sync_on_write: true }
    }
}

impl Config {
    /// A configuration for the database under `path`, syncing on every write.
    pub fn new(path: &str) -> (r: Config)
        ensures
            r.path@ == path@,
            r.sync_on_write,
    {
        Config { path: path.to_string(), sync_on_write: true }
    }

    /// The same configuration with sync-on-write set to `sync`.
    pub fn with_sync_on_write(self, sync: bool) -> (r: Config)
        ensures
            r.path == self.path,
            r.sync_on_write == sync,
    {
        let mut c = self;
        c.sync_on_write = sync;
        c
    }
}

} // verus!
