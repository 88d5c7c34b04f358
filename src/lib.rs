//! Append-only, content-addressable storage for sequential records, retrievable
//! by 256-bit hash or by height.
use vstd::prelude::*;

pub mod codec;
pub mod config;
pub mod engine;
pub mod error;
pub mod hash_index;
pub mod replay;

pub use codec::{
    HeightEntry, IndexEntry, Metadata, MAGIC, MAX_REASONABLE_HEIGHT, MAX_VALUE_SIZE,
    VERSION, ZERO_HASH,
};
pub use config::Config;
pub use engine::{DatabaseStats, Engine};
pub use error::Error;

verus! {

/// Result type of database operations.
pub type Result<T> = core::result::Result<T, Error>;

} // verus!
