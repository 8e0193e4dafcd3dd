//! The index of the disk tier: a size-bounded store with least-recently-used
//! eviction, one file per entry.
//!
//! The index decides; it touches no file. A caller writes a value to the file
//! named by [`CacheIndex::next_file_id`], then calls [`CacheIndex::put`] and
//! deletes the files that `put` reports as discarded. To read, it asks
//! [`CacheIndex::get`] for the file, reads it, and on success calls
//! [`CacheIndex::touch`]. A failed write is followed by no call at all, so the
//! index never counts bytes that are not on disk.
//!
//! Entries are kept in a vector, oldest first; every operation is linear in
//! the number of entries.
//!
//! - [`model`]: the index as a mathematical value, and what the operations
//!   do to it;
//! - [`index`]: the index itself;
//! - [`laws`]: what follows for sequences of operations.

use vstd::prelude::*;
use crate::data::ids::PersistentRegionId;
use crate::data::terrain::PatchPosition;

pub mod index;
pub mod laws;
pub mod model;

pub use self::index::{CacheIndex, PutOutcome};
pub use self::model::IndexModel;

verus! {

/// The key of a cached value: a region and a patch position in it.
pub type CacheKey = (PersistentRegionId, PatchPosition);

/// What the index records of one stored value.
#[derive(Clone, Copy, Debug, PartialEq, Eq, Structural)]
pub struct CacheEntry {
    /// Length of the stored value's file.
    pub size_bytes: u64,
    /// The number in the name of the file that holds the value.
    pub file_id: u64,
}

/// The index of the cache of terrain patches.
pub type TerrainCache = CacheIndex;

/// An entry of the index with its key.
pub type Slot = (CacheKey, CacheEntry);

/// Why a cache operation failed.
#[derive(Clone, Copy, Debug, PartialEq, Eq, Structural)]
pub enum CacheError {
    /// A directory or file could not be created, read, written or deleted.
    Io,
    /// A value or the index could not be encoded or decoded.
    Serialization,
}

/// Configuration of a disk cache.
#[derive(Clone, Copy, Debug, PartialEq, Eq, Structural)]
pub struct CacheConfig {
    /// Capacity of the cache.
    pub max_bytes: u64,
    /// Number of subdirectories on each of the two directory levels.
    pub subdirs_per_level: u32,
}

impl CacheConfig {
    /// The two nested directories that the file `file_id` lies in: files are
    /// spread over `subdirs_per_level` directories on each of two levels, by
    /// the remainders of the file id.
    pub fn data_file_dirs(&self, file_id: u64) -> (dirs: (u64, u64))
        requires
            self.subdirs_per_level > 0,
        ensures
            dirs.0 == file_id % (self.subdirs_per_level as u64),
            dirs.1 == (file_id / (self.subdirs_per_level as u64)) % (
            self.subdirs_per_level as u64),
    {
        let s: u64 = self.subdirs_per_level as u64;
        (file_id % s, (file_id / s) % s)
    }
}

} // verus!
