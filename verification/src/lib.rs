//! Nefaxer: a directory indexer with content-aware diffing.
//!
//! The library holds the verified core of the indexer: path filtering and
//! normalization, the hash-reuse and classification rules, the snapshot map
//! and its validation, the diff engine over a stream of entries, the
//! snapshot store operations, and the drive-type tuning rules.

pub mod chars;
pub mod config;
pub mod control;
pub mod diff;
pub mod drive;
pub mod hash;
pub mod nefax;
pub mod pathmap;
pub mod paths;
pub mod store;
pub mod types;
pub mod walk;

use vstd::prelude::*;

verus! {

/// Files smaller than this are not hashed; mtime/size only (bytes).
pub const SMALL_FILE_THRESHOLD: u64 = 4096;

/// Batch size for DB insert/update chunks.
pub const DB_INSERT_BATCH_SIZE: usize = 1000;

/// When listing changed paths, totals above this go to a results file.
pub const LIST_THRESHOLD: usize = 100;

} // verus!
