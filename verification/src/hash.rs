//! The hash engine: content digests, I/O strategy thresholds, and the
//! hash-reuse rule.
//!
//! Hashing a file's bytes is done by an outside hash function; reading the
//! file is the caller's business. This module decides *whether* a file is
//! hashed, *how* its bytes should be read (memory map above a threshold,
//! buffered chunks below), and whether a stored digest can be reused
//! instead of re-reading the file.

use vstd::prelude::*;

use crate::SMALL_FILE_THRESHOLD;
use crate::nefax::StoredIndex;
use crate::types::{Entry, StoredMeta, mtime_changed, mtime_changed_spec};

verus! {

/// Hashing I/O thresholds and buffer sizes.
pub struct HashingConsts;

impl HashingConsts {
    /// File size above which hashing memory-maps the file (bytes).
    pub const HASH_MMAP_THRESHOLD: u64 = 100 * 1024 * 1024;

    /// Chunk size for reading files below the mmap threshold (bytes).
    pub const HASH_READ_CHUNK_SIZE: usize = 1024 * 1024;
}

/// The digest of a byte string. The outside hash function computes it; its
/// value depends on the bytes alone.
pub uninterp spec fn blake3_of(data: Seq<u8>) -> Seq<u8>;

/// Relies on blake3::hash: a 256-bit digest of the input bytes, a function
/// of the bytes alone.
#[verifier::external_body]
fn blake3_hash_bytes(data: &[u8]) -> (r: [u8; 32])
    ensures
        r@ == blake3_of(data@),
{
    *blake3::hash(data).as_bytes()
}

/// The 32-byte content digest of a byte string.
pub fn content_digest(data: &[u8]) -> (r: [u8; 32])
    ensures
        r@ == blake3_of(data@),
{
    blake3_hash_bytes(data)
}

/// How a file's bytes are read for hashing.
#[derive(Clone, Copy, Debug, PartialEq, Eq, Structural)]
pub enum HashStrategy {
    /// Memory-map the file and feed the whole mapping to the hasher.
    MemoryMap,
    /// Buffered read in fixed-size chunks.
    Buffered,
}

/// Pick the I/O strategy for a file of the given size: memory map strictly
/// above the threshold, buffered chunks otherwise.
pub fn hash_strategy_for(size: u64) -> (r: HashStrategy)
    ensures
        r == HashStrategy::MemoryMap <==> size > HashingConsts::HASH_MMAP_THRESHOLD,
{
    if size > HashingConsts::HASH_MMAP_THRESHOLD {
        HashStrategy::MemoryMap
    } else {
        HashStrategy::Buffered
    }
}

/// Whether a file of this size is content-hashed at all: small files are
/// never hashed (the threshold is a strict less-than), and the diff uses
/// mtime and size alone for them.
pub fn qualifies_for_hash(size: u64) -> (r: bool)
    ensures
        r == (size >= SMALL_FILE_THRESHOLD),
{
    size >= SMALL_FILE_THRESHOLD
}

/// A stored row lets an entry reuse its digest when the mtime is unchanged
/// within the window, the size is unchanged, and the stored digest is a
/// well-formed 32-byte value.
pub open spec fn reuse_ok(e: Entry, m: StoredMeta, window: int) -> bool {
    &&& !mtime_changed_spec(e.mtime_ns as int, m.0 as int, window)
    &&& e.size == m.1
    &&& match m.2 {
        Some(v) => v@.len() == 32,
        None => false,
    }
}

/// What the hashing phase should do for one entry.
#[derive(Debug, PartialEq)]
pub enum HashAction {
    /// The entry is not hashed (hashing off, or the file is too small).
    Keep,
    /// Reuse the stored digest: no file I/O for this entry.
    Reuse([u8; 32]),
    /// Read the file and hash it.
    Compute,
}

/// Decide the hashing step for an entry: nothing when hashing is off or the
/// file is small; reuse the stored digest when mtime (within the window) and
/// size are unchanged and the stored digest is well-formed; otherwise hash
/// the file.
pub fn hash_action(
    entry: &Entry,
    existing: &StoredIndex,
    with_hash: bool,
    mtime_window_ns: i64,
) -> (r: HashAction)
    ensures
        !(with_hash && entry.size >= SMALL_FILE_THRESHOLD) ==> r is Keep,
        (with_hash && entry.size >= SMALL_FILE_THRESHOLD) ==> match r {
            HashAction::Keep => false,
            HashAction::Reuse(h) => {
                &&& existing@.contains_key(entry.path@)
                &&& reuse_ok(*entry, existing@[entry.path@], mtime_window_ns as int)
                &&& Some(h@) == crate::types::stored_hash_view(existing@[entry.path@].2)
            },
            HashAction::Compute => !(existing@.contains_key(entry.path@) && reuse_ok(
                *entry,
                existing@[entry.path@],
                mtime_window_ns as int,
            )),
        },
{
    if !with_hash || entry.size < SMALL_FILE_THRESHOLD {
        return HashAction::Keep;
    }
    match existing.get(entry.path.as_str()) {
        Some(m) => {
            let (old_mtime, old_size, old_hash) = m;
            if !mtime_changed(entry.mtime_ns, *old_mtime, mtime_window_ns) && entry.size
                == *old_size {
                match old_hash {
                    Some(v) => {
                        if v.len() == 32 {
                            let mut arr = [0u8; 32];
                            let mut i: usize = 0;
                            while i < 32
                                invariant
                                    v@.len() == 32,
                                    arr@.len() == 32,
                                    i <= 32,
                                    forall|j: int| 0 <= j < i ==> arr@[j] == v@[j],
                                decreases 32 - i,
                            {
                                arr[i] = v[i];
                                i = i + 1;
                            }
                            assert(arr@ =~= v@);
                            HashAction::Reuse(arr)
                        } else {
                            HashAction::Compute
                        }
                    },
                    None => HashAction::Compute,
                }
            } else {
                HashAction::Compute
            }
        },
        None => HashAction::Compute,
    }
}


/// Hashing the same bytes twice gives digests that compare equal; a
/// present digest never equals an absent one. (That distinct bytes give
/// distinct digests is the hash's collision resistance, which no proof here
/// can supply; the tests check it on concrete values.)
pub proof fn lemma_digest_equality(x: Seq<u8>)
    ensures
        crate::types::hash_eq_spec(Some(blake3_of(x)), Some(blake3_of(x))),
        !crate::types::hash_eq_spec(Some(blake3_of(x)), None),
        !crate::types::hash_eq_spec(None, Some(blake3_of(x))),
{
}

} // verus!

