//! The snapshot map (`Nefax`) and its validation.

use vstd::prelude::*;

use crate::pathmap::PathMap;
use crate::types::{PathMeta, StoredMeta};

verus! {

/// Map of path to metadata for the indexed tree: one observed tree state.
/// Keys are paths relative to the indexed root, forward slashes.
pub type Nefax = PathMap<PathMeta>;

/// The previous snapshot as loaded from the store: path to stored row.
pub type StoredIndex = PathMap<StoredMeta>;

/// Plausible mtime_ns minimum: rejects obvious corruption sentinels.
pub const MTIME_NS_MIN: i64 = -1_000_000_000_000_000_000;

/// Plausible mtime_ns maximum (about two centuries from now, in ns).
pub const MTIME_NS_MAX: i64 = 4_611_686_018_427_387_903;

/// Max plausible file size (bytes). Rejects overflow/corruption sentinels.
pub const SIZE_MAX: u64 = 1_000_000_000_000_000_000;

/// A snapshot key must be non-empty and relative (no leading `/`).
pub open spec fn path_key_ok(p: Seq<char>) -> bool {
    p.len() > 0 && p[0] != '/'
}

/// Stored metadata must lie in plausible ranges.
pub open spec fn meta_plausible(m: PathMeta) -> bool {
    MTIME_NS_MIN <= m.mtime_ns <= MTIME_NS_MAX && m.size <= SIZE_MAX
}

/// A snapshot is valid when every key is a non-empty relative path and every
/// row is plausible.
pub open spec fn nefax_valid(m: Map<Seq<char>, PathMeta>) -> bool {
    forall|k: Seq<char>|
        #[trigger] m.contains_key(k) ==> path_key_ok(k) && meta_plausible(m[k])
}

/// Why a snapshot was rejected by [`validate_nefax`].
#[derive(Clone, Copy, Debug, PartialEq, Eq, Structural)]
pub enum ValidateErrorKind {
    /// A key is an absolute path (must be relative to the indexed root).
    AbsolutePath,
    /// A key is the empty path.
    EmptyPath,
    /// A row's mtime_ns lies outside the plausible range.
    MtimeOutOfRange,
    /// A row's size exceeds the plausible maximum.
    SizeTooLarge,
}

/// A rejected snapshot entry: the offending key and the reason.
#[derive(Clone, Debug)]
pub struct ValidateError {
    pub path: String,
    pub kind: ValidateErrorKind,
}

/// Whether this error kind truthfully describes the pair `(k, m)`.
pub open spec fn validate_error_describes(kind: ValidateErrorKind, k: Seq<char>, m: PathMeta) -> bool {
    match kind {
        ValidateErrorKind::AbsolutePath => k.len() > 0 && k[0] == '/',
        ValidateErrorKind::EmptyPath => k.len() == 0,
        ValidateErrorKind::MtimeOutOfRange => !(MTIME_NS_MIN <= m.mtime_ns <= MTIME_NS_MAX),
        ValidateErrorKind::SizeTooLarge => m.size > SIZE_MAX,
    }
}

/// Validate that a snapshot is suitable for use as the `existing` side of a
/// diff: every key non-empty and relative, every row in plausible ranges.
/// Returns the first offending entry found, if any.
pub fn validate_nefax(nefax: &Nefax) -> (r: Result<(), ValidateError>)
    ensures
        r is Ok <==> nefax_valid(nefax@),
        match r {
            Result::Ok(()) => true,
            Result::Err(e) => nefax@.contains_key(e.path@) && validate_error_describes(
                e.kind,
                e.path@,
                nefax@[e.path@],
            ),
        },
{
    nefax.key_facts();
    let n = nefax.len();
    let mut i: usize = 0;
    while i < n
        invariant
            n == nefax.spec_keys().len(),
            i <= n,
            forall|j: int|
                0 <= j < i ==> path_key_ok(#[trigger] nefax.spec_keys()[j]) && meta_plausible(
                    nefax@[nefax.spec_keys()[j]],
                ),
            forall|j: int| 0 <= j < n ==> nefax@.contains_key(#[trigger] nefax.spec_keys()[j]),
            forall|k: Seq<char>|
                #[trigger] nefax@.contains_key(k) ==> exists|j: int|
                    0 <= j < n && nefax.spec_keys()[j] == k,
        decreases n - i,
    {
        let key = nefax.key_at(i);
        let meta = nefax.val_at(i);
        let key_len = key.as_str().unicode_len();
        if key_len == 0 {
            return Err(ValidateError { path: key.clone(), kind: ValidateErrorKind::EmptyPath });
        }
        if key.as_str().get_char(0) == '/' {
            return Err(ValidateError { path: key.clone(), kind: ValidateErrorKind::AbsolutePath });
        }
        if meta.mtime_ns < MTIME_NS_MIN || meta.mtime_ns > MTIME_NS_MAX {
            return Err(
                ValidateError { path: key.clone(), kind: ValidateErrorKind::MtimeOutOfRange },
            );
        }
        if meta.size > SIZE_MAX {
            return Err(ValidateError { path: key.clone(), kind: ValidateErrorKind::SizeTooLarge });
        }
        i = i + 1;
    }
    proof {
        assert forall|k: Seq<char>| #[trigger] nefax@.contains_key(k) implies path_key_ok(k)
            && meta_plausible(nefax@[k]) by {
            let j = choose|j: int| 0 <= j < n && nefax.spec_keys()[j] == k;
            assert(path_key_ok(nefax.spec_keys()[j]));
        }
    }
    Ok(())
}

/// Convert a caller-supplied snapshot to the stored-index shape the diff
/// engine compares against: same keys, each digest as its raw bytes.
pub fn nefax_to_stored(existing: &Nefax) -> (r: StoredIndex)
    ensures
        forall|k: Seq<char>| #[trigger] r@.contains_key(k) <==> existing@.contains_key(k),
        forall|k: Seq<char>|
            #[trigger] existing@.contains_key(k) ==> r@[k].0 == existing@[k].mtime_ns && r@[k].1
                == existing@[k].size && crate::types::stored_hash_view(r@[k].2)
                == crate::types::hash_view(existing@[k].hash),
{
    existing.key_facts();
    let n = existing.len();
    let mut r = StoredIndex::new();
    let mut i: usize = 0;
    while i < n
        invariant
            i <= n,
            n == existing.spec_keys().len(),
            forall|j: int|
                0 <= j < n ==> existing@.contains_key(#[trigger] existing.spec_keys()[j]),
            forall|k: Seq<char>|
                #[trigger] existing@.contains_key(k) ==> exists|j: int|
                    0 <= j < n && existing.spec_keys()[j] == k,
            forall|k: Seq<char>|
                #[trigger] r@.contains_key(k) ==> exists|j: int|
                    0 <= j < i && existing.spec_keys()[j] == k,
            forall|j: int|
                0 <= j < i ==> {
                    let k = #[trigger] existing.spec_keys()[j];
                    &&& r@.contains_key(k)
                    &&& r@[k].0 == existing@[k].mtime_ns
                    &&& r@[k].1 == existing@[k].size
                    &&& crate::types::stored_hash_view(r@[k].2) == crate::types::hash_view(
                        existing@[k].hash,
                    )
                },
        decreases n - i,
    {
        let key = existing.key_at(i);
        let meta = existing.val_at(i);
        let hash_bytes: Option<Vec<u8>> = match &meta.hash {
            Some(h) => {
                let mut v: Vec<u8> = Vec::new();
                let mut b: usize = 0;
                while b < 32
                    invariant
                        h@.len() == 32,
                        b <= 32,
                        v@ == h@.subrange(0, b as int),
                    decreases 32 - b,
                {
                    v.push(h[b]);
                    assert(v@ =~= h@.subrange(0, b + 1 as int));
                    b = b + 1;
                }
                assert(v@ =~= h@);
                Some(v)
            },
            None => None,
        };
        let ghost r0 = r@;
        r.insert(key.clone(), (meta.mtime_ns, meta.size, hash_bytes));
        proof {
            assert forall|k: Seq<char>| #[trigger] r@.contains_key(k) implies exists|j: int|
                0 <= j < i + 1 && existing.spec_keys()[j] == k by {
                if k == existing.spec_keys()[i as int] {
                    assert(existing.spec_keys()[i as int] == k);
                } else {
                    assert(r0.contains_key(k));
                }
            }
        }
        i = i + 1;
    }
    proof {
        assert forall|k: Seq<char>| #[trigger] r@.contains_key(k) implies existing@.contains_key(
            k,
        ) by {
            let j = choose|j: int| 0 <= j < i && existing.spec_keys()[j] == k;
            assert(existing@.contains_key(existing.spec_keys()[j]));
        }
        assert forall|k: Seq<char>| #[trigger] existing@.contains_key(k) implies r@.contains_key(k)
            && r@[k].0 == existing@[k].mtime_ns && r@[k].1 == existing@[k].size
            && crate::types::stored_hash_view(r@[k].2) == crate::types::hash_view(
            existing@[k].hash,
        ) by {
            let j = choose|j: int| 0 <= j < n && existing.spec_keys()[j] == k;
            assert(r@.contains_key(existing.spec_keys()[j]));
        }
    }
    r
}

} // verus!

