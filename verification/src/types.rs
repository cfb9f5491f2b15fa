//! Core data types: in-flight entries, stored rows, diffs, and options.

use vstd::prelude::*;

verus! {

/// Metadata for a single path (file or dir). Dirs have size 0 and no hash.
#[derive(Clone, Debug)]
pub struct Entry {
    /// Path relative to the indexed root, forward slashes.
    pub path: String,
    /// Modification time in nanoseconds since epoch.
    pub mtime_ns: i64,
    /// File size in bytes (0 for directories).
    pub size: u64,
    /// Content hash (32 bytes), or `None` if not computed.
    pub hash: Option<[u8; 32]>,
}

/// Metadata for one path in the index (same shape as a row in the index DB).
#[derive(Clone, Debug, PartialEq)]
pub struct PathMeta {
    /// Modification time in nanoseconds since epoch.
    pub mtime_ns: i64,
    /// File size in bytes (0 for directories).
    pub size: u64,
    /// Content hash (32 bytes), or `None` if not computed.
    pub hash: Option<[u8; 32]>,
}

/// Stored row as loaded from the index DB: (mtime_ns, size, hash).
pub type StoredMeta = (i64, u64, Option<Vec<u8>>);

/// Result of comparing a directory to an existing index.
pub struct Diff {
    pub added: Vec<String>,
    pub removed: Vec<String>,
    pub modified: Vec<String>,
}

impl Default for Diff {
    /// An empty diff.
    fn default() -> (r: Diff)
        ensures
            r.added@ == Seq::<String>::empty(),
            r.removed@ == Seq::<String>::empty(),
            r.modified@ == Seq::<String>::empty(),
    {
        Diff { added: Vec::new(), removed: Vec::new(), modified: Vec::new() }
    }
}

/// Lib-only options: only the fields that apply when using the crate
/// without a database file.
#[derive(Clone, Debug)]
pub struct NefaxOpts {
    /// Override worker thread count. When None, derived from drive type and FD limit.
    pub num_threads: Option<usize>,
    /// When set together with [`Self::num_threads`] and
    /// [`Self::use_parallel_walk`], skip disk detection and use these values.
    pub drive_type: Option<crate::drive::DriveType>,
    /// Use the parallel walk. When set with `num_threads` and `drive_type`,
    /// skip disk detection.
    pub use_parallel_walk: Option<bool>,
    /// Compute a content hash for files (slower but accurate change detection).
    pub with_hash: bool,
    /// Follow symbolic links.
    pub follow_links: bool,
    /// Exclude patterns (glob syntax).
    pub exclude: Vec<String>,
    /// Mtime tolerance window in nanoseconds.
    pub mtime_window_ns: i64,
    /// Strict mode: fail on first permission/access error instead of skipping.
    pub strict: bool,
    /// Paranoid mode: re-hash when hash matches but mtime/size differ.
    pub paranoid: bool,
}

impl Default for NefaxOpts {
    /// All options off.
    fn default() -> (r: NefaxOpts)
        ensures
            r.num_threads is None,
            r.drive_type is None,
            r.use_parallel_walk is None,
            !r.with_hash,
            !r.follow_links,
            r.exclude@ == Seq::<String>::empty(),
            r.mtime_window_ns == 0,
            !r.strict,
            !r.paranoid,
    {
        NefaxOpts {
            num_threads: None,
            drive_type: None,
            use_parallel_walk: None,
            with_hash: false,
            follow_links: false,
            exclude: Vec::new(),
            mtime_window_ns: 0,
            strict: false,
            paranoid: false,
        }
    }
}

/// Full options (CLI and check). Use [`NefaxOpts`] for the library path.
#[derive(Clone)]
pub struct Opts {
    /// Index database path. When None, the index filename is joined under the root.
    pub db_path: Option<String>,
    /// Override worker thread count. When None, derived from drive type and FD limit.
    pub num_threads: Option<usize>,
    /// When set with `num_threads` and `use_parallel_walk`, skip disk
    /// detection and use these values.
    pub drive_type: Option<crate::drive::DriveType>,
    /// Use the parallel walk. When set with `num_threads` and `drive_type`,
    /// skip disk detection.
    pub use_parallel_walk: Option<bool>,
    /// Compute a content hash for files (slower but accurate change detection).
    pub with_hash: bool,
    /// Follow symbolic links.
    pub follow_links: bool,
    /// Exclude patterns (glob syntax).
    pub exclude: Vec<String>,
    /// Show progress (verbose mode).
    pub verbose: bool,
    /// Mtime tolerance window in nanoseconds.
    pub mtime_window_ns: i64,
    /// Strict mode: fail on first permission/access error instead of skipping.
    pub strict: bool,
    /// Paranoid mode: re-hash when hash matches but mtime/size differ.
    pub paranoid: bool,
    /// Encrypt the index database.
    pub encrypt: bool,
    /// List each changed path; large totals go to a results file.
    pub list_paths: bool,
    /// When true, write the index to the DB (CLI); when false, diff only (lib).
    pub write_to_db: bool,
}

impl Default for Opts {
    /// All options off.
    fn default() -> (r: Opts)
        ensures
            r.db_path is None,
            r.num_threads is None,
            r.drive_type is None,
            r.use_parallel_walk is None,
            !r.with_hash,
            !r.follow_links,
            r.exclude@ == Seq::<String>::empty(),
            !r.verbose,
            r.mtime_window_ns == 0,
            !r.strict,
            !r.paranoid,
            !r.encrypt,
            !r.list_paths,
            !r.write_to_db,
    {
        Opts {
            db_path: None,
            num_threads: None,
            drive_type: None,
            use_parallel_walk: None,
            with_hash: false,
            follow_links: false,
            exclude: Vec::new(),
            verbose: false,
            mtime_window_ns: 0,
            strict: false,
            paranoid: false,
            encrypt: false,
            list_paths: false,
            write_to_db: false,
        }
    }
}

impl Opts {
    /// Build full options from library options: the DB-related fields stay
    /// off, everything else carries over.
    pub fn from_nefax_opts(o: &NefaxOpts) -> (r: Opts)
        ensures
            r.db_path is None,
            r.num_threads == o.num_threads,
            r.drive_type == o.drive_type,
            r.use_parallel_walk == o.use_parallel_walk,
            r.with_hash == o.with_hash,
            r.follow_links == o.follow_links,
            r.exclude.deep_view() == o.exclude.deep_view(),
            !r.verbose,
            r.mtime_window_ns == o.mtime_window_ns,
            r.strict == o.strict,
            r.paranoid == o.paranoid,
            !r.encrypt,
            !r.list_paths,
            !r.write_to_db,
    {
        let mut excl: Vec<String> = Vec::new();
        let mut i: usize = 0;
        while i < o.exclude.len()
            invariant
                i <= o.exclude@.len(),
                excl@.len() == i,
                forall|j: int| 0 <= j < i ==> (#[trigger] excl@[j])@ == o.exclude@[j]@,
            decreases o.exclude@.len() - i,
        {
            excl.push(o.exclude[i].clone());
            i = i + 1;
        }
        proof {
            assert forall|j: int| 0 <= j < excl@.len() implies excl.deep_view()[j]
                == o.exclude.deep_view()[j] by {
                assert(excl.deep_view()[j] == excl@[j]@);
                assert(o.exclude.deep_view()[j] == o.exclude@[j]@);
            }
            assert(excl.deep_view() =~= o.exclude.deep_view());
        }
        Opts {
            db_path: None,
            num_threads: o.num_threads,
            drive_type: o.drive_type,
            use_parallel_walk: o.use_parallel_walk,
            with_hash: o.with_hash,
            follow_links: o.follow_links,
            exclude: excl,
            verbose: false,
            mtime_window_ns: o.mtime_window_ns,
            strict: o.strict,
            paranoid: o.paranoid,
            encrypt: false,
            list_paths: false,
            write_to_db: false,
        }
    }
}

/// Whether the mtime moved by more than the tolerance window.
pub open spec fn mtime_changed_spec(new_mtime: int, old_mtime: int, tolerance_ns: int) -> bool {
    if new_mtime >= old_mtime {
        new_mtime - old_mtime > tolerance_ns
    } else {
        old_mtime - new_mtime > tolerance_ns
    }
}

/// Check if mtime has changed beyond the tolerance window.
pub fn mtime_changed(new_mtime: i64, old_mtime: i64, tolerance_ns: i64) -> (r: bool)
    ensures
        r == mtime_changed_spec(new_mtime as int, old_mtime as int, tolerance_ns as int),
{
    let diff: i128 = new_mtime as i128 - old_mtime as i128;
    if diff >= 0 {
        diff > tolerance_ns as i128
    } else {
        -diff > tolerance_ns as i128
    }
}

/// The view of an in-flight hash: the digest bytes, if present.
pub open spec fn hash_view(h: Option<[u8; 32]>) -> Option<Seq<u8>> {
    match h {
        Some(a) => Some(a@),
        None => None,
    }
}

/// The view of a stored hash column: the raw bytes, if present.
pub open spec fn stored_hash_view(h: Option<Vec<u8>>) -> Option<Seq<u8>> {
    match h {
        Some(v) => Some(v@),
        None => None,
    }
}

/// Digest equality: a present digest equals another iff byte-equal;
/// absent equals absent.
pub open spec fn hash_eq_spec(a: Option<Seq<u8>>, b: Option<Seq<u8>>) -> bool {
    match (a, b) {
        (Option::None, Option::None) => true,
        (Option::Some(x), Option::Some(y)) => x == y,
        _ => false,
    }
}

/// Compare an in-flight hash with a stored hash column for equality.
pub fn hash_equals(hash1: &Option<[u8; 32]>, hash2: &Option<Vec<u8>>) -> (r: bool)
    ensures
        r == hash_eq_spec(hash_view(*hash1), stored_hash_view(*hash2)),
{
    match (hash1, hash2) {
        (Option::None, Option::None) => true,
        (Option::Some(a), Option::Some(b)) => {
            assert(hash_view(*hash1) == Some(a@));
            assert(stored_hash_view(*hash2) == Some(b@));
            assert(a@.len() == 32);
            if b.len() != 32 {
                assert(a@ != b@);
                return false;
            }
            let mut i: usize = 0;
            while i < 32
                invariant
                    hash_view(*hash1) == Some(a@),
                    stored_hash_view(*hash2) == Some(b@),
                    a@.len() == 32,
                    b@.len() == 32,
                    i <= 32,
                    forall|j: int| 0 <= j < i ==> a@[j] == b@[j],
                decreases 32 - i,
            {
                if a[i] != b[i] {
                    assert(a@ != b@) by {
                        assert(a@[i as int] != b@[i as int]);
                    }
                    return false;
                }
                i = i + 1;
            }
            assert(a@ =~= b@);
            true
        },
        _ => false,
    }
}

} // verus!
