//! Store tests: row counts, load round trips, the diskinfo side table, and
//! the apply functions against a real in-memory database.

use nefaxer::nefax::StoredIndex;
use nefaxer::store::{
    apply_index_diff, apply_index_diff_streaming, load_diskinfo, load_index, open_db_in_memory,
    path_count_from_db, save_diskinfo,
};
use nefaxer::types::Entry;

fn entry(path: &str, mtime_ns: i64, size: u64, hash: Option<[u8; 32]>) -> Entry {
    Entry {
        path: path.to_string(),
        mtime_ns,
        size,
        hash,
    }
}

#[test]
fn test_path_count_from_db_empty() {
    let conn = open_db_in_memory().unwrap();
    assert_eq!(path_count_from_db(&conn), Some(0));
}

#[test]
fn test_path_count_from_db_after_insert() {
    let mut conn = open_db_in_memory().unwrap();
    let existing = StoredIndex::new();
    let rows = vec![entry("a/b", 100, 10, None), entry("c/d", 200, 20, None)];
    apply_index_diff(&mut conn, &rows, &existing, 0).unwrap();
    assert_eq!(path_count_from_db(&conn), Some(2));

    let more = vec![
        entry("a/b", 100, 10, None),
        entry("c/d", 200, 20, None),
        entry("e/f", 300, 30, Some([0u8; 32])),
    ];
    apply_index_diff(&mut conn, &more, &existing, 0).unwrap();
    assert_eq!(path_count_from_db(&conn), Some(3));
}

#[test]
fn test_load_index_round_trip() {
    let mut conn = open_db_in_memory().unwrap();
    let existing = StoredIndex::new();
    let rows = vec![
        entry("rel/path/a", 1000, 100, None),
        entry("rel/path/b", 2000, 200, Some([1u8; 32])),
        entry("single", 0, 0, None),
    ];
    apply_index_diff(&mut conn, &rows, &existing, 0).unwrap();

    let map = load_index(&conn).unwrap();
    assert_eq!(map.len(), 3);

    assert_eq!(map.get("rel/path/a"), Some(&(1000, 100_u64, None)));
    assert_eq!(
        map.get("rel/path/b"),
        Some(&(2000, 200_u64, Some(vec![1u8; 32])))
    );
    assert_eq!(map.get("single"), Some(&(0_i64, 0_u64, None)));
}

#[test]
fn test_streaming_apply_writes_and_reports() {
    let mut conn = open_db_in_memory().unwrap();
    let existing = StoredIndex::new();
    let entries = vec![entry("a.txt", 1000, 10, None), entry("b/c.txt", 2000, 0, None)];
    let (written, diff, nefax) =
        apply_index_diff_streaming(&mut conn, &entries, &existing, 0, false).unwrap();
    assert_eq!(written, 2);
    assert_eq!(diff.added, vec!["a.txt".to_string(), "b/c.txt".to_string()]);
    assert!(diff.modified.is_empty());
    assert!(diff.removed.is_empty());
    assert_eq!(nefax.len(), 2);
    assert_eq!(path_count_from_db(&conn), Some(2));
}

/// Two back-to-back runs against an unchanged tree: the second run writes
/// nothing, reports an empty diff, and the row count stays the same.
#[test]
fn test_streaming_apply_idempotent_rerun() {
    let mut conn = open_db_in_memory().unwrap();
    let empty = StoredIndex::new();
    let entries = vec![
        entry("a.txt", 1000, 10, None),
        entry("b/c.txt", 2000, 0, None),
    ];
    apply_index_diff_streaming(&mut conn, &entries, &empty, 0, false).unwrap();
    let first_count = path_count_from_db(&conn).unwrap();

    let loaded = load_index(&conn).unwrap();
    let (written, diff, _) =
        apply_index_diff_streaming(&mut conn, &entries, &loaded, 0, false).unwrap();
    assert_eq!(written, 0);
    assert!(diff.added.is_empty());
    assert!(diff.modified.is_empty());
    assert!(diff.removed.is_empty());
    assert_eq!(path_count_from_db(&conn), Some(first_count));
}

/// Deleting a file: a re-run without it reports it removed and its stored
/// row is gone.
#[test]
fn test_streaming_apply_removes_deleted_paths() {
    let mut conn = open_db_in_memory().unwrap();
    let empty = StoredIndex::new();
    let entries = vec![
        entry("a.txt", 1000, 10, None),
        entry("b/c.txt", 2000, 0, None),
    ];
    apply_index_diff_streaming(&mut conn, &entries, &empty, 0, false).unwrap();

    let loaded = load_index(&conn).unwrap();
    let second = vec![entry("b/c.txt", 2000, 0, None)];
    let (_, diff, _) = apply_index_diff_streaming(&mut conn, &second, &loaded, 0, false).unwrap();
    assert_eq!(diff.removed, vec!["a.txt".to_string()]);
    assert!(diff.added.is_empty());
    assert!(diff.modified.is_empty());

    let after = load_index(&conn).unwrap();
    assert_eq!(after.get("a.txt"), None);
    assert!(after.get("b/c.txt").is_some());
    assert_eq!(path_count_from_db(&conn), Some(1));
}

#[test]
fn test_diskinfo_round_trip() {
    let mut conn = open_db_in_memory().unwrap();
    assert_eq!(load_diskinfo(&conn, "/mnt/share").unwrap(), None);
    save_diskinfo(&mut conn, "/mnt/share", "{\"drive_type\":\"Network+SSD\"}").unwrap();
    assert_eq!(
        load_diskinfo(&conn, "/mnt/share").unwrap(),
        Some("{\"drive_type\":\"Network+SSD\"}".to_string())
    );
    save_diskinfo(&mut conn, "/mnt/share", "{\"drive_type\":\"Network+HDD\"}").unwrap();
    assert_eq!(
        load_diskinfo(&conn, "/mnt/share").unwrap(),
        Some("{\"drive_type\":\"Network+HDD\"}".to_string())
    );
}

/// A negative mtime and the inserted hash bytes come back unchanged.
#[test]
fn test_load_index_reflects_written_rows() {
    let mut conn = open_db_in_memory().unwrap();
    let existing = StoredIndex::new();
    let mut digest = [7u8; 32];
    digest[0] = 9;
    let rows = vec![entry("x", -5, 123, Some(digest))];
    apply_index_diff(&mut conn, &rows, &existing, 0).unwrap();
    let map = load_index(&conn).unwrap();
    assert_eq!(map.get("x"), Some(&(-5, 123_u64, Some(digest.to_vec()))));
}

/// The collision guard on the write path: an entry flagged changed by mtime
/// alone, whose digest equals the stored one, is not reported modified with
/// paranoid on (its row is still rewritten); with paranoid off it is.
#[test]
fn test_streaming_apply_paranoid_guard() {
    let digest = [3u8; 32];
    let mut existing = StoredIndex::new();
    existing.insert("a.txt".to_string(), (1000, 10, Some(digest.to_vec())));
    let entries = vec![entry("a.txt", 2000, 10, Some(digest))];

    let mut conn = open_db_in_memory().unwrap();
    let (written, diff, _) =
        apply_index_diff_streaming(&mut conn, &entries, &existing, 0, true).unwrap();
    assert_eq!(written, 1);
    assert!(diff.modified.is_empty());
    assert!(diff.added.is_empty());
    assert!(diff.removed.is_empty());
    let map = load_index(&conn).unwrap();
    assert_eq!(map.get("a.txt"), Some(&(2000, 10_u64, Some(digest.to_vec()))));

    let mut conn2 = open_db_in_memory().unwrap();
    let (_, diff2, _) =
        apply_index_diff_streaming(&mut conn2, &entries, &existing, 0, false).unwrap();
    assert_eq!(diff2.modified, vec!["a.txt".to_string()]);
}

/// A keyed connection works end to end: the key pragma binds before any
/// other access, and rows written through it read back.
#[test]
fn test_open_db_keyed_in_memory() {
    let mut conn = nefaxer::store::open_db(":memory:", Some("correct horse")).unwrap();
    let existing = StoredIndex::new();
    apply_index_diff(&mut conn, &vec![entry("k/a", 7, 9, None)], &existing, 0).unwrap();
    let map = load_index(&conn).unwrap();
    assert_eq!(map.get("k/a"), Some(&(7, 9_u64, None)));
}

/// A backup copies every row into the destination: both tables arrive, and
/// the destination index matches the source's.
#[test]
fn test_backup_to_file_copies_contents() {
    let mut conn = open_db_in_memory().unwrap();
    let existing = StoredIndex::new();
    let rows = vec![
        entry("rel/a", 1000, 100, None),
        entry("rel/b", 2000, 200, Some([5u8; 32])),
    ];
    apply_index_diff(&mut conn, &rows, &existing, 0).unwrap();
    save_diskinfo(&mut conn, "/mnt/share", "{\"drive_type\":\"Network+SSD\"}").unwrap();

    let dest = nefaxer::store::backup_to_file(&conn, ":memory:", None).unwrap();
    let copied = load_index(&dest).unwrap();
    assert_eq!(copied.len(), 2);
    assert_eq!(copied.get("rel/a"), Some(&(1000, 100_u64, None)));
    assert_eq!(copied.get("rel/b"), Some(&(2000, 200_u64, Some(vec![5u8; 32]))));
    assert_eq!(
        load_diskinfo(&dest, "/mnt/share").unwrap(),
        Some("{\"drive_type\":\"Network+SSD\"}".to_string())
    );
}

/// One writer's share applied in a single transaction: its rows inserted,
/// its vanished keys deleted.
#[test]
fn test_apply_bucket_inserts_and_deletes() {
    let mut conn = open_db_in_memory().unwrap();
    let empty = StoredIndex::new();
    apply_index_diff(&mut conn, &vec![entry("old", 1, 1, None)], &empty, 0).unwrap();

    let bucket = nefaxer::store::BucketWork {
        entries: vec![entry("new1", 2, 2, None), entry("new2", 3, 3, None)],
        deletes: vec!["old".to_string()],
    };
    nefaxer::store::apply_bucket(&mut conn, &bucket).unwrap();
    let map = load_index(&conn).unwrap();
    assert_eq!(map.len(), 2);
    assert!(map.get("new1").is_some());
    assert!(map.get("new2").is_some());
    assert_eq!(map.get("old"), None);
}
