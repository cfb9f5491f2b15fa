//! The snapshot store: an embedded SQL database holding one `paths` table
//! (path, mtime_ns, size, hash) and one `diskinfo` side table.
//!
//! The database lives behind a small set of trusted wrappers around
//! `rusqlite`. Two names describe a connection's logical contents:
//! [`db_paths`] for the `paths` table and [`db_diskinfo`] for the `diskinfo`
//! table; every wrapper's contract says what the call does to them, and the
//! verified batch/delete logic above the wrappers is proved against those
//! contracts.

use vstd::prelude::*;

use crate::DB_INSERT_BATCH_SIZE;
use crate::diff::{
    added_of, classify_spec, collect_entry_into_diff, entry_needs_update, entries_map,
    lemma_entries_map_dom, modified_of_guarded, needs_update_spec, removed_of, seen_spec,
};
use crate::nefax::{Nefax, StoredIndex};
use crate::types::{Diff, Entry, PathMeta, StoredMeta, stored_hash_view};

verus! {

/// The connection type of the embedded SQL store.
#[verifier::external_type_specification]
#[verifier::external_body]
pub struct ExConnection(rusqlite::Connection);

/// A failed store operation, with the engine's message.
#[derive(Debug)]
pub struct StoreError {
    pub msg: String,
}

/// The logical contents of the `paths` table of a connection: path to
/// (mtime_ns, size, hash bytes).
///
/// The two table names and [`db_txn`] read the database through the
/// connection value. The library keeps one live connection per database
/// file: a second connection onto the same file would see the first one's
/// writes while the names on the first stayed put. Nothing in this module
/// opens a file twice.
pub uninterp spec fn db_paths(conn: rusqlite::Connection) -> Map<Seq<char>, (int, int, Option<Seq<u8>>)>;

/// The logical contents of the `diskinfo` table of a connection: canonical
/// root path to its cached probe record.
pub uninterp spec fn db_diskinfo(conn: rusqlite::Connection) -> Map<Seq<char>, Seq<char>>;

/// The open transaction's base: the contents both tables had when the
/// connection's current explicit transaction began, or nothing when the
/// connection is in autocommit mode. The engine may answer certain errors
/// (disk full, I/O) inside a transaction by rolling the whole transaction
/// back; the failure clauses below say so over this base.
pub uninterp spec fn db_txn(conn: rusqlite::Connection) -> Option<
    (Map<Seq<char>, (int, int, Option<Seq<u8>>)>, Map<Seq<char>, Seq<char>>),
>;

/// Relies on rusqlite::Connection::open_in_memory and execute_batch: a fresh
/// in-memory database, with the schema applied, holds no rows, and the new
/// connection is in autocommit mode.
#[verifier::external_body]
pub fn open_db_in_memory() -> (r: Result<rusqlite::Connection, StoreError>)
    ensures
        match r {
            Ok(conn) => db_paths(conn) == Map::<Seq<char>, (int, int, Option<Seq<u8>>)>::empty()
                && db_diskinfo(conn) == Map::<Seq<char>, Seq<char>>::empty() && db_txn(conn)
                is None,
            Err(_) => true,
        },
{
    let conn = rusqlite::Connection::open_in_memory().map_err(|e| StoreError {
        msg: e.to_string(),
    })?;
    conn.execute_batch(
        "CREATE TABLE IF NOT EXISTS paths (\n            path TEXT PRIMARY KEY,\n            mtime_ns INTEGER NOT NULL,\n            size INTEGER NOT NULL,\n            hash BLOB\n        );\n        CREATE INDEX IF NOT EXISTS idx_paths_path ON paths(path);\n        CREATE TABLE IF NOT EXISTS diskinfo (\n            root_path TEXT PRIMARY KEY,\n            data TEXT NOT NULL\n        );",
    ).map_err(|e| StoreError { msg: e.to_string() })?;
    Ok(conn)
}

/// Relies on rusqlite::Connection::open, pragma_update, query_row and
/// execute_batch: open or create the index DB at `path`, bind the
/// page-encryption key (`PRAGMA key`, acted on by the SQLCipher-built
/// engine) before any other access when a passphrase is given, then enable
/// WAL mode and apply the schema. Nothing is promised of the contents: the
/// file may already hold rows, and a wrong or missing key surfaces as an
/// error on the first read. Keep one live connection per file: the contents
/// names read the database through the connection value, so a second
/// connection onto the same file would leave the first one's names stale.
#[verifier::external_body]
pub fn open_db(path: &str, passphrase: Option<&str>) -> (r: Result<rusqlite::Connection, StoreError>)
{
    let conn = rusqlite::Connection::open(path).map_err(|e| StoreError { msg: e.to_string() })?;
    if let Some(key) = passphrase {
        conn.pragma_update(None, "key", key).map_err(|e| StoreError { msg: e.to_string() })?;
    }
    conn.query_row("PRAGMA journal_mode = WAL", [], |_| Ok(())).map_err(|e| StoreError {
        msg: e.to_string(),
    })?;
    conn.execute_batch(
        "PRAGMA synchronous = NORMAL;\n        PRAGMA wal_autocheckpoint = 10000;\n        PRAGMA journal_size_limit = 67108864;",
    ).map_err(|e| StoreError { msg: e.to_string() })?;
    conn.execute_batch(
        "CREATE TABLE IF NOT EXISTS paths (\n            path TEXT PRIMARY KEY,\n            mtime_ns INTEGER NOT NULL,\n            size INTEGER NOT NULL,\n            hash BLOB\n        );\n        CREATE INDEX IF NOT EXISTS idx_paths_path ON paths(path);\n        CREATE TABLE IF NOT EXISTS diskinfo (\n            root_path TEXT PRIMARY KEY,\n            data TEXT NOT NULL\n        );",
    ).map_err(|e| StoreError { msg: e.to_string() })?;
    Ok(conn)
}

/// Relies on rusqlite::backup::Backup::run_to_completion: page-copy the
/// whole source database into the destination, overwriting what it held. On
/// success the destination's contents are exactly the source's.
#[verifier::external_body]
fn backup_into(source: &rusqlite::Connection, dest: &mut rusqlite::Connection) -> (r: Result<
    (),
    StoreError,
>)
    ensures
        r is Ok ==> db_paths(*final(dest)) == db_paths(*source) && db_diskinfo(*final(dest))
            == db_diskinfo(*source),
{
    let backup = rusqlite::backup::Backup::new(source, dest).map_err(|e| StoreError {
        msg: e.to_string(),
    })?;
    backup.run_to_completion(100, std::time::Duration::from_millis(0), None).map_err(
        |e| StoreError { msg: e.to_string() },
    )?;
    Ok(())
}

/// Copy the source database into the file at `path` (overwriting what it
/// held), keyed with the passphrase when one is given: the destination is
/// opened as an index database, then the source is page-copied into it. On
/// success the returned destination holds exactly the source's contents.
pub fn backup_to_file(source: &rusqlite::Connection, path: &str, passphrase: Option<&str>) -> (r:
    Result<rusqlite::Connection, StoreError>)
    ensures
        match r {
            Ok(dest) => db_paths(dest) == db_paths(*source) && db_diskinfo(dest) == db_diskinfo(
                *source,
            ),
            Err(_) => true,
        },
{
    let mut dest = open_db(path, passphrase)?;
    backup_into(source, &mut dest)?;
    Ok(dest)
}

/// Relies on rusqlite::Connection::execute with INSERT OR REPLACE: on
/// success the `paths` table holds exactly the old rows plus this one (the
/// old row for the path, if any, replaced). A failed statement is atomic —
/// the contents stay as they were — unless it fails inside an open
/// transaction with an error the engine answers by rolling the whole
/// transaction back (disk full, I/O): then the contents revert to the
/// transaction's base and the connection is back in autocommit mode.
#[verifier::external_body]
fn insert_path_row(
    conn: &mut rusqlite::Connection,
    path: &str,
    mtime_ns: i64,
    size: i64,
    hash: &Option<Vec<u8>>,
) -> (r: Result<(), StoreError>)
    ensures
        r is Ok ==> db_paths(*final(conn)) == db_paths(*old(conn)).insert(
            path@,
            (mtime_ns as int, size as int, stored_hash_view(*hash)),
        ) && db_diskinfo(*final(conn)) == db_diskinfo(*old(conn)) && db_txn(*final(conn))
            == db_txn(*old(conn)),
        r is Err ==> (db_paths(*final(conn)) == db_paths(*old(conn)) && db_diskinfo(*final(conn))
            == db_diskinfo(*old(conn)) && db_txn(*final(conn)) == db_txn(*old(conn))) || (db_txn(
            *old(conn),
        ) matches Some(base) && db_paths(*final(conn)) == base.0 && db_diskinfo(*final(conn))
            == base.1 && db_txn(*final(conn)) is None),
{
    conn.execute(
        "INSERT OR REPLACE INTO paths (path, mtime_ns, size, hash) VALUES (?1, ?2, ?3, ?4)",
        (path, mtime_ns, size, hash.as_deref()),
    ).map_err(|e| StoreError { msg: e.to_string() })?;
    Ok(())
}

/// Relies on rusqlite::Connection::execute with DELETE: on success the row
/// for the path, if any, is gone and nothing else changed. A failed
/// statement is atomic — the contents stay as they were — unless it fails
/// inside an open transaction with an error the engine answers by rolling
/// the whole transaction back (disk full, I/O): then the contents revert to
/// the transaction's base and the connection is back in autocommit mode.
#[verifier::external_body]
fn delete_path_row(conn: &mut rusqlite::Connection, path: &str) -> (r: Result<(), StoreError>)
    ensures
        r is Ok ==> db_paths(*final(conn)) == db_paths(*old(conn)).remove(path@) && db_diskinfo(
            *final(conn),
        ) == db_diskinfo(*old(conn)) && db_txn(*final(conn)) == db_txn(*old(conn)),
        r is Err ==> (db_paths(*final(conn)) == db_paths(*old(conn)) && db_diskinfo(*final(conn))
            == db_diskinfo(*old(conn)) && db_txn(*final(conn)) == db_txn(*old(conn))) || (db_txn(
            *old(conn),
        ) matches Some(base) && db_paths(*final(conn)) == base.0 && db_diskinfo(*final(conn))
            == base.1 && db_txn(*final(conn)) is None),
{
    conn.execute("DELETE FROM paths WHERE path = ?1", (path,)).map_err(|e| StoreError {
        msg: e.to_string(),
    })?;
    Ok(())
}

/// Relies on rusqlite::Connection::execute_batch with BEGIN: opening a
/// transaction changes no contents, whether it succeeds or fails (a nested
/// BEGIN fails and writes nothing, and is not in the error class the engine
/// answers with a rollback). On success the new transaction's base is the
/// contents as they stand.
#[verifier::external_body]
fn begin_transaction(conn: &mut rusqlite::Connection) -> (r: Result<(), StoreError>)
    ensures
        db_paths(*final(conn)) == db_paths(*old(conn)),
        db_diskinfo(*final(conn)) == db_diskinfo(*old(conn)),
        r is Ok ==> db_txn(*final(conn)) == Some(
            (db_paths(*old(conn)), db_diskinfo(*old(conn))),
        ),
        r is Err ==> db_txn(*final(conn)) == db_txn(*old(conn)),
{
    conn.execute_batch("BEGIN").map_err(|e| StoreError { msg: e.to_string() })?;
    Ok(())
}

/// Relies on rusqlite::Connection::execute_batch with COMMIT: on success the
/// transaction's writes are durable, the contents this connection sees do
/// not change, and the connection is back in autocommit mode. A failed
/// commit either leaves the transaction open and the contents untouched
/// (busy), or — on the error class the engine answers with a rollback (disk
/// full, I/O) — rolls the transaction back to its base.
#[verifier::external_body]
fn commit_transaction(conn: &mut rusqlite::Connection) -> (r: Result<(), StoreError>)
    ensures
        r is Ok ==> db_paths(*final(conn)) == db_paths(*old(conn)) && db_diskinfo(*final(conn))
            == db_diskinfo(*old(conn)) && db_txn(*final(conn)) is None,
        r is Err ==> (db_paths(*final(conn)) == db_paths(*old(conn)) && db_diskinfo(*final(conn))
            == db_diskinfo(*old(conn)) && db_txn(*final(conn)) == db_txn(*old(conn))) || (db_txn(
            *old(conn),
        ) matches Some(base) && db_paths(*final(conn)) == base.0 && db_diskinfo(*final(conn))
            == base.1 && db_txn(*final(conn)) is None),
{
    conn.execute_batch("COMMIT").map_err(|e| StoreError { msg: e.to_string() })?;
    Ok(())
}

/// Relies on rusqlite::Connection::query_row with PRAGMA wal_checkpoint:
/// checkpointing the write-ahead log reclaims space and changes no contents,
/// whether it succeeds or fails.
#[verifier::external_body]
fn checkpoint_wal(conn: &mut rusqlite::Connection) -> (r: Result<(), StoreError>)
    ensures
        db_paths(*final(conn)) == db_paths(*old(conn)),
        db_diskinfo(*final(conn)) == db_diskinfo(*old(conn)),
{
    conn.query_row("PRAGMA wal_checkpoint(TRUNCATE)", [], |_| Ok(())).map_err(|e| StoreError {
        msg: e.to_string(),
    })?;
    Ok(())
}

/// Relies on rusqlite::Connection::query_row with SELECT COUNT(*): the row
/// count of the `paths` table, when the query succeeds.
#[verifier::external_body]
pub fn path_count_from_db(conn: &rusqlite::Connection) -> (r: Option<usize>)
    ensures
        match r {
            Some(n) => db_paths(*conn).dom().finite() && n == db_paths(*conn).dom().len(),
            None => true,
        },
{
    conn.query_row("SELECT COUNT(*) FROM paths", [], |row| row.get::<_, i64>(0))
        .ok()
        .and_then(|n| usize::try_from(n).ok())
}

/// Relies on rusqlite::Statement::query_map over SELECT: every row of the
/// `paths` table, each exactly once, as (path, mtime_ns, size, hash).
#[verifier::external_body]
fn load_paths_rows(conn: &rusqlite::Connection) -> (r: Result<
    Vec<(String, i64, i64, Option<Vec<u8>>)>,
    StoreError,
>)
    ensures
        match r {
            Ok(v) => {
                &&& forall|i: int|
                    0 <= i < v@.len() ==> db_paths(*conn).contains_key(#[trigger] v@[i].0@)
                        && db_paths(*conn)[v@[i].0@] == (
                        v@[i].1 as int,
                        v@[i].2 as int,
                        stored_hash_view(v@[i].3),
                    )
                &&& forall|i: int, j: int| 0 <= i < j < v@.len() ==> v@[i].0@ != v@[j].0@
                &&& forall|k: Seq<char>|
                    #[trigger] db_paths(*conn).contains_key(k) ==> exists|i: int|
                        0 <= i < v@.len() && v@[i].0@ == k
            },
            Err(_) => true,
        },
{
    let mut stmt = conn.prepare("SELECT path, mtime_ns, size, hash FROM paths").map_err(
        |e| StoreError { msg: e.to_string() },
    )?;
    let rows = stmt.query_map(
        [],
        |row| Ok((row.get(0)?, row.get(1)?, row.get(2)?, row.get(3)?)),
    ).map_err(|e| StoreError { msg: e.to_string() })?;
    rows.collect::<Result<Vec<_>, _>>().map_err(|e| StoreError { msg: e.to_string() })
}

/// Relies on rusqlite::Connection::query_row over the `diskinfo` table: the
/// cached record for the root, when one is stored.
#[verifier::external_body]
pub fn load_diskinfo(conn: &rusqlite::Connection, root_path: &str) -> (r: Result<
    Option<String>,
    StoreError,
>)
    ensures
        match r {
            Ok(Some(s)) => db_diskinfo(*conn).contains_key(root_path@) && db_diskinfo(*conn)[
                root_path@
            ] == s@,
            Ok(None) => !db_diskinfo(*conn).contains_key(root_path@),
            Err(_) => true,
        },
{
    match conn.query_row(
        "SELECT data FROM diskinfo WHERE root_path = ?1",
        (root_path,),
        |row| row.get::<_, String>(0),
    ) {
        Ok(s) => Ok(Some(s)),
        Err(rusqlite::Error::QueryReturnedNoRows) => Ok(None),
        Err(e) => Err(StoreError { msg: e.to_string() }),
    }
}

/// Relies on rusqlite::Connection::execute with INSERT OR REPLACE on the
/// `diskinfo` table: on success the record for the root is stored and the
/// `paths` table is untouched. A failed statement is atomic — the contents
/// stay as they were — unless it fails inside an open transaction with an
/// error the engine answers by rolling the whole transaction back (the
/// library only issues it in autocommit mode, where the statement is its own
/// transaction).
#[verifier::external_body]
pub fn save_diskinfo(conn: &mut rusqlite::Connection, root_path: &str, data: &str) -> (r: Result<
    (),
    StoreError,
>)
    ensures
        r is Ok ==> db_diskinfo(*final(conn)) == db_diskinfo(*old(conn)).insert(root_path@, data@)
            && db_paths(*final(conn)) == db_paths(*old(conn)) && db_txn(*final(conn)) == db_txn(
            *old(conn),
        ),
        r is Err ==> (db_paths(*final(conn)) == db_paths(*old(conn)) && db_diskinfo(*final(conn))
            == db_diskinfo(*old(conn)) && db_txn(*final(conn)) == db_txn(*old(conn))) || (db_txn(
            *old(conn),
        ) matches Some(base) && db_paths(*final(conn)) == base.0 && db_diskinfo(*final(conn))
            == base.1 && db_txn(*final(conn)) is None),
{
    conn.execute(
        "INSERT OR REPLACE INTO diskinfo (root_path, data) VALUES (?1, ?2)",
        (root_path, data),
    ).map_err(|e| StoreError { msg: e.to_string() })?;
    Ok(())
}

/// The ghost image of an in-flight entry: what of it reaches the store.
pub ghost struct EntryV {
    pub path: Seq<char>,
    pub mtime_ns: int,
    pub size: int,
    pub hash: Option<Seq<u8>>,
}

/// The ghost image of an entry.
pub open spec fn entry_view(e: Entry) -> EntryV {
    EntryV {
        path: e.path@,
        mtime_ns: e.mtime_ns as int,
        size: e.size as int,
        hash: crate::types::hash_view(e.hash),
    }
}

/// The ghost images of a sequence of entries.
pub open spec fn entries_view(s: Seq<Entry>) -> Seq<EntryV> {
    s.map_values(|e: Entry| entry_view(e))
}

/// The `paths` contents after inserting each entry's row in order.
pub open spec fn insert_entries(
    m: Map<Seq<char>, (int, int, Option<Seq<u8>>)>,
    rows: Seq<EntryV>,
) -> Map<Seq<char>, (int, int, Option<Seq<u8>>)>
    decreases rows.len(),
{
    if rows.len() == 0 {
        m
    } else {
        insert_entries(m, rows.drop_last()).insert(
            rows.last().path,
            (rows.last().mtime_ns, rows.last().size, rows.last().hash),
        )
    }
}

/// The `paths` contents after removing each key in order.
pub open spec fn remove_keys(
    m: Map<Seq<char>, (int, int, Option<Seq<u8>>)>,
    keys: Seq<Seq<char>>,
) -> Map<Seq<char>, (int, int, Option<Seq<u8>>)>
    decreases keys.len(),
{
    if keys.len() == 0 {
        m
    } else {
        remove_keys(m, keys.drop_last()).remove(keys.last())
    }
}

/// The entries whose stored row differs (or is missing): the rows a run
/// writes, in the order they were seen.
pub open spec fn changed_of(
    entries: Seq<Entry>,
    existing: Map<Seq<char>, StoredMeta>,
    window: int,
) -> Seq<EntryV>
    decreases entries.len(),
{
    if entries.len() == 0 {
        Seq::empty()
    } else {
        let rest = changed_of(entries.drop_last(), existing, window);
        if needs_update_spec(entries.last(), existing, window) {
            rest.push(entry_view(entries.last()))
        } else {
            rest
        }
    }
}

/// Inserting a concatenation is inserting the two halves in turn.
proof fn lemma_insert_entries_concat(
    m: Map<Seq<char>, (int, int, Option<Seq<u8>>)>,
    a: Seq<EntryV>,
    b: Seq<EntryV>,
)
    ensures
        insert_entries(m, a + b) == insert_entries(insert_entries(m, a), b),
    decreases b.len(),
{
    if b.len() == 0 {
        assert(a + b =~= a);
    } else {
        lemma_insert_entries_concat(m, a, b.drop_last());
        assert((a + b).drop_last() =~= a + b.drop_last());
        assert((a + b).last() == b.last());
    }
}

/// The changed rows of a concatenation are the two halves' changed rows in
/// turn.
proof fn lemma_changed_of_concat(
    a: Seq<Entry>,
    b: Seq<Entry>,
    existing: Map<Seq<char>, StoredMeta>,
    window: int,
)
    ensures
        changed_of(a + b, existing, window) == changed_of(a, existing, window) + changed_of(
            b,
            existing,
            window,
        ),
    decreases b.len(),
{
    if b.len() == 0 {
        assert(a + b =~= a);
        assert(changed_of(a + b, existing, window) =~= changed_of(a, existing, window)
            + changed_of(b, existing, window));
    } else {
        lemma_changed_of_concat(a, b.drop_last(), existing, window);
        assert((a + b).drop_last() =~= a + b.drop_last());
        assert((a + b).last() == b.last());
        assert(changed_of(a + b, existing, window) =~= changed_of(a, existing, window)
            + changed_of(b, existing, window));
    }
}

/// A prefix of the walked entries yields a prefix of the changed rows.
proof fn lemma_changed_of_prefix(
    entries: Seq<Entry>,
    existing: Map<Seq<char>, StoredMeta>,
    window: int,
    i: int,
)
    requires
        0 <= i <= entries.len(),
    ensures
        changed_of(entries.subrange(0, i), existing, window).len() <= changed_of(
            entries,
            existing,
            window,
        ).len(),
        changed_of(entries.subrange(0, i), existing, window) == changed_of(
            entries,
            existing,
            window,
        ).subrange(0, changed_of(entries.subrange(0, i), existing, window).len() as int),
{
    let a = entries.subrange(0, i);
    let b = entries.subrange(i, entries.len() as int);
    assert(entries =~= a + b);
    lemma_changed_of_concat(a, b, existing, window);
    assert(changed_of(entries, existing, window).subrange(
        0,
        changed_of(a, existing, window).len() as int,
    ) =~= changed_of(a, existing, window));
}

/// The vanished keys of a concatenation of stored keys are the two halves'
/// vanished keys in turn.
proof fn lemma_removed_of_concat(a: Seq<Seq<char>>, b: Seq<Seq<char>>, entries: Seq<Entry>)
    ensures
        removed_of(a + b, entries) == removed_of(a, entries) + removed_of(b, entries),
    decreases b.len(),
{
    if b.len() == 0 {
        assert(a + b =~= a);
        assert(removed_of(a + b, entries) =~= removed_of(a, entries) + removed_of(b, entries));
    } else {
        lemma_removed_of_concat(a, b.drop_last(), entries);
        assert((a + b).drop_last() =~= a + b.drop_last());
        assert((a + b).last() == b.last());
        assert(removed_of(a + b, entries) =~= removed_of(a, entries) + removed_of(b, entries));
    }
}

/// A prefix of the stored keys yields a prefix of the vanished keys.
proof fn lemma_removed_of_prefix(keys: Seq<Seq<char>>, entries: Seq<Entry>, j: int)
    requires
        0 <= j <= keys.len(),
    ensures
        removed_of(keys.subrange(0, j), entries).len() <= removed_of(keys, entries).len(),
        removed_of(keys.subrange(0, j), entries) == removed_of(keys, entries).subrange(
            0,
            removed_of(keys.subrange(0, j), entries).len() as int,
        ),
{
    let a = keys.subrange(0, j);
    let b = keys.subrange(j, keys.len() as int);
    assert(keys =~= a + b);
    lemma_removed_of_concat(a, b, entries);
    assert(removed_of(keys, entries).subrange(0, removed_of(a, entries).len() as int)
        =~= removed_of(a, entries));
}

/// The store holds the old contents with some prefix of a run's intended
/// writes applied: a prefix of the changed rows inserted, then a prefix of
/// the vanished keys removed. This is what a run that failed part-way
/// guarantees of the `paths` table: no half-written row, no unintended
/// write.
pub open spec fn partial_apply(
    db0: Map<Seq<char>, (int, int, Option<Seq<u8>>)>,
    db1: Map<Seq<char>, (int, int, Option<Seq<u8>>)>,
    entries: Seq<Entry>,
    existing: Map<Seq<char>, StoredMeta>,
    existing_keys: Seq<Seq<char>>,
    window: int,
) -> bool {
    exists|i: int, j: int|
        #![trigger changed_of(entries, existing, window).subrange(0, i), removed_of(existing_keys, entries).subrange(0, j)]
        0 <= i <= changed_of(entries, existing, window).len() && 0 <= j <= removed_of(
            existing_keys,
            entries,
        ).len() && db1 == remove_keys(
            insert_entries(db0, changed_of(entries, existing, window).subrange(0, i)),
            removed_of(existing_keys, entries).subrange(0, j),
        )
}

/// Exhibit a partial application: the changed rows up to `i` inserted, the
/// vanished keys up to `j` removed.
proof fn lemma_partial_apply_witness(
    db0: Map<Seq<char>, (int, int, Option<Seq<u8>>)>,
    db1: Map<Seq<char>, (int, int, Option<Seq<u8>>)>,
    entries: Seq<Entry>,
    existing: Map<Seq<char>, StoredMeta>,
    existing_keys: Seq<Seq<char>>,
    window: int,
    i: int,
    j: int,
)
    requires
        0 <= i <= changed_of(entries, existing, window).len(),
        0 <= j <= removed_of(existing_keys, entries).len(),
        db1 == remove_keys(
            insert_entries(db0, changed_of(entries, existing, window).subrange(0, i)),
            removed_of(existing_keys, entries).subrange(0, j),
        ),
    ensures
        partial_apply(db0, db1, entries, existing, existing_keys, window),
{
}

/// What one run leaves in the `paths` table, starting from `m`: the changed
/// rows written, then the vanished keys removed.
pub open spec fn apply_result(
    m: Map<Seq<char>, (int, int, Option<Seq<u8>>)>,
    entries: Seq<Entry>,
    existing: Map<Seq<char>, StoredMeta>,
    existing_keys: Seq<Seq<char>>,
    window: int,
) -> Map<Seq<char>, (int, int, Option<Seq<u8>>)> {
    remove_keys(
        insert_entries(m, changed_of(entries, existing, window)),
        removed_of(existing_keys, entries),
    )
}

/// Copy an entry.
fn clone_entry(e: &Entry) -> (r: Entry)
    ensures
        r.path@ == e.path@,
        r.mtime_ns == e.mtime_ns,
        r.size == e.size,
        r.hash == e.hash,
        entry_view(r) == entry_view(*e),
{
    Entry { path: e.path.clone(), mtime_ns: e.mtime_ns, size: e.size, hash: e.hash }
}

/// Insert a batch of entries inside one transaction. When the batch fails
/// part-way, the connection's contents are the old rows with some prefix of
/// the batch applied: either the failed statement was atomic and the open
/// prefix stands, or the engine rolled the transaction back and the prefix
/// is empty.
fn flush_batch(conn: &mut rusqlite::Connection, batch: &Vec<Entry>) -> (r: Result<
    (),
    StoreError,
>)
    requires
        forall|i: int| 0 <= i < batch@.len() ==> (#[trigger] batch@[i].size) <= i64::MAX as u64,
    ensures
        db_diskinfo(*final(conn)) == db_diskinfo(*old(conn)),
        r is Ok ==> db_paths(*final(conn)) == insert_entries(
            db_paths(*old(conn)),
            entries_view(batch@),
        ) && db_txn(*final(conn)) is None,
        r is Err ==> exists|k: int|
            0 <= k <= batch@.len() && db_paths(*final(conn)) == insert_entries(
                db_paths(*old(conn)),
                entries_view(#[trigger] batch@.subrange(0, k)),
            ),
{
    let ghost db0 = db_paths(*conn);
    assert(entries_view(batch@.subrange(0, 0)) =~= Seq::<EntryV>::empty());
    begin_transaction(conn)?;
    let mut i: usize = 0;
    while i < batch.len()
        invariant
            i <= batch@.len(),
            forall|j: int| 0 <= j < batch@.len() ==> (#[trigger] batch@[j].size) <= i64::MAX as u64,
            db0 == db_paths(*old(conn)),
            db_paths(*conn) == insert_entries(db0, entries_view(batch@.subrange(0, i as int))),
            db_diskinfo(*conn) == db_diskinfo(*old(conn)),
            db_txn(*conn) == Some((db0, db_diskinfo(*old(conn)))),
        decreases batch@.len() - i,
    {
        let ghost prefix = entries_view(batch@.subrange(0, i as int));
        let ghost prefix2 = entries_view(batch@.subrange(0, i + 1 as int));
        proof {
            assert(prefix2.drop_last() =~= prefix);
            assert(prefix2.last() == entry_view(batch@[i as int]));
        }
        let e = &batch[i];
        let hash_vec: Option<Vec<u8>> = match &e.hash {
            Some(h) => Some(slice_to_vec(h)),
            None => None,
        };
        match insert_path_row(conn, e.path.as_str(), e.mtime_ns, e.size as i64, &hash_vec) {
            Ok(()) => {},
            Err(e) => {
                proof {
                    // Statement-atomic failure keeps the open prefix; a
                    // rollback reverts to the transaction's base, the empty
                    // prefix.
                    if db_txn(*conn) is None {
                        assert(entries_view(batch@.subrange(0, 0)) =~= Seq::<EntryV>::empty());
                        assert(db_paths(*conn) == insert_entries(
                            db0,
                            entries_view(batch@.subrange(0, 0)),
                        ));
                    }
                }
                return Err(e);
            },
        }
        i = i + 1;
    }
    assert(entries_view(batch@.subrange(0, batch@.len() as int)) =~= entries_view(batch@));
    match commit_transaction(conn) {
        Ok(()) => {},
        Err(e) => {
            proof {
                if db_txn(*conn) is None {
                    assert(entries_view(batch@.subrange(0, 0)) =~= Seq::<EntryV>::empty());
                    assert(db_paths(*conn) == insert_entries(
                        db0,
                        entries_view(batch@.subrange(0, 0)),
                    ));
                }
            }
            return Err(e);
        },
    }
    Ok(())
}

/// A loaded index corresponds to the `paths` table: same keys, same rows,
/// negative stored sizes clamped to zero.
pub open spec fn index_matches_db(
    ix: Map<Seq<char>, StoredMeta>,
    db: Map<Seq<char>, (int, int, Option<Seq<u8>>)>,
) -> bool {
    &&& forall|k: Seq<char>| #[trigger] ix.contains_key(k) <==> db.contains_key(k)
    &&& forall|k: Seq<char>|
        #[trigger] db.contains_key(k) ==> ix[k].0 as int == db[k].0 && ix[k].1 as int == (if db[
            k
        ].1 < 0 {
            0int
        } else {
            db[k].1
        }) && stored_hash_view(ix[k].2) == db[k].2
}

/// Copy a byte vector.
fn clone_bytes(v: &Vec<u8>) -> (r: Vec<u8>)
    ensures
        r@ == v@,
{
    let mut r: Vec<u8> = Vec::new();
    let mut i: usize = 0;
    while i < v.len()
        invariant
            i <= v@.len(),
            r@ == v@.subrange(0, i as int),
        decreases v@.len() - i,
    {
        r.push(v[i]);
        assert(r@ =~= v@.subrange(0, i + 1 as int));
        i = i + 1;
    }
    assert(r@ =~= v@);
    r
}

/// Load the existing index from the store into a snapshot map:
/// path to (mtime_ns, size, hash), negative stored sizes clamped to zero.
pub fn load_index(conn: &rusqlite::Connection) -> (r: Result<StoredIndex, StoreError>)
    ensures
        match r {
            Ok(ix) => index_matches_db(ix@, db_paths(*conn)),
            Err(_) => true,
        },
{
    let rows = load_paths_rows(conn)?;
    let mut ix: StoredIndex = StoredIndex::new();
    let mut i: usize = 0;
    while i < rows.len()
        invariant
            i <= rows@.len(),
            forall|j: int|
                0 <= j < rows@.len() ==> db_paths(*conn).contains_key(#[trigger] rows@[j].0@)
                    && db_paths(*conn)[rows@[j].0@] == (
                    rows@[j].1 as int,
                    rows@[j].2 as int,
                    stored_hash_view(rows@[j].3),
                ),
            forall|j: int, l: int| 0 <= j < l < rows@.len() ==> rows@[j].0@ != rows@[l].0@,
            forall|k: Seq<char>|
                #[trigger] ix@.contains_key(k) ==> exists|j: int| 0 <= j < i && rows@[j].0@ == k,
            forall|j: int|
                0 <= j < i ==> ix@.contains_key(#[trigger] rows@[j].0@) && ix@[rows@[j].0@].0
                    == rows@[j].1 && ix@[rows@[j].0@].1 as int == (if rows@[j].2 < 0 {
                    0int
                } else {
                    rows@[j].2 as int
                }) && stored_hash_view(ix@[rows@[j].0@].2) == stored_hash_view(rows@[j].3),
        decreases rows@.len() - i,
    {
        let row = &rows[i];
        let size_u: u64 = if row.2 < 0 {
            0
        } else {
            row.2 as u64
        };
        let hash_copy: Option<Vec<u8>> = match &row.3 {
            Some(v) => Some(clone_bytes(v)),
            None => None,
        };
        let ghost ix0 = ix@;
        ix.insert(row.0.clone(), (row.1, size_u, hash_copy));
        proof {
            assert forall|k: Seq<char>| #[trigger] ix@.contains_key(k) implies exists|j: int|
                0 <= j < i + 1 && rows@[j].0@ == k by {
                if k == rows@[i as int].0@ {
                    assert(rows@[i as int].0@ == k);
                } else {
                    assert(ix0.contains_key(k));
                }
            }
        }
        i = i + 1;
    }
    proof {
        assert forall|k: Seq<char>| #[trigger] ix@.contains_key(k) implies db_paths(
            *conn,
        ).contains_key(k) by {
            let j = choose|j: int| 0 <= j < rows@.len() && rows@[j].0@ == k;
            assert(db_paths(*conn).contains_key(rows@[j].0@));
        }
        assert forall|k: Seq<char>| #[trigger] db_paths(*conn).contains_key(k) implies
            ix@.contains_key(k) && ix@[k].0 as int == db_paths(*conn)[k].0 && ix@[k].1 as int == (
        if db_paths(*conn)[k].1 < 0 {
            0int
        } else {
            db_paths(*conn)[k].1
        }) && stored_hash_view(ix@[k].2) == db_paths(*conn)[k].2 by {
            let j = choose|j: int| 0 <= j < rows@.len() && rows@[j].0@ == k;
            assert(ix@.contains_key(rows@[j].0@));
        }
    }
    Ok(ix)
}

/// Copy a fixed digest into a vector.
fn slice_to_vec(h: &[u8; 32]) -> (r: Vec<u8>)
    ensures
        r@ == h@,
{
    let mut r: Vec<u8> = Vec::new();
    let mut i: usize = 0;
    while i < 32
        invariant
            h@.len() == 32,
            i <= 32,
            r@ == h@.subrange(0, i as int),
        decreases 32 - i,
    {
        r.push(h[i]);
        assert(r@ =~= h@.subrange(0, i + 1 as int));
        i = i + 1;
    }
    assert(r@ =~= h@);
    r
}


/// When every entry is unchanged against the snapshot, nothing is written.
proof fn lemma_changed_of_all_unchanged(
    entries: Seq<Entry>,
    existing: Map<Seq<char>, StoredMeta>,
    window: int,
)
    requires
        forall|i: int|
            0 <= i < entries.len() ==> !needs_update_spec(#[trigger] entries[i], existing, window),
    ensures
        changed_of(entries, existing, window) == Seq::<EntryV>::empty(),
    decreases entries.len(),
{
    if entries.len() > 0 {
        assert(forall|i: int|
            0 <= i < entries.drop_last().len() ==> !needs_update_spec(
                #[trigger] entries.drop_last()[i],
                existing,
                window,
            ));
        lemma_changed_of_all_unchanged(entries.drop_last(), existing, window);
        assert(!needs_update_spec(entries[entries.len() - 1], existing, window));
    }
}

/// Idempotence at the store: a run over an unchanged tree — every entry
/// unchanged against the snapshot, every stored key walked again — leaves
/// the `paths` table exactly as it found it.
pub proof fn lemma_apply_idempotent(
    m: Map<Seq<char>, (int, int, Option<Seq<u8>>)>,
    entries: Seq<Entry>,
    existing: Map<Seq<char>, StoredMeta>,
    existing_keys: Seq<Seq<char>>,
    window: int,
)
    requires
        forall|i: int|
            0 <= i < entries.len() ==> classify_spec(#[trigger] entries[i], existing, window)
                is Unchanged,
        forall|j: int| 0 <= j < existing_keys.len() ==> seen_spec(entries, #[trigger] existing_keys[j]),
    ensures
        apply_result(m, entries, existing, existing_keys, window) == m,
{
    assert(forall|i: int|
        0 <= i < entries.len() ==> !needs_update_spec(#[trigger] entries[i], existing, window));
    lemma_changed_of_all_unchanged(entries, existing, window);
    crate::diff::lemma_rerun_unchanged(entries, existing, existing_keys, window);
}

/// Write entries to the store as one run: changed rows in batches of
/// [`DB_INSERT_BATCH_SIZE`] (each batch one transaction), then the deletion
/// pass for stored keys no entry carried, then a WAL checkpoint. Returns the
/// number of rows written, the diff, and the new snapshot map. With
/// `paranoid` on, the reported diff applies the collision guard: an entry
/// flagged changed by mtime or size alone, whose freshly computed digest
/// equals the stored one, is not listed as modified (its row is still
/// rewritten, so the next run sees it unchanged). The connection must be in
/// autocommit mode: the run opens its own transactions.
///
/// The contract holds for whatever entry sequence the caller hands in; a
/// cancelled run that stops receiving early simply applies the prefix it
/// got, and the store is left consistent: the prefix's changed rows written,
/// unwalked stored keys removed, WAL checkpointed. A run that fails part-way
/// propagates the first store error, and leaves the old contents with some
/// prefix of the intended writes applied ([`partial_apply`]): no half-batch,
/// and the `diskinfo` side table untouched either way.
pub fn apply_index_diff_streaming(
    conn: &mut rusqlite::Connection,
    entries: &Vec<Entry>,
    existing: &StoredIndex,
    mtime_window_ns: i64,
    paranoid: bool,
) -> (r: Result<(usize, Diff, Nefax), StoreError>)
    requires
        forall|i: int| 0 <= i < entries@.len() ==> (#[trigger] entries@[i].size) <= i64::MAX as u64,
        db_txn(*old(conn)) is None,
    ensures
        db_diskinfo(*final(conn)) == db_diskinfo(*old(conn)),
        match r {
            Ok((written, d, m)) => {
                &&& db_paths(*final(conn)) == apply_result(
                    db_paths(*old(conn)),
                    entries@,
                    existing@,
                    existing.spec_keys(),
                    mtime_window_ns as int,
                )
                &&& written == changed_of(entries@, existing@, mtime_window_ns as int).len()
                &&& d.added.deep_view() == added_of(entries@, existing@, mtime_window_ns as int)
                &&& d.modified.deep_view() == modified_of_guarded(
                    entries@,
                    existing@,
                    mtime_window_ns as int,
                    paranoid,
                )
                &&& d.removed.deep_view() == removed_of(existing.spec_keys(), entries@)
                &&& m@ == entries_map(entries@)
            },
            Err(_) => partial_apply(
                db_paths(*old(conn)),
                db_paths(*final(conn)),
                entries@,
                existing@,
                existing.spec_keys(),
                mtime_window_ns as int,
            ),
        },
{
    let ghost window = mtime_window_ns as int;
    let ghost db0 = db_paths(*conn);
    let mut added: Vec<String> = Vec::new();
    let mut modified: Vec<String> = Vec::new();
    let mut current: Nefax = Nefax::new();
    let mut batch: Vec<Entry> = Vec::new();
    let mut written: usize = 0;
    let ghost mut flushed: Seq<EntryV> = Seq::empty();
    let mut i: usize = 0;
    assert(added.deep_view() =~= Seq::<Seq<char>>::empty());
    assert(modified.deep_view() =~= Seq::<Seq<char>>::empty());
    assert(flushed + entries_view(batch@) =~= changed_of(
        entries@.subrange(0, 0),
        existing@,
        window,
    ));
    while i < entries.len()
        invariant
            i <= entries@.len(),
            forall|j: int|
                0 <= j < entries@.len() ==> (#[trigger] entries@[j].size) <= i64::MAX as u64,
            forall|j: int| 0 <= j < batch@.len() ==> (#[trigger] batch@[j].size) <= i64::MAX as u64,
            window == mtime_window_ns as int,
            added.deep_view() == added_of(entries@.subrange(0, i as int), existing@, window),
            modified.deep_view() == modified_of_guarded(
                entries@.subrange(0, i as int),
                existing@,
                window,
                paranoid,
            ),
            current@ == entries_map(entries@.subrange(0, i as int)),
            db0 == db_paths(*old(conn)),
            db_paths(*conn) == insert_entries(db0, flushed),
            db_diskinfo(*conn) == db_diskinfo(*old(conn)),
            db_txn(*conn) is None,
            flushed + entries_view(batch@) == changed_of(
                entries@.subrange(0, i as int),
                existing@,
                window,
            ),
            written == flushed.len(),
            flushed.len() + batch@.len() <= i,
        decreases entries@.len() - i,
    {
        let ghost prefix = entries@.subrange(0, i as int);
        let ghost prefix2 = entries@.subrange(0, i + 1 as int);
        proof {
            assert(prefix2.drop_last() =~= prefix);
            assert(prefix2.last() == entries@[i as int]);
        }
        let entry = &entries[i];
        current.insert(
            entry.path.clone(),
            PathMeta { mtime_ns: entry.mtime_ns, size: entry.size, hash: entry.hash },
        );
        // The entry's own freshly computed digest stands as the guard's
        // recomputed hash on this path.
        collect_entry_into_diff(
            entry,
            existing,
            &mut added,
            &mut modified,
            mtime_window_ns,
            paranoid,
            &entry.hash,
        );
        if entry_needs_update(entry, existing, mtime_window_ns) {
            let ghost batch0 = entries_view(batch@);
            batch.push(clone_entry(entry));
            proof {
                assert(entries_view(batch@) =~= batch0.push(entry_view(entries@[i as int])));
                assert(flushed + entries_view(batch@) =~= changed_of(prefix2, existing@, window));
            }
            if batch.len() >= DB_INSERT_BATCH_SIZE {
                let ghost db_before = db_paths(*conn);
                match flush_batch(conn, &batch) {
                    Ok(()) => {},
                    Err(e) => {
                        proof {
                            let k = choose|k: int|
                                0 <= k <= batch@.len() && db_paths(*conn) == insert_entries(
                                    db_before,
                                    entries_view(#[trigger] batch@.subrange(0, k)),
                                );
                            lemma_insert_entries_concat(
                                db0,
                                flushed,
                                entries_view(batch@.subrange(0, k)),
                            );
                            assert(entries_view(batch@.subrange(0, k)) =~= entries_view(
                                batch@,
                            ).subrange(0, k));
                            let w = flushed.len() + k;
                            assert(flushed + entries_view(batch@).subrange(0, k) =~= (flushed
                                + entries_view(batch@)).subrange(0, w as int));
                            lemma_changed_of_prefix(entries@, existing@, window, i + 1);
                            let c_pre = changed_of(prefix2, existing@, window);
                            let c_full = changed_of(entries@, existing@, window);
                            assert(c_pre.subrange(0, w as int) =~= c_full.subrange(0, w as int));
                            assert(db_paths(*conn) == insert_entries(
                                db0,
                                c_full.subrange(0, w as int),
                            ));
                            assert(removed_of(existing.spec_keys(), entries@).subrange(0, 0)
                                =~= Seq::<Seq<char>>::empty());
                            lemma_partial_apply_witness(
                                db0,
                                db_paths(*conn),
                                entries@,
                                existing@,
                                existing.spec_keys(),
                                window,
                                w as int,
                                0,
                            );
                        }
                        return Err(e);
                    },
                }
                written = written + batch.len();
                proof {
                    lemma_insert_entries_concat(db0, flushed, entries_view(batch@));
                    flushed = flushed + entries_view(batch@);
                }
                batch.clear();
                assert(entries_view(batch@) =~= Seq::<EntryV>::empty());
                assert(flushed + entries_view(batch@) =~= flushed);
            }
        }
        i = i + 1;
    }
    assert(entries@.subrange(0, entries@.len() as int) =~= entries@);
    if batch.len() > 0 {
        let ghost db_before = db_paths(*conn);
        match flush_batch(conn, &batch) {
            Ok(()) => {},
            Err(e) => {
                proof {
                    let k = choose|k: int|
                        0 <= k <= batch@.len() && db_paths(*conn) == insert_entries(
                            db_before,
                            entries_view(#[trigger] batch@.subrange(0, k)),
                        );
                    lemma_insert_entries_concat(db0, flushed, entries_view(batch@.subrange(0, k)));
                    assert(entries_view(batch@.subrange(0, k)) =~= entries_view(batch@).subrange(
                        0,
                        k,
                    ));
                    let w = flushed.len() + k;
                    let c_full = changed_of(entries@, existing@, window);
                    assert(flushed + entries_view(batch@).subrange(0, k) =~= (flushed
                        + entries_view(batch@)).subrange(0, w as int));
                    assert(db_paths(*conn) == insert_entries(db0, c_full.subrange(0, w as int)));
                    assert(removed_of(existing.spec_keys(), entries@).subrange(0, 0)
                        =~= Seq::<Seq<char>>::empty());
                    lemma_partial_apply_witness(
                        db0,
                        db_paths(*conn),
                        entries@,
                        existing@,
                        existing.spec_keys(),
                        window,
                        w as int,
                        0,
                    );
                }
                return Err(e);
            },
        }
        written = written + batch.len();
        proof {
            lemma_insert_entries_concat(db0, flushed, entries_view(batch@));
            flushed = flushed + entries_view(batch@);
        }
    } else {
        assert(flushed =~= flushed + entries_view(batch@));
    }
    assert(db_paths(*conn) == insert_entries(db0, changed_of(entries@, existing@, window)));
    let ghost db_inserted = db_paths(*conn);
    proof {
        lemma_entries_map_dom(entries@);
    }
    existing.key_facts();
    let mut removed: Vec<String> = Vec::new();
    let n = existing.len();
    let mut j: usize = 0;
    assert(removed.deep_view() =~= Seq::<Seq<char>>::empty());
    assert(existing.spec_keys().subrange(0, 0) =~= Seq::<Seq<char>>::empty());
    while j < n
        invariant
            j <= n,
            n == existing.spec_keys().len(),
            window == mtime_window_ns as int,
            current@ == entries_map(entries@),
            forall|k: Seq<char>| #[trigger] current@.contains_key(k) <==> seen_spec(entries@, k),
            removed.deep_view() == removed_of(existing.spec_keys().subrange(0, j as int), entries@),
            db0 == db_paths(*old(conn)),
            db_inserted == insert_entries(db0, changed_of(entries@, existing@, window)),
            db_paths(*conn) == remove_keys(
                db_inserted,
                removed_of(existing.spec_keys().subrange(0, j as int), entries@),
            ),
            db_diskinfo(*conn) == db_diskinfo(*old(conn)),
            db_txn(*conn) is None,
        decreases n - j,
    {
        let ghost kprefix = existing.spec_keys().subrange(0, j as int);
        let ghost kprefix2 = existing.spec_keys().subrange(0, j + 1 as int);
        proof {
            assert(kprefix2.drop_last() =~= kprefix);
            assert(kprefix2.last() == existing.spec_keys()[j as int]);
        }
        let key = existing.key_at(j);
        let ghost removed0 = removed.deep_view();
        if !current.contains_key(key.as_str()) {
            match delete_path_row(conn, key.as_str()) {
                Ok(()) => {},
                Err(e) => {
                    proof {
                        lemma_removed_of_prefix(existing.spec_keys(), entries@, j as int);
                        let c_full = changed_of(entries@, existing@, window);
                        assert(c_full.subrange(0, c_full.len() as int) =~= c_full);
                        lemma_partial_apply_witness(
                            db0,
                            db_paths(*conn),
                            entries@,
                            existing@,
                            existing.spec_keys(),
                            window,
                            c_full.len() as int,
                            removed_of(kprefix, entries@).len() as int,
                        );
                    }
                    return Err(e);
                },
            }
            removed.push(key.clone());
            assert(removed.deep_view() =~= removed0.push(key@));
            proof {
                let rem2 = removed_of(kprefix2, entries@);
                assert(rem2 =~= removed_of(kprefix, entries@).push(key@));
                assert(rem2.drop_last() =~= removed_of(kprefix, entries@));
                assert(rem2.last() == key@);
            }
        } else {
            assert(removed_of(kprefix2, entries@) =~= removed_of(kprefix, entries@));
        }
        j = j + 1;
    }
    assert(existing.spec_keys().subrange(0, n as int) =~= existing.spec_keys());
    match checkpoint_wal(conn) {
        Ok(()) => {},
        Err(e) => {
            proof {
                let c_full = changed_of(entries@, existing@, window);
                let r_full = removed_of(existing.spec_keys(), entries@);
                assert(c_full.subrange(0, c_full.len() as int) =~= c_full);
                assert(r_full.subrange(0, r_full.len() as int) =~= r_full);
                lemma_partial_apply_witness(
                    db0,
                    db_paths(*conn),
                    entries@,
                    existing@,
                    existing.spec_keys(),
                    window,
                    c_full.len() as int,
                    r_full.len() as int,
                );
            }
            return Err(e);
        },
    }
    Ok((written, Diff { added, removed, modified }, current))
}

/// Apply one finished collection of entries in a single transaction:
/// changed rows inserted, vanished keys deleted, then a WAL checkpoint. A
/// run that fails part-way propagates the first store error, and leaves the
/// old contents with some prefix of the intended writes applied
/// ([`partial_apply`]); the `diskinfo` side table is untouched either way.
pub fn apply_index_diff(
    conn: &mut rusqlite::Connection,
    entries: &Vec<Entry>,
    existing: &StoredIndex,
    mtime_window_ns: i64,
) -> (r: Result<(), StoreError>)
    requires
        forall|i: int| 0 <= i < entries@.len() ==> (#[trigger] entries@[i].size) <= i64::MAX as u64,
    ensures
        db_diskinfo(*final(conn)) == db_diskinfo(*old(conn)),
        r is Ok ==> db_paths(*final(conn)) == apply_result(
            db_paths(*old(conn)),
            entries@,
            existing@,
            existing.spec_keys(),
            mtime_window_ns as int,
        ),
        r is Err ==> partial_apply(
            db_paths(*old(conn)),
            db_paths(*final(conn)),
            entries@,
            existing@,
            existing.spec_keys(),
            mtime_window_ns as int,
        ),
{
    let ghost window = mtime_window_ns as int;
    let ghost db0 = db_paths(*conn);
    proof {
        assert(changed_of(entries@, existing@, window).subrange(0, 0) =~= Seq::<EntryV>::empty());
        assert(removed_of(existing.spec_keys(), entries@).subrange(0, 0) =~= Seq::<
            Seq<char>,
        >::empty());
        lemma_partial_apply_witness(db0, db0, entries@, existing@, existing.spec_keys(), window, 0, 0);
    }
    begin_transaction(conn)?;
    let mut current: Nefax = Nefax::new();
    let mut i: usize = 0;
    while i < entries.len()
        invariant
            i <= entries@.len(),
            forall|j: int|
                0 <= j < entries@.len() ==> (#[trigger] entries@[j].size) <= i64::MAX as u64,
            window == mtime_window_ns as int,
            current@ == entries_map(entries@.subrange(0, i as int)),
            db0 == db_paths(*old(conn)),
            db_paths(*conn) == insert_entries(
                db0,
                changed_of(entries@.subrange(0, i as int), existing@, window),
            ),
            db_diskinfo(*conn) == db_diskinfo(*old(conn)),
            db_txn(*conn) == Some((db0, db_diskinfo(*old(conn)))),
        decreases entries@.len() - i,
    {
        let ghost prefix = entries@.subrange(0, i as int);
        let ghost prefix2 = entries@.subrange(0, i + 1 as int);
        proof {
            assert(prefix2.drop_last() =~= prefix);
            assert(prefix2.last() == entries@[i as int]);
        }
        let entry = &entries[i];
        current.insert(
            entry.path.clone(),
            PathMeta { mtime_ns: entry.mtime_ns, size: entry.size, hash: entry.hash },
        );
        if entry_needs_update(entry, existing, mtime_window_ns) {
            let hash_vec: Option<Vec<u8>> = match &entry.hash {
                Some(h) => Some(slice_to_vec(h)),
                None => None,
            };
            match insert_path_row(
                conn,
                entry.path.as_str(),
                entry.mtime_ns,
                entry.size as i64,
                &hash_vec,
            ) {
                Ok(()) => {},
                Err(e) => {
                    proof {
                        assert(removed_of(existing.spec_keys(), entries@).subrange(0, 0) =~= Seq::<
                            Seq<char>,
                        >::empty());
                        // Either the failed statement was atomic and the open
                        // prefix stands, or the engine rolled the transaction
                        // back to its base — the empty prefix.
                        if db_txn(*conn) is None {
                            assert(changed_of(entries@, existing@, window).subrange(0, 0)
                                =~= Seq::<EntryV>::empty());
                            lemma_partial_apply_witness(
                                db0,
                                db_paths(*conn),
                                entries@,
                                existing@,
                                existing.spec_keys(),
                                window,
                                0,
                                0,
                            );
                        } else {
                            lemma_changed_of_prefix(entries@, existing@, window, i as int);
                            let c_pre = changed_of(prefix, existing@, window);
                            lemma_partial_apply_witness(
                                db0,
                                db_paths(*conn),
                                entries@,
                                existing@,
                                existing.spec_keys(),
                                window,
                                c_pre.len() as int,
                                0,
                            );
                        }
                    }
                    return Err(e);
                },
            }
            proof {
                let ch2 = changed_of(prefix2, existing@, window);
                assert(ch2 =~= changed_of(prefix, existing@, window).push(
                    entry_view(entries@[i as int]),
                ));
                assert(ch2.drop_last() =~= changed_of(prefix, existing@, window));
                assert(ch2.last() == entry_view(entries@[i as int]));
            }
        } else {
            assert(changed_of(prefix2, existing@, window) =~= changed_of(
                prefix,
                existing@,
                window,
            ));
        }
        i = i + 1;
    }
    assert(entries@.subrange(0, entries@.len() as int) =~= entries@);
    let ghost db_inserted = db_paths(*conn);
    proof {
        lemma_entries_map_dom(entries@);
    }
    existing.key_facts();
    let n = existing.len();
    let mut j: usize = 0;
    assert(existing.spec_keys().subrange(0, 0) =~= Seq::<Seq<char>>::empty());
    while j < n
        invariant
            j <= n,
            n == existing.spec_keys().len(),
            window == mtime_window_ns as int,
            current@ == entries_map(entries@),
            forall|k: Seq<char>| #[trigger] current@.contains_key(k) <==> seen_spec(entries@, k),
            db0 == db_paths(*old(conn)),
            db_inserted == insert_entries(db0, changed_of(entries@, existing@, window)),
            db_paths(*conn) == remove_keys(
                db_inserted,
                removed_of(existing.spec_keys().subrange(0, j as int), entries@),
            ),
            db_diskinfo(*conn) == db_diskinfo(*old(conn)),
            db_txn(*conn) == Some((db0, db_diskinfo(*old(conn)))),
        decreases n - j,
    {
        let ghost kprefix = existing.spec_keys().subrange(0, j as int);
        let ghost kprefix2 = existing.spec_keys().subrange(0, j + 1 as int);
        proof {
            assert(kprefix2.drop_last() =~= kprefix);
            assert(kprefix2.last() == existing.spec_keys()[j as int]);
        }
        let key = existing.key_at(j);
        if !current.contains_key(key.as_str()) {
            match delete_path_row(conn, key.as_str()) {
                Ok(()) => {},
                Err(e) => {
                    proof {
                        let c_full = changed_of(entries@, existing@, window);
                        if db_txn(*conn) is None {
                            assert(c_full.subrange(0, 0) =~= Seq::<EntryV>::empty());
                            assert(removed_of(existing.spec_keys(), entries@).subrange(0, 0)
                                =~= Seq::<Seq<char>>::empty());
                            lemma_partial_apply_witness(
                                db0,
                                db_paths(*conn),
                                entries@,
                                existing@,
                                existing.spec_keys(),
                                window,
                                0,
                                0,
                            );
                        } else {
                            lemma_removed_of_prefix(existing.spec_keys(), entries@, j as int);
                            assert(c_full.subrange(0, c_full.len() as int) =~= c_full);
                            lemma_partial_apply_witness(
                                db0,
                                db_paths(*conn),
                                entries@,
                                existing@,
                                existing.spec_keys(),
                                window,
                                c_full.len() as int,
                                removed_of(kprefix, entries@).len() as int,
                            );
                        }
                    }
                    return Err(e);
                },
            }
            proof {
                let rem2 = removed_of(kprefix2, entries@);
                assert(rem2 =~= removed_of(kprefix, entries@).push(key@));
                assert(rem2.drop_last() =~= removed_of(kprefix, entries@));
                assert(rem2.last() == key@);
            }
        } else {
            assert(removed_of(kprefix2, entries@) =~= removed_of(kprefix, entries@));
        }
        j = j + 1;
    }
    assert(existing.spec_keys().subrange(0, n as int) =~= existing.spec_keys());
    match commit_transaction(conn) {
        Ok(()) => {},
        Err(e) => {
            proof {
                let c_full = changed_of(entries@, existing@, window);
                let r_full = removed_of(existing.spec_keys(), entries@);
                if db_txn(*conn) is None {
                    assert(c_full.subrange(0, 0) =~= Seq::<EntryV>::empty());
                    assert(r_full.subrange(0, 0) =~= Seq::<Seq<char>>::empty());
                    lemma_partial_apply_witness(
                        db0,
                        db_paths(*conn),
                        entries@,
                        existing@,
                        existing.spec_keys(),
                        window,
                        0,
                        0,
                    );
                } else {
                    assert(c_full.subrange(0, c_full.len() as int) =~= c_full);
                    assert(r_full.subrange(0, r_full.len() as int) =~= r_full);
                    lemma_partial_apply_witness(
                        db0,
                        db_paths(*conn),
                        entries@,
                        existing@,
                        existing.spec_keys(),
                        window,
                        c_full.len() as int,
                        r_full.len() as int,
                    );
                }
            }
            return Err(e);
        },
    }
    proof {
        let c_full = changed_of(entries@, existing@, window);
        let r_full = removed_of(existing.spec_keys(), entries@);
        assert(c_full.subrange(0, c_full.len() as int) =~= c_full);
        assert(r_full.subrange(0, r_full.len() as int) =~= r_full);
        lemma_partial_apply_witness(
            db0,
            db_paths(*conn),
            entries@,
            existing@,
            existing.spec_keys(),
            window,
            c_full.len() as int,
            r_full.len() as int,
        );
    }
    checkpoint_wal(conn)?;
    Ok(())
}


/// The writer bucket a path belongs to: a fixed polynomial hash of its
/// characters, reduced modulo the bucket count. Deterministic, so every
/// writer sees a stable partition.
pub open spec fn path_bucket_spec(path: Seq<char>, n_buckets: int) -> int
    decreases path.len(),
{
    path_hash_spec(path) % n_buckets
}

/// A fixed polynomial hash of a path's characters.
pub open spec fn path_hash_spec(path: Seq<char>) -> int
    decreases path.len(),
{
    if path.len() == 0 {
        0
    } else {
        (path_hash_spec(path.drop_last()) * 31 + (path.last() as u32) as int) % 1000000007
    }
}

/// Assign a path to a writer bucket (reduces lock contention when several
/// writers split the work).
pub fn path_bucket(path: &str, n_buckets: usize) -> (r: usize)
    requires
        n_buckets >= 1,
    ensures
        r == path_bucket_spec(path@, n_buckets as int),
        r < n_buckets,
{
    let v = crate::chars::chars_of(path);
    let mut h: u64 = 0;
    let mut i: usize = 0;
    while i < v.len()
        invariant
            v@ == path@,
            i <= v@.len(),
            h == path_hash_spec(path@.subrange(0, i as int)),
            h < 1000000007,
        decreases v@.len() - i,
    {
        let ghost prefix = path@.subrange(0, i as int);
        let ghost prefix2 = path@.subrange(0, i + 1 as int);
        proof {
            assert(prefix2.drop_last() =~= prefix);
            assert(prefix2.last() == path@[i as int]);
        }
        let c = v[i];
        let cv: u64 = (c as u32) as u64;
        h = (h * 31 + cv) % 1000000007;
        i = i + 1;
    }
    assert(path@.subrange(0, path@.len() as int) =~= path@);
    proof {
        assert((h as int) % (n_buckets as int) < n_buckets as int);
    }
    (h % (n_buckets as u64)) as usize
}

/// One writer's share of a partitioned run: the changed entries it inserts
/// and the vanished keys it deletes.
pub struct BucketWork {
    pub entries: Vec<Entry>,
    pub deletes: Vec<String>,
}

/// The changed rows that fall to bucket `b`: the entries that need a write
/// and whose path hashes to `b`, each exactly once, in the order they were
/// seen.
pub open spec fn bucket_changed_of(
    entries: Seq<Entry>,
    existing: Map<Seq<char>, StoredMeta>,
    window: int,
    n_buckets: int,
    b: int,
) -> Seq<EntryV>
    decreases entries.len(),
{
    if entries.len() == 0 {
        Seq::empty()
    } else {
        let rest = bucket_changed_of(entries.drop_last(), existing, window, n_buckets, b);
        if needs_update_spec(entries.last(), existing, window) && path_bucket_spec(
            entries.last().path@,
            n_buckets,
        ) == b {
            rest.push(entry_view(entries.last()))
        } else {
            rest
        }
    }
}

/// The vanished keys that fall to bucket `b`: the stored keys no entry
/// carried whose path hashes to `b`, each exactly once, in stored-key order.
pub open spec fn bucket_removed_of(
    keys: Seq<Seq<char>>,
    entries: Seq<Entry>,
    n_buckets: int,
    b: int,
) -> Seq<Seq<char>>
    decreases keys.len(),
{
    if keys.len() == 0 {
        Seq::empty()
    } else {
        let rest = bucket_removed_of(keys.drop_last(), entries, n_buckets, b);
        if !seen_spec(entries, keys.last()) && path_bucket_spec(keys.last(), n_buckets) == b {
            rest.push(keys.last())
        } else {
            rest
        }
    }
}

/// Partition the rows one run writes and the keys it deletes by path hash
/// into `n_buckets` shares, for a pool of writers: each share holds exactly
/// the changed entries and vanished keys whose path hashes to its bucket,
/// each exactly once, in input order.
pub fn partition_index_diff(
    entries: &Vec<Entry>,
    existing: &StoredIndex,
    current: &Nefax,
    n_buckets: usize,
    mtime_window_ns: i64,
) -> (r: Vec<BucketWork>)
    requires
        n_buckets >= 1,
        current@ == entries_map(entries@),
    ensures
        r@.len() == n_buckets,
        forall|b: int|
            0 <= b < n_buckets ==> entries_view((#[trigger] r@[b]).entries@) == bucket_changed_of(
                entries@,
                existing@,
                mtime_window_ns as int,
                n_buckets as int,
                b,
            ),
        forall|b: int|
            0 <= b < n_buckets ==> (#[trigger] r@[b]).deletes@.map_values(|s: String| s@)
                == bucket_removed_of(existing.spec_keys(), entries@, n_buckets as int, b),
{
    let ghost window = mtime_window_ns as int;
    let mut buckets: Vec<BucketWork> = Vec::new();
    let mut b: usize = 0;
    while b < n_buckets
        invariant
            b <= n_buckets,
            buckets@.len() == b,
            forall|x: int|
                0 <= x < b ==> (#[trigger] buckets@[x]).entries@.len() == 0
                    && buckets@[x].deletes@.len() == 0,
        decreases n_buckets - b,
    {
        buckets.push(BucketWork { entries: Vec::new(), deletes: Vec::new() });
        b = b + 1;
    }
    let mut i: usize = 0;
    proof {
        assert forall|x: int| 0 <= x < n_buckets implies entries_view(
            (#[trigger] buckets@[x]).entries@,
        ) == bucket_changed_of(
            entries@.subrange(0, 0),
            existing@,
            window,
            n_buckets as int,
            x,
        ) by {
            assert(entries@.subrange(0, 0) =~= Seq::<Entry>::empty());
            assert(entries_view(buckets@[x].entries@) =~= Seq::<EntryV>::empty());
        }
    }
    while i < entries.len()
        invariant
            i <= entries@.len(),
            buckets@.len() == n_buckets,
            n_buckets >= 1,
            window == mtime_window_ns as int,
            forall|x: int|
                0 <= x < n_buckets ==> entries_view((#[trigger] buckets@[x]).entries@)
                    == bucket_changed_of(
                    entries@.subrange(0, i as int),
                    existing@,
                    window,
                    n_buckets as int,
                    x,
                ),
            forall|x: int| 0 <= x < n_buckets ==> (#[trigger] buckets@[x]).deletes@.len() == 0,
        decreases entries@.len() - i,
    {
        let ghost prefix = entries@.subrange(0, i as int);
        let ghost prefix2 = entries@.subrange(0, i + 1 as int);
        proof {
            assert(prefix2.drop_last() =~= prefix);
            assert(prefix2.last() == entries@[i as int]);
        }
        let entry = &entries[i];
        if entry_needs_update(entry, existing, mtime_window_ns) {
            let bx = path_bucket(entry.path.as_str(), n_buckets);
            let ghost old_buckets = buckets@;
            let slot = &mut buckets[bx];
            let ghost old_list = entries_view(slot.entries@);
            slot.entries.push(clone_entry(entry));
            proof {
                assert(entries_view(buckets@[bx as int].entries@) =~= old_list.push(
                    entry_view(entries@[i as int]),
                ));
                assert forall|x: int| 0 <= x < n_buckets implies entries_view(
                    (#[trigger] buckets@[x]).entries@,
                ) == bucket_changed_of(prefix2, existing@, window, n_buckets as int, x) by {
                    if x == bx as int {
                        assert(bucket_changed_of(prefix2, existing@, window, n_buckets as int, x)
                            == bucket_changed_of(
                            prefix,
                            existing@,
                            window,
                            n_buckets as int,
                            x,
                        ).push(entry_view(entries@[i as int])));
                    } else {
                        assert(buckets@[x] == old_buckets[x]);
                        assert(bucket_changed_of(prefix2, existing@, window, n_buckets as int, x)
                            == bucket_changed_of(prefix, existing@, window, n_buckets as int, x));
                    }
                }
            }
        } else {
            proof {
                assert forall|x: int| 0 <= x < n_buckets implies bucket_changed_of(
                    prefix2,
                    existing@,
                    window,
                    n_buckets as int,
                    x,
                ) == bucket_changed_of(prefix, existing@, window, n_buckets as int, x) by {}
            }
        }
        i = i + 1;
    }
    assert(entries@.subrange(0, entries@.len() as int) =~= entries@);
    existing.key_facts();
    proof {
        lemma_entries_map_dom(entries@);
    }
    let n = existing.len();
    let mut j: usize = 0;
    proof {
        assert forall|x: int| 0 <= x < n_buckets implies (#[trigger] buckets@[x]).deletes@.map_values(
            |s: String| s@,
        ) == bucket_removed_of(
            existing.spec_keys().subrange(0, 0),
            entries@,
            n_buckets as int,
            x,
        ) by {
            assert(existing.spec_keys().subrange(0, 0) =~= Seq::<Seq<char>>::empty());
            assert(buckets@[x].deletes@.map_values(|s: String| s@) =~= Seq::<Seq<char>>::empty());
        }
    }
    while j < n
        invariant
            j <= n,
            n == existing.spec_keys().len(),
            buckets@.len() == n_buckets,
            n_buckets >= 1,
            window == mtime_window_ns as int,
            current@ == entries_map(entries@),
            forall|k: Seq<char>| #[trigger] current@.contains_key(k) <==> seen_spec(entries@, k),
            forall|x: int|
                0 <= x < n_buckets ==> entries_view((#[trigger] buckets@[x]).entries@)
                    == bucket_changed_of(entries@, existing@, window, n_buckets as int, x),
            forall|x: int|
                0 <= x < n_buckets ==> (#[trigger] buckets@[x]).deletes@.map_values(|s: String| s@)
                    == bucket_removed_of(
                    existing.spec_keys().subrange(0, j as int),
                    entries@,
                    n_buckets as int,
                    x,
                ),
        decreases n - j,
    {
        let ghost kprefix = existing.spec_keys().subrange(0, j as int);
        let ghost kprefix2 = existing.spec_keys().subrange(0, j + 1 as int);
        proof {
            assert(kprefix2.drop_last() =~= kprefix);
            assert(kprefix2.last() == existing.spec_keys()[j as int]);
        }
        let key = existing.key_at(j);
        if !current.contains_key(key.as_str()) {
            let bx = path_bucket(key.as_str(), n_buckets);
            let ghost old_buckets = buckets@;
            let ghost old_dels = buckets@[bx as int].deletes@.map_values(|s: String| s@);
            let slot = &mut buckets[bx];
            slot.deletes.push(key.clone());
            proof {
                assert(buckets@[bx as int].deletes@.map_values(|s: String| s@) =~= old_dels.push(
                    key@,
                ));
                assert forall|x: int| 0 <= x < n_buckets implies (
                #[trigger] buckets@[x]).deletes@.map_values(|s: String| s@) == bucket_removed_of(
                    kprefix2,
                    entries@,
                    n_buckets as int,
                    x,
                ) by {
                    if x == bx as int {
                        assert(bucket_removed_of(kprefix2, entries@, n_buckets as int, x)
                            == bucket_removed_of(kprefix, entries@, n_buckets as int, x).push(key@));
                    } else {
                        assert(buckets@[x] == old_buckets[x]);
                        assert(bucket_removed_of(kprefix2, entries@, n_buckets as int, x)
                            == bucket_removed_of(kprefix, entries@, n_buckets as int, x));
                    }
                }
                assert forall|x: int| 0 <= x < n_buckets implies entries_view(
                    (#[trigger] buckets@[x]).entries@,
                ) == bucket_changed_of(entries@, existing@, window, n_buckets as int, x) by {
                    if x == bx as int {
                        assert(buckets@[x].entries@ == old_buckets[x].entries@);
                    } else {
                        assert(buckets@[x] == old_buckets[x]);
                    }
                }
            }
        } else {
            proof {
                assert forall|x: int| 0 <= x < n_buckets implies bucket_removed_of(
                    kprefix2,
                    entries@,
                    n_buckets as int,
                    x,
                ) == bucket_removed_of(kprefix, entries@, n_buckets as int, x) by {}
            }
        }
        j = j + 1;
    }
    assert(existing.spec_keys().subrange(0, n as int) =~= existing.spec_keys());
    buckets
}


/// Write one writer's share of a partitioned run, in one transaction: its
/// entries inserted, then its vanished keys deleted. A pool of writers, each
/// with its own connection and its own share, covers the whole run; a single
/// checkpoint follows. A share that fails part-way propagates the first
/// store error and leaves the old contents with some prefix of the share
/// applied; the `diskinfo` side table is untouched either way.
pub fn apply_bucket(conn: &mut rusqlite::Connection, bucket: &BucketWork) -> (r: Result<
    (),
    StoreError,
>)
    requires
        forall|i: int|
            0 <= i < bucket.entries@.len() ==> (#[trigger] bucket.entries@[i].size)
                <= i64::MAX as u64,
    ensures
        db_diskinfo(*final(conn)) == db_diskinfo(*old(conn)),
        r is Ok ==> db_paths(*final(conn)) == remove_keys(
            insert_entries(db_paths(*old(conn)), entries_view(bucket.entries@)),
            bucket.deletes@.map_values(|s: String| s@),
        ),
        r is Err ==> exists|i: int, j: int|
            #![trigger bucket.entries@.subrange(0, i), bucket.deletes@.subrange(0, j)]
            0 <= i <= bucket.entries@.len() && 0 <= j <= bucket.deletes@.len() && db_paths(
                *final(conn),
            ) == remove_keys(
                insert_entries(db_paths(*old(conn)), entries_view(bucket.entries@.subrange(0, i))),
                bucket.deletes@.subrange(0, j).map_values(|s: String| s@),
            ),
{
    let ghost db0 = db_paths(*conn);
    proof {
        assert(entries_view(bucket.entries@.subrange(0, 0)) =~= Seq::<EntryV>::empty());
        assert(bucket.deletes@.subrange(0, 0).map_values(|s: String| s@) =~= Seq::<
            Seq<char>,
        >::empty());
        assert(remove_keys(
            insert_entries(db0, entries_view(bucket.entries@.subrange(0, 0))),
            bucket.deletes@.subrange(0, 0).map_values(|s: String| s@),
        ) == db0);
    }
    begin_transaction(conn)?;
    let mut i: usize = 0;
    while i < bucket.entries.len()
        invariant
            i <= bucket.entries@.len(),
            forall|j: int|
                0 <= j < bucket.entries@.len() ==> (#[trigger] bucket.entries@[j].size)
                    <= i64::MAX as u64,
            db0 == db_paths(*old(conn)),
            db_paths(*conn) == insert_entries(
                db0,
                entries_view(bucket.entries@.subrange(0, i as int)),
            ),
            db_diskinfo(*conn) == db_diskinfo(*old(conn)),
            db_txn(*conn) == Some((db0, db_diskinfo(*old(conn)))),
        decreases bucket.entries@.len() - i,
    {
        let ghost prefix = entries_view(bucket.entries@.subrange(0, i as int));
        let ghost prefix2 = entries_view(bucket.entries@.subrange(0, i + 1 as int));
        proof {
            assert(prefix2.drop_last() =~= prefix);
            assert(prefix2.last() == entry_view(bucket.entries@[i as int]));
            assert(bucket.deletes@.subrange(0, 0).map_values(|s: String| s@) =~= Seq::<
                Seq<char>,
            >::empty());
            assert(remove_keys(
                insert_entries(db0, entries_view(bucket.entries@.subrange(0, i as int))),
                bucket.deletes@.subrange(0, 0).map_values(|s: String| s@),
            ) == insert_entries(db0, entries_view(bucket.entries@.subrange(0, i as int))));
        }
        let e = &bucket.entries[i];
        let hash_vec: Option<Vec<u8>> = match &e.hash {
            Some(h) => Some(slice_to_vec(h)),
            None => None,
        };
        match insert_path_row(conn, e.path.as_str(), e.mtime_ns, e.size as i64, &hash_vec) {
            Ok(()) => {},
            Err(e) => {
                proof {
                    // Statement-atomic failure keeps the open prefix; a
                    // rollback reverts to the transaction's base, the empty
                    // prefix.
                    if db_txn(*conn) is None {
                        assert(entries_view(bucket.entries@.subrange(0, 0))
                            =~= Seq::<EntryV>::empty());
                        assert(remove_keys(
                            insert_entries(db0, entries_view(bucket.entries@.subrange(0, 0))),
                            bucket.deletes@.subrange(0, 0).map_values(|s: String| s@),
                        ) == db0);
                    }
                }
                return Err(e);
            },
        }
        i = i + 1;
    }
    assert(entries_view(bucket.entries@.subrange(0, bucket.entries@.len() as int)) =~= entries_view(
        bucket.entries@,
    ));
    let ghost db_inserted = db_paths(*conn);
    let ghost keys = bucket.deletes@.map_values(|s: String| s@);
    let mut j: usize = 0;
    assert(keys.subrange(0, 0) =~= Seq::<Seq<char>>::empty());
    while j < bucket.deletes.len()
        invariant
            j <= bucket.deletes@.len(),
            keys == bucket.deletes@.map_values(|s: String| s@),
            db0 == db_paths(*old(conn)),
            db_inserted == insert_entries(db0, entries_view(bucket.entries@)),
            db_paths(*conn) == remove_keys(db_inserted, keys.subrange(0, j as int)),
            db_diskinfo(*conn) == db_diskinfo(*old(conn)),
            db_txn(*conn) == Some((db0, db_diskinfo(*old(conn)))),
        decreases bucket.deletes@.len() - j,
    {
        let ghost kprefix = keys.subrange(0, j as int);
        let ghost kprefix2 = keys.subrange(0, j + 1 as int);
        proof {
            assert(kprefix2.drop_last() =~= kprefix);
            assert(kprefix2.last() == keys[j as int]);
            assert(entries_view(bucket.entries@.subrange(0, bucket.entries@.len() as int))
                =~= entries_view(bucket.entries@));
            assert(bucket.deletes@.subrange(0, j as int).map_values(|s: String| s@) =~= keys.subrange(
                0,
                j as int,
            ));
        }
        match delete_path_row(conn, bucket.deletes[j].as_str()) {
            Ok(()) => {},
            Err(e) => {
                proof {
                    if db_txn(*conn) is None {
                        assert(entries_view(bucket.entries@.subrange(0, 0))
                            =~= Seq::<EntryV>::empty());
                        assert(bucket.deletes@.subrange(0, 0).map_values(|s: String| s@) =~= Seq::<
                            Seq<char>,
                        >::empty());
                        assert(remove_keys(
                            insert_entries(db0, entries_view(bucket.entries@.subrange(0, 0))),
                            bucket.deletes@.subrange(0, 0).map_values(|s: String| s@),
                        ) == db0);
                    }
                }
                return Err(e);
            },
        }
        j = j + 1;
    }
    assert(keys.subrange(0, keys.len() as int) =~= keys);
    assert(bucket.deletes@.subrange(0, bucket.deletes@.len() as int).map_values(|s: String| s@)
        =~= keys);
    assert(bucket.deletes@.subrange(0, bucket.deletes@.len() as int) =~= bucket.deletes@);
    match commit_transaction(conn) {
        Ok(()) => {},
        Err(e) => {
            proof {
                if db_txn(*conn) is None {
                    assert(entries_view(bucket.entries@.subrange(0, 0))
                        =~= Seq::<EntryV>::empty());
                    assert(bucket.deletes@.subrange(0, 0).map_values(|s: String| s@) =~= Seq::<
                        Seq<char>,
                    >::empty());
                    assert(remove_keys(
                        insert_entries(db0, entries_view(bucket.entries@.subrange(0, 0))),
                        bucket.deletes@.subrange(0, 0).map_values(|s: String| s@),
                    ) == db0);
                }
            }
            return Err(e);
        },
    }
    Ok(())
}


/// Inserting rows reaches exactly the old keys and the rows' paths, and
/// touches no row whose path no inserted row carries.
proof fn lemma_insert_entries_keys(
    m: Map<Seq<char>, (int, int, Option<Seq<u8>>)>,
    rows: Seq<EntryV>,
)
    ensures
        forall|k: Seq<char>|
            #[trigger] insert_entries(m, rows).contains_key(k) <==> (m.contains_key(k) || exists|
                i: int,
            |
                0 <= i < rows.len() && rows[i].path == k),
        forall|k: Seq<char>|
            !(exists|i: int| 0 <= i < rows.len() && (#[trigger] rows[i]).path == k) ==> (
            insert_entries(m, rows).contains_key(k) == m.contains_key(k) && (m.contains_key(k)
                ==> insert_entries(m, rows)[k] == m[k])),
    decreases rows.len(),
{
    if rows.len() > 0 {
        lemma_insert_entries_keys(m, rows.drop_last());
        assert forall|k: Seq<char>| #[trigger] insert_entries(m, rows).contains_key(k) implies (
        m.contains_key(k) || exists|i: int| 0 <= i < rows.len() && rows[i].path == k) by {
            if k == rows.last().path {
                assert(rows[rows.len() - 1].path == k);
            } else {
                assert(insert_entries(m, rows.drop_last()).contains_key(k));
                if !m.contains_key(k) {
                    let i = choose|i: int|
                        0 <= i < rows.drop_last().len() && rows.drop_last()[i].path == k;
                    assert(rows[i].path == k);
                }
            }
        }
        assert forall|k: Seq<char>|
            (m.contains_key(k) || exists|i: int| 0 <= i < rows.len() && rows[i].path == k) implies
            #[trigger] insert_entries(m, rows).contains_key(k) by {
            if k != rows.last().path {
                if !m.contains_key(k) {
                    let i = choose|i: int| 0 <= i < rows.len() && rows[i].path == k;
                    assert(rows.drop_last()[i].path == k);
                }
                assert(insert_entries(m, rows.drop_last()).contains_key(k));
            }
        }
        assert forall|k: Seq<char>|
            !(exists|i: int| 0 <= i < rows.len() && (#[trigger] rows[i]).path == k) implies (
        insert_entries(m, rows).contains_key(k) == m.contains_key(k) && (m.contains_key(k)
            ==> insert_entries(m, rows)[k] == m[k])) by {
            assert(rows[rows.len() - 1].path != k);
            assert(!(exists|i: int|
                0 <= i < rows.drop_last().len() && (rows.drop_last()[i]).path == k));
        }
    }
}

/// Removing keys reaches exactly the old keys not in the ledger, with their
/// rows untouched.
proof fn lemma_remove_keys_keys(
    m: Map<Seq<char>, (int, int, Option<Seq<u8>>)>,
    ks: Seq<Seq<char>>,
)
    ensures
        forall|k: Seq<char>|
            #[trigger] remove_keys(m, ks).contains_key(k) <==> (m.contains_key(k) && !ks.contains(
                k,
            )),
        forall|k: Seq<char>|
            #[trigger] remove_keys(m, ks).contains_key(k) ==> remove_keys(m, ks)[k] == m[k],
    decreases ks.len(),
{
    if ks.len() > 0 {
        lemma_remove_keys_keys(m, ks.drop_last());
        assert forall|k: Seq<char>| #[trigger] remove_keys(m, ks).contains_key(k) implies (
        m.contains_key(k) && !ks.contains(k)) by {
            assert(remove_keys(m, ks.drop_last()).contains_key(k));
            assert(k != ks.last());
            if ks.contains(k) {
                let i = choose|i: int| 0 <= i < ks.len() && ks[i] == k;
                assert(i < ks.len() - 1);
                assert(ks.drop_last()[i] == k);
                assert(ks.drop_last().contains(k));
                assert(false);
            }
        }
        assert forall|k: Seq<char>| (m.contains_key(k) && !ks.contains(k)) implies
            #[trigger] remove_keys(m, ks).contains_key(k) by {
            if ks.drop_last().contains(k) {
                let i = choose|i: int| 0 <= i < ks.drop_last().len() && ks.drop_last()[i] == k;
                assert(ks[i] == k);
                assert(ks.contains(k));
                assert(false);
            }
            assert(remove_keys(m, ks.drop_last()).contains_key(k));
            if k == ks.last() {
                assert(ks[ks.len() - 1] == k);
                assert(ks.contains(k));
                assert(false);
            }
        }
        assert forall|k: Seq<char>| #[trigger] remove_keys(m, ks).contains_key(k) implies
            remove_keys(m, ks)[k] == m[k] by {
            assert(remove_keys(m, ks.drop_last()).contains_key(k));
        }
    }
}

/// Some row in the sequence carries this path.
pub open spec fn row_with_path(rows: Seq<EntryV>, k: Seq<char>) -> bool {
    exists|j: int| 0 <= j < rows.len() && (#[trigger] rows[j]).path == k
}

/// Some entry carrying this path needs a write.
pub open spec fn changed_entry_with_path(
    entries: Seq<Entry>,
    existing: Map<Seq<char>, StoredMeta>,
    window: int,
    k: Seq<char>,
) -> bool {
    exists|i: int|
        0 <= i < entries.len() && (#[trigger] entries[i]).path@ == k && needs_update_spec(
            entries[i],
            existing,
            window,
        )
}

/// A path has a changed row exactly when some entry carrying it needs a
/// write.
proof fn lemma_changed_of_membership(
    entries: Seq<Entry>,
    existing: Map<Seq<char>, StoredMeta>,
    window: int,
)
    ensures
        forall|k: Seq<char>|
            #[trigger] row_with_path(changed_of(entries, existing, window), k)
                <==> changed_entry_with_path(entries, existing, window, k),
    decreases entries.len(),
{
    if entries.len() > 0 {
        lemma_changed_of_membership(entries.drop_last(), existing, window);
        let prev = entries.drop_last();
        let rest = changed_of(prev, existing, window);
        let cur = changed_of(entries, existing, window);
        assert forall|k: Seq<char>| #[trigger] row_with_path(cur, k) implies
            changed_entry_with_path(entries, existing, window, k) by {
            let j = choose|j: int| 0 <= j < cur.len() && (#[trigger] cur[j]).path == k;
            if j < rest.len() {
                assert(rest[j].path == k);
                assert(row_with_path(rest, k));
                assert(changed_entry_with_path(prev, existing, window, k));
                let i = choose|i: int|
                    0 <= i < prev.len() && (#[trigger] prev[i]).path@ == k && needs_update_spec(
                        prev[i],
                        existing,
                        window,
                    );
                assert(entries[i].path@ == k && needs_update_spec(entries[i], existing, window));
                assert(changed_entry_with_path(entries, existing, window, k));
            } else {
                assert(entries[entries.len() - 1].path@ == k && needs_update_spec(
                    entries[entries.len() - 1],
                    existing,
                    window,
                ));
            }
        }
        assert forall|k: Seq<char>| changed_entry_with_path(entries, existing, window, k) implies
            #[trigger] row_with_path(cur, k) by {
            let i = choose|i: int|
                0 <= i < entries.len() && entries[i].path@ == k && needs_update_spec(
                    entries[i],
                    existing,
                    window,
                );
            if i < entries.len() - 1 {
                assert(prev[i].path@ == k && needs_update_spec(prev[i], existing, window));
                assert(changed_entry_with_path(prev, existing, window, k));
                assert(row_with_path(rest, k));
                let j = choose|j: int| 0 <= j < rest.len() && (#[trigger] rest[j]).path == k;
                assert(cur[j].path == k);
                assert(row_with_path(cur, k));
            } else {
                assert(cur[cur.len() - 1].path == k);
                assert(row_with_path(cur, k));
            }
        }
    }
}

/// What a run leaves in the store, key by key: a path is present afterwards
/// exactly when it was present before or was written as a changed row, and
/// was not a stored key that vanished from disk; a present path whose row
/// was not rewritten keeps its old row. In particular a cancelled run, which
/// applies the prefix of entries it received, leaves the store holding a
/// subset of the new rows plus the untouched old ones.
pub proof fn lemma_apply_result_contents(
    m: Map<Seq<char>, (int, int, Option<Seq<u8>>)>,
    entries: Seq<Entry>,
    existing: Map<Seq<char>, StoredMeta>,
    existing_keys: Seq<Seq<char>>,
    window: int,
)
    ensures
        forall|k: Seq<char>|
            #[trigger] apply_result(m, entries, existing, existing_keys, window).contains_key(k)
                <==> ((m.contains_key(k) || changed_entry_with_path(entries, existing, window, k))
                && !(existing_keys.contains(k) && !seen_spec(entries, k))),
        forall|k: Seq<char>|
            #[trigger] apply_result(m, entries, existing, existing_keys, window).contains_key(k)
                && !changed_entry_with_path(entries, existing, window, k) ==> apply_result(
                m,
                entries,
                existing,
                existing_keys,
                window,
            )[k] == m[k],
{
    let rows = changed_of(entries, existing, window);
    let removed = removed_of(existing_keys, entries);
    lemma_insert_entries_keys(m, rows);
    lemma_remove_keys_keys(insert_entries(m, rows), removed);
    lemma_changed_of_membership(entries, existing, window);
    crate::diff::lemma_removed_membership(existing_keys, entries);
    assert forall|k: Seq<char>|
        #[trigger] apply_result(m, entries, existing, existing_keys, window).contains_key(k)
            implies ((m.contains_key(k) || changed_entry_with_path(entries, existing, window, k))
            && !(existing_keys.contains(k) && !seen_spec(entries, k))) by {
        assert(insert_entries(m, rows).contains_key(k) && !removed.contains(k));
        if !m.contains_key(k) {
            assert(row_with_path(rows, k));
        }
    }
    assert forall|k: Seq<char>|
        ((m.contains_key(k) || changed_entry_with_path(entries, existing, window, k)) && !(
        existing_keys.contains(k) && !seen_spec(entries, k))) implies #[trigger] apply_result(
        m,
        entries,
        existing,
        existing_keys,
        window,
    ).contains_key(k) by {
        if changed_entry_with_path(entries, existing, window, k) {
            assert(row_with_path(rows, k));
        }
        assert(insert_entries(m, rows).contains_key(k));
        assert(!removed.contains(k));
    }
    assert forall|k: Seq<char>|
        #[trigger] apply_result(m, entries, existing, existing_keys, window).contains_key(k)
            && !changed_entry_with_path(entries, existing, window, k) implies apply_result(
        m,
        entries,
        existing,
        existing_keys,
        window,
    )[k] == m[k] by {
        assert(!row_with_path(rows, k));
        assert(insert_entries(m, rows)[k] == m[k]);
    }
}

} // verus!
