//! The diff engine: classify entries against the previous snapshot and
//! build the added/modified/removed lists and the new snapshot map.

use vstd::prelude::*;

use crate::nefax::{Nefax, StoredIndex};
use crate::types::{
    Diff, Entry, PathMeta, StoredMeta, hash_eq_spec, hash_equals, hash_view, mtime_changed,
    mtime_changed_spec, stored_hash_view,
};

verus! {

/// The metadata an entry carries, as a snapshot row.
pub open spec fn entry_meta(e: Entry) -> PathMeta {
    PathMeta { mtime_ns: e.mtime_ns, size: e.size, hash: e.hash }
}

/// An entry is unchanged against a stored row when the mtime is equal within
/// the window, the size is equal, and the digests are equal (absent equals
/// absent).
pub open spec fn entry_unchanged(e: Entry, m: StoredMeta, window: int) -> bool {
    &&& !mtime_changed_spec(e.mtime_ns as int, m.0 as int, window)
    &&& e.size == m.1
    &&& hash_eq_spec(hash_view(e.hash), stored_hash_view(m.2))
}

/// An entry must be written when it is new or differs from its stored row.
pub open spec fn needs_update_spec(
    e: Entry,
    existing: Map<Seq<char>, StoredMeta>,
    window: int,
) -> bool {
    !existing.contains_key(e.path@) || !entry_unchanged(e, existing[e.path@], window)
}

/// How one walked entry relates to the previous snapshot.
#[derive(Clone, Copy, Debug, PartialEq, Eq, Structural)]
pub enum EntryClass {
    /// The path was not in the previous snapshot.
    Added,
    /// The path was there and its metadata differs.
    Modified,
    /// The path was there with equal metadata (mtime within the window).
    Unchanged,
}

/// Classify an entry against the previous snapshot.
pub open spec fn classify_spec(
    e: Entry,
    existing: Map<Seq<char>, StoredMeta>,
    window: int,
) -> EntryClass {
    if !existing.contains_key(e.path@) {
        EntryClass::Added
    } else if entry_unchanged(e, existing[e.path@], window) {
        EntryClass::Unchanged
    } else {
        EntryClass::Modified
    }
}

/// True if the entry is new or its mtime/size/hash differ from the stored
/// row (mtime within `mtime_window_ns` counts as equal).
pub fn entry_needs_update(entry: &Entry, existing: &StoredIndex, mtime_window_ns: i64) -> (r: bool)
    ensures
        r == needs_update_spec(*entry, existing@, mtime_window_ns as int),
        r == !(classify_spec(*entry, existing@, mtime_window_ns as int) is Unchanged),
{
    match existing.get(entry.path.as_str()) {
        None => true,
        Some(m) => {
            let (old_mtime, old_size, old_hash) = m;
            mtime_changed(entry.mtime_ns, *old_mtime, mtime_window_ns) || entry.size != *old_size
                || !hash_equals(&entry.hash, old_hash)
        },
    }
}

/// Classify an entry against the previous snapshot.
pub fn classify_entry(entry: &Entry, existing: &StoredIndex, mtime_window_ns: i64) -> (r:
    EntryClass)
    ensures
        r == classify_spec(*entry, existing@, mtime_window_ns as int),
{
    if !existing.contains_key(entry.path.as_str()) {
        EntryClass::Added
    } else if !entry_needs_update(entry, existing, mtime_window_ns) {
        EntryClass::Unchanged
    } else {
        EntryClass::Modified
    }
}

/// The collision guard applies when paranoid mode is on, the entry carries a
/// digest, the stored digest is well-formed, and the two are equal — i.e. the
/// entry was flagged changed by mtime or size alone.
pub open spec fn paranoid_applies(e: Entry, m: StoredMeta, paranoid: bool) -> bool {
    &&& paranoid
    &&& e.hash is Some
    &&& match m.2 {
        Some(v) => v@.len() == 32,
        None => false,
    }
    &&& hash_eq_spec(hash_view(e.hash), stored_hash_view(m.2))
}

/// Whether a changed-looking entry is still reported modified, given the
/// outcome of the paranoid re-hash (`None` when the file could not be read,
/// which counts as modified). When the guard does not apply, the entry stays
/// modified.
pub open spec fn still_modified_spec(
    e: Entry,
    m: StoredMeta,
    paranoid: bool,
    rehash: Option<Seq<u8>>,
) -> bool {
    if paranoid_applies(e, m, paranoid) {
        !hash_eq_spec(rehash, stored_hash_view(m.2))
    } else {
        true
    }
}

/// Decide whether the collision guard wants the file re-hashed for this
/// entry. The caller re-reads and re-hashes the file only when this is true.
pub fn wants_paranoid_recheck(entry: &Entry, stored: &StoredMeta, paranoid: bool) -> (r: bool)
    ensures
        r == paranoid_applies(*entry, *stored, paranoid),
{
    if !paranoid {
        return false;
    }
    match &entry.hash {
        None => false,
        Some(_) => {
            let ok_stored = match &stored.2 {
                Some(v) => v.len() == 32,
                None => false,
            };
            ok_stored && hash_equals(&entry.hash, &stored.2)
        },
    }
}

/// Classify the entry and push its path onto `added` or `modified`
/// accordingly; unchanged entries touch neither list. When the collision
/// guard applies, `rehash` is the freshly recomputed digest (`None` when the
/// file could not be read): a recomputed digest equal to the stored one
/// keeps the entry out of `modified`.
pub fn collect_entry_into_diff(
    entry: &Entry,
    existing: &StoredIndex,
    added: &mut Vec<String>,
    modified: &mut Vec<String>,
    mtime_window_ns: i64,
    paranoid: bool,
    rehash: &Option<[u8; 32]>,
)
    ensures
        match classify_spec(*entry, existing@, mtime_window_ns as int) {
            EntryClass::Added => {
                &&& final(added).deep_view() == old(added).deep_view().push(entry.path@)
                &&& final(modified).deep_view() == old(modified).deep_view()
            },
            EntryClass::Unchanged => {
                &&& final(added).deep_view() == old(added).deep_view()
                &&& final(modified).deep_view() == old(modified).deep_view()
            },
            EntryClass::Modified => {
                &&& final(added).deep_view() == old(added).deep_view()
                &&& if still_modified_spec(
                    *entry,
                    existing@[entry.path@],
                    paranoid,
                    crate::types::hash_view(*rehash),
                ) {
                    final(modified).deep_view() == old(modified).deep_view().push(entry.path@)
                } else {
                    final(modified).deep_view() == old(modified).deep_view()
                }
            },
        },
{
    let ghost added0 = added.deep_view();
    let ghost modified0 = modified.deep_view();
    match existing.get(entry.path.as_str()) {
        None => {
            added.push(entry.path.clone());
            assert(added.deep_view() =~= added0.push(entry.path@));
        },
        Some(m) => {
            if !entry_needs_update(entry, existing, mtime_window_ns) {
                return;
            }
            let still_modified = if wants_paranoid_recheck(entry, m, paranoid) {
                !hash_equals(rehash, &m.2)
            } else {
                true
            };
            if still_modified {
                modified.push(entry.path.clone());
                assert(modified.deep_view() =~= modified0.push(entry.path@));
            }
        },
    }
}

/// The snapshot map described by a sequence of entries, the last entry for a
/// path winning.
pub open spec fn entries_map(entries: Seq<Entry>) -> Map<Seq<char>, PathMeta>
    decreases entries.len(),
{
    if entries.len() == 0 {
        Map::empty()
    } else {
        entries_map(entries.drop_last()).insert(
            entries.last().path@,
            entry_meta(entries.last()),
        )
    }
}

/// Whether some entry carries this path: the path was seen on disk.
pub open spec fn seen_spec(entries: Seq<Entry>, k: Seq<char>) -> bool {
    exists|i: int| 0 <= i < entries.len() && entries[i].path@ == k
}

/// The snapshot map holds exactly the seen paths.
pub proof fn lemma_entries_map_dom(entries: Seq<Entry>)
    ensures
        forall|k: Seq<char>| #[trigger] entries_map(entries).contains_key(k) <==> seen_spec(
            entries,
            k,
        ),
    decreases entries.len(),
{
    if entries.len() > 0 {
        lemma_entries_map_dom(entries.drop_last());
        assert forall|k: Seq<char>| seen_spec(entries, k) implies #[trigger] entries_map(
            entries,
        ).contains_key(k) by {
            let i = choose|i: int| 0 <= i < entries.len() && entries[i].path@ == k;
            if i < entries.len() - 1 {
                assert(entries.drop_last()[i].path@ == k);
                assert(seen_spec(entries.drop_last(), k));
                assert(entries_map(entries.drop_last()).contains_key(k));
            } else {
                assert(k == entries.last().path@);
            }
        }
        assert forall|k: Seq<char>| #[trigger] entries_map(entries).contains_key(k) implies
            seen_spec(entries, k) by {
            if k != entries.last().path@ {
                assert(entries_map(entries.drop_last()).contains_key(k));
                assert(seen_spec(entries.drop_last(), k));
                let i = choose|i: int|
                    0 <= i < entries.drop_last().len() && entries.drop_last()[i].path@ == k;
                assert(entries[i].path@ == k);
            } else {
                assert(entries[entries.len() - 1].path@ == k);
            }
        }
    }
}

/// The paths of entries the previous snapshot did not hold, in the order
/// they were seen.
pub open spec fn added_of(
    entries: Seq<Entry>,
    existing: Map<Seq<char>, StoredMeta>,
    window: int,
) -> Seq<Seq<char>>
    decreases entries.len(),
{
    if entries.len() == 0 {
        Seq::empty()
    } else {
        let rest = added_of(entries.drop_last(), existing, window);
        if classify_spec(entries.last(), existing, window) is Added {
            rest.push(entries.last().path@)
        } else {
            rest
        }
    }
}

/// The paths of entries whose stored row differs, in the order they were
/// seen (without the paranoid collision guard).
pub open spec fn modified_of(
    entries: Seq<Entry>,
    existing: Map<Seq<char>, StoredMeta>,
    window: int,
) -> Seq<Seq<char>>
    decreases entries.len(),
{
    if entries.len() == 0 {
        Seq::empty()
    } else {
        let rest = modified_of(entries.drop_last(), existing, window);
        if classify_spec(entries.last(), existing, window) is Modified {
            rest.push(entries.last().path@)
        } else {
            rest
        }
    }
}

/// The paths of entries whose stored row differs, with the paranoid
/// collision guard applied: an entry flagged modified stays out of the list
/// when the guard applies and its own freshly computed digest equals the
/// stored one. With `paranoid` off this is exactly [`modified_of`].
pub open spec fn modified_of_guarded(
    entries: Seq<Entry>,
    existing: Map<Seq<char>, StoredMeta>,
    window: int,
    paranoid: bool,
) -> Seq<Seq<char>>
    decreases entries.len(),
{
    if entries.len() == 0 {
        Seq::empty()
    } else {
        let rest = modified_of_guarded(entries.drop_last(), existing, window, paranoid);
        let e = entries.last();
        if classify_spec(e, existing, window) is Modified && still_modified_spec(
            e,
            existing[e.path@],
            paranoid,
            hash_view(e.hash),
        ) {
            rest.push(e.path@)
        } else {
            rest
        }
    }
}

/// With the guard off, the guarded modified list is the plain one.
pub proof fn lemma_modified_of_guard_off(
    entries: Seq<Entry>,
    existing: Map<Seq<char>, StoredMeta>,
    window: int,
)
    ensures
        modified_of_guarded(entries, existing, window, false) == modified_of(
            entries,
            existing,
            window,
        ),
    decreases entries.len(),
{
    if entries.len() > 0 {
        lemma_modified_of_guard_off(entries.drop_last(), existing, window);
    }
}

/// The stored keys that no entry carries, in stored-key order: the paths
/// that disappeared from disk.
pub open spec fn removed_of(keys: Seq<Seq<char>>, entries: Seq<Entry>) -> Seq<Seq<char>>
    decreases keys.len(),
{
    if keys.len() == 0 {
        Seq::empty()
    } else {
        let rest = removed_of(keys.drop_last(), entries);
        if !seen_spec(entries, keys.last()) {
            rest.push(keys.last())
        } else {
            rest
        }
    }
}

/// A path is in the added list exactly when some entry carries it and the
/// previous snapshot did not hold it.
pub proof fn lemma_added_membership(
    entries: Seq<Entry>,
    existing: Map<Seq<char>, StoredMeta>,
    window: int,
)
    ensures
        forall|x: Seq<char>|
            #[trigger] added_of(entries, existing, window).contains(x) <==> (seen_spec(entries, x)
                && !existing.contains_key(x)),
    decreases entries.len(),
{
    if entries.len() > 0 {
        lemma_added_membership(entries.drop_last(), existing, window);
        let prev = entries.drop_last();
        let rest = added_of(prev, existing, window);
        let e = entries.last();
        assert forall|x: Seq<char>| #[trigger] added_of(entries, existing, window).contains(x)
            implies (seen_spec(entries, x) && !existing.contains_key(x)) by {
            let cur = added_of(entries, existing, window);
            let i = choose|i: int| 0 <= i < cur.len() && cur[i] == x;
            if i < rest.len() {
                assert(rest.contains(x));
                let j = choose|j: int| 0 <= j < prev.len() && prev[j].path@ == x;
                assert(entries[j].path@ == x);
            } else {
                assert(x == e.path@);
                assert(entries[entries.len() - 1].path@ == x);
            }
        }
        assert forall|x: Seq<char>| (seen_spec(entries, x) && !existing.contains_key(x)) implies
            #[trigger] added_of(entries, existing, window).contains(x) by {
            let cur = added_of(entries, existing, window);
            let i = choose|i: int| 0 <= i < entries.len() && entries[i].path@ == x;
            if i < entries.len() - 1 {
                assert(prev[i].path@ == x);
                assert(seen_spec(prev, x));
                assert(rest.contains(x));
                let j = choose|j: int| 0 <= j < rest.len() && rest[j] == x;
                assert(cur[j] == x);
            } else {
                assert(classify_spec(e, existing, window) is Added);
                assert(cur[cur.len() - 1] == x);
            }
        }
    }
}

/// A path is in the modified list exactly when some entry carrying it
/// differs from the snapshot row the previous snapshot held for it.
pub proof fn lemma_modified_membership(
    entries: Seq<Entry>,
    existing: Map<Seq<char>, StoredMeta>,
    window: int,
)
    ensures
        forall|x: Seq<char>|
            #[trigger] modified_of(entries, existing, window).contains(x) <==> exists|i: int|
                0 <= i < entries.len() && entries[i].path@ == x && classify_spec(
                    entries[i],
                    existing,
                    window,
                ) is Modified,
    decreases entries.len(),
{
    if entries.len() > 0 {
        lemma_modified_membership(entries.drop_last(), existing, window);
        let prev = entries.drop_last();
        let rest = modified_of(prev, existing, window);
        let e = entries.last();
        assert forall|x: Seq<char>| #[trigger] modified_of(entries, existing, window).contains(x)
            implies exists|i: int|
            0 <= i < entries.len() && entries[i].path@ == x && classify_spec(
                entries[i],
                existing,
                window,
            ) is Modified by {
            let cur = modified_of(entries, existing, window);
            let i = choose|i: int| 0 <= i < cur.len() && cur[i] == x;
            if i < rest.len() {
                assert(rest.contains(x));
                let j = choose|j: int|
                    0 <= j < prev.len() && prev[j].path@ == x && classify_spec(
                        prev[j],
                        existing,
                        window,
                    ) is Modified;
                assert(entries[j].path@ == x && classify_spec(entries[j], existing, window)
                    is Modified);
            } else {
                assert(x == e.path@);
                assert(entries[entries.len() - 1].path@ == x && classify_spec(
                    entries[entries.len() - 1],
                    existing,
                    window,
                ) is Modified);
            }
        }
        assert forall|x: Seq<char>|
            exists|i: int|
                0 <= i < entries.len() && entries[i].path@ == x && classify_spec(
                    entries[i],
                    existing,
                    window,
                ) is Modified implies #[trigger] modified_of(entries, existing, window).contains(
            x,
        ) by {
            let cur = modified_of(entries, existing, window);
            let i = choose|i: int|
                0 <= i < entries.len() && entries[i].path@ == x && classify_spec(
                    entries[i],
                    existing,
                    window,
                ) is Modified;
            if i < entries.len() - 1 {
                assert(prev[i].path@ == x && classify_spec(prev[i], existing, window) is Modified);
                assert(rest.contains(x));
                let j = choose|j: int| 0 <= j < rest.len() && rest[j] == x;
                assert(cur[j] == x);
            } else {
                assert(cur[cur.len() - 1] == x);
            }
        }
    }
}

/// A path is in the removed list exactly when it is a stored key that no
/// entry carries.
pub proof fn lemma_removed_membership(keys: Seq<Seq<char>>, entries: Seq<Entry>)
    ensures
        forall|x: Seq<char>|
            #[trigger] removed_of(keys, entries).contains(x) <==> (keys.contains(x) && !seen_spec(
                entries,
                x,
            )),
    decreases keys.len(),
{
    if keys.len() > 0 {
        lemma_removed_membership(keys.drop_last(), entries);
        let prev = keys.drop_last();
        let rest = removed_of(prev, entries);
        assert forall|x: Seq<char>| #[trigger] removed_of(keys, entries).contains(x) implies (
        keys.contains(x) && !seen_spec(entries, x)) by {
            let cur = removed_of(keys, entries);
            let i = choose|i: int| 0 <= i < cur.len() && cur[i] == x;
            if i < rest.len() {
                assert(rest.contains(x));
                let j = choose|j: int| 0 <= j < prev.len() && prev[j] == x;
                assert(keys[j] == x);
            } else {
                assert(x == keys.last());
                assert(keys[keys.len() - 1] == x);
            }
        }
        assert forall|x: Seq<char>| (keys.contains(x) && !seen_spec(entries, x)) implies
            #[trigger] removed_of(keys, entries).contains(x) by {
            let cur = removed_of(keys, entries);
            let i = choose|i: int| 0 <= i < keys.len() && keys[i] == x;
            if i < keys.len() - 1 {
                assert(prev[i] == x);
                assert(prev.contains(x));
                assert(rest.contains(x));
                let j = choose|j: int| 0 <= j < rest.len() && rest[j] == x;
                assert(cur[j] == x);
            } else {
                assert(cur[cur.len() - 1] == x);
            }
        }
    }
}

/// Membership is disjoint across the added, modified, and removed lists:
/// added paths are absent from the previous snapshot while modified ones are
/// present, and removed paths were not seen on disk while the other two were.
pub proof fn lemma_diff_disjoint(
    entries: Seq<Entry>,
    existing: Map<Seq<char>, StoredMeta>,
    keys: Seq<Seq<char>>,
    window: int,
)
    ensures
        forall|x: Seq<char>|
            !(#[trigger] added_of(entries, existing, window).contains(x) && #[trigger] modified_of(
                entries,
                existing,
                window,
            ).contains(x)),
        forall|x: Seq<char>|
            !(#[trigger] added_of(entries, existing, window).contains(x) && #[trigger] removed_of(
                keys,
                entries,
            ).contains(x)),
        forall|x: Seq<char>|
            !(#[trigger] modified_of(entries, existing, window).contains(x)
                && #[trigger] removed_of(keys, entries).contains(x)),
{
    lemma_added_membership(entries, existing, window);
    lemma_modified_membership(entries, existing, window);
    lemma_removed_membership(keys, entries);
    assert forall|x: Seq<char>| #[trigger] modified_of(entries, existing, window).contains(x)
        implies seen_spec(entries, x) && existing.contains_key(x) by {
        let i = choose|i: int|
            0 <= i < entries.len() && entries[i].path@ == x && classify_spec(
                entries[i],
                existing,
                window,
            ) is Modified;
        assert(entries[i].path@ == x);
    }
}

/// The guarded modified list is a sub-list of the plain one: the collision
/// guard only removes entries.
pub proof fn lemma_modified_guarded_subset(
    entries: Seq<Entry>,
    existing: Map<Seq<char>, StoredMeta>,
    window: int,
    paranoid: bool,
)
    ensures
        forall|x: Seq<char>|
            #[trigger] modified_of_guarded(entries, existing, window, paranoid).contains(x)
                ==> modified_of(entries, existing, window).contains(x),
    decreases entries.len(),
{
    if entries.len() > 0 {
        lemma_modified_guarded_subset(entries.drop_last(), existing, window, paranoid);
        let prev = entries.drop_last();
        let rest_g = modified_of_guarded(prev, existing, window, paranoid);
        let rest = modified_of(prev, existing, window);
        let cur_g = modified_of_guarded(entries, existing, window, paranoid);
        let cur = modified_of(entries, existing, window);
        assert forall|x: Seq<char>| #[trigger] cur_g.contains(x) implies cur.contains(x) by {
            let i = choose|i: int| 0 <= i < cur_g.len() && cur_g[i] == x;
            if i < rest_g.len() {
                assert(rest_g.contains(x));
                assert(rest.contains(x));
                let j = choose|j: int| 0 <= j < rest.len() && rest[j] == x;
                assert(cur[j] == x);
            } else {
                assert(x == entries.last().path@);
                assert(cur[cur.len() - 1] == x);
            }
        }
    }
}

/// A path is in the guarded modified list exactly when some entry carrying
/// it is classified modified and survives the collision guard. In
/// particular, with the guard on, a path whose every entry carries a digest
/// equal to the stored one is never reported modified.
pub proof fn lemma_modified_guarded_membership(
    entries: Seq<Entry>,
    existing: Map<Seq<char>, StoredMeta>,
    window: int,
    paranoid: bool,
)
    ensures
        forall|x: Seq<char>|
            #[trigger] modified_of_guarded(entries, existing, window, paranoid).contains(x)
                <==> exists|i: int|
                0 <= i < entries.len() && entries[i].path@ == x && classify_spec(
                    entries[i],
                    existing,
                    window,
                ) is Modified && still_modified_spec(
                    entries[i],
                    existing[x],
                    paranoid,
                    hash_view(entries[i].hash),
                ),
    decreases entries.len(),
{
    if entries.len() > 0 {
        lemma_modified_guarded_membership(entries.drop_last(), existing, window, paranoid);
        let prev = entries.drop_last();
        let rest = modified_of_guarded(prev, existing, window, paranoid);
        let cur = modified_of_guarded(entries, existing, window, paranoid);
        let e = entries.last();
        assert forall|x: Seq<char>| #[trigger] cur.contains(x) implies exists|i: int|
            0 <= i < entries.len() && entries[i].path@ == x && classify_spec(
                entries[i],
                existing,
                window,
            ) is Modified && still_modified_spec(
                entries[i],
                existing[x],
                paranoid,
                hash_view(entries[i].hash),
            ) by {
            let l = choose|l: int| 0 <= l < cur.len() && cur[l] == x;
            if l < rest.len() {
                assert(rest[l] == x);
                assert(rest.contains(x));
                let i = choose|i: int|
                    0 <= i < prev.len() && prev[i].path@ == x && classify_spec(
                        prev[i],
                        existing,
                        window,
                    ) is Modified && still_modified_spec(
                        prev[i],
                        existing[x],
                        paranoid,
                        hash_view(prev[i].hash),
                    );
                assert(entries[i].path@ == x && classify_spec(entries[i], existing, window)
                    is Modified && still_modified_spec(
                    entries[i],
                    existing[x],
                    paranoid,
                    hash_view(entries[i].hash),
                ));
            } else {
                assert(x == e.path@);
                assert(entries[entries.len() - 1].path@ == x && classify_spec(
                    entries[entries.len() - 1],
                    existing,
                    window,
                ) is Modified && still_modified_spec(
                    entries[entries.len() - 1],
                    existing[x],
                    paranoid,
                    hash_view(entries[entries.len() - 1].hash),
                ));
            }
        }
        assert forall|x: Seq<char>|
            exists|i: int|
                0 <= i < entries.len() && entries[i].path@ == x && classify_spec(
                    entries[i],
                    existing,
                    window,
                ) is Modified && still_modified_spec(
                    entries[i],
                    existing[x],
                    paranoid,
                    hash_view(entries[i].hash),
                ) implies #[trigger] cur.contains(x) by {
            let i = choose|i: int|
                0 <= i < entries.len() && entries[i].path@ == x && classify_spec(
                    entries[i],
                    existing,
                    window,
                ) is Modified && still_modified_spec(
                    entries[i],
                    existing[x],
                    paranoid,
                    hash_view(entries[i].hash),
                );
            if i < entries.len() - 1 {
                assert(prev[i].path@ == x && classify_spec(prev[i], existing, window) is Modified
                    && still_modified_spec(prev[i], existing[x], paranoid, hash_view(prev[i].hash)));
                assert(rest.contains(x));
                let l = choose|l: int| 0 <= l < rest.len() && rest[l] == x;
                assert(cur[l] == x);
            } else {
                assert(cur[cur.len() - 1] == x);
            }
        }
    }
}

/// Membership is disjoint across the added, guarded-modified, and removed
/// lists: the shape of the diff the streaming writer reports, with the
/// collision guard applied.
pub proof fn lemma_diff_disjoint_guarded(
    entries: Seq<Entry>,
    existing: Map<Seq<char>, StoredMeta>,
    keys: Seq<Seq<char>>,
    window: int,
    paranoid: bool,
)
    ensures
        forall|x: Seq<char>|
            !(#[trigger] added_of(entries, existing, window).contains(x)
                && #[trigger] modified_of_guarded(entries, existing, window, paranoid).contains(
                x,
            )),
        forall|x: Seq<char>|
            !(#[trigger] added_of(entries, existing, window).contains(x) && #[trigger] removed_of(
                keys,
                entries,
            ).contains(x)),
        forall|x: Seq<char>|
            !(#[trigger] modified_of_guarded(entries, existing, window, paranoid).contains(x)
                && #[trigger] removed_of(keys, entries).contains(x)),
{
    lemma_diff_disjoint(entries, existing, keys, window);
    lemma_modified_guarded_subset(entries, existing, window, paranoid);
}

/// Walked paths partition into added, modified, and unchanged: when entry
/// paths are distinct, each entry's path lands in the list its
/// classification names — and in no other — while the removed list holds
/// exactly the stored keys that were not walked.
pub proof fn lemma_diff_partition(
    entries: Seq<Entry>,
    existing: Map<Seq<char>, StoredMeta>,
    keys: Seq<Seq<char>>,
    window: int,
)
    requires
        forall|i: int, j: int|
            0 <= i < j < entries.len() ==> entries[i].path@ != entries[j].path@,
    ensures
        forall|i: int|
            0 <= i < entries.len() ==> match classify_spec(#[trigger] entries[i], existing, window) {
                EntryClass::Added => added_of(entries, existing, window).contains(entries[i].path@)
                    && !modified_of(entries, existing, window).contains(entries[i].path@),
                EntryClass::Modified => modified_of(entries, existing, window).contains(
                    entries[i].path@,
                ) && !added_of(entries, existing, window).contains(entries[i].path@),
                EntryClass::Unchanged => !added_of(entries, existing, window).contains(
                    entries[i].path@,
                ) && !modified_of(entries, existing, window).contains(entries[i].path@),
            },
        forall|k: Seq<char>|
            #[trigger] removed_of(keys, entries).contains(k) <==> (keys.contains(k) && !seen_spec(
                entries,
                k,
            )),
        forall|k: Seq<char>|
            #[trigger] entries_map(entries).contains_key(k) <==> seen_spec(entries, k),
{
    lemma_added_membership(entries, existing, window);
    lemma_modified_membership(entries, existing, window);
    lemma_removed_membership(keys, entries);
    lemma_entries_map_dom(entries);
    assert forall|i: int| 0 <= i < entries.len() implies match classify_spec(
        #[trigger] entries[i],
        existing,
        window,
    ) {
        EntryClass::Added => added_of(entries, existing, window).contains(entries[i].path@)
            && !modified_of(entries, existing, window).contains(entries[i].path@),
        EntryClass::Modified => modified_of(entries, existing, window).contains(entries[i].path@)
            && !added_of(entries, existing, window).contains(entries[i].path@),
        EntryClass::Unchanged => !added_of(entries, existing, window).contains(entries[i].path@)
            && !modified_of(entries, existing, window).contains(entries[i].path@),
    } by {
        let x = entries[i].path@;
        assert(entries[i].path@ == x);
        match classify_spec(entries[i], existing, window) {
            EntryClass::Added => {
                assert(seen_spec(entries, x));
            },
            EntryClass::Modified => {
                if added_of(entries, existing, window).contains(x) {
                    assert(!existing.contains_key(x));
                }
            },
            EntryClass::Unchanged => {
                if added_of(entries, existing, window).contains(x) {
                    assert(!existing.contains_key(x));
                }
                if modified_of(entries, existing, window).contains(x) {
                    let j = choose|j: int|
                        0 <= j < entries.len() && entries[j].path@ == x && classify_spec(
                            entries[j],
                            existing,
                            window,
                        ) is Modified;
                    assert(j == i);
                }
            },
        }
    }
}

/// Idempotence: a second walk over an unchanged tree — every entry
/// unchanged against the snapshot, every stored key walked again — yields
/// an empty diff.
pub proof fn lemma_rerun_unchanged(
    entries: Seq<Entry>,
    existing: Map<Seq<char>, StoredMeta>,
    keys: Seq<Seq<char>>,
    window: int,
)
    requires
        forall|i: int|
            0 <= i < entries.len() ==> classify_spec(#[trigger] entries[i], existing, window)
                is Unchanged,
        forall|j: int| 0 <= j < keys.len() ==> seen_spec(entries, #[trigger] keys[j]),
    ensures
        added_of(entries, existing, window) == Seq::<Seq<char>>::empty(),
        modified_of(entries, existing, window) == Seq::<Seq<char>>::empty(),
        removed_of(keys, entries) == Seq::<Seq<char>>::empty(),
{
    lemma_added_membership(entries, existing, window);
    lemma_modified_membership(entries, existing, window);
    lemma_removed_membership(keys, entries);
    let added = added_of(entries, existing, window);
    if added.len() > 0 {
        assert(added.contains(added[0]));
        let i = choose|i: int| 0 <= i < entries.len() && entries[i].path@ == added[0];
        assert(false);
    }
    assert(added =~= Seq::<Seq<char>>::empty());
    let modified = modified_of(entries, existing, window);
    if modified.len() > 0 {
        assert(modified.contains(modified[0]));
        assert(false);
    }
    assert(modified =~= Seq::<Seq<char>>::empty());
    let removed = removed_of(keys, entries);
    if removed.len() > 0 {
        assert(removed.contains(removed[0]));
        let j = choose|j: int| 0 <= j < keys.len() && keys[j] == removed[0];
        assert(false);
    }
    assert(removed =~= Seq::<Seq<char>>::empty());
}

/// Build the diff and the new snapshot map from a finished stream of
/// entries, without the collision guard. Entries carry their final digests
/// already (the hashing phase runs before this); a caller that wants the
/// guard applies it through [`collect_entry_into_diff`] (the dry-run path,
/// which re-hashes on the fly) or asks the streaming writer for it.
pub fn diff_from_entries(entries: &Vec<Entry>, existing: &StoredIndex, mtime_window_ns: i64) -> (r:
    (Diff, Nefax))
    ensures
        r.0.added.deep_view() == added_of(entries@, existing@, mtime_window_ns as int),
        r.0.modified.deep_view() == modified_of(entries@, existing@, mtime_window_ns as int),
        r.0.removed.deep_view() == removed_of(existing.spec_keys(), entries@),
        r.1@ == entries_map(entries@),
{
    let ghost window = mtime_window_ns as int;
    let mut added: Vec<String> = Vec::new();
    let mut modified: Vec<String> = Vec::new();
    let mut current_index: Nefax = Nefax::new();
    let mut i: usize = 0;
    assert(added.deep_view() =~= Seq::<Seq<char>>::empty());
    assert(modified.deep_view() =~= Seq::<Seq<char>>::empty());
    while i < entries.len()
        invariant
            i <= entries@.len(),
            added.deep_view() == added_of(entries@.subrange(0, i as int), existing@, window),
            modified.deep_view() == modified_of(entries@.subrange(0, i as int), existing@, window),
            current_index@ == entries_map(entries@.subrange(0, i as int)),
            window == mtime_window_ns as int,
        decreases entries@.len() - i,
    {
        let ghost prefix = entries@.subrange(0, i as int);
        let ghost prefix2 = entries@.subrange(0, i + 1 as int);
        proof {
            assert(prefix2.drop_last() =~= prefix);
            assert(prefix2.last() == entries@[i as int]);
        }
        let entry = &entries[i];
        current_index.insert(
            entry.path.clone(),
            PathMeta { mtime_ns: entry.mtime_ns, size: entry.size, hash: entry.hash },
        );
        collect_entry_into_diff(
            entry,
            existing,
            &mut added,
            &mut modified,
            mtime_window_ns,
            false,
            &None,
        );
        i = i + 1;
    }
    assert(entries@.subrange(0, entries@.len() as int) =~= entries@);
    proof {
        lemma_entries_map_dom(entries@);
    }
    existing.key_facts();
    let mut removed: Vec<String> = Vec::new();
    let n = existing.len();
    let mut j: usize = 0;
    assert(removed.deep_view() =~= Seq::<Seq<char>>::empty());
    assert(existing.spec_keys().subrange(0, 0) =~= Seq::<Seq<char>>::empty());
    while j < n
        invariant
            j <= n,
            n == existing.spec_keys().len(),
            current_index@ == entries_map(entries@),
            forall|k: Seq<char>| #[trigger] current_index@.contains_key(k) <==> seen_spec(
                entries@,
                k,
            ),
            removed.deep_view() == removed_of(existing.spec_keys().subrange(0, j as int), entries@),
        decreases n - j,
    {
        let ghost kprefix = existing.spec_keys().subrange(0, j as int);
        let ghost kprefix2 = existing.spec_keys().subrange(0, j + 1 as int);
        proof {
            assert(kprefix2.drop_last() =~= kprefix);
            assert(kprefix2.last() == existing.spec_keys()[j as int]);
        }
        let key = existing.key_at(j);
        let ghost removed0 = removed.deep_view();
        if !current_index.contains_key(key.as_str()) {
            removed.push(key.clone());
            assert(removed.deep_view() =~= removed0.push(key@));
        }
        j = j + 1;
    }
    assert(existing.spec_keys().subrange(0, n as int) =~= existing.spec_keys());
    (Diff { added, removed, modified }, current_index)
}


/// A well-formed snapshot key: non-empty, relative, and free of backslash
/// separators.
pub open spec fn wf_rel_path(p: Seq<char>) -> bool {
    &&& p.len() > 0
    &&& p[0] != '/'
    &&& forall|i: int| 0 <= i < p.len() ==> p[i] != '\\'
}

/// Every path in a snapshot built from well-formed entries is well formed,
/// and every digest it carries has exactly 32 bytes.
pub proof fn lemma_nefax_paths_wf(entries: Seq<Entry>)
    requires
        forall|i: int| 0 <= i < entries.len() ==> wf_rel_path(#[trigger] entries[i].path@),
    ensures
        forall|k: Seq<char>| #[trigger] entries_map(entries).contains_key(k) ==> wf_rel_path(k),
        forall|k: Seq<char>|
            #[trigger] entries_map(entries).contains_key(k) ==> match entries_map(entries)[k].hash {
                Some(h) => h@.len() == 32,
                None => true,
            },
{
    lemma_entries_map_dom(entries);
    assert forall|k: Seq<char>| #[trigger] entries_map(entries).contains_key(k) implies wf_rel_path(
        k,
    ) by {
        let i = choose|i: int| 0 <= i < entries.len() && entries[i].path@ == k;
        assert(wf_rel_path(entries[i].path@));
    }
}

/// The key an entry carries for a walked path lying strictly under the root
/// is well formed: when stripping the root from the path succeeds and the
/// remainder neither is empty nor begins with a separator of either kind,
/// the normalized key ([`crate::paths::entry_path_for`]'s result) is
/// non-empty, relative, and free of backslashes. With
/// [`lemma_nefax_paths_wf`], this forces the snapshot-key invariant for a
/// run whose walked paths all lie strictly under the root.
pub proof fn lemma_walked_entry_path_wf(abs: Seq<char>, root: Seq<char>)
    requires
        crate::paths::relative_to_spec(abs, root) is Some,
        crate::paths::relative_to_spec(abs, root).unwrap().len() > 0,
        crate::paths::relative_to_spec(abs, root).unwrap()[0] != '/',
        crate::paths::relative_to_spec(abs, root).unwrap()[0] != '\\',
    ensures
        wf_rel_path(
            crate::paths::db_string_spec(crate::paths::relative_to_spec(abs, root).unwrap()),
        ),
{
    let rel = crate::paths::relative_to_spec(abs, root).unwrap();
    crate::paths::lemma_db_string_no_backslash(rel);
    assert(crate::paths::db_string_spec(rel)[0] == crate::paths::db_char(rel[0]));
}


/// The stored keys a snapshot does not hold, in stored-key order.
pub open spec fn keys_absent_of(keys: Seq<Seq<char>>, m: Map<Seq<char>, PathMeta>) -> Seq<
    Seq<char>,
>
    decreases keys.len(),
{
    if keys.len() == 0 {
        Seq::empty()
    } else {
        let rest = keys_absent_of(keys.drop_last(), m);
        if !m.contains_key(keys.last()) {
            rest.push(keys.last())
        } else {
            rest
        }
    }
}

/// Against a snapshot that holds exactly the seen paths, the absent stored
/// keys are exactly the removed paths.
pub proof fn lemma_keys_absent_is_removed(
    keys: Seq<Seq<char>>,
    m: Map<Seq<char>, PathMeta>,
    entries: Seq<Entry>,
)
    requires
        forall|k: Seq<char>| #[trigger] m.contains_key(k) <==> seen_spec(entries, k),
    ensures
        keys_absent_of(keys, m) == removed_of(keys, entries),
    decreases keys.len(),
{
    if keys.len() > 0 {
        lemma_keys_absent_is_removed(keys.drop_last(), m, entries);
    }
}

/// The stored keys the new snapshot no longer holds: the deletion list of a
/// run, in stored-key order.
pub fn removed_keys(existing: &StoredIndex, current: &Nefax) -> (r: Vec<String>)
    ensures
        r.deep_view() == keys_absent_of(existing.spec_keys(), current@),
{
    existing.key_facts();
    let n = existing.len();
    let mut removed: Vec<String> = Vec::new();
    let mut j: usize = 0;
    assert(removed.deep_view() =~= Seq::<Seq<char>>::empty());
    assert(existing.spec_keys().subrange(0, 0) =~= Seq::<Seq<char>>::empty());
    while j < n
        invariant
            j <= n,
            n == existing.spec_keys().len(),
            removed.deep_view() == keys_absent_of(
                existing.spec_keys().subrange(0, j as int),
                current@,
            ),
        decreases n - j,
    {
        let ghost kprefix = existing.spec_keys().subrange(0, j as int);
        let ghost kprefix2 = existing.spec_keys().subrange(0, j + 1 as int);
        proof {
            assert(kprefix2.drop_last() =~= kprefix);
            assert(kprefix2.last() == existing.spec_keys()[j as int]);
        }
        let key = existing.key_at(j);
        let ghost removed0 = removed.deep_view();
        if !current.contains_key(key.as_str()) {
            removed.push(key.clone());
            assert(removed.deep_view() =~= removed0.push(key@));
        }
        j = j + 1;
    }
    assert(existing.spec_keys().subrange(0, n as int) =~= existing.spec_keys());
    removed
}

} // verus!


