//! Path filtering and normalization.
//!
//! Paths handled by the library are plain strings. Persisted paths are
//! relative to the indexed root and use forward slashes regardless of the
//! host separator; this module holds the normalization, the relative-path
//! computation, the hidden-file sentinels, the glob matcher, and the walk
//! inclusion filter built from them.

use vstd::prelude::*;

use crate::chars::{chars_eq, chars_eq_str, chars_of, chars_start_with, string_of};

verus! {

/// One character of the DB-portable form: backslashes become forward slashes.
pub open spec fn db_char(c: char) -> char {
    if c == '\\' {
        '/'
    } else {
        c
    }
}

/// The DB-portable form of a path string: every backslash replaced by `/`.
pub open spec fn db_string_spec(s: Seq<char>) -> Seq<char> {
    s.map_values(|c: char| db_char(c))
}

/// Normalize a path for DB storage: forward slashes only, so the index is
/// portable across hosts with either separator.
pub fn path_to_db_string(path: &str) -> (r: String)
    ensures
        r@ == db_string_spec(path@),
{
    let v = chars_of(path);
    let mut out: Vec<char> = Vec::new();
    let mut i: usize = 0;
    while i < v.len()
        invariant
            v@ == path@,
            i <= v@.len(),
            out@ == db_string_spec(path@.subrange(0, i as int)),
        decreases v@.len() - i,
    {
        let c = v[i];
        if c == '\\' {
            out.push('/');
        } else {
            out.push(c);
        }
        assert(out@ =~= db_string_spec(path@.subrange(0, i + 1 as int)));
        i = i + 1;
    }
    assert(path@.subrange(0, path@.len() as int) =~= path@);
    string_of(&out)
}

/// A path already in relative forward-slash form is a fixed point of
/// [`path_to_db_string`]: normalizing it changes nothing.
pub proof fn lemma_db_string_fixed_point(s: Seq<char>)
    requires
        forall|i: int| 0 <= i < s.len() ==> s[i] != '\\',
    ensures
        db_string_spec(s) == s,
{
    assert(db_string_spec(s) =~= s);
}

/// What stripping the base prefix from a path yields, if anything:
/// the path equal to the base gives the empty path; a path under the base
/// gives the remainder after the separator (a base that is empty or already
/// ends with the separator, such as the filesystem root, is a plain prefix);
/// anything else gives nothing.
pub open spec fn relative_to_spec(path: Seq<char>, base: Seq<char>) -> Option<Seq<char>> {
    if path == base {
        Some(Seq::<char>::empty())
    } else if (base.len() == 0 || base[base.len() - 1] == '/') && path.len() > base.len()
        && path.subrange(0, base.len() as int) == base {
        Some(path.subrange(base.len() as int, path.len() as int))
    } else if path.len() > base.len() && path.subrange(0, base.len() as int) == base && path[
        base.len() as int
    ] == '/' {
        Some(path.subrange(base.len() as int + 1, path.len() as int))
    } else {
        None
    }
}

/// Convert an absolute path to a path relative to `base`, when `path`
/// lies under `base` (or equals it). A base that already ends with the
/// separator — the filesystem root above all — is stripped as a plain
/// prefix. Comparison is textual: no `..` resolution happens here.
pub fn path_relative_to(path: &str, base: &str) -> (r: Option<String>)
    ensures
        match r {
            Some(s) => relative_to_spec(path@, base@) == Some(s@),
            None => relative_to_spec(path@, base@) is None,
        },
{
    let p = chars_of(path);
    let b = chars_of(base);
    if chars_eq(&p, &b) {
        return Some(String::new());
    }
    if p.len() > b.len() && chars_start_with(&p, &b) {
        let base_has_sep = b.len() == 0 || b[b.len() - 1] == '/';
        if base_has_sep || p[b.len()] == '/' {
            let start: usize = if base_has_sep {
                b.len()
            } else {
                b.len() + 1
            };
            let mut rest: Vec<char> = Vec::new();
            let mut i: usize = start;
            while i < p.len()
                invariant
                    p@ == path@,
                    start <= i <= p@.len(),
                    rest@ == p@.subrange(start as int, i as int),
                decreases p@.len() - i,
            {
                rest.push(p[i]);
                assert(rest@ =~= p@.subrange(start as int, i + 1 as int));
                i = i + 1;
            }
            return Some(string_of(&rest));
        }
    }
    None
}

/// The file name of a slash-separated path: the characters after the last
/// `/`, or the whole path when it has no `/`.
pub open spec fn file_name_spec(path: Seq<char>) -> Seq<char>
    decreases path.len(),
{
    if path.len() == 0 {
        path
    } else if path[path.len() - 1] == '/' {
        Seq::<char>::empty()
    } else {
        file_name_spec(path.drop_last()).push(path[path.len() - 1])
    }
}

/// The file-name characters of `path` (everything after the last `/`).
pub fn file_name_chars(path: &Vec<char>) -> (r: Vec<char>)
    ensures
        r@ == file_name_spec(path@),
{
    // Find the index one past the last '/'; the name starts there.
    let mut start: usize = path.len();
    while start > 0 && path[start - 1] != '/'
        invariant
            start <= path@.len(),
            forall|j: int| start <= j < path@.len() ==> path@[j] != '/',
        decreases start,
    {
        start = start - 1;
    }
    let ghost tail = path@.subrange(start as int, path@.len() as int);
    proof {
        lemma_file_name_of_tail(path@, start as int);
    }
    let mut r: Vec<char> = Vec::new();
    let mut i: usize = start;
    while i < path.len()
        invariant
            start <= i <= path@.len(),
            r@ == path@.subrange(start as int, i as int),
        decreases path@.len() - i,
    {
        r.push(path[i]);
        assert(r@ =~= path@.subrange(start as int, i + 1 as int));
        i = i + 1;
    }
    assert(r@ =~= tail);
    r
}

/// When no `/` occurs at or after `start`, and either `start` is zero or a
/// `/` stands just before it, the file name is the tail from `start`.
proof fn lemma_file_name_of_tail(path: Seq<char>, start: int)
    requires
        0 <= start <= path.len(),
        forall|j: int| start <= j < path.len() ==> path[j] != '/',
        start > 0 ==> path[start - 1] == '/',
    ensures
        file_name_spec(path) == path.subrange(start, path.len() as int),
    decreases path.len() - start,
{
    if start == path.len() {
        if start == 0 {
            assert(path =~= Seq::<char>::empty());
            assert(file_name_spec(path) =~= path.subrange(start, path.len() as int));
        } else {
            assert(path[path.len() - 1] == '/');
            assert(file_name_spec(path) =~= path.subrange(start, path.len() as int));
        }
    } else {
        let prefix = path.drop_last();
        assert(path[path.len() - 1] != '/');
        if start == path.len() - 1 {
            if start == 0 {
                assert(prefix =~= Seq::<char>::empty());
                assert(file_name_spec(prefix) == prefix);
            } else {
                assert(prefix[prefix.len() - 1] == '/');
            }
            assert(file_name_spec(prefix) =~= Seq::<char>::empty());
        } else {
            lemma_file_name_of_tail(prefix, start);
        }
        assert(file_name_spec(path) =~= path.subrange(start, path.len() as int));
    }
}

/// Glob matching over character sequences, supporting `*` (any run of
/// characters) and `?` (any one character). A `*` with more pattern after it
/// consumes at least the option of any non-empty split of the remaining text;
/// it never stands for the whole remaining text when the text is empty.
pub open spec fn glob_matches(p: Seq<char>, t: Seq<char>) -> bool
    decreases p.len(), t.len(),
{
    if p.len() == 0 {
        t.len() == 0
    } else if p[0] == '*' {
        if p.len() == 1 {
            true
        } else {
            t.len() > 0 && (glob_matches(p.skip(1), t) || glob_matches(p, t.skip(1)))
        }
    } else if p[0] == '?' {
        t.len() > 0 && glob_matches(p.skip(1), t.skip(1))
    } else {
        t.len() > 0 && t[0] == p[0] && glob_matches(p.skip(1), t.skip(1))
    }
}

/// A leading `!` on a pattern is stripped; no negation semantics.
pub open spec fn strip_negation(p: Seq<char>) -> Seq<char> {
    if p.len() > 0 && p[0] == '!' {
        p.skip(1)
    } else {
        p
    }
}

/// Match the pattern suffix starting at `pi` against the text suffix
/// starting at `ti`.
fn glob_from(p: &Vec<char>, pi: usize, t: &Vec<char>, ti: usize) -> (r: bool)
    requires
        pi <= p@.len(),
        ti <= t@.len(),
    ensures
        r == glob_matches(p@.skip(pi as int), t@.skip(ti as int)),
    decreases p@.len() - pi, t@.len() - ti,
{
    let ghost ps = p@.skip(pi as int);
    let ghost ts = t@.skip(ti as int);
    if pi == p.len() {
        return ti == t.len();
    }
    assert(ps[0] == p@[pi as int]);
    assert(ps.skip(1) =~= p@.skip(pi as int + 1));
    let c = p[pi];
    if c == '*' {
        if pi + 1 == p.len() {
            return true;
        }
        if ti == t.len() {
            return false;
        }
        assert(ts.skip(1) =~= t@.skip(ti as int + 1));
        if glob_from(p, pi + 1, t, ti) {
            return true;
        }
        glob_from(p, pi, t, ti + 1)
    } else if c == '?' {
        if ti == t.len() {
            return false;
        }
        assert(ts.skip(1) =~= t@.skip(ti as int + 1));
        glob_from(p, pi + 1, t, ti + 1)
    } else {
        if ti == t.len() {
            return false;
        }
        assert(ts[0] == t@[ti as int]);
        if t[ti] != c {
            return false;
        }
        assert(ts.skip(1) =~= t@.skip(ti as int + 1));
        glob_from(p, pi + 1, t, ti + 1)
    }
}

/// Glob pattern matching, supporting `*` and `?`. A leading `!` on the
/// pattern is removed before matching (negation is handled by callers).
pub fn glob_match(pattern: &str, text: &str) -> (r: bool)
    ensures
        r == glob_matches(strip_negation(pattern@), text@),
{
    let p = chars_of(pattern);
    let t = chars_of(text);
    let start: usize = if p.len() > 0 && p[0] == '!' {
        1
    } else {
        0
    };
    assert(p@.skip(start as int) =~= strip_negation(pattern@));
    assert(t@.skip(0) =~= text@);
    glob_from(&p, start, &t, 0)
}

/// Whether a file name is one of the OS-specific hidden sentinels: macOS
/// metadata files and resource forks (`._` prefix), Windows thumbnail and
/// recycle-bin files, and Linux desktop leftovers and per-user trash
/// directories (`.Trash-` prefix, as in `.Trash-1000`).
pub open spec fn is_hidden_name(name: Seq<char>) -> bool {
    ||| name == ".DS_Store"@
    ||| name == ".AppleDouble"@
    ||| name == ".LSOverride"@
    ||| name == "Thumbs.db"@
    ||| name == "ehthumbs.db"@
    ||| name == "Desktop.ini"@
    ||| name == "$RECYCLE.BIN"@
    ||| name == ".directory"@
    ||| crate::chars::starts_with_spec(name, ".Trash-"@)
    ||| (name.len() >= 2 && name[0] == '.' && name[1] == '_')
}

/// Whether the path's file name is an OS-specific hidden sentinel.
pub open spec fn is_os_hidden_spec(path: Seq<char>) -> bool {
    is_hidden_name(file_name_spec(path))
}

/// Check if a file should be excluded based on OS-specific hidden files.
pub fn is_os_hidden_file(path: &str) -> (r: bool)
    ensures
        r == is_os_hidden_spec(path@),
{
    let v = chars_of(path);
    let name = file_name_chars(&v);
    if chars_eq_str(&name, ".DS_Store") {
        return true;
    }
    if chars_eq_str(&name, ".AppleDouble") {
        return true;
    }
    if chars_eq_str(&name, ".LSOverride") {
        return true;
    }
    if chars_eq_str(&name, "Thumbs.db") {
        return true;
    }
    if chars_eq_str(&name, "ehthumbs.db") {
        return true;
    }
    if chars_eq_str(&name, "Desktop.ini") {
        return true;
    }
    if chars_eq_str(&name, "$RECYCLE.BIN") {
        return true;
    }
    if chars_eq_str(&name, ".directory") {
        return true;
    }
    let trash_prefix = chars_of(".Trash-");
    if chars_start_with(&name, &trash_prefix) {
        return true;
    }
    if name.len() >= 2 && name[0] == '.' && name[1] == '_' {
        return true;
    }
    false
}

/// The view of an optional string, as an optional character sequence.
pub open spec fn opt_str_view(o: Option<String>) -> Option<Seq<char>> {
    match o {
        Some(s) => Some(s@),
        None => None,
    }
}

/// Whether any exclusion pattern matches the path's file name or the whole
/// path string.
pub open spec fn matches_any_exclude(path: Seq<char>, excl: Seq<Seq<char>>) -> bool {
    exists|i: int|
        0 <= i < excl.len() && (glob_matches(strip_negation(excl[i]), file_name_spec(path))
            || glob_matches(strip_negation(excl[i]), path))
}

/// The walk inclusion rule: a path is walked unless it is the root itself,
/// the index file or its temp twin, an OS-hidden sentinel, or matches an
/// exclusion pattern by file name or full path.
pub open spec fn should_include_spec(
    path: Seq<char>,
    root: Seq<char>,
    db: Option<Seq<char>>,
    temp: Option<Seq<char>>,
    excl: Seq<Seq<char>>,
) -> bool {
    &&& path != root
    &&& db != Some(path)
    &&& temp != Some(path)
    &&& !is_os_hidden_spec(path)
    &&& !matches_any_exclude(path, excl)
}

/// Returns true if the path should be included in the walk (not excluded).
pub fn should_include_in_walk(
    path: &str,
    root: &str,
    db_canonical: &Option<String>,
    temp_canonical: &Option<String>,
    exclude_patterns: &Vec<String>,
) -> (r: bool)
    ensures
        r == should_include_spec(
            path@,
            root@,
            opt_str_view(*db_canonical),
            opt_str_view(*temp_canonical),
            exclude_patterns.deep_view(),
        ),
{
    let p = chars_of(path);
    if chars_eq_str(&p, root) {
        return false;
    }
    match db_canonical {
        Some(db) => {
            if chars_eq_str(&p, db.as_str()) {
                return false;
            }
        },
        None => {},
    }
    match temp_canonical {
        Some(temp) => {
            if chars_eq_str(&p, temp.as_str()) {
                return false;
            }
        },
        None => {},
    }
    if is_os_hidden_file(path) {
        return false;
    }
    let name = string_of(&file_name_chars(&p));
    let mut i: usize = 0;
    while i < exclude_patterns.len()
        invariant
            p@ == path@,
            name@ == file_name_spec(path@),
            i <= exclude_patterns@.len(),
            forall|j: int|
                0 <= j < i ==> !glob_matches(
                    strip_negation(exclude_patterns.deep_view()[j]),
                    file_name_spec(path@),
                ) && !glob_matches(strip_negation(exclude_patterns.deep_view()[j]), path@),
        decreases exclude_patterns@.len() - i,
    {
        let pat = exclude_patterns[i].as_str();
        assert(pat@ == exclude_patterns.deep_view()[i as int]);
        if glob_match(pat, name.as_str()) {
            return false;
        }
        if glob_match(pat, path) {
            return false;
        }
        i = i + 1;
    }
    true
}


/// No backslash survives normalization.
pub proof fn lemma_db_string_no_backslash(s: Seq<char>)
    ensures
        forall|i: int| 0 <= i < db_string_spec(s).len() ==> db_string_spec(s)[i] != '\\',
{
}

/// Joining a name under a root directory: a separator is added unless the
/// root already ends with one.
pub open spec fn join_path_spec(root: Seq<char>, name: Seq<char>) -> Seq<char> {
    if root.len() > 0 && root[root.len() - 1] == '/' {
        root + name
    } else {
        root + seq!['/'] + name
    }
}

/// Join a file name under a root directory string.
pub fn join_path(root: &str, name: &str) -> (r: String)
    ensures
        r@ == join_path_spec(root@, name@),
{
    let n = root.unicode_len();
    let mut s = root.to_owned();
    if n == 0 || root.get_char(n - 1) != '/' {
        s.push('/');
        assert(s@ =~= root@ + seq!['/']);
        s.append(name);
        assert(s@ =~= root@ + seq!['/'] + name@);
    } else {
        s.append(name);
    }
    s
}

/// The index database path: the given path when one is set, else the
/// default index filename joined under the root.
pub fn create_db_path(root: &str, db_path: Option<&str>) -> (r: String)
    ensures
        match db_path {
            Some(p) => r@ == p@,
            None => r@ == join_path_spec(root@, ".nefaxer"@),
        },
{
    match db_path {
        Some(p) => p.to_owned(),
        None => {
            let names = crate::config::PackagePaths::get();
            join_path(root, names.output_filename())
        },
    }
}

/// The temporary work file for an index database: a `.tmp` sibling.
pub fn temp_path_for(db_path: &str) -> (r: String)
    ensures
        r@ == db_path@ + ".tmp"@,
{
    let mut s = db_path.to_owned();
    s.append(".tmp");
    s
}

/// The write-ahead-log sidecar of a database path.
pub fn wal_sidecar_for(db_path: &str) -> (r: String)
    ensures
        r@ == db_path@ + "-wal"@,
{
    let mut s = db_path.to_owned();
    s.append("-wal");
    s
}

/// The shared-memory sidecar of a database path.
pub fn shm_sidecar_for(db_path: &str) -> (r: String)
    ensures
        r@ == db_path@ + "-shm"@,
{
    let mut s = db_path.to_owned();
    s.append("-shm");
    s
}

/// The path an entry carries for a walked file: relative to the root when
/// the file lies under it (the absolute path otherwise), normalized to
/// forward slashes. For a walked path lying strictly under the root the key
/// is a well-formed snapshot key: [`crate::diff::lemma_walked_entry_path_wf`]
/// proves it.
pub fn entry_path_for(abs_path: &str, root: &str) -> (r: String)
    ensures
        r@ == db_string_spec(
            match relative_to_spec(abs_path@, root@) {
                Some(rel) => rel,
                None => abs_path@,
            },
        ),
{
    match path_relative_to(abs_path, root) {
        Some(rel) => path_to_db_string(rel.as_str()),
        None => path_to_db_string(abs_path),
    }
}

} // verus!

