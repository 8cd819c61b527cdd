//! A SQLite database together with its WAL and SHM companion files.
use vstd::prelude::*;
use crate::paths::{file_name, spec_file_name, spec_with_file_name, with_file_name};
use crate::text::{chars_of, string_from_chars};

verus! {

/// Path of the `suffix` companion of `db` (e.g. `db.sqlite` → `db.sqlite-wal`).
pub open spec fn spec_companion(db: Seq<char>, suffix: Seq<char>) -> Seq<char> {
    match spec_file_name(db) {
        Some(name) => spec_with_file_name(db, name + seq!['-'] + suffix),
        None => db,
    }
}

/// The main database path followed by its WAL and SHM companion paths.
pub fn sqlite_snapshot_paths(db_path: &str) -> (r: [String; 3])
    ensures
        r[0]@ == db_path@,
        r[1]@ == spec_companion(db_path@, "wal"@),
        r[2]@ == spec_companion(db_path@, "shm"@),
{
    let main = string_from_chars(chars_of(db_path).as_slice());
    [main, sqlite_companion_path(db_path, "wal"), sqlite_companion_path(db_path, "shm")]
}

/// Whether `path` is the database itself or one of its WAL/SHM companions.
pub fn is_sqlite_db_or_companion(path: &str, db_path: &str) -> (r: bool)
    ensures
        r == (path@ == db_path@ || path@ == spec_companion(db_path@, "wal"@) || path@
            == spec_companion(db_path@, "shm"@)),
{
    let candidates = sqlite_snapshot_paths(db_path);
    let p = string_from_chars(chars_of(path).as_slice());
    p == candidates[0] || p == candidates[1] || p == candidates[2]
}

/// Path of the `suffix` companion file of the database at `db_path`.
pub fn sqlite_companion_path(db_path: &str, suffix: &str) -> (r: String)
    ensures
        r@ == spec_companion(db_path@, suffix@),
{
    match file_name(db_path) {
        Some(name) => {
            let mut v = chars_of(name.as_str());
            v.push('-');
            let s = chars_of(suffix);
            let ghost base = v@;
            let mut i: usize = 0;
            while i < s.len()
                invariant
                    i <= s.len(),
                    v@ == base + s@.subrange(0, i as int),
                decreases s.len() - i,
            {
                v.push(s[i]);
                i += 1;
                assert(v@ =~= base + s@.subrange(0, i as int));
            }
            assert(s@.subrange(0, s.len() as int) =~= s@);
            let new_name = string_from_chars(v.as_slice());
            with_file_name(db_path, new_name.as_str())
        },
        None => string_from_chars(chars_of(db_path).as_slice()),
    }
}

} // verus!
