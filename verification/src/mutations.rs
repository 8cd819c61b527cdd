//! Edits to a KOReader metadata table: the review, rating and status of an item, and the note,
//! colour and style of an annotation, with the statistics counters KOReader keeps in step.
use vstd::prelude::*;
use crate::lua_table::{
    int_get, int_index, is_text, odd_entries, put_int, put_str, same_except_ints, same_except_str,
    str_get, str_index, take_int, take_str, unique_keys, Entry,
};
use crate::lua_value::{file_text, serialize_table, LuaKey, LuaValue, LuaWriteError};
use crate::text::{chars_of, str_eq, string_from_chars};

verus! {

/// Why an edit could not be made.
#[derive(Clone, Copy, Debug, PartialEq, Eq, Structural)]
pub enum MetadataWriteError {
    /// The metadata has no `annotations` table.
    AnnotationsMissing,
    /// The `annotations` table has no annotation at this (1-based) index.
    NoAnnotation(i64),
    /// The index lies outside the list of annotations.
    PositionOutOfBounds(i64),
    /// The edited table cannot be written out.
    Write(LuaWriteError),
}

/// `summary`.
pub open spec fn summary_key() -> Seq<char> {
    seq!['s', 'u', 'm', 'm', 'a', 'r', 'y']
}

/// `note`.
pub open spec fn note_key() -> Seq<char> {
    seq!['n', 'o', 't', 'e']
}

/// `rating`.
pub open spec fn rating_key() -> Seq<char> {
    seq!['r', 'a', 't', 'i', 'n', 'g']
}

/// `status`.
pub open spec fn status_key() -> Seq<char> {
    seq!['s', 't', 'a', 't', 'u', 's']
}

/// `modified`.
pub open spec fn modified_key() -> Seq<char> {
    seq!['m', 'o', 'd', 'i', 'f', 'i', 'e', 'd']
}

/// The entries of the table under `name` (none when the value there is not a table).
pub open spec fn sub_table(es: Seq<Entry>, name: Seq<char>) -> Seq<Entry> {
    match str_get(es, name) {
        LuaValue::Table(t) => t@,
        _ => Seq::empty(),
    }
}

/// The table under `name`, when there is one, repeats no key.
pub open spec fn sub_table_wf(es: Seq<Entry>, name: Seq<char>) -> bool {
    match str_get(es, name) {
        LuaValue::Table(t) => unique_keys(t@),
        _ => true,
    }
}

/// The value under `key` after an edit that may set it: unchanged for `None`, removed for
/// `Some(None)`, the text for `Some(Some(text))`.
pub open spec fn edited_text(after: LuaValue, before: LuaValue, edit: Option<Option<&str>>) -> bool {
    match edit {
        None => after == before,
        Some(None) => after is Nil,
        Some(Some(t)) => is_text(after, t@),
    }
}

/// The value under `key` after an edit that may set it to a text.
pub open spec fn set_text(after: LuaValue, before: LuaValue, edit: Option<&str>) -> bool {
    match edit {
        None => after == before,
        Some(t) => is_text(after, t@),
    }
}

/// The summary table after an item edit, against the one before.
pub open spec fn item_summary_after(
    t: Seq<Entry>,
    s0: Seq<Entry>,
    review_note: Option<Option<&str>>,
    rating: Option<u32>,
    status: Option<&str>,
    modified: Seq<char>,
) -> bool {
    &&& unique_keys(t)
    &&& edited_text(str_get(t, note_key()), str_get(s0, note_key()), review_note)
    &&& match rating {
        None => str_get(t, rating_key()) == str_get(s0, rating_key()),
        Some(r) => if r == 0 {
            str_get(t, rating_key()) is Nil
        } else {
            str_get(t, rating_key()) == LuaValue::Integer(r as i64)
        },
    }
    &&& set_text(str_get(t, status_key()), str_get(s0, status_key()), status)
    &&& is_text(str_get(t, modified_key()), modified)
    &&& forall|k: Seq<char>|
        k != note_key() && k != rating_key() && k != status_key() && k != modified_key()
            ==> #[trigger] str_get(t, k) == str_get(s0, k)
    &&& forall|n: i64| #[trigger] int_get(t, n) == int_get(s0, n)
    &&& odd_entries(t) == odd_entries(s0)
}

/// A text value.
fn text_value(s: &str) -> (r: LuaValue)
    ensures
        is_text(r, s@),
{
    LuaValue::Str(string_from_chars(chars_of(s).as_slice()))
}

/// Sets the review note, rating, status and modification date of an item in its metadata
/// table, creating the `summary` table when there is none. A rating of 0 removes the rating;
/// `Some(None)` removes the note.
pub fn apply_item_mutations(
    table: &mut Vec<Entry>,
    review_note: Option<Option<&str>>,
    rating: Option<u32>,
    status: Option<&str>,
    modified_date: &str,
)
    requires
        unique_keys(old(table)@),
        sub_table_wf(old(table)@, summary_key()),
    ensures
        unique_keys(final(table)@),
        same_except_str(final(table)@, old(table)@, summary_key()),
        str_get(final(table)@, summary_key()) matches LuaValue::Table(t) && item_summary_after(
            t@,
            sub_table(old(table)@, summary_key()),
            review_note,
            rating,
            status,
            modified_date@,
        ),
{
    proof {
        reveal_strlit("summary");
        reveal_strlit("note");
        reveal_strlit("rating");
        reveal_strlit("status");
        reveal_strlit("modified");
        assert("summary"@ =~= summary_key());
        assert("note"@ =~= note_key());
        assert("rating"@ =~= rating_key());
        assert("status"@ =~= status_key());
        assert("modified"@ =~= modified_key());
    }
    let ghost t0 = table@;
    let old_summary = take_str(table, "summary");
    let mut summary: Vec<Entry> = match old_summary {
        LuaValue::Table(t) => t,
        _ => Vec::new(),
    };
    let ghost s0 = summary@;
    assert(s0 == sub_table(t0, summary_key()));
    match review_note {
        Some(Some(note)) => put_str(&mut summary, "note", text_value(note)),
        Some(None) => put_str(&mut summary, "note", LuaValue::Nil),
        None => {},
    }
    let ghost s1 = summary@;
    match rating {
        Some(r) => {
            if r == 0 {
                put_str(&mut summary, "rating", LuaValue::Nil);
            } else {
                put_str(&mut summary, "rating", LuaValue::Integer(r as i64));
            }
        },
        None => {},
    }
    let ghost s2 = summary@;
    match status {
        Some(s) => put_str(&mut summary, "status", text_value(s)),
        None => {},
    }
    let ghost s3 = summary@;
    put_str(&mut summary, "modified", text_value(modified_date));
    let ghost s4 = summary@;
    proof {
        assert(note_key() != rating_key());
        assert(note_key() != status_key());
        assert(note_key() != modified_key()) by {
            assert(note_key().len() != modified_key().len());
        }
        assert(rating_key() != status_key()) by {
            assert(rating_key()[0] != status_key()[0]);
        }
        assert(rating_key() != modified_key()) by {
            assert(rating_key().len() != modified_key().len());
        }
        assert(status_key() != modified_key()) by {
            assert(status_key().len() != modified_key().len());
        }
    }
    put_str(table, "summary", LuaValue::Table(summary));
}

/// `annotations`.
pub open spec fn annotations_key() -> Seq<char> {
    seq!['a', 'n', 'n', 'o', 't', 'a', 't', 'i', 'o', 'n', 's']
}

/// `stats`.
pub open spec fn stats_key() -> Seq<char> {
    seq!['s', 't', 'a', 't', 's']
}

/// `color`.
pub open spec fn color_key() -> Seq<char> {
    seq!['c', 'o', 'l', 'o', 'r']
}

/// `drawer`.
pub open spec fn drawer_key() -> Seq<char> {
    seq!['d', 'r', 'a', 'w', 'e', 'r']
}

/// `datetime_updated`.
pub open spec fn datetime_updated_key() -> Seq<char> {
    seq![
        'd', 'a', 't', 'e', 't', 'i', 'm', 'e', '_', 'u', 'p', 'd', 'a', 't', 'e', 'd',
    ]
}

/// `highlights`.
pub open spec fn highlights_key() -> Seq<char> {
    seq!['h', 'i', 'g', 'h', 'l', 'i', 'g', 'h', 't', 's']
}

/// `notes`.
pub open spec fn notes_key() -> Seq<char> {
    seq!['n', 'o', 't', 'e', 's']
}

/// Whether two tables agree on every key but the string keys `a` and `b`.
pub open spec fn same_except_two(x: Seq<Entry>, y: Seq<Entry>, a: Seq<char>, b: Seq<char>) -> bool {
    &&& forall|k: Seq<char>| k != a && k != b ==> #[trigger] str_get(x, k) == str_get(y, k)
    &&& forall|n: i64| #[trigger] int_get(x, n) == int_get(y, n)
    &&& odd_entries(x) == odd_entries(y)
}

/// The error an edit of the annotation at `idx` meets, if any.
pub open spec fn annotation_error(es: Seq<Entry>, idx: i64) -> Option<MetadataWriteError> {
    match str_get(es, annotations_key()) {
        LuaValue::Table(a) => match int_get(a@, idx) {
            LuaValue::Table(_) => None,
            _ => Some(MetadataWriteError::NoAnnotation(idx)),
        },
        _ => Some(MetadataWriteError::AnnotationsMissing),
    }
}

/// The entries of the `annotations` table.
pub open spec fn annotations_of(es: Seq<Entry>) -> Seq<Entry> {
    sub_table(es, annotations_key())
}

/// The entries of the annotation at `idx`.
pub open spec fn annotation_of(es: Seq<Entry>, idx: i64) -> Seq<Entry> {
    match int_get(annotations_of(es), idx) {
        LuaValue::Table(n) => n@,
        _ => Seq::empty(),
    }
}

/// The annotation tables that an annotation edit reads repeat no key, and its counters can be
/// moved by one.
pub open spec fn annotation_edit_ok(es: Seq<Entry>, idx: i64) -> bool {
    &&& unique_keys(es)
    &&& sub_table_wf(es, annotations_key())
    &&& match int_get(annotations_of(es), idx) {
        LuaValue::Table(n) => unique_keys(n@),
        _ => true,
    }
    &&& sub_table_wf(es, stats_key())
    &&& counter_movable(str_get(sub_table(es, stats_key()), highlights_key()))
    &&& counter_movable(str_get(sub_table(es, stats_key()), notes_key()))
}

/// A counter that is an integer can be raised or lowered by one.
pub open spec fn counter_movable(v: LuaValue) -> bool {
    v matches LuaValue::Integer(c) ==> i64::MIN < c < i64::MAX
}

/// A counter after a change: raised by one, or lowered by one but not below zero; a value that
/// is not an integer is left alone.
pub open spec fn counter_after(after: LuaValue, before: LuaValue, up: bool) -> bool {
    match before {
        LuaValue::Integer(c) => after == LuaValue::Integer(
            if up {
                (c + 1) as i64
            } else if c - 1 > 0 {
                (c - 1) as i64
            } else {
                0
            },
        ),
        _ => after == before,
    }
}

/// The statistics table after an annotation turned into a note (`to_note`) or back into a
/// highlight: one counter up, the other down.
pub open spec fn stats_after(st1: Seq<Entry>, st0: Seq<Entry>, to_note: bool) -> bool {
    &&& unique_keys(st1)
    &&& counter_after(str_get(st1, highlights_key()), str_get(st0, highlights_key()), !to_note)
    &&& counter_after(str_get(st1, notes_key()), str_get(st0, notes_key()), to_note)
    &&& same_except_two(st1, st0, highlights_key(), notes_key())
}

/// Whether an annotation edit turns a highlight into a note (`Some(true)`) or a note into a
/// highlight (`Some(false)`): only an edit of the note of an annotation with a drawer does, when
/// whether it has a note changes.
pub open spec fn note_transition(n0: Seq<Entry>, note: Option<Option<&str>>) -> Option<bool> {
    let had = !(str_get(n0, note_key()) is Nil);
    let has = note matches Some(Some(_));
    if note is Some && !(str_get(n0, drawer_key()) is Nil) && had != has {
        Some(has)
    } else {
        None
    }
}

/// The annotation after an edit, against the one before.
pub open spec fn annotation_after(
    n1: Seq<Entry>,
    n0: Seq<Entry>,
    note: Option<Option<&str>>,
    color: Option<&str>,
    drawer: Option<&str>,
    datetime_updated: Option<&str>,
) -> bool {
    &&& unique_keys(n1)
    &&& edited_text(str_get(n1, note_key()), str_get(n0, note_key()), note)
    &&& set_text(str_get(n1, color_key()), str_get(n0, color_key()), color)
    &&& set_text(str_get(n1, drawer_key()), str_get(n0, drawer_key()), drawer)
    &&& set_text(
        str_get(n1, datetime_updated_key()),
        str_get(n0, datetime_updated_key()),
        datetime_updated,
    )
    &&& forall|k: Seq<char>|
        k != note_key() && k != color_key() && k != drawer_key() && k != datetime_updated_key()
            ==> #[trigger] str_get(n1, k) == str_get(n0, k)
    &&& forall|n: i64| #[trigger] int_get(n1, n) == int_get(n0, n)
    &&& odd_entries(n1) == odd_entries(n0)
}

/// What the statistics hold after an edit that may move the counters.
pub open spec fn stats_outcome(after: LuaValue, before: LuaValue, t: Option<bool>) -> bool {
    match (t, before) {
        (Some(to_note), LuaValue::Table(st0)) => after matches LuaValue::Table(st1) && stats_after(
            st1@,
            st0@,
            to_note,
        ),
        _ => after == before,
    }
}

/// Moves a counter by one (up, or down but not below zero) when it is an integer.
fn bump_counter(st: &mut Vec<Entry>, key: &str, up: bool)
    requires
        unique_keys(old(st)@),
        counter_movable(str_get(old(st)@, key@)),
    ensures
        unique_keys(final(st)@),
        counter_after(str_get(final(st)@, key@), str_get(old(st)@, key@), up),
        same_except_str(final(st)@, old(st)@, key@),
{
    let ghost s0 = st@;
    let found = match str_index(st, key) {
        Some(i) => match &st[i].1 {
            LuaValue::Integer(c) => Some(*c),
            _ => None,
        },
        None => None,
    };
    match found {
        Some(c) => {
            let v = if up {
                c + 1
            } else if c - 1 > 0 {
                c - 1
            } else {
                0
            };
            put_str(st, key, LuaValue::Integer(v));
        },
        None => {
            assert(!(str_get(s0, key@) is Integer));
            assert forall|k: Seq<char>| k != key@ implies #[trigger] str_get(st@, k) == str_get(s0, k) by {}
        },
    }
}

/// Whether a value is `nil`.
fn is_nil(v: &LuaValue) -> (r: bool)
    ensures
        r == v is Nil,
{
    match v {
        LuaValue::Nil => true,
        _ => false,
    }
}

/// Whether the string key `name` holds a value other than `nil`.
fn has_field(es: &Vec<Entry>, name: &str) -> (r: bool)
    ensures
        r == !(str_get(es@, name@) is Nil),
{
    match str_index(es, name) {
        Some(i) => !is_nil(&es[i].1),
        None => false,
    }
}

/// Checks that the metadata has an annotation at `idx`, giving whether it has a drawer and
/// whether it has a note.
fn inspect_annotation(table: &Vec<Entry>, idx: i64) -> (r: Result<(bool, bool), MetadataWriteError>)
    ensures
        match annotation_error(table@, idx) {
            Some(e) => r == Err::<(bool, bool), MetadataWriteError>(e),
            None => r == Ok::<(bool, bool), MetadataWriteError>(
                (
                    !(str_get(annotation_of(table@, idx), drawer_key()) is Nil),
                    !(str_get(annotation_of(table@, idx), note_key()) is Nil),
                ),
            ),
        },
{
    proof {
        reveal_strlit("annotations");
        reveal_strlit("drawer");
        reveal_strlit("note");
        assert("annotations"@ =~= annotations_key());
        assert("drawer"@ =~= drawer_key());
        assert("note"@ =~= note_key());
    }
    let ai = match str_index(table, "annotations") {
        Some(i) => i,
        None => {
            return Err(MetadataWriteError::AnnotationsMissing);
        },
    };
    match &table[ai].1 {
        LuaValue::Table(a) => match int_index(a, idx) {
            Some(j) => match &a[j].1 {
                LuaValue::Table(n) => Ok((has_field(n, "drawer"), has_field(n, "note"))),
                _ => Err(MetadataWriteError::NoAnnotation(idx)),
            },
            None => Err(MetadataWriteError::NoAnnotation(idx)),
        },
        _ => Err(MetadataWriteError::AnnotationsMissing),
    }
}

/// Edits the annotation at the 1-based index `lua_array_index`: its note (`Some(None)`
/// removes it), colour, drawer (highlight style) and update time. When the note edit turns a
/// highlight into a note or back, the `highlights` and `notes` counters of the `stats` table
/// follow, as KOReader keeps them.
pub fn apply_annotation_mutations(
    table: &mut Vec<Entry>,
    lua_array_index: i64,
    note: Option<Option<&str>>,
    color: Option<&str>,
    drawer: Option<&str>,
    datetime_updated: Option<&str>,
) -> (r: Result<(), MetadataWriteError>)
    requires
        annotation_edit_ok(old(table)@, lua_array_index),
    ensures
        match annotation_error(old(table)@, lua_array_index) {
            Some(e) => r == Err::<(), MetadataWriteError>(e) && final(table)@ == old(table)@,
            None => {
                &&& r is Ok
                &&& unique_keys(final(table)@)
                &&& same_except_two(final(table)@, old(table)@, annotations_key(), stats_key())
                &&& str_get(final(table)@, annotations_key()) matches LuaValue::Table(a1)
                &&& unique_keys(a1@)
                &&& same_except_ints(a1@, annotations_of(old(table)@), lua_array_index, lua_array_index)
                &&& int_get(a1@, lua_array_index) matches LuaValue::Table(n1)
                &&& annotation_after(
                    n1@,
                    annotation_of(old(table)@, lua_array_index),
                    note,
                    color,
                    drawer,
                    datetime_updated,
                )
                &&& stats_outcome(
                    str_get(final(table)@, stats_key()),
                    str_get(old(table)@, stats_key()),
                    note_transition(annotation_of(old(table)@, lua_array_index), note),
                )
            },
        },
{
    proof {
        reveal_strlit("annotations");
        reveal_strlit("stats");
        reveal_strlit("note");
        reveal_strlit("color");
        reveal_strlit("drawer");
        reveal_strlit("datetime_updated");
        reveal_strlit("highlights");
        reveal_strlit("notes");
        assert("annotations"@ =~= annotations_key());
        assert("stats"@ =~= stats_key());
        assert("note"@ =~= note_key());
        assert("color"@ =~= color_key());
        assert("drawer"@ =~= drawer_key());
        assert("datetime_updated"@ =~= datetime_updated_key());
        assert("highlights"@ =~= highlights_key());
        assert("notes"@ =~= notes_key());
    }
    let ghost t0 = table@;
    let (has_drawer, had_note) = match inspect_annotation(table, lua_array_index) {
        Ok(x) => x,
        Err(e) => {
            return Err(e);
        },
    };
    let transition: Option<bool> = if note.is_some() && has_drawer {
        let has_note = match note {
            Some(Some(_)) => true,
            _ => false,
        };
        if had_note != has_note {
            Some(has_note)
        } else {
            None
        }
    } else {
        None
    };
    assert(transition == note_transition(annotation_of(t0, lua_array_index), note));
    let ann_value = take_str(table, "annotations");
    let mut ann: Vec<Entry> = match ann_value {
        LuaValue::Table(a) => a,
        _ => Vec::new(),
    };
    let ghost a0 = ann@;
    let n_value = take_int(&mut ann, lua_array_index);
    let mut n: Vec<Entry> = match n_value {
        LuaValue::Table(x) => x,
        _ => Vec::new(),
    };
    let ghost n0 = n@;
    match note {
        Some(Some(text)) => put_str(&mut n, "note", text_value(text)),
        Some(None) => put_str(&mut n, "note", LuaValue::Nil),
        None => {},
    }
    match color {
        Some(c) => put_str(&mut n, "color", text_value(c)),
        None => {},
    }
    match drawer {
        Some(d) => put_str(&mut n, "drawer", text_value(d)),
        None => {},
    }
    match datetime_updated {
        Some(d) => put_str(&mut n, "datetime_updated", text_value(d)),
        None => {},
    }
    proof {
        assert(note_key() != color_key());
        assert(note_key() != drawer_key());
        assert(note_key() != datetime_updated_key()) by {
            assert(note_key().len() != datetime_updated_key().len());
        }
        assert(color_key() != drawer_key());
        assert(color_key() != datetime_updated_key()) by {
            assert(color_key().len() != datetime_updated_key().len());
        }
        assert(drawer_key() != datetime_updated_key()) by {
            assert(drawer_key().len() != datetime_updated_key().len());
        }
    }
    put_int(&mut ann, lua_array_index, LuaValue::Table(n));
    put_str(table, "annotations", LuaValue::Table(ann));
    let ghost t1 = table@;
    proof {
        assert(annotations_key() != stats_key());
    }
    match transition {
        Some(to_note) => {
            let st_value = take_str(table, "stats");
            match st_value {
                LuaValue::Table(mut st) => {
                    let ghost st0 = st@;
                    bump_counter(&mut st, "highlights", !to_note);
                    proof {
                        assert(highlights_key() != notes_key());
                    }
                    bump_counter(&mut st, "notes", to_note);
                    put_str(table, "stats", LuaValue::Table(st));
                },
                other => {
                    put_str(table, "stats", other);
                },
            }
        },
        None => {},
    }
    Ok(())
}

/// Length of the list part of a table, counted from integer key `k`: the first `n >= k` such
/// that key `n + 1` holds `nil`.
pub open spec fn border_from(es: Seq<Entry>, k: int) -> int
    decreases es.len() - k,
{
    if 0 <= k < es.len() && k < i64::MAX && !(int_get(es, (k + 1) as i64) is Nil) {
        border_from(es, k + 1)
    } else {
        k
    }
}

/// `#t` for a table whose integer keys `1..=n` are all set: that `n`. (For a table with holes
/// Lua may answer any border; this is the first one.)
pub open spec fn list_len(es: Seq<Entry>) -> int {
    border_from(es, 0)
}

/// Whether `table.remove(t, pos)` of a list of length `n` accepts `pos`.
pub open spec fn remove_pos_ok(pos: i64, n: int) -> bool {
    pos == n || (1 <= pos <= n + 1)
}

/// The list after `table.remove(a0, pos)`: the elements after `pos` move down by one and the
/// last key (`pos` itself when it lies past the end) is cleared; other keys keep their values.
pub open spec fn list_after_remove(a1: Seq<Entry>, a0: Seq<Entry>, pos: i64, n: int) -> bool {
    &&& forall|k: i64|
        #[trigger] int_get(a1, k) == if pos <= k < n {
            int_get(a0, (k + 1) as i64)
        } else if k == (if pos > n {
            pos as int
        } else {
            n
        }) {
            LuaValue::Nil
        } else {
            int_get(a0, k)
        }
    &&& forall|k: Seq<char>| #[trigger] str_get(a1, k) == str_get(a0, k)
    &&& odd_entries(a1) == odd_entries(a0)
}

/// The error a deletion of the annotation at `idx` meets, if any.
pub open spec fn deletion_error(es: Seq<Entry>, idx: i64) -> Option<MetadataWriteError> {
    match annotation_error(es, idx) {
        Some(e) => Some(e),
        None => if remove_pos_ok(idx, list_len(annotations_of(es))) {
            None
        } else {
            Some(MetadataWriteError::PositionOutOfBounds(idx))
        },
    }
}

/// The counter a deleted annotation was counted in: `notes` for one with a drawer and a note,
/// `highlights` for one with a drawer and no note, none for a bookmark.
pub open spec fn deleted_counter(n0: Seq<Entry>) -> Option<Seq<char>> {
    if str_get(n0, drawer_key()) is Nil {
        None
    } else if str_get(n0, note_key()) is Nil {
        Some(highlights_key())
    } else {
        Some(notes_key())
    }
}

/// What the statistics hold after a deletion counted in `counter`.
pub open spec fn stats_after_deletion(after: LuaValue, before: LuaValue, counter: Option<Seq<char>>) -> bool {
    match (counter, before) {
        (Some(key), LuaValue::Table(st0)) => after matches LuaValue::Table(st1) && unique_keys(st1@)
            && counter_after(str_get(st1@, key), str_get(st0@, key), false) && same_except_str(
            st1@,
            st0@,
            key,
        ),
        _ => after == before,
    }
}

/// Whether the integer key `n` holds a value other than `nil`.
fn int_present(a: &Vec<Entry>, n: i64) -> (r: bool)
    ensures
        r == !(int_get(a@, n) is Nil),
{
    match int_index(a, n) {
        Some(i) => !is_nil(&a[i].1),
        None => false,
    }
}

/// `#a`.
fn list_length(a: &Vec<Entry>) -> (n: i64)
    ensures
        n == list_len(a@),
{
    let mut k: usize = 0;
    while k < a.len() && (k as u64) < (i64::MAX as u64) && int_present(a, (k + 1) as i64)
        invariant
            k <= a.len(),
            k <= i64::MAX,
            border_from(a@, 0) == border_from(a@, k as int),
        decreases a.len() - k,
    {
        k += 1;
    }
    k as i64
}

/// Deletes the annotation at the 1-based index `lua_array_index` as `table.remove` does (the
/// later annotations move down by one), and lowers the `notes` or `highlights` counter the
/// annotation was counted in.
pub fn apply_annotation_deletion(table: &mut Vec<Entry>, lua_array_index: i64) -> (r: Result<
    (),
    MetadataWriteError,
>)
    requires
        annotation_edit_ok(old(table)@, lua_array_index),
    ensures
        match deletion_error(old(table)@, lua_array_index) {
            Some(e) => r == Err::<(), MetadataWriteError>(e) && final(table)@ == old(table)@,
            None => {
                &&& r is Ok
                &&& unique_keys(final(table)@)
                &&& same_except_two(final(table)@, old(table)@, annotations_key(), stats_key())
                &&& str_get(final(table)@, annotations_key()) matches LuaValue::Table(a1)
                &&& unique_keys(a1@)
                &&& list_after_remove(
                    a1@,
                    annotations_of(old(table)@),
                    lua_array_index,
                    list_len(annotations_of(old(table)@)),
                )
                &&& stats_after_deletion(
                    str_get(final(table)@, stats_key()),
                    str_get(old(table)@, stats_key()),
                    deleted_counter(annotation_of(old(table)@, lua_array_index)),
                )
            },
        },
{
    proof {
        reveal_strlit("annotations");
        reveal_strlit("stats");
        reveal_strlit("highlights");
        reveal_strlit("notes");
        assert("annotations"@ =~= annotations_key());
        assert("stats"@ =~= stats_key());
        assert("highlights"@ =~= highlights_key());
        assert("notes"@ =~= notes_key());
    }
    let ghost t0 = table@;
    let pos = lua_array_index;
    let (has_drawer, has_note) = match inspect_annotation(table, pos) {
        Ok(x) => x,
        Err(e) => {
            return Err(e);
        },
    };
    let n = match str_index(table, "annotations") {
        Some(i) => match &table[i].1 {
            LuaValue::Table(a) => list_length(a),
            _ => 0,
        },
        None => 0,
    };
    assert(n == list_len(annotations_of(t0)));
    if !(pos == n || (1 <= pos && pos - 1 <= n)) {
        return Err(MetadataWriteError::PositionOutOfBounds(pos));
    }
    let ann_value = take_str(table, "annotations");
    let mut ann: Vec<Entry> = match ann_value {
        LuaValue::Table(a) => a,
        _ => Vec::new(),
    };
    let ghost a0 = ann@;
    let _removed = take_int(&mut ann, pos);
    let mut k = pos;
    while k < n
        invariant
            pos <= k,
            k <= n || k == pos,
            unique_keys(ann@),
            forall|j: i64|
                #[trigger] int_get(ann@, j) == if pos <= j < k {
                    int_get(a0, (j + 1) as i64)
                } else if j == k {
                    LuaValue::Nil
                } else {
                    int_get(a0, j)
                },
            forall|j: Seq<char>| #[trigger] str_get(ann@, j) == str_get(a0, j),
            odd_entries(ann@) == odd_entries(a0),
        decreases n - k,
    {
        let v = take_int(&mut ann, k + 1);
        put_int(&mut ann, k, v);
        k = k + 1;
    }
    put_str(table, "annotations", LuaValue::Table(ann));
    let counter: Option<bool> = if has_drawer {
        Some(has_note)
    } else {
        None
    };
    match counter {
        Some(note_counter) => {
            let st_value = take_str(table, "stats");
            match st_value {
                LuaValue::Table(mut st) => {
                    if note_counter {
                        bump_counter(&mut st, "notes", false);
                    } else {
                        bump_counter(&mut st, "highlights", false);
                    }
                    put_str(table, "stats", LuaValue::Table(st));
                },
                other => {
                    put_str(table, "stats", other);
                },
            }
        },
        None => {},
    }
    Ok(())
}

/// The file text of a metadata table, as the outcome of a write.
pub open spec fn written(table: Vec<Entry>, path: Seq<char>, r: Result<String, MetadataWriteError>) -> bool {
    match file_text(table, path) {
        Ok(t) => r is Ok && r->Ok_0@ == t,
        Err(e) => r == Err::<String, MetadataWriteError>(MetadataWriteError::Write(e)),
    }
}

/// Serializes an edited table.
fn write_out(table: &Vec<Entry>, metadata_path: &str) -> (r: Result<String, MetadataWriteError>)
    ensures
        written(*table, metadata_path@, r),
{
    match serialize_table(table, metadata_path) {
        Ok(t) => Ok(t),
        Err(e) => Err(MetadataWriteError::Write(e)),
    }
}

/// Edits an item's review note, rating and status in its metadata table (stamping the
/// modification date) and gives the text of the metadata file at `metadata_path`.
pub fn write_item_metadata(
    table: &mut Vec<Entry>,
    metadata_path: &str,
    review_note: Option<Option<&str>>,
    rating: Option<u32>,
    status: Option<&str>,
    modified_date: &str,
) -> (r: Result<String, MetadataWriteError>)
    requires
        unique_keys(old(table)@),
        sub_table_wf(old(table)@, summary_key()),
    ensures
        unique_keys(final(table)@),
        same_except_str(final(table)@, old(table)@, summary_key()),
        str_get(final(table)@, summary_key()) matches LuaValue::Table(t) && item_summary_after(
            t@,
            sub_table(old(table)@, summary_key()),
            review_note,
            rating,
            status,
            modified_date@,
        ),
        written(*final(table), metadata_path@, r),
{
    apply_item_mutations(table, review_note, rating, status, modified_date);
    write_out(table, metadata_path)
}

/// Edits the annotation at the 0-based position `lua_index` and gives the text of the metadata
/// file at `metadata_path`; the table is left as it was when there is no such annotation.
pub fn write_annotation_metadata(
    table: &mut Vec<Entry>,
    metadata_path: &str,
    lua_index: i32,
    note: Option<Option<&str>>,
    color: Option<&str>,
    drawer: Option<&str>,
    datetime_updated: Option<&str>,
) -> (r: Result<String, MetadataWriteError>)
    requires
        lua_index < i32::MAX,
        annotation_edit_ok(old(table)@, (lua_index + 1) as i64),
    ensures
        match annotation_error(old(table)@, (lua_index + 1) as i64) {
            Some(e) => r == Err::<String, MetadataWriteError>(e) && final(table)@ == old(table)@,
            None => {
                &&& unique_keys(final(table)@)
                &&& same_except_two(final(table)@, old(table)@, annotations_key(), stats_key())
                &&& str_get(final(table)@, annotations_key()) matches LuaValue::Table(a1)
                &&& unique_keys(a1@)
                &&& same_except_ints(
                    a1@,
                    annotations_of(old(table)@),
                    (lua_index + 1) as i64,
                    (lua_index + 1) as i64,
                )
                &&& int_get(a1@, (lua_index + 1) as i64) matches LuaValue::Table(n1)
                &&& annotation_after(
                    n1@,
                    annotation_of(old(table)@, (lua_index + 1) as i64),
                    note,
                    color,
                    drawer,
                    datetime_updated,
                )
                &&& stats_outcome(
                    str_get(final(table)@, stats_key()),
                    str_get(old(table)@, stats_key()),
                    note_transition(annotation_of(old(table)@, (lua_index + 1) as i64), note),
                )
                &&& written(*final(table), metadata_path@, r)
            },
        },
{
    let lua_array_index = (lua_index + 1) as i64;
    match apply_annotation_mutations(table, lua_array_index, note, color, drawer, datetime_updated) {
        Err(e) => Err(e),
        Ok(()) => write_out(table, metadata_path),
    }
}

/// Deletes the annotation at the 0-based position `lua_index` and gives the text of the
/// metadata file at `metadata_path`; the table is left as it was when that cannot be done.
pub fn delete_annotation(table: &mut Vec<Entry>, metadata_path: &str, lua_index: i32) -> (r: Result<
    String,
    MetadataWriteError,
>)
    requires
        lua_index < i32::MAX,
        annotation_edit_ok(old(table)@, (lua_index + 1) as i64),
    ensures
        match deletion_error(old(table)@, (lua_index + 1) as i64) {
            Some(e) => r == Err::<String, MetadataWriteError>(e) && final(table)@ == old(table)@,
            None => {
                &&& unique_keys(final(table)@)
                &&& same_except_two(final(table)@, old(table)@, annotations_key(), stats_key())
                &&& str_get(final(table)@, annotations_key()) matches LuaValue::Table(a1)
                &&& unique_keys(a1@)
                &&& list_after_remove(
                    a1@,
                    annotations_of(old(table)@),
                    (lua_index + 1) as i64,
                    list_len(annotations_of(old(table)@)),
                )
                &&& stats_after_deletion(
                    str_get(final(table)@, stats_key()),
                    str_get(old(table)@, stats_key()),
                    deleted_counter(annotation_of(old(table)@, (lua_index + 1) as i64)),
                )
                &&& written(*final(table), metadata_path@, r)
            },
        },
{
    let lua_array_index = (lua_index + 1) as i64;
    match apply_annotation_deletion(table, lua_array_index) {
        Err(e) => Err(e),
        Ok(()) => write_out(table, metadata_path),
    }
}


/// Whether two keys are the same string key or the same integer key.
fn same_key(a: &LuaKey, b: &LuaKey) -> (r: bool)
    ensures
        r == ((a is Str && b is Str && a->Str_0@ == b->Str_0@) || (a is Int && b is Int && a->Int_0
            == b->Int_0)),
{
    match (a, b) {
        (LuaKey::Str(x), LuaKey::Str(y)) => str_eq(x.as_str(), y.as_str()),
        (LuaKey::Int(x), LuaKey::Int(y)) => *x == *y,
        _ => false,
    }
}

/// Whether no string key and no integer key occurs twice in the table.
pub fn has_unique_keys(es: &Vec<Entry>) -> (r: bool)
    ensures
        r == unique_keys(es@),
{
    let mut b: usize = 0;
    while b < es.len()
        invariant
            b <= es.len(),
            forall|x: int, y: int|
                0 <= x < y < b ==> !(es@[x].0 is Str && es@[y].0 is Str && es@[x].0->Str_0@
                    == es@[y].0->Str_0@) && !(es@[x].0 is Int && es@[y].0 is Int && es@[x].0->Int_0
                    == es@[y].0->Int_0),
        decreases es.len() - b,
    {
        let mut a: usize = 0;
        while a < b
            invariant
                a <= b < es.len(),
                forall|x: int, y: int|
                    0 <= x < y < b ==> !(es@[x].0 is Str && es@[y].0 is Str && es@[x].0->Str_0@
                        == es@[y].0->Str_0@) && !(es@[x].0 is Int && es@[y].0 is Int
                        && es@[x].0->Int_0 == es@[y].0->Int_0),
                forall|x: int|
                    0 <= x < a ==> !(es@[x].0 is Str && es@[b as int].0 is Str && es@[x].0->Str_0@
                        == es@[b as int].0->Str_0@) && !(es@[x].0 is Int && es@[b as int].0 is Int
                        && es@[x].0->Int_0 == es@[b as int].0->Int_0),
            decreases b - a,
        {
            if same_key(&es[a].0, &es[b].0) {
                return false;
            }
            a += 1;
        }
        b += 1;
    }
    true
}

/// Whether an integer counter can be moved by one (see `counter_movable`).
fn counter_can_move(v: &LuaValue) -> (r: bool)
    ensures
        r == counter_movable(*v),
{
    match v {
        LuaValue::Integer(c) => *c > i64::MIN && *c < i64::MAX,
        _ => true,
    }
}

/// Whether the table under `name`, if any, repeats no key.
fn sub_table_ok(es: &Vec<Entry>, name: &str) -> (r: bool)
    ensures
        r == sub_table_wf(es@, name@),
{
    match str_index(es, name) {
        Some(i) => match &es[i].1 {
            LuaValue::Table(t) => has_unique_keys(t),
            _ => true,
        },
        None => true,
    }
}

/// Whether an item edit can be made on the table (the condition of `write_item_metadata`).
pub fn item_edit_allowed(table: &Vec<Entry>) -> (r: bool)
    ensures
        r == (unique_keys(table@) && sub_table_wf(table@, summary_key())),
{
    proof {
        reveal_strlit("summary");
        assert("summary"@ =~= summary_key());
    }
    has_unique_keys(table) && sub_table_ok(table, "summary")
}

/// Whether an edit or deletion of the annotation at 0-based `lua_index` can be attempted on the
/// table (the condition of `write_annotation_metadata` and `delete_annotation`).
pub fn annotation_edit_allowed(table: &Vec<Entry>, lua_index: i32) -> (r: bool)
    ensures
        r == (lua_index < i32::MAX && annotation_edit_ok(table@, (lua_index + 1) as i64)),
{
    proof {
        reveal_strlit("annotations");
        reveal_strlit("stats");
        reveal_strlit("highlights");
        reveal_strlit("notes");
        assert("annotations"@ =~= annotations_key());
        assert("stats"@ =~= stats_key());
        assert("highlights"@ =~= highlights_key());
        assert("notes"@ =~= notes_key());
    }
    if lua_index == i32::MAX {
        return false;
    }
    let idx = (lua_index + 1) as i64;
    if !has_unique_keys(table) || !sub_table_ok(table, "annotations") || !sub_table_ok(table, "stats") {
        return false;
    }
    let note_ok = match str_index(table, "annotations") {
        Some(i) => match &table[i].1 {
            LuaValue::Table(a) => match int_index(a, idx) {
                Some(j) => match &a[j].1 {
                    LuaValue::Table(n) => has_unique_keys(n),
                    _ => true,
                },
                None => true,
            },
            _ => true,
        },
        None => true,
    };
    if !note_ok {
        return false;
    }
    match str_index(table, "stats") {
        Some(i) => match &table[i].1 {
            LuaValue::Table(st) => {
                let h = match str_index(st, "highlights") {
                    Some(k) => counter_can_move(&st[k].1),
                    None => true,
                };
                let n = match str_index(st, "notes") {
                    Some(k) => counter_can_move(&st[k].1),
                    None => true,
                };
                h && n
            },
            _ => true,
        },
        None => true,
    }
}

} // verus!
