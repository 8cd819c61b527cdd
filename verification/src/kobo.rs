//! The Kobo reader's database: which of its rows are books, and what they say of each book.
use vstd::prelude::*;
use crate::text::{copy_opt_string, copy_string, opt_text, str_eq, trim_chars, trim_ws, chars_of};

verus! {

/// What the Kobo database says of one book file.
#[derive(Clone, Debug, PartialEq, Eq)]
pub struct KoboFileHints {
    pub content_id: String,
    pub title: Option<String>,
    pub author: Option<String>,
    pub is_encrypted: bool,
    pub has_content_keys: bool,
}

/// Content ID, title, author, encryption flag and content-key flag.
pub type HintsView = (Seq<char>, Option<Seq<char>>, Option<Seq<char>>, bool, bool);

impl View for KoboFileHints {
    type V = HintsView;

    open spec fn view(&self) -> HintsView {
        (
            self.content_id@,
            opt_text(self.title),
            opt_text(self.author),
            self.is_encrypted,
            self.has_content_keys,
        )
    }
}

impl KoboFileHints {
    /// Whether the book is probably DRM-protected.
    pub fn suggests_encryption(&self) -> (r: bool)
        ensures
            r == (self.is_encrypted || self.has_content_keys),
    {
        self.is_encrypted || self.has_content_keys
    }
}

/// An owned copy of `h`.
pub fn copy_hints(h: &KoboFileHints) -> (r: KoboFileHints)
    ensures
        r@ == h@,
{
    KoboFileHints {
        content_id: copy_string(&h.content_id),
        title: copy_opt_string(&h.title),
        author: copy_opt_string(&h.author),
        is_encrypted: h.is_encrypted,
        has_content_keys: h.has_content_keys,
    }
}

/// One book listed in the Kobo database.
#[derive(Clone, Debug)]
pub struct KoboContentEntry {
    pub hints: KoboFileHints,
}

/// One row of the `content` table; a column is `None` when the table lacks it or it is NULL.
pub struct KoboContentRow {
    pub content_id: Option<String>,
    pub book_id: Option<String>,
    pub title: Option<String>,
    pub attribution: Option<String>,
    pub is_encrypted: Option<i64>,
}

/// Reads the book entries of a Kobo database.
pub struct KoboDbParser;

/// Whether `s` is empty once trimmed of whitespace.
pub open spec fn is_blank(s: Seq<char>) -> bool {
    trim_ws(s).len() == 0
}

/// A text column's value, where a blank text counts as absent.
pub open spec fn non_blank(o: Option<Seq<char>>) -> Option<Seq<char>> {
    match o {
        Some(s) => if is_blank(s) {
            None
        } else {
            Some(s)
        },
        None => None,
    }
}

/// Whether a row is a chapter of a book rather than a book: it names a book (by a non-blank
/// `BookID`) other than itself.
pub open spec fn chapter_row(book_id: Option<Seq<char>>, content_id: Seq<char>) -> bool {
    match non_blank(book_id) {
        Some(b) => trim_ws(b).len() > 0 && trim_ws(b) != content_id,
        None => false,
    }
}

/// The texts of a list of strings.
pub open spec fn texts(v: Seq<String>) -> Seq<Seq<char>> {
    v.map_values(|s: String| s@)
}

/// What a row says of its book, given the content IDs that have content keys; none for a row
/// without content ID and for a chapter row.
pub open spec fn row_hints(r: KoboContentRow, key_ids: Seq<Seq<char>>) -> Option<HintsView> {
    match non_blank(opt_text(r.content_id)) {
        None => None,
        Some(cid) => if chapter_row(opt_text(r.book_id), cid) {
            None
        } else {
            Some(
                (
                    cid,
                    non_blank(opt_text(r.title)),
                    non_blank(opt_text(r.attribution)),
                    match r.is_encrypted {
                        Some(v) => v != 0,
                        None => false,
                    },
                    key_ids.contains(cid),
                ),
            )
        },
    }
}

/// The book entries of the rows, in order.
pub open spec fn entries_of_rows(rows: Seq<KoboContentRow>, key_ids: Seq<Seq<char>>) -> Seq<
    HintsView,
>
    decreases rows.len(),
{
    if rows.len() == 0 {
        Seq::empty()
    } else {
        let prev = entries_of_rows(rows.drop_last(), key_ids);
        match row_hints(rows.last(), key_ids) {
            Some(h) => prev.push(h),
            None => prev,
        }
    }
}

/// The non-blank values among `values`, in order.
pub open spec fn non_blank_values(values: Seq<Seq<char>>) -> Seq<Seq<char>>
    decreases values.len(),
{
    if values.len() == 0 {
        Seq::empty()
    } else if is_blank(values.last()) {
        non_blank_values(values.drop_last())
    } else {
        non_blank_values(values.drop_last()).push(values.last())
    }
}

/// The hints of each entry.
pub open spec fn entry_hints(v: Seq<KoboContentEntry>) -> Seq<HintsView> {
    v.map_values(|e: KoboContentEntry| e.hints@)
}

/// Whether `s` is empty once trimmed.
fn blank(s: &str) -> (r: bool)
    ensures
        r == is_blank(s@),
{
    let v = chars_of(s);
    trim_chars(&v).len() == 0
}

/// A text column's value, a blank text counting as absent.
pub fn string_column(value: &Option<String>) -> (r: Option<String>)
    ensures
        opt_text(r) == non_blank(opt_text(*value)),
{
    match value {
        Some(s) => if blank(s.as_str()) {
            None
        } else {
            Some(copy_string(s))
        },
        None => None,
    }
}

/// Whether a row with `book_id` is a chapter of a book other than `content_id`.
pub fn is_chapter_row(book_id: &Option<String>, content_id: &str) -> (r: bool)
    ensures
        r == chapter_row(opt_text(*book_id), content_id@),
{
    match string_column(book_id) {
        Some(b) => {
            let t = trim_chars(&chars_of(b.as_str()));
            let c = chars_of(content_id);
            if t.len() == 0 {
                return false;
            }
            if t.len() != c.len() {
                assert(t@ != c@);
                return true;
            }
            let mut i: usize = 0;
            while i < t.len()
                invariant
                    i <= t.len(),
                    t.len() == c.len(),
                    forall|j: int| 0 <= j < i ==> t@[j] == c@[j],
                    non_blank(opt_text(*book_id)) == Some(b@),
                    t@ == trim_ws(b@),
                    c@ == content_id@,
                decreases t.len() - i,
            {
                if t[i] != c[i] {
                    assert(t@[i as int] != c@[i as int]);
                    return true;
                }
                i += 1;
            }
            assert(t@ =~= c@);
            false
        },
        None => false,
    }
}

/// Whether `v` holds the text `s`.
fn contains_text(v: &Vec<String>, s: &str) -> (r: bool)
    ensures
        r == texts(v@).contains(s@),
{
    let mut i: usize = 0;
    while i < v.len()
        invariant
            i <= v.len(),
            forall|j: int| 0 <= j < i ==> v@[j]@ != s@,
        decreases v.len() - i,
    {
        if str_eq(v[i].as_str(), s) {
            assert(texts(v@)[i as int] == s@);
            return true;
        }
        i += 1;
    }
    assert forall|j: int| 0 <= j < texts(v@).len() implies texts(v@)[j] != s@ by {
        assert(texts(v@)[j] == v@[j]@);
    }
    false
}

impl KoboDbParser {
    /// The content IDs listed in the `content_keys` table: its non-blank values.
    pub fn content_key_ids(values: &Vec<String>) -> (r: Vec<String>)
        ensures
            texts(r@) == non_blank_values(texts(values@)),
    {
        let mut out: Vec<String> = Vec::new();
        let mut i: usize = 0;
        while i < values.len()
            invariant
                i <= values.len(),
                texts(out@) == non_blank_values(texts(values@).take(i as int)),
            decreases values.len() - i,
        {
            let ghost t = texts(values@).take(i + 1);
            assert(t.drop_last() =~= texts(values@).take(i as int));
            assert(t.last() == values@[i as int]@);
            if !blank(values[i].as_str()) {
                let ghost prev = out@;
                out.push(copy_string(&values[i]));
                assert(texts(out@) =~= texts(prev).push(values@[i as int]@));
            }
            i += 1;
        }
        assert(texts(values@).take(values.len() as int) =~= texts(values@));
        out
    }

    /// The book entries of the `content` rows, in order: a row without a non-blank content ID,
    /// and a chapter row, give none.
    pub fn entries_from_rows(rows: &Vec<KoboContentRow>, content_key_ids: &Vec<String>) -> (r: Vec<
        KoboContentEntry,
    >)
        ensures
            entry_hints(r@) == entries_of_rows(rows@, texts(content_key_ids@)),
    {
        let ghost keys = texts(content_key_ids@);
        let mut out: Vec<KoboContentEntry> = Vec::new();
        let mut i: usize = 0;
        while i < rows.len()
            invariant
                i <= rows.len(),
                keys == texts(content_key_ids@),
                entry_hints(out@) == entries_of_rows(rows@.take(i as int), keys),
            decreases rows.len() - i,
        {
            let ghost t = rows@.take(i + 1);
            assert(t.drop_last() =~= rows@.take(i as int));
            assert(t.last() == rows@[i as int]);
            let row = &rows[i];
            match string_column(&row.content_id) {
                Some(content_id) => {
                    if !is_chapter_row(&row.book_id, content_id.as_str()) {
                        let has_content_keys = contains_text(content_key_ids, content_id.as_str());
                        let is_encrypted = match row.is_encrypted {
                            Some(v) => v != 0,
                            None => false,
                        };
                        let hints = KoboFileHints {
                            content_id,
                            title: string_column(&row.title),
                            author: string_column(&row.attribution),
                            is_encrypted,
                            has_content_keys,
                        };
                        let ghost prev = out@;
                        out.push(KoboContentEntry { hints });
                        assert(entry_hints(out@) =~= entry_hints(prev).push(hints@));
                    }
                },
                None => {},
            }
            i += 1;
        }
        assert(rows@.take(rows.len() as int) =~= rows@);
        out
    }
}

} // verus!
