//! KOReader statistics and completion data types.
use vstd::prelude::*;
use crate::dates::{iso_date_day, parse_iso_date};
use crate::text::{copy_opt_string, copy_string, lowercase, opt_text, str_eq, to_lowercase};

verus! {

/// Kind of library item.
#[derive(Clone, Copy, Debug, PartialEq, Eq, Hash, Structural)]
pub enum ContentType {
    Book,
    Comic,
}

/// Rust's `/` on integers: the quotient rounded toward zero (`b > 0`).
pub open spec fn trunc_div(a: int, b: int) -> int {
    if a >= 0 {
        a / b
    } else {
        -((-a) / b)
    }
}

// ── Completions ──────────────────────────────────────────────────────────

/// A single reading completion (cycle) of a book.
#[derive(Clone, Debug)]
pub struct ReadCompletion {
    pub start_date: String,
    pub end_date: String,
    pub reading_time: i64,
    pub session_count: i64,
    pub pages_read: i64,
}

/// The content of a completion.
pub struct ReadCompletionView {
    pub start_date: Seq<char>,
    pub end_date: Seq<char>,
    pub reading_time: i64,
    pub session_count: i64,
    pub pages_read: i64,
}

impl View for ReadCompletion {
    type V = ReadCompletionView;

    open spec fn view(&self) -> ReadCompletionView {
        ReadCompletionView {
            start_date: self.start_date@,
            end_date: self.end_date@,
            reading_time: self.reading_time,
            session_count: self.session_count,
            pages_read: self.pages_read,
        }
    }
}

impl ReadCompletion {
    /// A completion with the given fields.
    pub fn new(
        start_date: String,
        end_date: String,
        reading_time: i64,
        session_count: i64,
        pages_read: i64,
    ) -> (r: Self)
        ensures
            r@ == (ReadCompletionView {
                start_date: start_date@,
                end_date: end_date@,
                reading_time,
                session_count,
                pages_read,
            }),
    {
        ReadCompletion { start_date, end_date, reading_time, session_count, pages_read }
    }

    /// Average session duration in seconds, when there was a session.
    pub fn avg_session_duration(&self) -> (r: Option<i64>)
        ensures
            self.session_count > 0 ==> r == Some(
                trunc_div(self.reading_time as int, self.session_count as int) as i64,
            ),
            self.session_count <= 0 ==> r is None,
    {
        if self.session_count > 0 {
            Some(self.reading_time / self.session_count)
        } else {
            None
        }
    }

    /// Number of calendar days the completion spans, both ends included.
    pub fn calendar_length_days(&self) -> (r: Option<i64>)
        ensures
            match (iso_date_day(self.start_date@), iso_date_day(self.end_date@)) {
                (Some(s), Some(e)) => r == Some(
                    ((if e >= s {
                        e - s
                    } else {
                        s - e
                    }) + 1) as i64,
                ),
                _ => r is None,
            },
    {
        match (parse_iso_date(self.start_date.as_str()), parse_iso_date(self.end_date.as_str())) {
            (Some(s), Some(e)) => {
                let s = s.0 as i64;
                let e = e.0 as i64;
                let span = if e >= s {
                    e - s
                } else {
                    s - e
                };
                Some(span + 1)
            },
            _ => None,
        }
    }

    /// A copy with the same content.
    pub fn duplicate(&self) -> (r: Self)
        ensures
            r@ == self@,
    {
        ReadCompletion {
            start_date: copy_string(&self.start_date),
            end_date: copy_string(&self.end_date),
            reading_time: self.reading_time,
            session_count: self.session_count,
            pages_read: self.pages_read,
        }
    }
}

/// All reading completions of a book.
#[derive(Clone, Debug)]
pub struct BookCompletions {
    pub entries: Vec<ReadCompletion>,
    pub total_completions: usize,
    pub last_completion_date: Option<String>,
}

/// The content of a book's completions.
pub struct BookCompletionsView {
    pub entries: Seq<ReadCompletionView>,
    pub total_completions: usize,
    pub last_completion_date: Option<Seq<char>>,
}

impl View for BookCompletions {
    type V = BookCompletionsView;

    open spec fn view(&self) -> BookCompletionsView {
        BookCompletionsView {
            entries: self.entries@.map_values(|c: ReadCompletion| c@),
            total_completions: self.total_completions,
            last_completion_date: opt_text(self.last_completion_date),
        }
    }
}

fn duplicate_completions(v: &Vec<ReadCompletion>) -> (r: Vec<ReadCompletion>)
    ensures
        r@.map_values(|c: ReadCompletion| c@) == v@.map_values(|c: ReadCompletion| c@),
{
    let mut out: Vec<ReadCompletion> = Vec::new();
    let mut i: usize = 0;
    while i < v.len()
        invariant
            i <= v.len(),
            out.len() == i,
            forall|j: int| 0 <= j < i ==> out@[j]@ == v@[j]@,
        decreases v.len() - i,
    {
        out.push(v[i].duplicate());
        i += 1;
    }
    assert(out@.map_values(|c: ReadCompletion| c@) =~= v@.map_values(|c: ReadCompletion| c@));
    out
}

impl BookCompletions {
    /// Completions from their entries: the count and the end date of the last one.
    pub fn new(entries: Vec<ReadCompletion>) -> (r: Self)
        ensures
            r@.entries == entries@.map_values(|c: ReadCompletion| c@),
            r.total_completions == entries.len(),
            entries.len() == 0 ==> r@.last_completion_date is None,
            entries.len() > 0 ==> r@.last_completion_date == Some(entries@.last()@.end_date),
    {
        let total_completions = entries.len();
        let last_completion_date = if entries.len() > 0 {
            Some(copy_string(&entries[entries.len() - 1].end_date))
        } else {
            None
        };
        BookCompletions { entries, total_completions, last_completion_date }
    }

    /// Whether the book was completed at least once.
    pub fn has_completions(&self) -> (r: bool)
        ensures
            r == (self.entries.len() > 0),
    {
        self.entries.len() > 0
    }

    /// A copy with the same content.
    pub fn duplicate(&self) -> (r: Self)
        ensures
            r@ == self@,
    {
        BookCompletions {
            entries: duplicate_completions(&self.entries),
            total_completions: self.total_completions,
            last_completion_date: copy_opt_string(&self.last_completion_date),
        }
    }
}

// ── Statistics ────────────────────────────────────────────────────────────

/// A book row of KOReader's statistics database.
#[derive(Clone, Debug)]
pub struct StatBook {
    pub id: i64,
    pub title: String,
    pub authors: String,
    pub notes: Option<i64>,
    pub last_open: Option<i64>,
    pub highlights: Option<i64>,
    pub pages: Option<i64>,
    pub md5: String,
    pub content_type: Option<ContentType>,
    pub total_read_time: Option<i64>,
    pub total_read_pages: Option<i64>,
    pub completions: Option<BookCompletions>,
}

/// The content of a statistics book row.
pub struct StatBookView {
    pub id: i64,
    pub title: Seq<char>,
    pub authors: Seq<char>,
    pub notes: Option<i64>,
    pub last_open: Option<i64>,
    pub highlights: Option<i64>,
    pub pages: Option<i64>,
    pub md5: Seq<char>,
    pub content_type: Option<ContentType>,
    pub total_read_time: Option<i64>,
    pub total_read_pages: Option<i64>,
    pub completions: Option<BookCompletionsView>,
}

impl View for StatBook {
    type V = StatBookView;

    open spec fn view(&self) -> StatBookView {
        StatBookView {
            id: self.id,
            title: self.title@,
            authors: self.authors@,
            notes: self.notes,
            last_open: self.last_open,
            highlights: self.highlights,
            pages: self.pages,
            md5: self.md5@,
            content_type: self.content_type,
            total_read_time: self.total_read_time,
            total_read_pages: self.total_read_pages,
            completions: match self.completions {
                Some(c) => Some(c@),
                None => None,
            },
        }
    }
}

impl StatBook {
    /// A copy with the same content.
    pub fn duplicate(&self) -> (r: Self)
        ensures
            r@ == self@,
    {
        StatBook {
            id: self.id,
            title: copy_string(&self.title),
            authors: copy_string(&self.authors),
            notes: self.notes,
            last_open: self.last_open,
            highlights: self.highlights,
            pages: self.pages,
            md5: copy_string(&self.md5),
            content_type: self.content_type,
            total_read_time: self.total_read_time,
            total_read_pages: self.total_read_pages,
            completions: match &self.completions {
                Some(c) => Some(c.duplicate()),
                None => None,
            },
        }
    }
}

/// One page-read record of KOReader's statistics database.
#[derive(Clone, Copy, Debug, PartialEq, Eq, Structural)]
pub struct PageStat {
    pub id_book: i64,
    pub page: i64,
    pub start_time: i64,
    pub duration: i64,
}

/// KOReader statistics: book rows, page reads, and book rows by MD5.
#[derive(Clone, Debug)]
pub struct StatisticsData {
    pub books: Vec<StatBook>,
    pub page_stats: Vec<PageStat>,
    /// Book rows keyed by MD5; each key occurs once.
    pub stats_by_md5: Vec<(String, StatBook)>,
}

/// The contents of a keyed list as text keys and viewed values.
pub open spec fn keyed_view<V: View>(m: Seq<(String, V)>) -> Seq<(Seq<char>, V::V)> {
    m.map_values(|e: (String, V)| (e.0@, e.1@))
}

/// The value of the first entry with key `k`.
pub open spec fn lookup<V>(m: Seq<(String, V)>, k: Seq<char>) -> Option<V>
    decreases m.len(),
{
    if m.len() == 0 {
        None
    } else if m[0].0@ == k {
        Some(m[0].1)
    } else {
        lookup(m.drop_first(), k)
    }
}

/// Finds the value of the first entry with key `k`.
pub fn find_by_key<V: Copy>(m: &Vec<(String, V)>, k: &str) -> (r: Option<V>)
    ensures
        r == lookup(m@, k@),
{
    let mut i: usize = 0;
    assert(m@.subrange(0, m.len() as int) =~= m@);
    while i < m.len()
        invariant
            i <= m.len(),
            lookup(m@, k@) == lookup(m@.subrange(i as int, m.len() as int), k@),
        decreases m.len() - i,
    {
        let ghost rest = m@.subrange(i as int, m.len() as int);
        assert(rest.drop_first() =~= m@.subrange(i + 1, m.len() as int));
        if str_eq(m[i].0.as_str(), k) {
            return Some(m[i].1);
        }
        i += 1;
    }
    None
}

/// The content type a MD5 gets from the lookup table: by the MD5 itself, else by its lowercase form.
pub open spec fn spec_tagged_type(
    table: Seq<(String, ContentType)>,
    md5: Seq<char>,
) -> Option<ContentType> {
    match lookup(table, md5) {
        Some(t) => Some(t),
        None => lookup(table, lowercase(md5)),
    }
}

/// Page count after removing `hidden` pages: unchanged unless the difference stays positive.
pub open spec fn spec_adjusted_pages(pages: Option<i64>, hidden: Option<i32>) -> Option<i64> {
    match (hidden, pages) {
        (Some(h), Some(p)) => {
            let d = p - h;
            let a = if d < i64::MIN {
                i64::MIN as int
            } else if d > i64::MAX {
                i64::MAX as int
            } else {
                d
            };
            if a > 0 {
                Some(a as i64)
            } else {
                Some(p)
            }
        },
        _ => pages,
    }
}

fn tagged_type(table: &Vec<(String, ContentType)>, md5: &str) -> (r: Option<ContentType>)
    ensures
        r == spec_tagged_type(table@, md5@),
{
    match find_by_key(table, md5) {
        Some(t) => Some(t),
        None => {
            let lower = to_lowercase(md5);
            find_by_key(table, lower.as_str())
        },
    }
}

/// An empty book row, swapped in while a row is taken out and edited.
fn placeholder_book() -> (r: StatBook)
    ensures
        r@ == (StatBookView {
            id: 0,
            title: Seq::empty(),
            authors: Seq::empty(),
            notes: None,
            last_open: None,
            highlights: None,
            pages: None,
            md5: Seq::empty(),
            content_type: None,
            total_read_time: None,
            total_read_pages: None,
            completions: None,
        }),
{
    StatBook {
        id: 0,
        title: String::new(),
        authors: String::new(),
        notes: None,
        last_open: None,
        highlights: None,
        pages: None,
        md5: String::new(),
        content_type: None,
        total_read_time: None,
        total_read_pages: None,
        completions: None,
    }
}

impl StatisticsData {
    /// Tags each book row, and each keyed row, with the content type the table gives its MD5
    /// (or the lowercase MD5); rows not found get no content type.
    pub fn tag_content_types(&mut self, md5_to_content_type: &Vec<(String, ContentType)>)
        ensures
            final(self).books.len() == old(self).books.len(),
            forall|i: int|
                0 <= i < old(self).books.len() ==> #[trigger] final(self).books@[i] == (StatBook {
                    content_type: spec_tagged_type(md5_to_content_type@, old(self).books@[i].md5@),
                    ..old(self).books@[i]
                }),
            final(self).stats_by_md5.len() == old(self).stats_by_md5.len(),
            forall|i: int|
                0 <= i < old(self).stats_by_md5.len() ==> #[trigger] final(self).stats_by_md5@[i]
                    == (old(self).stats_by_md5@[i].0, StatBook {
                    content_type: spec_tagged_type(
                        md5_to_content_type@,
                        old(self).stats_by_md5@[i].0@,
                    ),
                    ..old(self).stats_by_md5@[i].1
                }),
            final(self).page_stats == old(self).page_stats,
    {
        let n = self.books.len();
        let mut i: usize = 0;
        while i < n
            invariant
                i <= n,
                n == old(self).books.len(),
                self.books.len() == n,
                forall|j: int|
                    0 <= j < i ==> #[trigger] self.books@[j] == (StatBook {
                        content_type: spec_tagged_type(md5_to_content_type@, old(self).books@[j].md5@),
                        ..old(self).books@[j]
                    }),
                forall|j: int| i <= j < n ==> #[trigger] self.books@[j] == old(self).books@[j],
                self.stats_by_md5 == old(self).stats_by_md5,
                self.page_stats == old(self).page_stats,
            decreases n - i,
        {
            let t = tagged_type(md5_to_content_type, self.books[i].md5.as_str());
            let mut b = placeholder_book();
            self.books.set_and_swap(i, &mut b);
            b.content_type = t;
            self.books.set_and_swap(i, &mut b);
            i += 1;
        }
        let m = self.stats_by_md5.len();
        let mut k: usize = 0;
        while k < m
            invariant
                k <= m,
                m == old(self).stats_by_md5.len(),
                self.stats_by_md5.len() == m,
                self.books.len() == n,
                forall|j: int|
                    0 <= j < n ==> #[trigger] self.books@[j] == (StatBook {
                        content_type: spec_tagged_type(md5_to_content_type@, old(self).books@[j].md5@),
                        ..old(self).books@[j]
                    }),
                forall|j: int|
                    0 <= j < k ==> #[trigger] self.stats_by_md5@[j] == (
                        old(self).stats_by_md5@[j].0,
                        StatBook {
                            content_type: spec_tagged_type(
                                md5_to_content_type@,
                                old(self).stats_by_md5@[j].0@,
                            ),
                            ..old(self).stats_by_md5@[j].1
                        },
                    ),
                forall|j: int| k <= j < m ==> #[trigger] self.stats_by_md5@[j] == old(self).stats_by_md5@[j],
                self.page_stats == old(self).page_stats,
            decreases m - k,
        {
            let t = tagged_type(md5_to_content_type, self.stats_by_md5[k].0.as_str());
            let mut e = (String::new(), placeholder_book());
            self.stats_by_md5.set_and_swap(k, &mut e);
            e.1.content_type = t;
            self.stats_by_md5.set_and_swap(k, &mut e);
            k += 1;
        }
    }
}


fn adjust_book_pages(book: &mut StatBook, hidden_pages_by_md5: &Vec<(String, i32)>)
    ensures
        *final(book) == (StatBook {
            pages: spec_adjusted_pages(old(book).pages, lookup(hidden_pages_by_md5@, old(book).md5@)),
            ..*old(book)
        }),
{
    match (find_by_key(hidden_pages_by_md5, book.md5.as_str()), book.pages) {
        (Some(hidden), Some(pages)) => {
            let d: i128 = pages as i128 - hidden as i128;
            let adjusted: i64 = if d < i64::MIN as i128 {
                i64::MIN
            } else if d > i64::MAX as i128 {
                i64::MAX
            } else {
                d as i64
            };
            if adjusted > 0 {
                book.pages = Some(adjusted);
            }
        },
        _ => {},
    }
}

/// Books of content type `t`, in order.
pub open spec fn books_of_type(books: Seq<StatBookView>, t: ContentType) -> Seq<StatBookView>
    decreases books.len(),
{
    if books.len() == 0 {
        Seq::empty()
    } else if books.last().content_type == Some(t) {
        books_of_type(books.drop_last(), t).push(books.last())
    } else {
        books_of_type(books.drop_last(), t)
    }
}

/// Whether some book in `books` has id `id`.
pub open spec fn has_book_id(books: Seq<StatBookView>, id: i64) -> bool {
    exists|j: int| 0 <= j < books.len() && books[j].id == id
}

/// Page reads whose book is among `books`, in order.
pub open spec fn stats_of_books(stats: Seq<PageStat>, books: Seq<StatBookView>) -> Seq<PageStat>
    decreases stats.len(),
{
    if stats.len() == 0 {
        Seq::empty()
    } else if has_book_id(books, stats.last().id_book) {
        stats_of_books(stats.drop_last(), books).push(stats.last())
    } else {
        stats_of_books(stats.drop_last(), books)
    }
}

/// A keyed list with `k` set to `v`: the entry with key `k` is replaced, or a new entry appended.
pub open spec fn keyed_insert<V>(m: Seq<(Seq<char>, V)>, k: Seq<char>, v: V) -> Seq<(Seq<char>, V)>
    decreases m.len(),
{
    if m.len() == 0 {
        seq![(k, v)]
    } else if m[0].0 == k {
        m.update(0, (k, v))
    } else {
        seq![m[0]] + keyed_insert(m.drop_first(), k, v)
    }
}

/// Book rows keyed by MD5, built by inserting `books` in order (a later row replaces an earlier one).
pub open spec fn keyed_by_md5(books: Seq<StatBookView>) -> Seq<(Seq<char>, StatBookView)>
    decreases books.len(),
{
    if books.len() == 0 {
        Seq::empty()
    } else {
        keyed_insert(keyed_by_md5(books.drop_last()), books.last().md5, books.last())
    }
}

proof fn lemma_keyed_insert_at<V>(m: Seq<(Seq<char>, V)>, k: Seq<char>, v: V, j: int)
    requires
        0 <= j < m.len(),
        m[j].0 == k,
        forall|i: int| 0 <= i < j ==> m[i].0 != k,
    ensures
        keyed_insert(m, k, v) == m.update(j, (k, v)),
    decreases m.len(),
{
    if j > 0 {
        lemma_keyed_insert_at(m.drop_first(), k, v, j - 1);
        assert(seq![m[0]] + m.drop_first().update(j - 1, (k, v)) =~= m.update(j, (k, v)));
    }
}

proof fn lemma_keyed_insert_new<V>(m: Seq<(Seq<char>, V)>, k: Seq<char>, v: V)
    requires
        forall|i: int| 0 <= i < m.len() ==> m[i].0 != k,
    ensures
        keyed_insert(m, k, v) == m.push((k, v)),
    decreases m.len(),
{
    if m.len() > 0 {
        assert(m[0].0 != k);
        lemma_keyed_insert_new(m.drop_first(), k, v);
        assert(seq![m[0]] + m.drop_first().push((k, v)) =~= m.push((k, v)));
    }
}

fn book_ids_contain(books: &Vec<StatBook>, id: i64) -> (r: bool)
    ensures
        r == has_book_id(books@.map_values(|b: StatBook| b@), id),
{
    let ghost vs = books@.map_values(|b: StatBook| b@);
    let mut i: usize = 0;
    while i < books.len()
        invariant
            i <= books.len(),
            vs == books@.map_values(|b: StatBook| b@),
            forall|j: int| 0 <= j < i ==> vs[j].id != id,
        decreases books.len() - i,
    {
        if books[i].id == id {
            assert(vs[i as int].id == id);
            return true;
        }
        i += 1;
    }
    false
}

fn md5_index(m: &Vec<(String, StatBook)>, k: &str) -> (r: Option<usize>)
    ensures
        match r {
            Some(j) => j < m.len() && m@[j as int].0@ == k@ && forall|i: int|
                0 <= i < j ==> m@[i].0@ != k@,
            None => forall|i: int| 0 <= i < m.len() ==> m@[i].0@ != k@,
        },
{
    let mut i: usize = 0;
    while i < m.len()
        invariant
            i <= m.len(),
            forall|j: int| 0 <= j < i ==> m@[j].0@ != k@,
        decreases m.len() - i,
    {
        if str_eq(m[i].0.as_str(), k) {
            return Some(i);
        }
        i += 1;
    }
    None
}

impl StatisticsData {
    /// Subtracts hidden-flow pages from the page counts of the books the table names
    /// (by MD5), in `books` and in `stats_by_md5`; a count is only replaced by a positive result.
    pub fn apply_hidden_flow_adjustments(&mut self, hidden_pages_by_md5: &Vec<(String, i32)>)
        ensures
            final(self).books.len() == old(self).books.len(),
            forall|i: int|
                0 <= i < old(self).books.len() ==> #[trigger] final(self).books@[i] == (StatBook {
                    pages: spec_adjusted_pages(
                        old(self).books@[i].pages,
                        lookup(hidden_pages_by_md5@, old(self).books@[i].md5@),
                    ),
                    ..old(self).books@[i]
                }),
            final(self).stats_by_md5.len() == old(self).stats_by_md5.len(),
            forall|i: int|
                0 <= i < old(self).stats_by_md5.len() ==> #[trigger] final(self).stats_by_md5@[i]
                    == (old(self).stats_by_md5@[i].0, StatBook {
                    pages: spec_adjusted_pages(
                        old(self).stats_by_md5@[i].1.pages,
                        lookup(hidden_pages_by_md5@, old(self).stats_by_md5@[i].1.md5@),
                    ),
                    ..old(self).stats_by_md5@[i].1
                }),
            final(self).page_stats == old(self).page_stats,
    {
        let n = self.books.len();
        let mut i: usize = 0;
        while i < n
            invariant
                i <= n,
                n == old(self).books.len(),
                self.books.len() == n,
                forall|j: int|
                    0 <= j < i ==> #[trigger] self.books@[j] == (StatBook {
                        pages: spec_adjusted_pages(
                            old(self).books@[j].pages,
                            lookup(hidden_pages_by_md5@, old(self).books@[j].md5@),
                        ),
                        ..old(self).books@[j]
                    }),
                forall|j: int| i <= j < n ==> #[trigger] self.books@[j] == old(self).books@[j],
                self.stats_by_md5 == old(self).stats_by_md5,
                self.page_stats == old(self).page_stats,
            decreases n - i,
        {
            let mut b = placeholder_book();
            self.books.set_and_swap(i, &mut b);
            adjust_book_pages(&mut b, hidden_pages_by_md5);
            self.books.set_and_swap(i, &mut b);
            i += 1;
        }
        let m = self.stats_by_md5.len();
        let mut k: usize = 0;
        while k < m
            invariant
                k <= m,
                m == old(self).stats_by_md5.len(),
                self.stats_by_md5.len() == m,
                self.books.len() == n,
                forall|j: int|
                    0 <= j < n ==> #[trigger] self.books@[j] == (StatBook {
                        pages: spec_adjusted_pages(
                            old(self).books@[j].pages,
                            lookup(hidden_pages_by_md5@, old(self).books@[j].md5@),
                        ),
                        ..old(self).books@[j]
                    }),
                forall|j: int|
                    0 <= j < k ==> #[trigger] self.stats_by_md5@[j] == (
                        old(self).stats_by_md5@[j].0,
                        StatBook {
                            pages: spec_adjusted_pages(
                                old(self).stats_by_md5@[j].1.pages,
                                lookup(hidden_pages_by_md5@, old(self).stats_by_md5@[j].1.md5@),
                            ),
                            ..old(self).stats_by_md5@[j].1
                        },
                    ),
                forall|j: int| k <= j < m ==> #[trigger] self.stats_by_md5@[j] == old(self).stats_by_md5@[j],
                self.page_stats == old(self).page_stats,
            decreases m - k,
        {
            let mut e = (String::new(), placeholder_book());
            self.stats_by_md5.set_and_swap(k, &mut e);
            adjust_book_pages(&mut e.1, hidden_pages_by_md5);
            self.stats_by_md5.set_and_swap(k, &mut e);
            k += 1;
        }
    }

    /// The statistics restricted to content type `t`: its books, the page reads of those books,
    /// and those books keyed by MD5 (a later book replaces an earlier one with the same MD5).
    pub fn filtered_by_content_type(&self, content_type: ContentType) -> (r: Self)
        ensures
            r.books@.map_values(|b: StatBook| b@) == books_of_type(
                self.books@.map_values(|b: StatBook| b@),
                content_type,
            ),
            r.page_stats@ == stats_of_books(
                self.page_stats@,
                r.books@.map_values(|b: StatBook| b@),
            ),
            keyed_view(r.stats_by_md5@) == keyed_by_md5(r.books@.map_values(|b: StatBook| b@)),
    {
        let ghost src = self.books@.map_values(|b: StatBook| b@);
        let mut books: Vec<StatBook> = Vec::new();
        let mut i: usize = 0;
        while i < self.books.len()
            invariant
                i <= self.books.len(),
                src == self.books@.map_values(|b: StatBook| b@),
                books@.map_values(|b: StatBook| b@) == books_of_type(src.take(i as int), content_type),
            decreases self.books.len() - i,
        {
            assert(src.take(i + 1).drop_last() =~= src.take(i as int));
            let ghost before = books@.map_values(|b: StatBook| b@);
            if self.books[i].content_type == Some(content_type) {
                books.push(self.books[i].duplicate());
                assert(books@.map_values(|b: StatBook| b@) =~= before.push(src[i as int]));
            }
            i += 1;
        }
        assert(src.take(self.books.len() as int) =~= src);
        let ghost kept = books@.map_values(|b: StatBook| b@);
        let mut page_stats: Vec<PageStat> = Vec::new();
        let mut p: usize = 0;
        while p < self.page_stats.len()
            invariant
                p <= self.page_stats.len(),
                kept == books@.map_values(|b: StatBook| b@),
                page_stats@ == stats_of_books(self.page_stats@.take(p as int), kept),
            decreases self.page_stats.len() - p,
        {
            assert(self.page_stats@.take(p + 1).drop_last() =~= self.page_stats@.take(p as int));
            let ps = self.page_stats[p];
            if book_ids_contain(&books, ps.id_book) {
                page_stats.push(ps);
            }
            p += 1;
        }
        assert(self.page_stats@.take(self.page_stats.len() as int) =~= self.page_stats@);
        let mut stats_by_md5: Vec<(String, StatBook)> = Vec::new();
        let mut q: usize = 0;
        while q < books.len()
            invariant
                q <= books.len(),
                kept == books@.map_values(|b: StatBook| b@),
                keyed_view(stats_by_md5@) == keyed_by_md5(kept.take(q as int)),
            decreases books.len() - q,
        {
            assert(kept.take(q + 1).drop_last() =~= kept.take(q as int));
            let ghost before = keyed_view(stats_by_md5@);
            let key = copy_string(&books[q].md5);
            let value = books[q].duplicate();
            match md5_index(&stats_by_md5, key.as_str()) {
                Some(j) => {
                    proof {
                        lemma_keyed_insert_at(before, key@, value@, j as int);
                    }
                    let mut e = (key, value);
                    stats_by_md5.set_and_swap(j, &mut e);
                    assert(keyed_view(stats_by_md5@) =~= before.update(j as int, (kept[q as int].md5, kept[q as int])));
                },
                None => {
                    proof {
                        lemma_keyed_insert_new(before, key@, value@);
                    }
                    stats_by_md5.push((key, value));
                    assert(keyed_view(stats_by_md5@) =~= before.push((kept[q as int].md5, kept[q as int])));
                },
            }
            q += 1;
        }
        assert(kept.take(books.len() as int) =~= kept);
        StatisticsData { books, page_stats, stats_by_md5 }
    }
}

/// A reading streak with its date range.
#[derive(Clone, Debug)]
pub struct StreakInfo {
    pub days: i64,
    pub start_date: Option<String>,
    pub end_date: Option<String>,
}

impl StreakInfo {
    /// A streak with the given fields.
    pub fn new(days: i64, start_date: Option<String>, end_date: Option<String>) -> (r: Self)
        ensures
            r.days == days,
            opt_text(r.start_date) == opt_text(start_date),
            opt_text(r.end_date) == opt_text(end_date),
    {
        StreakInfo { days, start_date, end_date }
    }
}

/// Reading statistics over all page reads.
#[derive(Clone, Debug)]
pub struct ReadingStats {
    pub total_read_time: i64,
    pub total_page_reads: i64,
    pub longest_read_time_in_day: i64,
    pub most_pages_in_day: i64,
    pub average_session_duration: Option<i64>,
    pub longest_session_duration: Option<i64>,
    pub total_completions: i64,
    pub books_completed: i64,
    pub most_completions: i64,
    pub longest_streak: StreakInfo,
    pub current_streak: StreakInfo,
    pub weeks: Vec<WeeklyStats>,
    pub daily_activity: Vec<DailyStats>,
}

/// Reading statistics of one week.
#[derive(Clone, Debug)]
pub struct WeeklyStats {
    pub start_date: String,
    pub end_date: String,
    pub read_time: i64,
    pub pages_read: i64,
    pub longest_session_duration: Option<i64>,
    pub average_session_duration: Option<i64>,
}

/// Reading statistics of one day, for the activity heatmap.
#[derive(Clone, Debug)]
pub struct DailyStats {
    pub date: String,
    pub read_time: i64,
    pub pages_read: i64,
}

proof fn lemma_books_of_type_are_of_type(books: Seq<StatBookView>, t: ContentType)
    ensures
        forall|i: int| 0 <= i < books_of_type(books, t).len() ==> (#[trigger] books_of_type(books, t)[i]).content_type
            == Some(t),
    decreases books.len(),
{
    if books.len() > 0 {
        lemma_books_of_type_are_of_type(books.drop_last(), t);
    }
}

proof fn lemma_books_of_type_keeps(books: Seq<StatBookView>, t: ContentType)
    requires
        forall|i: int| 0 <= i < books.len() ==> (#[trigger] books[i]).content_type == Some(t),
    ensures
        books_of_type(books, t) == books,
    decreases books.len(),
{
    if books.len() > 0 {
        lemma_books_of_type_keeps(books.drop_last(), t);
        assert(books.drop_last().push(books.last()) =~= books);
    }
}

proof fn lemma_stats_of_books_belong(stats: Seq<PageStat>, books: Seq<StatBookView>)
    ensures
        forall|i: int| 0 <= i < stats_of_books(stats, books).len() ==> has_book_id(
            books,
            (#[trigger] stats_of_books(stats, books)[i]).id_book,
        ),
    decreases stats.len(),
{
    if stats.len() > 0 {
        lemma_stats_of_books_belong(stats.drop_last(), books);
        let prev = stats_of_books(stats.drop_last(), books);
        let r = stats_of_books(stats, books);
        assert forall|i: int| 0 <= i < r.len() implies has_book_id(books, (#[trigger] r[i]).id_book) by {
            if i < prev.len() {
                assert(r[i] == prev[i]);
            }
        }
    }
}

proof fn lemma_stats_of_books_keeps(stats: Seq<PageStat>, books: Seq<StatBookView>)
    requires
        forall|i: int| 0 <= i < stats.len() ==> has_book_id(books, (#[trigger] stats[i]).id_book),
    ensures
        stats_of_books(stats, books) == stats,
    decreases stats.len(),
{
    if stats.len() > 0 {
        lemma_stats_of_books_keeps(stats.drop_last(), books);
        assert(has_book_id(books, stats[stats.len() - 1].id_book));
        assert(stats.drop_last().push(stats.last()) =~= stats);
    }
}

/// Filtering by content type twice gives what filtering once gives: the books kept are all of
/// that type, and the page reads kept all belong to them (see `filtered_by_content_type`).
pub proof fn lemma_filter_by_type_is_idempotent(books: Seq<StatBookView>, stats: Seq<PageStat>, t: ContentType)
    ensures
        books_of_type(books_of_type(books, t), t) == books_of_type(books, t),
        stats_of_books(stats_of_books(stats, books_of_type(books, t)), books_of_type(books_of_type(books, t), t))
            == stats_of_books(stats, books_of_type(books, t)),
{
    let once = books_of_type(books, t);
    lemma_books_of_type_are_of_type(books, t);
    lemma_books_of_type_keeps(once, t);
    lemma_stats_of_books_belong(stats, once);
    lemma_stats_of_books_keeps(stats_of_books(stats, once), once);
}

} // verus!
