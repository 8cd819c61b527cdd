//! The reading calendar: for each book, one event per run of consecutive days on which it was
//! read, with the time spent and the pages read in the run; and the books the events refer to.
use vstd::prelude::*;
use crate::dates::iso_date_text;
use crate::opf::texts_of;
use crate::parsers::part_views;
use crate::recap_months::names_of;
use crate::sessions::counted_time;
use crate::stats_types::{PageStat, StatBook, StatisticsData};
use crate::text::{
    chars_of, copy_string, less_than, lemma_text_lt_total, lemma_text_lt_transitive, string_from_chars, text_lt,
    trim_chars,
};
use crate::time_config::{chrono_inner_ts, chrono_timestamp_ok, day_text, effective_ts, local_day, local_day_of, timestamp_in_range};
use crate::xml::opt_view;

verus! {

/// An all-day event of the calendar: its first day, the day after its last day when it spans
/// several days, the seconds and pages read, and the MD5 of the book.
#[derive(Clone, Debug, PartialEq, Eq)]
pub struct CalendarEvent {
    pub start: String,
    pub end: Option<String>,
    pub total_read_time: i64,
    pub total_pages_read: i64,
    pub book_id: String,
}

/// A book of the calendar: its title and authors, and its page and cover in the generated
/// site where the library has it.
#[derive(Clone, Debug, PartialEq, Eq)]
pub struct CalendarBook {
    pub title: String,
    pub authors: Vec<String>,
    pub book_path: Option<String>,
    pub book_cover: Option<String>,
}

/// The calendar: its events by first day, and its books keyed by MD5.
pub struct CalendarData {
    pub events: Vec<CalendarEvent>,
    pub books: Vec<(String, CalendarBook)>,
}

/// The content of an event.
pub struct EventView {
    pub start: Seq<char>,
    pub end: Option<Seq<char>>,
    pub total_read_time: int,
    pub total_pages_read: int,
    pub book_id: Seq<char>,
}

/// The content of a calendar book.
pub struct CalendarBookView {
    pub title: Seq<char>,
    pub authors: Seq<Seq<char>>,
    pub book_path: Option<Seq<char>>,
    pub book_cover: Option<Seq<char>>,
}

/// The view of an event.
pub open spec fn event_view(e: CalendarEvent) -> EventView {
    EventView {
        start: e.start@,
        end: opt_view(e.end),
        total_read_time: e.total_read_time as int,
        total_pages_read: e.total_pages_read as int,
        book_id: e.book_id@,
    }
}

/// The views of events.
pub open spec fn events_view(v: Seq<CalendarEvent>) -> Seq<EventView> {
    v.map_values(|e: CalendarEvent| event_view(e))
}

/// The view of a calendar book.
pub open spec fn calendar_book_view(b: CalendarBook) -> CalendarBookView {
    CalendarBookView {
        title: b.title@,
        authors: texts_of(b.authors@),
        book_path: opt_view(b.book_path),
        book_cover: opt_view(b.book_cover),
    }
}

/// The views of keyed calendar books.
pub open spec fn calendar_books_view(v: Seq<(String, CalendarBook)>) -> Seq<(Seq<char>, CalendarBookView)> {
    v.map_values(|e: (String, CalendarBook)| (e.0@, calendar_book_view(e.1)))
}

/// The books with counting reads (positive duration), each once, in order of their first read.
pub open spec fn book_order(s: Seq<PageStat>) -> Seq<i64>
    decreases s.len(),
{
    if s.len() == 0 {
        Seq::empty()
    } else {
        let prev = book_order(s.drop_last());
        let p = s.last();
        if p.duration > 0 && !prev.contains(p.id_book) {
            prev.push(p.id_book)
        } else {
            prev
        }
    }
}

/// Index of the first day of `ds` that is not before `x`.
pub open spec fn first_day_from(ds: Seq<i32>, x: i32) -> int
    decreases ds.len(),
{
    if ds.len() == 0 || ds[0] >= x {
        0
    } else {
        1 + first_day_from(ds.drop_first(), x)
    }
}

/// `ds` (ascending) with day `x` added where it is not there yet.
pub open spec fn with_day(ds: Seq<i32>, x: i32) -> Seq<i32> {
    let j = first_day_from(ds, x);
    if j < ds.len() && ds[j] == x {
        ds
    } else {
        ds.insert(j, x)
    }
}

/// The days (ascending, each once) of the counting reads of book `id`; `d` gives the day of
/// each read, `None` where it has none.
pub open spec fn book_days(s: Seq<PageStat>, d: Seq<Option<i32>>, id: i64) -> Seq<i32>
    decreases s.len(),
{
    if s.len() == 0 || d.len() != s.len() {
        Seq::empty()
    } else {
        let prev = book_days(s.drop_last(), d.drop_last(), id);
        let p = s.last();
        match d.last() {
            Some(x) => if p.duration > 0 && p.id_book == id {
                with_day(prev, x)
            } else {
                prev
            },
            None => prev,
        }
    }
}

/// The runs of consecutive days of `ds` (ascending), as (first day, last day).
pub open spec fn day_runs(ds: Seq<i32>) -> Seq<(i32, i32)>
    decreases ds.len(),
{
    if ds.len() == 0 {
        Seq::empty()
    } else {
        let r = day_runs(ds.drop_last());
        let x = ds.last();
        if r.len() > 0 && r.last().1 + 1 == x {
            r.update(r.len() - 1, (r.last().0, x))
        } else {
            r.push((x, x))
        }
    }
}

/// Seconds and number of the counting reads of book `id` on the days `first..=last`.
pub open spec fn run_totals(s: Seq<PageStat>, d: Seq<Option<i32>>, id: i64, first: i32, last: i32) -> (int, int)
    decreases s.len(),
{
    if s.len() == 0 || d.len() != s.len() {
        (0, 0)
    } else {
        let (t, n) = run_totals(s.drop_last(), d.drop_last(), id, first, last);
        let p = s.last();
        match d.last() {
            Some(x) => if p.duration > 0 && p.id_book == id && first <= x <= last {
                (t + p.duration, n + 1)
            } else {
                (t, n)
            },
            None => (t, n),
        }
    }
}

/// The event of a run of days of book `id` with MD5 `md5`.
pub open spec fn run_event(s: Seq<PageStat>, d: Seq<Option<i32>>, id: i64, md5: Seq<char>, run: (i32, i32)) -> EventView {
    let (t, n) = run_totals(s, d, id, run.0, run.1);
    EventView {
        start: iso_date_text(run.0),
        end: if run.0 == run.1 {
            None
        } else {
            Some(iso_date_text((run.1 + 1) as i32))
        },
        total_read_time: t,
        total_pages_read: n,
        book_id: md5,
    }
}

/// The first statistics book with id `id`.
pub open spec fn first_book(books: Seq<StatBook>, id: i64) -> Option<StatBook>
    decreases books.len(),
{
    if books.len() == 0 {
        None
    } else if books[0].id == id {
        Some(books[0])
    } else {
        first_book(books.drop_first(), id)
    }
}

/// The events of the books `order`, book after book, each book's runs in order; a book
/// without a statistics row has none.
pub open spec fn book_events(s: Seq<PageStat>, d: Seq<Option<i32>>, books: Seq<StatBook>, order: Seq<i64>) -> Seq<EventView>
    decreases order.len(),
{
    if order.len() == 0 {
        Seq::empty()
    } else {
        let prev = book_events(s, d, books, order.drop_last());
        let id = order.last();
        match first_book(books, id) {
            Some(b) => prev + day_runs(book_days(s, d, id)).map_values(|r: (i32, i32)| run_event(s, d, id, b.md5@, r)),
            None => prev,
        }
    }
}

/// `s` (by first day) with `x` placed after every event that starts no later than it.
pub open spec fn insert_by_start(s: Seq<EventView>, x: EventView) -> Seq<EventView>
    decreases s.len(),
{
    if s.len() == 0 {
        seq![x]
    } else if text_lt(x.start, s.last().start) {
        insert_by_start(s.drop_last(), x).push(s.last())
    } else {
        s.push(x)
    }
}

/// `s` sorted by first day, events with the same first day in their order in `s` (the stable
/// sort).
pub open spec fn by_start(s: Seq<EventView>) -> Seq<EventView>
    decreases s.len(),
{
    if s.len() == 0 {
        s
    } else {
        insert_by_start(by_start(s.drop_last()), s.last())
    }
}

/// Whether the events are in order of their first day: none starts after an event after it.
pub open spec fn is_by_start(s: Seq<EventView>) -> bool {
    forall|i: int, j: int| 0 <= i < j < s.len() ==> !text_lt(#[trigger] s[j].start, #[trigger] s[i].start)
}

proof fn lemma_insert_by_start_sorted(s: Seq<EventView>, x: EventView)
    requires
        is_by_start(s),
    ensures
        is_by_start(insert_by_start(s, x)),
        insert_by_start(s, x).to_multiset() == s.to_multiset().insert(x),
    decreases s.len(),
{
    broadcast use vstd::seq_lib::group_to_multiset_ensures;

    if s.len() == 0 {
        assert(seq![x] =~= Seq::<EventView>::empty().push(x));
    } else if text_lt(x.start, s.last().start) {
        let t = s.drop_last();
        let last = s.last();
        assert(s =~= t.push(last));
        lemma_insert_by_start_sorted(t, x);
        let r1 = insert_by_start(t, x);
        assert forall|i: int| 0 <= i < r1.len() implies !text_lt(last.start, #[trigger] r1[i].start) by {
            assert(r1.to_multiset().count(r1[i]) > 0);
            if r1[i] == x {
                lemma_text_lt_total(x.start, last.start);
            } else {
                assert(t.contains(r1[i]));
                let m = choose|m: int| 0 <= m < t.len() && t[m] == r1[i];
                assert(s[m] == t[m]);
            }
        }
        assert(r1.to_multiset().len() == t.len() + 1);
    } else {
        assert forall|i: int| 0 <= i < s.len() implies !text_lt(x.start, #[trigger] s[i].start) by {
            if i < s.len() - 1 {
                if text_lt(x.start, s[i].start) {
                    lemma_text_lt_total(s[i].start, s.last().start);
                    if s[i].start != s.last().start {
                        lemma_text_lt_transitive(x.start, s[i].start, s.last().start);
                    }
                }
            }
        }
    }
}

/// Sorting by first day gives events in that order, the same events as before.
pub proof fn lemma_by_start_sorts(s: Seq<EventView>)
    ensures
        is_by_start(by_start(s)),
        by_start(s).to_multiset() == s.to_multiset(),
    decreases s.len(),
{
    broadcast use vstd::seq_lib::group_to_multiset_ensures;

    if s.len() > 0 {
        lemma_by_start_sorts(s.drop_last());
        lemma_insert_by_start_sorted(by_start(s.drop_last()), s.last());
        assert(s =~= s.drop_last().push(s.last()));
    }
}

/// Whether a character separates authors: `,` or `;`.
pub open spec fn is_author_sep(c: char) -> bool {
    c == ',' || c == ';'
}

/// The pieces of `s` between author separators (at least one).
pub open spec fn author_pieces(s: Seq<char>) -> Seq<Seq<char>>
    decreases s.len(),
{
    if s.len() == 0 {
        seq![Seq::empty()]
    } else {
        let p = author_pieces(s.drop_last());
        if is_author_sep(s.last()) {
            p.push(Seq::empty())
        } else {
            p.update(p.len() - 1, p.last().push(s.last()))
        }
    }
}

/// The id of the library item with MD5 `md5`: the last of `library` (MD5, id) with it.
pub open spec fn library_id(library: Seq<(String, String)>, md5: Seq<char>) -> Option<Seq<char>>
    decreases library.len(),
{
    if library.len() == 0 {
        None
    } else if library.last().0@ == md5 {
        Some(library.last().1@)
    } else {
        library_id(library.drop_last(), md5)
    }
}

/// The calendar book of statistics book `b`: its title, its authors split at `,` and `;`
/// (trimmed, empty ones dropped), and its page and cover where the library has it.
pub open spec fn calendar_book(b: StatBook, library: Seq<(String, String)>) -> CalendarBookView {
    let id = library_id(library, b.md5@);
    CalendarBookView {
        title: b.title@,
        authors: names_of(author_pieces(b.authors@)),
        book_path: match id {
            Some(i) => Some("/books/"@ + i + "/"@),
            None => None,
        },
        book_cover: match id {
            Some(i) => Some("/assets/covers/"@ + i + ".webp"@),
            None => None,
        },
    }
}

/// Whether a keyed list has key `k`.
pub open spec fn has_key(v: Seq<(Seq<char>, CalendarBookView)>, k: Seq<char>) -> bool {
    exists|i: int| 0 <= i < v.len() && (#[trigger] v[i]).0 == k
}

/// The calendar books of the books `order`, keyed by MD5, the first book of each MD5 kept.
pub open spec fn calendar_books(books: Seq<StatBook>, order: Seq<i64>, library: Seq<(String, String)>) -> Seq<
    (Seq<char>, CalendarBookView),
>
    decreases order.len(),
{
    if order.len() == 0 {
        Seq::empty()
    } else {
        let prev = calendar_books(books, order.drop_last(), library);
        match first_book(books, order.last()) {
            Some(b) => if has_key(prev, b.md5@) {
                prev
            } else {
                prev.push((b.md5@, calendar_book(b, library)))
            },
            None => prev,
        }
    }
}

/// The day number of chrono's last date (`NaiveDate::MAX`, 262142-12-31); the day after it
/// has no date.
pub const LAST_DAY: i32 = 95745399;

/// Whether every run of several days of every book ends before chrono's last date, so that the
/// day after it has a date.
pub open spec fn runs_end_in_range(s: Seq<PageStat>, d: Seq<Option<i32>>) -> bool {
    forall|id: i64, k: int|
        0 <= k < day_runs(book_days(s, d, id)).len() ==> {
            let r = #[trigger] day_runs(book_days(s, d, id))[k];
            r.0 != r.1 ==> r.1 < LAST_DAY
        }
}

/// The books with counting reads, in order of their first read (see `book_order`).
fn order_books(ps: &Vec<PageStat>) -> (r: Vec<i64>)
    ensures
        r@ == book_order(ps@),
{
    let mut out: Vec<i64> = Vec::new();
    let mut i: usize = 0;
    while i < ps.len()
        invariant
            i <= ps.len(),
            out@ == book_order(ps@.take(i as int)),
        decreases ps.len() - i,
    {
        assert(ps@.take(i + 1).drop_last() =~= ps@.take(i as int));
        assert(ps@.take(i + 1).last() == ps@[i as int]);
        let p = ps[i];
        if p.duration > 0 {
            let mut found = false;
            let mut k: usize = 0;
            while k < out.len()
                invariant
                    k <= out.len(),
                    found == exists|j: int| 0 <= j < k && out@[j] == p.id_book,
                decreases out.len() - k,
            {
                if out[k] == p.id_book {
                    found = true;
                }
                k += 1;
            }
            if !found {
                out.push(p.id_book);
            }
        }
        i += 1;
    }
    assert(ps@.take(ps.len() as int) =~= ps@);
    out
}

/// Adds day `x` to `ds` (see `with_day`).
fn add_day(ds: &mut Vec<i32>, x: i32)
    ensures
        final(ds)@ == with_day(old(ds)@, x),
{
    let ghost v = ds@;
    let mut j: usize = 0;
    assert(v.skip(0) =~= v);
    while j < ds.len() && ds[j] < x
        invariant
            j <= ds.len(),
            v == ds@,
            first_day_from(v, x) == j + first_day_from(v.skip(j as int), x),
        decreases ds.len() - j,
    {
        assert(v.skip(j as int).drop_first() =~= v.skip(j + 1));
        j += 1;
    }
    assert(first_day_from(v, x) == j) by {
        if j < ds.len() {
            assert(v.skip(j as int)[0] == v[j as int]);
        }
    }
    if j < ds.len() && ds[j] == x {
        return;
    }
    ds.insert(j, x);
}

/// The days of book `id` (see `book_days`).
fn days_of_book(ps: &Vec<PageStat>, days: &Vec<Option<i32>>, id: i64) -> (r: Vec<i32>)
    requires
        days.len() == ps.len(),
    ensures
        r@ == book_days(ps@, days@, id),
{
    let mut out: Vec<i32> = Vec::new();
    let mut i: usize = 0;
    while i < ps.len()
        invariant
            i <= ps.len(),
            days.len() == ps.len(),
            out@ == book_days(ps@.take(i as int), days@.take(i as int), id),
        decreases ps.len() - i,
    {
        assert(ps@.take(i + 1).drop_last() =~= ps@.take(i as int));
        assert(days@.take(i + 1).drop_last() =~= days@.take(i as int));
        assert(ps@.take(i + 1).last() == ps@[i as int]);
        assert(days@.take(i + 1).last() == days@[i as int]);
        match days[i] {
            Some(x) => {
                if ps[i].duration > 0 && ps[i].id_book == id {
                    add_day(&mut out, x);
                }
            },
            None => {},
        }
        i += 1;
    }
    assert(ps@.take(ps.len() as int) =~= ps@);
    assert(days@.take(ps.len() as int) =~= days@);
    out
}

/// The runs of consecutive days (see `day_runs`).
fn runs_of(ds: &Vec<i32>) -> (r: Vec<(i32, i32)>)
    ensures
        r@ == day_runs(ds@),
{
    let mut out: Vec<(i32, i32)> = Vec::new();
    let mut i: usize = 0;
    while i < ds.len()
        invariant
            i <= ds.len(),
            out@ == day_runs(ds@.take(i as int)),
        decreases ds.len() - i,
    {
        assert(ds@.take(i + 1).drop_last() =~= ds@.take(i as int));
        assert(ds@.take(i + 1).last() == ds@[i as int]);
        let x = ds[i];
        let n = out.len();
        if n > 0 && (out[n - 1].1 as i64) + 1 == (x as i64) {
            let first = out[n - 1].0;
            out.set(n - 1, (first, x));
        } else {
            out.push((x, x));
        }
        i += 1;
    }
    assert(ds@.take(ds.len() as int) =~= ds@);
    out
}

proof fn lemma_run_totals_bounded(s: Seq<PageStat>, d: Seq<Option<i32>>, id: i64, first: i32, last: i32)
    requires
        d.len() == s.len(),
    ensures
        0 <= run_totals(s, d, id, first, last).0 <= counted_time(s),
        0 <= run_totals(s, d, id, first, last).1 <= s.len(),
        run_totals(s, d, id, first, last).1 <= run_totals(s, d, id, first, last).0,
    decreases s.len(),
{
    if s.len() > 0 {
        lemma_run_totals_bounded(s.drop_last(), d.drop_last(), id, first, last);
    }
}

proof fn lemma_counted_prefix(s: Seq<PageStat>, i: int)
    requires
        0 <= i <= s.len(),
    ensures
        0 <= counted_time(s.take(i)) <= counted_time(s),
    decreases s.len() - i,
{
    if i < s.len() {
        lemma_counted_prefix(s, i + 1);
        assert(s.take(i + 1).drop_last() =~= s.take(i));
    } else {
        assert(s.take(i) =~= s);
    }
    lemma_counted_nonneg(s.take(i));
}

proof fn lemma_counted_nonneg(s: Seq<PageStat>)
    ensures
        counted_time(s) >= 0,
    decreases s.len(),
{
    if s.len() > 0 {
        lemma_counted_nonneg(s.drop_last());
    }
}

/// Seconds and number of the counting reads of book `id` on days `first..=last` (see
/// `run_totals`).
fn totals_of(ps: &Vec<PageStat>, days: &Vec<Option<i32>>, id: i64, first: i32, last: i32) -> (r: (i64, i64))
    requires
        days.len() == ps.len(),
        counted_time(ps@) <= i64::MAX,
    ensures
        r.0 as int == run_totals(ps@, days@, id, first, last).0,
        r.1 as int == run_totals(ps@, days@, id, first, last).1,
{
    let mut t: i64 = 0;
    let mut n: i64 = 0;
    let mut i: usize = 0;
    while i < ps.len()
        invariant
            i <= ps.len(),
            days.len() == ps.len(),
            counted_time(ps@) <= i64::MAX,
            (t as int, n as int) == run_totals(ps@.take(i as int), days@.take(i as int), id, first, last),
        decreases ps.len() - i,
    {
        assert(ps@.take(i + 1).drop_last() =~= ps@.take(i as int));
        assert(days@.take(i + 1).drop_last() =~= days@.take(i as int));
        assert(ps@.take(i + 1).last() == ps@[i as int]);
        assert(days@.take(i + 1).last() == days@[i as int]);
        proof {
            lemma_run_totals_bounded(ps@.take(i + 1), days@.take(i + 1), id, first, last);
            lemma_counted_prefix(ps@, i + 1);
        }
        match days[i] {
            Some(x) => {
                let p = ps[i];
                if p.duration > 0 && p.id_book == id && first <= x && x <= last {
                    t = t + p.duration;
                    n = n + 1;
                }
            },
            None => {},
        }
        i += 1;
    }
    assert(ps@.take(ps.len() as int) =~= ps@);
    assert(days@.take(ps.len() as int) =~= days@);
    (t, n)
}

/// The event of run `run` of book `id` (see `run_event`).
fn event_of(ps: &Vec<PageStat>, days: &Vec<Option<i32>>, id: i64, md5: &String, run: (i32, i32)) -> (r: CalendarEvent)
    requires
        days.len() == ps.len(),
        counted_time(ps@) <= i64::MAX,
        run.0 != run.1 ==> run.1 < LAST_DAY,
    ensures
        event_view(r) == run_event(ps@, days@, id, md5@, run),
{
    let (t, n) = totals_of(ps, days, id, run.0, run.1);
    let end = if run.0 == run.1 {
        None
    } else {
        Some(day_text(run.1 + 1))
    };
    CalendarEvent { start: day_text(run.0), end, total_read_time: t, total_pages_read: n, book_id: copy_string(md5) }
}

/// The first statistics book with id `id` (see `first_book`).
fn find_book(books: &Vec<StatBook>, id: i64) -> (r: Option<usize>)
    ensures
        match first_book(books@, id) {
            Some(b) => r matches Some(k) && k < books.len() && books@[k as int] == b,
            None => r is None,
        },
{
    let mut k: usize = 0;
    assert(books@.skip(0) =~= books@);
    while k < books.len()
        invariant
            k <= books.len(),
            first_book(books@, id) == first_book(books@.skip(k as int), id),
        decreases books.len() - k,
    {
        assert(books@.skip(k as int)[0] == books@[k as int]);
        assert(books@.skip(k as int).drop_first() =~= books@.skip(k + 1));
        if books[k].id == id {
            return Some(k);
        }
        k += 1;
    }
    None
}

/// The views of a list of events, with `x` inserted at `j`.
proof fn lemma_insert_by_start_at(s: Seq<EventView>, x: EventView, j: int)
    requires
        0 <= j <= s.len(),
        forall|k: int| j <= k < s.len() ==> text_lt(x.start, #[trigger] s[k].start),
        j > 0 ==> !text_lt(x.start, s[j - 1].start),
    ensures
        insert_by_start(s, x) == s.insert(j, x),
    decreases s.len(),
{
    if s.len() == 0 {
        assert(s.insert(j, x) =~= seq![x]);
    } else if j == s.len() {
        assert(s.insert(j, x) =~= s.push(x));
    } else {
        let t = s.drop_last();
        assert forall|k: int| j <= k < t.len() implies text_lt(x.start, #[trigger] t[k].start) by {
            assert(t[k] == s[k]);
        }
        lemma_insert_by_start_at(t, x, j);
        assert(s.insert(j, x) =~= t.insert(j, x).push(s.last()));
    }
}

/// The events sorted by first day (see `by_start`).
fn sort_by_start(events: Vec<CalendarEvent>) -> (r: Vec<CalendarEvent>)
    ensures
        events_view(r@) == by_start(events_view(events@)),
{
    let ghost src = events_view(events@);
    let mut out: Vec<CalendarEvent> = Vec::new();
    let mut rest = events;
    let mut taken: usize = 0;
    // Take events from the front by reversing once, then popping.
    let mut rev: Vec<CalendarEvent> = Vec::new();
    while rest.len() > 0
        invariant
            events_view(rest@) + events_view(rev@).reverse() == src,
        decreases rest.len(),
    {
        let ghost r0 = events_view(rest@);
        let ghost v0 = events_view(rev@);
        let e = rest.pop().unwrap();
        rev.push(e);
        assert(r0 =~= events_view(rest@).push(event_view(e)));
        assert(events_view(rev@) =~= v0.push(event_view(e)));
        assert(events_view(rev@).reverse() =~= seq![event_view(e)] + v0.reverse());
        assert(events_view(rest@) + events_view(rev@).reverse() =~= r0 + v0.reverse());
    }
    assert(events_view(rest@) =~= Seq::<EventView>::empty());
    assert(events_view(rev@).reverse() =~= src);
    let n = rev.len();
    while rev.len() > 0
        invariant
            taken + rev.len() == n,
            n == src.len(),
            events_view(rev@).reverse() == src.skip(taken as int),
            events_view(out@) == by_start(src.take(taken as int)),
        decreases rev.len(),
    {
        let ghost v0 = events_view(rev@);
        let x = rev.pop().unwrap();
        assert(v0 =~= events_view(rev@).push(event_view(x)));
        assert(v0.reverse() =~= seq![event_view(x)] + events_view(rev@).reverse());
        assert(src.skip(taken as int)[0] == src[taken as int]);
        assert(event_view(x) == src[taken as int]);
        assert(src.skip(taken as int).drop_first() =~= src.skip(taken + 1));
        assert(events_view(rev@).reverse() =~= src.skip(taken + 1));
        let mut j: usize = out.len();
        while j > 0 && less_than(x.start.as_str(), out[j - 1].start.as_str())
            invariant
                j <= out.len(),
                forall|k: int| j <= k < out.len() ==> text_lt(x.start@, #[trigger] out@[k].start@),
            decreases j,
        {
            j -= 1;
        }
        let ghost before = events_view(out@);
        proof {
            assert forall|k: int| j <= k < before.len() implies text_lt(event_view(x).start, #[trigger] before[k].start) by {
                assert(before[k] == event_view(out@[k]));
            }
            if j > 0 {
                assert(before[j - 1] == event_view(out@[j - 1]));
            }
            lemma_insert_by_start_at(before, event_view(x), j as int);
            assert(src.take(taken + 1).drop_last() =~= src.take(taken as int));
            assert(src.take(taken + 1).last() == src[taken as int]);
        }
        out.insert(j, x);
        assert(events_view(out@) =~= before.insert(j as int, event_view(out@[j as int])));
        taken += 1;
    }
    assert(src.take(n as int) =~= src);
    out
}

/// The authors of a statistics book (see `calendar_book`).
fn author_list(s: &str) -> (r: Vec<String>)
    ensures
        texts_of(r@) == names_of(author_pieces(s@)),
{
    let v = chars_of(s);
    let mut done: Vec<Vec<char>> = Vec::new();
    let mut cur: Vec<char> = Vec::new();
    let mut i: usize = 0;
    assert(part_views(done@).push(cur@) =~= author_pieces(v@.take(0)));
    while i < v.len()
        invariant
            i <= v.len(),
            part_views(done@).push(cur@) == author_pieces(v@.take(i as int)),
        decreases v.len() - i,
    {
        assert(v@.take(i + 1).drop_last() =~= v@.take(i as int));
        assert(v@.take(i + 1).last() == v@[i as int]);
        let ghost before = part_views(done@);
        let c = v[i];
        if c == ',' || c == ';' {
            let piece = cur;
            cur = Vec::new();
            done.push(piece);
            assert(part_views(done@) =~= before.push(piece@));
            assert(part_views(done@).push(cur@) =~= before.push(piece@).push(Seq::empty()));
        } else {
            let ghost old_cur = cur@;
            cur.push(c);
            assert(part_views(done@).push(cur@) =~= before.push(old_cur).update(
                before.len() as int,
                before.push(old_cur).last().push(c),
            ));
        }
        i += 1;
    }
    assert(v@.take(v.len() as int) =~= v@);
    let ghost before = part_views(done@);
    done.push(cur);
    assert(part_views(done@) =~= before.push(done@.last()@));
    let ghost ps = part_views(done@);
    let mut names: Vec<String> = Vec::new();
    let mut k: usize = 0;
    while k < done.len()
        invariant
            k <= done.len(),
            ps == part_views(done@),
            texts_of(names@) == names_of(ps.take(k as int)),
        decreases done.len() - k,
    {
        assert(ps.take(k + 1).drop_last() =~= ps.take(k as int));
        assert(ps.take(k + 1).last() == done@[k as int]@);
        let w = trim_chars(&done[k]);
        if w.len() > 0 {
            let ghost b0 = texts_of(names@);
            names.push(string_from_chars(w.as_slice()));
            assert(texts_of(names@) =~= b0.push(w@));
        }
        k += 1;
    }
    assert(ps.take(done.len() as int) =~= ps);
    names
}

/// The id of the library item with MD5 `md5` (see `library_id`).
fn find_library_id(library: &Vec<(String, String)>, md5: &str) -> (r: Option<String>)
    ensures
        opt_view(r) == library_id(library@, md5@),
{
    let mut k: usize = library.len();
    assert(library@.take(k as int) =~= library@);
    while k > 0
        invariant
            k <= library.len(),
            library_id(library@, md5@) == library_id(library@.take(k as int), md5@),
        decreases k,
    {
        assert(library@.take(k as int).drop_last() =~= library@.take(k - 1));
        assert(library@.take(k as int).last() == library@[k - 1]);
        if crate::text::str_eq(library[k - 1].0.as_str(), md5) {
            return Some(copy_string(&library[k - 1].1));
        }
        k -= 1;
    }
    None
}

/// Text made of three parts.
fn concat3(a: &str, b: &str, c: &str) -> (r: String)
    ensures
        r@ == a@ + b@ + c@,
{
    let mut v = chars_of(a);
    let mut w = chars_of(b);
    let mut x = chars_of(c);
    v.append(&mut w);
    v.append(&mut x);
    string_from_chars(v.as_slice())
}

/// The calendar book of a statistics book (see `calendar_book`).
fn make_calendar_book(b: &StatBook, library: &Vec<(String, String)>) -> (r: CalendarBook)
    ensures
        calendar_book_view(r) == calendar_book(*b, library@),
{
    proof {
        reveal_strlit("/books/");
        reveal_strlit("/");
        reveal_strlit("/assets/covers/");
        reveal_strlit(".webp");
    }
    let id = find_library_id(library, b.md5.as_str());
    let (book_path, book_cover) = match &id {
        Some(i) => (Some(concat3("/books/", i.as_str(), "/")), Some(concat3("/assets/covers/", i.as_str(), ".webp"))),
        None => (None, None),
    };
    CalendarBook { title: copy_string(&b.title), authors: author_list(b.authors.as_str()), book_path, book_cover }
}

/// Whether a keyed list of calendar books has key `k` (see `has_key`).
fn holds_key(v: &Vec<(String, CalendarBook)>, k: &str) -> (r: bool)
    ensures
        r == has_key(calendar_books_view(v@), k@),
{
    let ghost cv = calendar_books_view(v@);
    let mut i: usize = 0;
    while i < v.len()
        invariant
            i <= v.len(),
            cv == calendar_books_view(v@),
            forall|j: int| 0 <= j < i ==> cv[j].0 != k@,
        decreases v.len() - i,
    {
        if crate::text::str_eq(v[i].0.as_str(), k) {
            assert(cv[i as int].0 == k@);
            return true;
        }
        i += 1;
    }
    false
}

/// The calendar for the given days of the page reads: `days` holds, for each page read, the
/// day number of its local date (`None` where it has none). The events are those of the books
/// with counting reads, in order of their first read (see `book_events`), sorted by first day;
/// the books are those the events refer to (see `calendar_books`).
pub fn generate_calendar_events_for_days(
    stats_data: &StatisticsData,
    library: &Vec<(String, String)>,
    days: &Vec<Option<i32>>,
) -> (r: CalendarData)
    requires
        days.len() == stats_data.page_stats.len(),
        counted_time(stats_data.page_stats@) <= i64::MAX,
        runs_end_in_range(stats_data.page_stats@, days@),
    ensures
        ({
            let s = stats_data.page_stats@;
            let order = book_order(s);
            &&& events_view(r.events@) == by_start(book_events(s, days@, stats_data.books@, order))
            &&& calendar_books_view(r.books@) == calendar_books(stats_data.books@, order, library@)
        }),
{
    let ps = &stats_data.page_stats;
    let ghost s = ps@;
    let order = order_books(ps);
    let mut events: Vec<CalendarEvent> = Vec::new();
    let mut books: Vec<(String, CalendarBook)> = Vec::new();
    let mut i: usize = 0;
    while i < order.len()
        invariant
            i <= order.len(),
            s == stats_data.page_stats@,
            days.len() == s.len(),
            counted_time(s) <= i64::MAX,
            runs_end_in_range(s, days@),
            order@ == book_order(s),
            events_view(events@) == book_events(s, days@, stats_data.books@, order@.take(i as int)),
            calendar_books_view(books@) == calendar_books(stats_data.books@, order@.take(i as int), library@),
        decreases order.len() - i,
    {
        assert(order@.take(i + 1).drop_last() =~= order@.take(i as int));
        assert(order@.take(i + 1).last() == order@[i as int]);
        let id = order[i];
        match find_book(&stats_data.books, id) {
            Some(k) => {
                let sb = &stats_data.books[k];
                if !holds_key(&books, sb.md5.as_str()) {
                    let ghost b0 = calendar_books_view(books@);
                    books.push((copy_string(&sb.md5), make_calendar_book(sb, library)));
                    assert(calendar_books_view(books@) =~= b0.push((sb.md5@, calendar_book(*sb, library@))));
                }
                let ds = days_of_book(&stats_data.page_stats, days, id);
                let runs = runs_of(&ds);
                let ghost e0 = events_view(events@);
                let ghost mapped = runs@.map_values(|r: (i32, i32)| run_event(s, days@, id, sb.md5@, r));
                let mut j: usize = 0;
                while j < runs.len()
                    invariant
                        j <= runs.len(),
                        s == stats_data.page_stats@,
                        days.len() == s.len(),
                        counted_time(s) <= i64::MAX,
                        runs_end_in_range(s, days@),
                        runs@ == day_runs(book_days(s, days@, id)),
                        mapped == runs@.map_values(|r: (i32, i32)| run_event(s, days@, id, sb.md5@, r)),
                        events_view(events@) == e0 + mapped.take(j as int),
                    decreases runs.len() - j,
                {
                    proof {
                        let r = runs@[j as int];
                        assert(r == day_runs(book_days(s, days@, id))[j as int]);
                    }
                    let ev = event_of(&stats_data.page_stats, days, id, &sb.md5, runs[j]);
                    let ghost b0 = events_view(events@);
                    events.push(ev);
                    assert(events_view(events@) =~= b0.push(event_view(ev)));
                    j += 1;
                    assert(mapped.take(j as int) =~= mapped.take(j - 1).push(mapped[j - 1]));
                    assert(events_view(events@) =~= e0 + mapped.take(j as int));
                }
                assert(mapped.take(runs.len() as int) =~= mapped);
            },
            None => {},
        }
        i += 1;
    }
    assert(order@.take(order.len() as int) =~= order@);
    CalendarData { events: sort_by_start(events), books }
}

/// The local date of a read's start, as a day number: 1970-01-01 where chrono cannot represent
/// the start, else the date of the start moved by the local offset (see `local_day_of`).
pub open spec fn read_day_is(d: Option<i32>, ts: i64) -> bool {
    if chrono_timestamp_ok(ts) {
        d matches Some(n) && local_day_of(n as int, ts as int)
    } else {
        d == Some(719163i32)
    }
}

/// The local date of a read's start as a day number (see `read_day_is`).
fn read_day(ts: i64) -> (r: Option<i32>)
    requires
        chrono_inner_ts(effective_ts(ts) as int),
    ensures
        read_day_is(r, ts),
{
    if timestamp_in_range(ts) {
        Some(local_day(ts, 0))
    } else {
        Some(719163)
    }
}

proof fn lemma_no_reads_no_days(s: Seq<PageStat>, d: Seq<Option<i32>>, id: i64)
    requires
        !book_order(s).contains(id),
    ensures
        book_days(s, d, id).len() == 0,
    decreases s.len(),
{
    if s.len() > 0 && d.len() == s.len() {
        let prev = book_order(s.drop_last());
        if prev.contains(id) {
            let k = choose|k: int| 0 <= k < prev.len() && prev[k] == id;
            let p = s.last();
            if p.duration > 0 && !prev.contains(p.id_book) {
                assert(book_order(s)[k] == id);
            } else {
                assert(book_order(s)[k] == id);
            }
        }
        lemma_no_reads_no_days(s.drop_last(), d.drop_last(), id);
        let p = s.last();
        if p.duration > 0 && p.id_book == id {
            if !prev.contains(id) {
                assert(book_order(s)[prev.len() as int] == id);
            }
        }
    }
}

impl crate::sessions::StatisticsCalculator {
    /// The calendar of the statistics (see `generate_calendar_events_for_days`), each page read
    /// on the day of its local date (see `read_day_is`). Which date depends on the time zone, so
    /// the contract says that the result is the calendar for days that are each such a date. It
    /// is `None` where a book's run of several days ends on chrono's last date, whose next day
    /// has no date.
    pub fn generate_calendar_events(stats_data: &StatisticsData, library: &Vec<(String, String)>) -> (r: Option<CalendarData>)
        requires
            counted_time(stats_data.page_stats@) <= i64::MAX,
            forall|k: int| 0 <= k < stats_data.page_stats.len() ==> chrono_inner_ts(
                effective_ts(#[trigger] stats_data.page_stats@[k].start_time) as int,
            ),
        ensures
            exists|d: Seq<Option<i32>>| {
                &&& d.len() == stats_data.page_stats.len()
                &&& forall|k: int| 0 <= k < d.len() ==> read_day_is(#[trigger] d[k], stats_data.page_stats@[k].start_time)
                &&& (#[trigger] runs_end_in_range(stats_data.page_stats@, d) <==> r is Some)
                &&& r matches Some(c) ==> events_view(c.events@) == by_start(
                    book_events(stats_data.page_stats@, d, stats_data.books@, book_order(stats_data.page_stats@)),
                ) && calendar_books_view(c.books@) == calendar_books(
                    stats_data.books@,
                    book_order(stats_data.page_stats@),
                    library@,
                )
            },
    {
        let ps = &stats_data.page_stats;
        let mut days: Vec<Option<i32>> = Vec::new();
        let mut i: usize = 0;
        while i < ps.len()
            invariant
                i <= ps.len(),
                ps@ == stats_data.page_stats@,
                days.len() == i,
                forall|k: int| 0 <= k < ps.len() ==> chrono_inner_ts(effective_ts(#[trigger] ps@[k].start_time) as int),
                forall|k: int| 0 <= k < i ==> read_day_is(#[trigger] days@[k], ps@[k].start_time),
            decreases ps.len() - i,
        {
            assert(chrono_inner_ts(effective_ts(ps@[i as int].start_time) as int));
            let ghost before = days@;
            let day = read_day(ps[i].start_time);
            days.push(day);
            assert forall|k: int| 0 <= k < days.len() implies read_day_is(#[trigger] days@[k], ps@[k].start_time) by {
                if k < before.len() {
                    assert(days@[k] == before[k]);
                }
            }
            i += 1;
        }
        let order = order_books(ps);
        let mut k: usize = 0;
        while k < order.len()
            invariant
                k <= order.len(),
                ps@ == stats_data.page_stats@,
                days.len() == ps.len(),
                forall|x: int| 0 <= x < days.len() ==> read_day_is(#[trigger] days@[x], ps@[x].start_time),
                order@ == book_order(ps@),
                forall|x: int, j: int|
                    0 <= x < k && 0 <= j < day_runs(book_days(ps@, days@, order@[x])).len() ==> {
                        let r = #[trigger] day_runs(book_days(ps@, days@, order@[x]))[j];
                        r.0 != r.1 ==> r.1 < LAST_DAY
                    },
            decreases order.len() - k,
        {
            let runs = runs_of(&days_of_book(ps, &days, order[k]));
            let mut j: usize = 0;
            while j < runs.len()
                invariant
                    j <= runs.len(),
                    ps@ == stats_data.page_stats@,
                    days.len() == ps.len(),
                    forall|x: int| 0 <= x < days.len() ==> read_day_is(#[trigger] days@[x], ps@[x].start_time),
                    runs@ == day_runs(book_days(ps@, days@, order@[k as int])),
                    forall|y: int| 0 <= y < j ==> (#[trigger] runs@[y]).0 != runs@[y].1 ==> runs@[y].1 < LAST_DAY,
                decreases runs.len() - j,
            {
                if runs[j].0 != runs[j].1 && runs[j].1 >= LAST_DAY {
                    proof {
                        let r = day_runs(book_days(ps@, days@, order@[k as int]))[j as int];
                        assert(r.0 != r.1 && r.1 >= LAST_DAY);
                        assert(!runs_end_in_range(ps@, days@));
                    }
                    return None;
                }
                j += 1;
            }
            k += 1;
        }
        proof {
            assert forall|id: i64, j: int| 0 <= j < day_runs(book_days(ps@, days@, id)).len() implies {
                let r = #[trigger] day_runs(book_days(ps@, days@, id))[j];
                r.0 != r.1 ==> r.1 < LAST_DAY
            } by {
                if order@.contains(id) {
                    let x = choose|x: int| 0 <= x < order.len() && order@[x] == id;
                    assert(day_runs(book_days(ps@, days@, order@[x]))[j] == day_runs(book_days(ps@, days@, id))[j]);
                } else {
                    lemma_no_reads_no_days(ps@, days@, id);
                    assert(book_days(ps@, days@, id) =~= Seq::<i32>::empty());
                }
            }
        }
        assert(runs_end_in_range(stats_data.page_stats@, days@));
        Some(generate_calendar_events_for_days(stats_data, library, &days))
    }
}

} // verus!
