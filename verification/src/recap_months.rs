//! The finished books of a recap month by month: each completion becomes an item (enriched from
//! the library where the book is there), items are grouped by year and month, and each month
//! lists its items newest first, for all content and for books and comics apart.
use vstd::prelude::*;
use crate::comic_info::{comma_pieces, split_commas};
use crate::opf::texts_of;
use crate::parsers::part_views;
use crate::recap::{completion_year_and_month, year_and_month};
use crate::stats_types::{ReadCompletion, ReadCompletionView, StatBook, StatBookView, StatisticsData};
use crate::text::{lemma_text_lt_total, lemma_text_lt_transitive, trim_chars, trim_ws};
use vstd::utf8::{decode_utf8, encode_utf8_decode_utf8};
use crate::recap::month_name_of;
use crate::recap::month_name;
use crate::stats_types::ContentType;
use crate::text::{chars_of, copy_opt_string, copy_string, less_than, opt_text, string_from_chars, text_lt};

verus! {

/// A finished reading of a book, as the recap shows it.
#[derive(Clone, Debug, PartialEq, Eq)]
pub struct RecapItem {
    pub title: String,
    pub authors: Vec<String>,
    pub start_date: String,
    pub end_date: String,
    pub reading_time: i64,
    pub session_count: i64,
    pub pages_read: i64,
    pub rating: Option<u32>,
    pub review_note: Option<String>,
    pub series_display: Option<String>,
    pub item_id: Option<String>,
    pub item_cover: Option<String>,
    pub content_type: Option<ContentType>,
    /// Which of the five rating stars are filled.
    pub star_display: [bool; 5],
}

/// The content of a recap item.
pub struct RecapItemView {
    pub title: Seq<char>,
    pub authors: Seq<Seq<char>>,
    pub start_date: Seq<char>,
    pub end_date: Seq<char>,
    pub reading_time: i64,
    pub session_count: i64,
    pub pages_read: i64,
    pub rating: Option<u32>,
    pub review_note: Option<Seq<char>>,
    pub series_display: Option<Seq<char>>,
    pub item_id: Option<Seq<char>>,
    pub item_cover: Option<Seq<char>>,
    pub content_type: Option<ContentType>,
    pub star_display: Seq<bool>,
}

impl View for RecapItem {
    type V = RecapItemView;

    open spec fn view(&self) -> RecapItemView {
        RecapItemView {
            title: self.title@,
            authors: texts_of(self.authors@),
            start_date: self.start_date@,
            end_date: self.end_date@,
            reading_time: self.reading_time,
            session_count: self.session_count,
            pages_read: self.pages_read,
            rating: self.rating,
            review_note: opt_text(self.review_note),
            series_display: opt_text(self.series_display),
            item_id: opt_text(self.item_id),
            item_cover: opt_text(self.item_cover),
            content_type: self.content_type,
            star_display: self.star_display@,
        }
    }
}

/// A copy of a list of strings.
fn copy_strings(v: &Vec<String>) -> (r: Vec<String>)
    ensures
        texts_of(r@) == texts_of(v@),
{
    let mut out: Vec<String> = Vec::new();
    let mut i: usize = 0;
    while i < v.len()
        invariant
            i <= v.len(),
            texts_of(out@) == texts_of(v@).take(i as int),
        decreases v.len() - i,
    {
        let ghost before = texts_of(out@);
        out.push(copy_string(&v[i]));
        assert(texts_of(out@) =~= before.push(v@[i as int]@));
        i += 1;
        assert(texts_of(out@) =~= texts_of(v@).take(i as int));
    }
    assert(texts_of(v@).take(v.len() as int) =~= texts_of(v@));
    out
}

impl RecapItem {
    /// A copy with the same content.
    pub fn duplicate(&self) -> (r: Self)
        ensures
            r@ == self@,
    {
        RecapItem {
            title: copy_string(&self.title),
            authors: copy_strings(&self.authors),
            start_date: copy_string(&self.start_date),
            end_date: copy_string(&self.end_date),
            reading_time: self.reading_time,
            session_count: self.session_count,
            pages_read: self.pages_read,
            rating: self.rating,
            review_note: copy_opt_string(&self.review_note),
            series_display: copy_opt_string(&self.series_display),
            item_id: copy_opt_string(&self.item_id),
            item_cover: copy_opt_string(&self.item_cover),
            content_type: self.content_type,
            star_display: self.star_display,
        }
    }
}

/// The views of a list of items.
pub open spec fn items_view(v: Seq<RecapItem>) -> Seq<RecapItemView> {
    v.map_values(|i: RecapItem| i@)
}

/// `s` (sorted newest first) with `x` placed after every item that ends no earlier than it.
pub open spec fn insert_newest_first(s: Seq<RecapItemView>, x: RecapItemView) -> Seq<RecapItemView>
    decreases s.len(),
{
    if s.len() == 0 {
        seq![x]
    } else if text_lt(s.last().end_date, x.end_date) {
        insert_newest_first(s.drop_last(), x).push(s.last())
    } else {
        s.push(x)
    }
}

/// `s` sorted by end date, newest first, items with equal end dates in their order in `s`
/// (the stable sort).
pub open spec fn newest_first(s: Seq<RecapItemView>) -> Seq<RecapItemView>
    decreases s.len(),
{
    if s.len() == 0 {
        s
    } else {
        insert_newest_first(newest_first(s.drop_last()), s.last())
    }
}

/// Whether the items are newest first: none ends before an item after it.
pub open spec fn is_newest_first(s: Seq<RecapItemView>) -> bool {
    forall|i: int, j: int| 0 <= i < j < s.len() ==> !text_lt(#[trigger] s[i].end_date, #[trigger] s[j].end_date)
}

proof fn lemma_not_before_chain(a: Seq<char>, b: Seq<char>, c: Seq<char>)
    requires
        !text_lt(a, b),
        !text_lt(b, c),
    ensures
        !text_lt(a, c),
{
    if text_lt(a, c) {
        lemma_text_lt_total(a, b);
        if a != b {
            lemma_text_lt_transitive(b, a, c);
        }
    }
}

proof fn lemma_insert_sorted(s: Seq<RecapItemView>, x: RecapItemView)
    requires
        is_newest_first(s),
    ensures
        is_newest_first(insert_newest_first(s, x)),
        insert_newest_first(s, x).to_multiset() == s.to_multiset().insert(x),
    decreases s.len(),
{
    broadcast use vstd::seq_lib::group_to_multiset_ensures;

    if s.len() == 0 {
        assert(seq![x] =~= Seq::<RecapItemView>::empty().push(x));
    } else if text_lt(s.last().end_date, x.end_date) {
        let t = s.drop_last();
        let last = s.last();
        assert(s =~= t.push(last));
        lemma_insert_sorted(t, x);
        let r1 = insert_newest_first(t, x);
        assert forall|i: int| 0 <= i < r1.len() implies !text_lt(#[trigger] r1[i].end_date, last.end_date) by {
            assert(r1.to_multiset().count(r1[i]) > 0);
            if r1[i] == x {
                lemma_text_lt_total(last.end_date, x.end_date);
            } else {
                assert(t.contains(r1[i]));
                let m = choose|m: int| 0 <= m < t.len() && t[m] == r1[i];
                assert(s[m] == t[m]);
            }
        }
        assert(r1.to_multiset().len() == t.len() + 1);
    } else {
        assert forall|i: int| 0 <= i < s.len() implies !text_lt(#[trigger] s[i].end_date, x.end_date) by {
            if i < s.len() - 1 {
                lemma_not_before_chain(s[i].end_date, s.last().end_date, x.end_date);
            }
        }
    }
}

/// Sorting newest first gives items in that order, the same items as before.
pub proof fn lemma_newest_first_sorts(s: Seq<RecapItemView>)
    ensures
        is_newest_first(newest_first(s)),
        newest_first(s).to_multiset() == s.to_multiset(),
    decreases s.len(),
{
    broadcast use vstd::seq_lib::group_to_multiset_ensures;

    if s.len() > 0 {
        lemma_newest_first_sorts(s.drop_last());
        lemma_insert_sorted(newest_first(s.drop_last()), s.last());
        assert(s =~= s.drop_last().push(s.last()));
    }
}

/// Inserting at `j`, where everything from `j` on ends strictly before `x` and the item before
/// `j` does not, is `insert_newest_first`.
proof fn lemma_insert_at(s: Seq<RecapItemView>, x: RecapItemView, j: int)
    requires
        0 <= j <= s.len(),
        forall|k: int| j <= k < s.len() ==> text_lt(#[trigger] s[k].end_date, x.end_date),
        j > 0 ==> !text_lt(s[j - 1].end_date, x.end_date),
    ensures
        insert_newest_first(s, x) == s.insert(j, x),
    decreases s.len(),
{
    if s.len() == 0 {
        assert(s.insert(j, x) =~= seq![x]);
    } else if j == s.len() {
        assert(s.insert(j, x) =~= s.push(x));
    } else {
        assert(text_lt(s[s.len() - 1].end_date, x.end_date));
        let t = s.drop_last();
        assert forall|k: int| j <= k < t.len() implies text_lt(#[trigger] t[k].end_date, x.end_date) by {
            assert(t[k] == s[k]);
        }
        lemma_insert_at(t, x, j);
        assert(s.insert(j, x) =~= t.insert(j, x).push(s.last()));
    }
}

/// The items sorted newest first (see `newest_first`).
pub fn sort_newest_first(items: &Vec<RecapItem>) -> (r: Vec<RecapItem>)
    ensures
        items_view(r@) == newest_first(items_view(items@)),
{
    let ghost src = items_view(items@);
    let mut out: Vec<RecapItem> = Vec::new();
    let mut i: usize = 0;
    while i < items.len()
        invariant
            i <= items.len(),
            src == items_view(items@),
            items_view(out@) == newest_first(src.take(i as int)),
        decreases items.len() - i,
    {
        let x = items[i].duplicate();
        let mut j: usize = out.len();
        while j > 0 && less_than(out[j - 1].end_date.as_str(), x.end_date.as_str())
            invariant
                j <= out.len(),
                forall|k: int| j <= k < out.len() ==> text_lt(#[trigger] out@[k].end_date@, x.end_date@),
            decreases j,
        {
            j -= 1;
        }
        let ghost before = items_view(out@);
        proof {
            assert forall|k: int| j <= k < before.len() implies text_lt(#[trigger] before[k].end_date, x@.end_date) by {
                assert(before[k] == out@[k]@);
            }
            if j > 0 {
                assert(before[j - 1] == out@[j - 1]@);
            }
            lemma_insert_at(before, x@, j as int);
            assert(src.take(i + 1).drop_last() =~= src.take(i as int));
            assert(src.take(i + 1).last() == src[i as int]);
        }
        out.insert(j, x);
        assert(items_view(out@) =~= before.insert(j as int, out@[j as int]@));
        i += 1;
    }
    assert(src.take(items.len() as int) =~= src);
    out
}

/// A month of a recap: its `YYYY-MM` key, its name, how many books were finished and how long
/// was read in it, and its items newest first.
#[derive(Clone, Debug, PartialEq, Eq)]
pub struct MonthRecap {
    pub month_key: String,
    pub month_label: String,
    pub books_finished: usize,
    pub hours_read_seconds: i64,
    pub items: Vec<RecapItem>,
}

/// The content of a recap month.
pub struct MonthRecapView {
    pub month_key: Seq<char>,
    pub month_label: Seq<char>,
    pub books_finished: usize,
    pub hours_read_seconds: i64,
    pub items: Seq<RecapItemView>,
}

impl View for MonthRecap {
    type V = MonthRecapView;

    open spec fn view(&self) -> MonthRecapView {
        MonthRecapView {
            month_key: self.month_key@,
            month_label: self.month_label@,
            books_finished: self.books_finished,
            hours_read_seconds: self.hours_read_seconds,
            items: items_view(self.items@),
        }
    }
}

/// The views of a list of recap months.
pub open spec fn months_view(v: Seq<MonthRecap>) -> Seq<MonthRecapView> {
    v.map_values(|m: MonthRecap| m@)
}

/// The recap months of a year: for all content, books only and comics only.
pub struct MonthlyRecaps {
    pub all: Vec<MonthRecap>,
    pub books: Vec<MonthRecap>,
    pub comics: Vec<MonthRecap>,
}

/// The name of the month `ym` (`YYYY-MM`): chrono's `%B` of its first day, or `ym` itself
/// where chrono reads no date.
pub open spec fn month_label(ym: Seq<char>) -> Seq<char> {
    match month_name(ym + "-01"@) {
        Some(n) => n,
        None => ym,
    }
}

/// The seconds that `hours` gives for month `ym` (its first entry for it), or zero.
pub open spec fn hours_in(hours: Seq<(String, i64)>, ym: Seq<char>) -> i64
    decreases hours.len(),
{
    if hours.len() == 0 {
        0
    } else if hours[0].0@ == ym {
        hours[0].1
    } else {
        hours_in(hours.drop_first(), ym)
    }
}

/// The items of content type `t`.
pub open spec fn items_of_type(items: Seq<RecapItemView>, t: ContentType) -> Seq<RecapItemView> {
    items.filter(|i: RecapItemView| i.content_type == Some(t))
}

/// The recap month `ym` with the given items (sorted newest first) and seconds read.
pub open spec fn month_recap(ym: Seq<char>, items: Seq<RecapItemView>, seconds: i64) -> MonthRecapView {
    MonthRecapView {
        month_key: ym,
        month_label: month_label(ym),
        books_finished: items.len() as usize,
        hours_read_seconds: seconds,
        items: newest_first(items),
    }
}

/// `list`, with the recap month of `ym` for the given items added where there are any.
pub open spec fn with_month(list: Seq<MonthRecapView>, ym: Seq<char>, items: Seq<RecapItemView>, hours: Seq<(String, i64)>) -> Seq<MonthRecapView> {
    if items.len() > 0 {
        list.push(month_recap(ym, items, hours_in(hours, ym)))
    } else {
        list
    }
}

/// The recap months of a year from its months (in key order) and their items: for every month
/// with items, one for all content; one for its books where it has books; one for its comics
/// where it has comics. The seconds read come from the matching list of monthly totals.
pub open spec fn monthly_recaps(
    months: Seq<(Seq<char>, Seq<RecapItemView>)>,
    all: Seq<(String, i64)>,
    books: Seq<(String, i64)>,
    comics: Seq<(String, i64)>,
) -> (Seq<MonthRecapView>, Seq<MonthRecapView>, Seq<MonthRecapView>)
    decreases months.len(),
{
    if months.len() == 0 {
        (Seq::empty(), Seq::empty(), Seq::empty())
    } else {
        let (a, b, c) = monthly_recaps(months.drop_last(), all, books, comics);
        let (ym, items) = months.last();
        if items.len() == 0 {
            (a, b, c)
        } else {
            let sorted = newest_first(items);
            (
                with_month(a, ym, items, all),
                with_month(b, ym, items_of_type(sorted, ContentType::Book), books),
                with_month(c, ym, items_of_type(sorted, ContentType::Comic), comics),
            )
        }
    }
}

/// The months of a year as keys and item views.
pub open spec fn month_items_view(m: Seq<(String, Vec<RecapItem>)>) -> Seq<(Seq<char>, Seq<RecapItemView>)> {
    m.map_values(|e: (String, Vec<RecapItem>)| (e.0@, items_view(e.1@)))
}

/// Seconds that `hours` gives for `ym` (see `hours_in`).
fn hours_for(hours: &Vec<(String, i64)>, ym: &str) -> (r: i64)
    ensures
        r == hours_in(hours@, ym@),
{
    let mut k: usize = 0;
    assert(hours@.skip(0) =~= hours@);
    while k < hours.len()
        invariant
            k <= hours.len(),
            hours_in(hours@, ym@) == hours_in(hours@.skip(k as int), ym@),
        decreases hours.len() - k,
    {
        assert(hours@.skip(k as int)[0] == hours@[k as int]);
        assert(hours@.skip(k as int).drop_first() =~= hours@.skip(k + 1));
        if crate::text::str_eq(hours[k].0.as_str(), ym) {
            return hours[k].1;
        }
        k += 1;
    }
    assert(hours@.skip(k as int).len() == 0);
    0
}

/// The items of content type `t`, in order.
fn filter_type(items: &Vec<RecapItem>, t: ContentType) -> (r: Vec<RecapItem>)
    ensures
        items_view(r@) == items_of_type(items_view(items@), t),
{
    let ghost src = items_view(items@);
    let ghost pred = |i: RecapItemView| i.content_type == Some(t);
    let mut out: Vec<RecapItem> = Vec::new();
    let mut i: usize = 0;
    while i < items.len()
        invariant
            i <= items.len(),
            src == items_view(items@),
            pred == (|i: RecapItemView| i.content_type == Some(t)),
            items_view(out@) == src.take(i as int).filter(pred),
        decreases items.len() - i,
    {
        proof {
            src.take(i as int).lemma_filter_push(src[i as int], pred);
            assert(src.take(i as int).push(src[i as int]) =~= src.take(i + 1));
        }
        let keep = match (items[i].content_type, t) {
            (Some(ContentType::Book), ContentType::Book) => true,
            (Some(ContentType::Comic), ContentType::Comic) => true,
            _ => false,
        };
        if keep {
            let ghost before = items_view(out@);
            out.push(items[i].duplicate());
            assert(items_view(out@) =~= before.push(src[i as int]));
        }
        i += 1;
    }
    assert(src.take(items.len() as int) =~= src);
    out
}

/// `list` with the recap month of `ym` for `sorted` added where it has items.
fn push_month(list: &mut Vec<MonthRecap>, ym: &String, label: &String, sorted: Vec<RecapItem>, seconds: i64)
    ensures
        months_view(final(list)@) == if sorted.len() > 0 {
            months_view(old(list)@).push(
                MonthRecapView {
                    month_key: ym@,
                    month_label: label@,
                    books_finished: sorted.len(),
                    hours_read_seconds: seconds,
                    items: items_view(sorted@),
                },
            )
        } else {
            months_view(old(list)@)
        },
{
    if sorted.len() > 0 {
        let ghost before = months_view(list@);
        let n = sorted.len();
        list.push(
            MonthRecap {
                month_key: copy_string(ym),
                month_label: copy_string(label),
                books_finished: n,
                hours_read_seconds: seconds,
                items: sorted,
            },
        );
        assert(months_view(list@) =~= before.push(list@.last()@));
    }
}

/// Sorting keeps the number of items.
proof fn lemma_sorted_len(s: Seq<RecapItemView>)
    ensures
        newest_first(s).len() == s.len(),
    decreases s.len(),
{
    if s.len() > 0 {
        lemma_sorted_len(s.drop_last());
        lemma_insert_len(newest_first(s.drop_last()), s.last());
    }
}

proof fn lemma_insert_len(s: Seq<RecapItemView>, x: RecapItemView)
    ensures
        insert_newest_first(s, x).len() == s.len() + 1,
    decreases s.len(),
{
    if s.len() > 0 && text_lt(s.last().end_date, x.end_date) {
        lemma_insert_len(s.drop_last(), x);
    }
}

/// The recap months of a year (see `monthly_recaps`); `months` holds the year's months with
/// their items, in the order the recap lists them (ascending keys), and the three lists of monthly totals give the
/// seconds read in all content, in books and in comics.
pub fn build_monthly_recaps(
    months: &Vec<(String, Vec<RecapItem>)>,
    month_hours_all: &Vec<(String, i64)>,
    month_hours_books: &Vec<(String, i64)>,
    month_hours_comics: &Vec<(String, i64)>,
) -> (r: MonthlyRecaps)
    ensures
        (months_view(r.all@), months_view(r.books@), months_view(r.comics@)) == monthly_recaps(
            month_items_view(months@),
            month_hours_all@,
            month_hours_books@,
            month_hours_comics@,
        ),
{
    let ghost mv = month_items_view(months@);
    let mut all: Vec<MonthRecap> = Vec::new();
    let mut books: Vec<MonthRecap> = Vec::new();
    let mut comics: Vec<MonthRecap> = Vec::new();
    let mut i: usize = 0;
    while i < months.len()
        invariant
            i <= months.len(),
            mv == month_items_view(months@),
            (months_view(all@), months_view(books@), months_view(comics@)) == monthly_recaps(
                mv.take(i as int),
                month_hours_all@,
                month_hours_books@,
                month_hours_comics@,
            ),
        decreases months.len() - i,
    {
        assert(mv.take(i + 1).drop_last() =~= mv.take(i as int));
        assert(mv.take(i + 1).last() == mv[i as int]);
        let (ym, items) = &months[i];
        if items.len() > 0 {
            let sorted = sort_newest_first(items);
            proof {
                lemma_sorted_len(items_view(items@));
            }
            let mut day_one = chars_of(ym.as_str());
            day_one.push('-');
            day_one.push('0');
            day_one.push('1');
            let first = string_from_chars(day_one.as_slice());
            proof {
                reveal_strlit("-01");
                assert(first@ =~= ym@ + "-01"@);
            }
            let label = match month_name_of(first.as_str()) {
                Some(n) => n,
                None => copy_string(ym),
            };
            let books_sorted = sort_newest_first(&filter_type(&sorted, ContentType::Book));
            let comics_sorted = sort_newest_first(&filter_type(&sorted, ContentType::Comic));
            proof {
                lemma_sorted_len(items_of_type(items_view(sorted@), ContentType::Book));
                lemma_sorted_len(items_of_type(items_view(sorted@), ContentType::Comic));
            }
            push_month(&mut all, ym, &label, sorted, hours_for(month_hours_all, ym.as_str()));
            push_month(&mut books, ym, &label, books_sorted, hours_for(month_hours_books, ym.as_str()));
            push_month(&mut comics, ym, &label, comics_sorted, hours_for(month_hours_comics, ym.as_str()));
        }
        i += 1;
    }
    assert(mv.take(months.len() as int) =~= mv);
    MonthlyRecaps { all, books, comics }
}

/// What the library knows of a book the recap shows: the partial MD5 by which the statistics
/// find it, its id, and what it says of the book.
pub struct RecapSource {
    pub md5: String,
    pub id: String,
    pub title: String,
    pub authors: Vec<String>,
    pub rating: Option<u32>,
    pub review_note: Option<String>,
    pub series_display: Option<String>,
    pub content_type: ContentType,
}

/// The library book with MD5 `md5`: the last of `sources` that has it.
pub open spec fn source_of(sources: Seq<RecapSource>, md5: Seq<char>) -> Option<RecapSource>
    decreases sources.len(),
{
    if sources.len() == 0 {
        None
    } else if sources.last().md5@ == md5 {
        Some(sources.last())
    } else {
        source_of(sources.drop_last(), md5)
    }
}

/// The filled rating stars: the first `rating` of five (none without a rating).
pub open spec fn stars(rating: Option<u32>) -> Seq<bool> {
    Seq::new(
        5,
        |k: int|
            match rating {
                Some(r) => k < r,
                None => false,
            },
    )
}

/// The trimmed non-empty pieces.
pub open spec fn names_of(pieces: Seq<Seq<char>>) -> Seq<Seq<char>>
    decreases pieces.len(),
{
    if pieces.len() == 0 {
        Seq::empty()
    } else {
        let prev = names_of(pieces.drop_last());
        let w = trim_ws(pieces.last());
        if w.len() > 0 {
            prev.push(w)
        } else {
            prev
        }
    }
}

/// Where the cover of library item `id` is served.
pub open spec fn cover_path(id: Seq<char>) -> Seq<char> {
    "/assets/covers/"@ + id + ".webp"@
}

/// The recap item of completion `c` of statistics book `sb`: from the library book where there
/// is one (its title, authors, rating, review, series, id, cover and type), else from the
/// statistics (its title, its comma-separated authors, its type).
pub open spec fn recap_item(sb: StatBookView, c: ReadCompletionView, src: Option<RecapSource>) -> RecapItemView {
    match src {
        Some(s) => RecapItemView {
            title: s.title@,
            authors: texts_of(s.authors@),
            start_date: c.start_date,
            end_date: c.end_date,
            reading_time: c.reading_time,
            session_count: c.session_count,
            pages_read: c.pages_read,
            rating: s.rating,
            review_note: opt_text(s.review_note),
            series_display: opt_text(s.series_display),
            item_id: Some(s.id@),
            item_cover: Some(cover_path(s.id@)),
            content_type: Some(s.content_type),
            star_display: stars(s.rating),
        },
        None => RecapItemView {
            title: sb.title,
            authors: names_of(comma_pieces(sb.authors)),
            start_date: c.start_date,
            end_date: c.end_date,
            reading_time: c.reading_time,
            session_count: c.session_count,
            pages_read: c.pages_read,
            rating: None,
            review_note: None,
            series_display: None,
            item_id: None,
            item_cover: None,
            content_type: sb.content_type,
            star_display: stars(None),
        },
    }
}

/// The year and month key (`YYYY-MM`, as text) of a completion's end date.
pub open spec fn completion_key(end_date: Seq<char>) -> Option<(int, Seq<char>)> {
    match year_and_month(end_date) {
        Some((y, m)) => Some((y, decode_utf8(m))),
        None => None,
    }
}

/// The recap entries (year, month key, item) of the completions `cs` of `sb`, in order; a
/// completion whose end date has no year and month is left out.
pub open spec fn completion_entries(sb: StatBookView, cs: Seq<ReadCompletionView>, sources: Seq<RecapSource>) -> Seq<
    (int, Seq<char>, RecapItemView),
>
    decreases cs.len(),
{
    if cs.len() == 0 {
        Seq::empty()
    } else {
        let prev = completion_entries(sb, cs.drop_last(), sources);
        match completion_key(cs.last().end_date) {
            Some((y, k)) => prev.push((y, k, recap_item(sb, cs.last(), source_of(sources, sb.md5)))),
            None => prev,
        }
    }
}

/// The recap entries of the completions of every statistics book, in order.
pub open spec fn recap_entries(books: Seq<StatBook>, sources: Seq<RecapSource>) -> Seq<(int, Seq<char>, RecapItemView)>
    decreases books.len(),
{
    if books.len() == 0 {
        Seq::empty()
    } else {
        recap_entries(books.drop_last(), sources) + match books.last()@.completions {
            Some(c) => completion_entries(books.last()@, c.entries, sources),
            None => Seq::empty(),
        }
    }
}

/// Index of the first year in `ys` that is not above `y`.
pub open spec fn first_not_above(ys: Seq<int>, y: int) -> int
    decreases ys.len(),
{
    if ys.len() == 0 || ys[0] <= y {
        0
    } else {
        1 + first_not_above(ys.drop_first(), y)
    }
}

/// `ys` (newest first) with year `y` added where it is not there yet.
pub open spec fn with_year(ys: Seq<int>, y: int) -> Seq<int> {
    let j = first_not_above(ys, y);
    if j < ys.len() && ys[j] == y {
        ys
    } else {
        ys.insert(j, y)
    }
}

/// The years of the entries, each once, newest first.
pub open spec fn entry_years(e: Seq<(int, Seq<char>, RecapItemView)>) -> Seq<int>
    decreases e.len(),
{
    if e.len() == 0 {
        Seq::empty()
    } else {
        with_year(entry_years(e.drop_last()), e.last().0)
    }
}

/// Index of the first month of `g` whose key does not sort before `key`.
pub open spec fn first_not_before(g: Seq<(Seq<char>, Seq<RecapItemView>)>, key: Seq<char>) -> int
    decreases g.len(),
{
    if g.len() == 0 || !text_lt(g[0].0, key) {
        0
    } else {
        1 + first_not_before(g.drop_first(), key)
    }
}

/// `g` (months in key order) with `item` added to month `key`, which is placed in key order
/// where it is new.
pub open spec fn with_item(g: Seq<(Seq<char>, Seq<RecapItemView>)>, key: Seq<char>, item: RecapItemView) -> Seq<
    (Seq<char>, Seq<RecapItemView>),
> {
    let j = first_not_before(g, key);
    if j < g.len() && g[j].0 == key {
        g.update(j, (key, g[j].1.push(item)))
    } else {
        g.insert(j, (key, seq![item]))
    }
}

/// The months of year `y` with their items, in key order, the items of a month in the order of
/// the entries.
pub open spec fn year_months(e: Seq<(int, Seq<char>, RecapItemView)>, y: int) -> Seq<(Seq<char>, Seq<RecapItemView>)>
    decreases e.len(),
{
    if e.len() == 0 {
        Seq::empty()
    } else {
        let g = year_months(e.drop_last(), y);
        if e.last().0 == y {
            with_item(g, e.last().1, e.last().2)
        } else {
            g
        }
    }
}

proof fn lemma_first_not_before(g: Seq<(Seq<char>, Seq<RecapItemView>)>, key: Seq<char>)
    ensures
        0 <= first_not_before(g, key) <= g.len(),
        forall|k: int| 0 <= k < first_not_before(g, key) ==> text_lt(#[trigger] g[k].0, key),
        first_not_before(g, key) < g.len() ==> !text_lt(g[first_not_before(g, key)].0, key),
    decreases g.len(),
{
    if g.len() > 0 && text_lt(g[0].0, key) {
        let t = g.drop_first();
        lemma_first_not_before(t, key);
        assert forall|k: int| 0 <= k < first_not_before(g, key) implies text_lt(#[trigger] g[k].0, key) by {
            if k > 0 {
                assert(g[k] == t[k - 1]);
            }
        }
    }
}

proof fn lemma_first_not_above(ys: Seq<int>, y: int)
    ensures
        0 <= first_not_above(ys, y) <= ys.len(),
        forall|k: int| 0 <= k < first_not_above(ys, y) ==> #[trigger] ys[k] > y,
        first_not_above(ys, y) < ys.len() ==> ys[first_not_above(ys, y)] <= y,
    decreases ys.len(),
{
    if ys.len() > 0 && ys[0] > y {
        let t = ys.drop_first();
        lemma_first_not_above(t, y);
        assert forall|k: int| 0 <= k < first_not_above(ys, y) implies #[trigger] ys[k] > y by {
            if k > 0 {
                assert(ys[k] == t[k - 1]);
            }
        }
    }
}

/// Whether the month keys strictly ascend.
pub open spec fn keys_ascending(g: Seq<(Seq<char>, Seq<RecapItemView>)>) -> bool {
    forall|i: int, j: int| 0 <= i < j < g.len() ==> text_lt(#[trigger] g[i].0, #[trigger] g[j].0)
}

proof fn lemma_with_item_ascending(g: Seq<(Seq<char>, Seq<RecapItemView>)>, key: Seq<char>, item: RecapItemView)
    requires
        keys_ascending(g),
    ensures
        keys_ascending(with_item(g, key, item)),
{
    lemma_first_not_before(g, key);
    let j = first_not_before(g, key);
    if !(j < g.len() && g[j].0 == key) {
        let r = with_item(g, key, item);
        if j < g.len() {
            lemma_text_lt_total(g[j].0, key);
        }
        assert forall|a: int, b: int| 0 <= a < b < r.len() implies text_lt(#[trigger] r[a].0, #[trigger] r[b].0) by {
            if a < j && b == j {
            } else if a < j && b > j {
                assert(r[b] == g[b - 1]);
                assert(r[a] == g[a]);
            } else if a == j {
                assert(r[b] == g[b - 1]);
                if b - 1 > j {
                    lemma_text_lt_transitive(key, g[j].0, g[b - 1].0);
                }
            } else if a > j {
                assert(r[a] == g[a - 1] && r[b] == g[b - 1]);
            }
        }
    }
}

/// The months of a year are in strictly ascending key order.
pub proof fn lemma_year_months_ascending(e: Seq<(int, Seq<char>, RecapItemView)>, y: int)
    ensures
        keys_ascending(year_months(e, y)),
    decreases e.len(),
{
    if e.len() > 0 {
        lemma_year_months_ascending(e.drop_last(), y);
        if e.last().0 == y {
            lemma_with_item_ascending(year_months(e.drop_last(), y), e.last().1, e.last().2);
        }
    }
}

/// The years of the entries are newest first, each once, and they are exactly the years the
/// entries have.
pub proof fn lemma_entry_years(e: Seq<(int, Seq<char>, RecapItemView)>)
    ensures
        forall|i: int, j: int| 0 <= i < j < entry_years(e).len() ==> #[trigger] entry_years(e)[i] > #[trigger] entry_years(e)[j],
        forall|y: int| entry_years(e).contains(y) <==> exists|k: int| 0 <= k < e.len() && #[trigger] e[k].0 == y,
    decreases e.len(),
{
    if e.len() > 0 {
        let t = e.drop_last();
        lemma_entry_years(t);
        let ys = entry_years(t);
        let y = e.last().0;
        lemma_first_not_above(ys, y);
        let j = first_not_above(ys, y);
        let r = entry_years(e);
        if !(j < ys.len() && ys[j] == y) {
            assert forall|a: int, b: int| 0 <= a < b < r.len() implies #[trigger] r[a] > #[trigger] r[b] by {
                if b > j {
                    assert(r[b] == ys[b - 1]);
                }
                if a > j {
                    assert(r[a] == ys[a - 1]);
                }
                if a < j {
                    assert(r[a] == ys[a]);
                }
            }
        }
        assert forall|x: int| r.contains(x) <==> exists|k: int| 0 <= k < e.len() && #[trigger] e[k].0 == x by {
            if r.contains(x) {
                let m = choose|m: int| 0 <= m < r.len() && r[m] == x;
                if x == y {
                    assert(e[e.len() - 1].0 == x);
                } else {
                    if !(j < ys.len() && ys[j] == y) {
                        if m < j {
                            assert(ys[m] == x);
                        } else {
                            assert(m > j);
                            assert(ys[m - 1] == x);
                        }
                    }
                    assert(ys.contains(x));
                    let k = choose|k: int| 0 <= k < t.len() && #[trigger] t[k].0 == x;
                    assert(e[k] == t[k]);
                }
            }
            if exists|k: int| 0 <= k < e.len() && #[trigger] e[k].0 == x {
                let k = choose|k: int| 0 <= k < e.len() && #[trigger] e[k].0 == x;
                if k == e.len() - 1 {
                    if j < ys.len() && ys[j] == y {
                        assert(r[j] == x);
                    } else {
                        assert(r[j] == x);
                    }
                } else {
                    assert(t[k].0 == x);
                    assert(ys.contains(x));
                    let m = choose|m: int| 0 <= m < ys.len() && ys[m] == x;
                    if j < ys.len() && ys[j] == y {
                        assert(r[m] == x);
                    } else if m < j {
                        assert(r[m] == x);
                    } else {
                        assert(r[m + 1] == x);
                    }
                }
            }
        }
    }
}

/// The view of entries.
pub open spec fn entries_view(v: Seq<(i32, String, RecapItem)>) -> Seq<(int, Seq<char>, RecapItemView)> {
    v.map_values(|e: (i32, String, RecapItem)| (e.0 as int, e.1@, e.2@))
}

/// The recap item of a completion (see `recap_item`).
fn make_item(sb: &StatBook, c: &ReadCompletion, src: Option<&RecapSource>) -> (r: RecapItem)
    ensures
        r@ == recap_item(sb@, c@, match src {
            Some(s) => Some(*s),
            None => None,
        }),
{
    match src {
        Some(s) => {
            let rating = s.rating;
            let n: u32 = match rating {
                Some(r) => r,
                None => 0,
            };
            let stars_filled = [n >= 1, n >= 2, n >= 3, n >= 4, n >= 5];
            let mut cover = chars_of("/assets/covers/");
            let mut idc = chars_of(s.id.as_str());
            cover.append(&mut idc);
            let mut tail = chars_of(".webp");
            cover.append(&mut tail);
            let item = RecapItem {
                title: copy_string(&s.title),
                authors: copy_strings(&s.authors),
                start_date: copy_string(&c.start_date),
                end_date: copy_string(&c.end_date),
                reading_time: c.reading_time,
                session_count: c.session_count,
                pages_read: c.pages_read,
                rating,
                review_note: copy_opt_string(&s.review_note),
                series_display: copy_opt_string(&s.series_display),
                item_id: Some(copy_string(&s.id)),
                item_cover: Some(string_from_chars(cover.as_slice())),
                content_type: Some(s.content_type),
                star_display: stars_filled,
            };
            assert(item@.star_display =~= stars(rating));
            assert(item@.item_cover == Some(cover_path(s.id@)));
            item
        },
        None => {
            let pieces = split_commas(&chars_of(sb.authors.as_str()));
            let ghost ps = part_views(pieces@);
            let mut names: Vec<String> = Vec::new();
            let mut i: usize = 0;
            while i < pieces.len()
                invariant
                    i <= pieces.len(),
                    ps == part_views(pieces@),
                    texts_of(names@) == names_of(ps.take(i as int)),
                decreases pieces.len() - i,
            {
                assert(ps.take(i + 1).drop_last() =~= ps.take(i as int));
                assert(ps.take(i + 1).last() == pieces@[i as int]@);
                let w = trim_chars(&pieces[i]);
                if w.len() > 0 {
                    let ghost before = texts_of(names@);
                    names.push(string_from_chars(w.as_slice()));
                    assert(texts_of(names@) =~= before.push(w@));
                }
                i += 1;
            }
            assert(ps.take(pieces.len() as int) =~= ps);
            let item = RecapItem {
                title: copy_string(&sb.title),
                authors: names,
                start_date: copy_string(&c.start_date),
                end_date: copy_string(&c.end_date),
                reading_time: c.reading_time,
                session_count: c.session_count,
                pages_read: c.pages_read,
                rating: None,
                review_note: None,
                series_display: None,
                item_id: None,
                item_cover: None,
                content_type: sb.content_type,
                star_display: [false, false, false, false, false],
            };
            assert(item@.star_display =~= stars(None));
            item
        },
    }
}

/// The library book with the given MD5 (see `source_of`).
fn find_source<'a>(sources: &'a Vec<RecapSource>, md5: &str) -> (r: Option<&'a RecapSource>)
    ensures
        match source_of(sources@, md5@) {
            Some(s) => r matches Some(x) && *x == s,
            None => r is None,
        },
{
    let mut k: usize = sources.len();
    assert(sources@.take(k as int) =~= sources@);
    while k > 0
        invariant
            k <= sources.len(),
            source_of(sources@, md5@) == source_of(sources@.take(k as int), md5@),
        decreases k,
    {
        assert(sources@.take(k as int).drop_last() =~= sources@.take(k - 1));
        assert(sources@.take(k as int).last() == sources@[k - 1]);
        if crate::text::str_eq(sources[k - 1].md5.as_str(), md5) {
            return Some(&sources[k - 1]);
        }
        k -= 1;
    }
    None
}

/// The recap entries of all completions (see `recap_entries`).
fn collect_entries(books: &Vec<StatBook>, sources: &Vec<RecapSource>) -> (r: Vec<(i32, String, RecapItem)>)
    ensures
        entries_view(r@) == recap_entries(books@, sources@),
{
    let mut out: Vec<(i32, String, RecapItem)> = Vec::new();
    let mut b: usize = 0;
    while b < books.len()
        invariant
            b <= books.len(),
            entries_view(out@) == recap_entries(books@.take(b as int), sources@),
        decreases books.len() - b,
    {
        assert(books@.take(b + 1).drop_last() =~= books@.take(b as int));
        assert(books@.take(b + 1).last() == books@[b as int]);
        let sb = &books[b];
        let ghost start = entries_view(out@);
        match &sb.completions {
            Some(comps) => {
                let src = find_source(sources, sb.md5.as_str());
                let ghost cs = comps.entries@.map_values(|c: ReadCompletion| c@);
                assert(sb@.completions == Some(comps@));
                let mut i: usize = 0;
                while i < comps.entries.len()
                    invariant
                        i <= comps.entries.len(),
                        cs == comps.entries@.map_values(|c: ReadCompletion| c@),
                        cs == sb@.completions->0.entries,
                        src == match source_of(sources@, sb@.md5) {
                            Some(s) => Some(&s),
                            None => None::<&RecapSource>,
                        },
                        entries_view(out@) == start + completion_entries(sb@, cs.take(i as int), sources@),
                    decreases comps.entries.len() - i,
                {
                    assert(cs.take(i + 1).drop_last() =~= cs.take(i as int));
                    assert(cs.take(i + 1).last() == comps.entries@[i as int]@);
                    let c = &comps.entries[i];
                    match completion_year_and_month(c.end_date.as_str()) {
                        Some((y, ym)) => {
                            proof {
                                encode_utf8_decode_utf8(ym@);
                            }
                            let item = make_item(sb, c, src);
                            let ghost before = entries_view(out@);
                            out.push((y, ym, item));
                            assert(entries_view(out@) =~= before.push((y as int, out@.last().1@, out@.last().2@)));
                        },
                        None => {},
                    }
                    i += 1;
                }
                assert(cs.take(comps.entries.len() as int) =~= cs);
            },
            None => {
                assert(entries_view(out@) =~= start + Seq::<(int, Seq<char>, RecapItemView)>::empty());
            },
        }
        b += 1;
    }
    assert(books@.take(books.len() as int) =~= books@);
    out
}

/// Adds year `y` to `years` (see `with_year`).
fn add_year(years: &mut Vec<i32>, y: i32)
    ensures
        final(years)@.map_values(|x: i32| x as int) == with_year(old(years)@.map_values(|x: i32| x as int), y as int),
{
    let ghost ys = years@.map_values(|x: i32| x as int);
    let mut j: usize = 0;
    assert(ys.skip(0) =~= ys);
    while j < years.len() && years[j] > y
        invariant
            j <= years.len(),
            ys == years@.map_values(|x: i32| x as int),
            first_not_above(ys, y as int) == j + first_not_above(ys.skip(j as int), y as int),
        decreases years.len() - j,
    {
        assert(ys.skip(j as int).drop_first() =~= ys.skip(j + 1));
        j += 1;
    }
    assert(first_not_above(ys, y as int) == j) by {
        if j < years.len() {
            assert(ys.skip(j as int)[0] == ys[j as int]);
        }
    }
    if j < years.len() && years[j] == y {
        return;
    }
    years.insert(j, y);
    assert(years@.map_values(|x: i32| x as int) =~= ys.insert(j as int, y as int));
}

/// Adds `item` to month `key` (see `with_item`).
fn add_item(groups: &mut Vec<(String, Vec<RecapItem>)>, key: &String, item: RecapItem)
    ensures
        month_items_view(final(groups)@) == with_item(month_items_view(old(groups)@), key@, item@),
{
    let ghost g = month_items_view(groups@);
    let mut j: usize = 0;
    assert(g.skip(0) =~= g);
    while j < groups.len() && less_than(groups[j].0.as_str(), key.as_str())
        invariant
            j <= groups.len(),
            g == month_items_view(groups@),
            first_not_before(g, key@) == j + first_not_before(g.skip(j as int), key@),
        decreases groups.len() - j,
    {
        assert(g.skip(j as int).drop_first() =~= g.skip(j + 1));
        assert(g.skip(j as int)[0] == g[j as int]);
        j += 1;
    }
    assert(first_not_before(g, key@) == j) by {
        if j < groups.len() {
            assert(g.skip(j as int)[0] == g[j as int]);
        }
    }
    if j < groups.len() && crate::text::str_eq(groups[j].0.as_str(), key.as_str()) {
        let (k, mut items) = groups.remove(j);
        let ghost old_items = items_view(items@);
        items.push(item);
        assert(items_view(items@) =~= old_items.push(item@));
        let ghost mid = groups@;
        groups.insert(j, (k, items));
        assert(month_items_view(groups@) =~= g.update(j as int, (key@, g[j as int].1.push(item@))));
    } else {
        let mut items: Vec<RecapItem> = Vec::new();
        items.push(item);
        assert(items_view(items@) =~= seq![item@]);
        groups.insert(j, (copy_string(key), items));
        assert(month_items_view(groups@) =~= g.insert(j as int, (key@, seq![item@])));
    }
}

/// Completions grouped for the recap: for each year with completions, newest first, the
/// year's months in key order with their items (see `entry_years` and `year_months` over
/// `recap_entries`). `sources` holds the library books that have a partial MD5.
pub fn group_completions_by_year_month(stats_data: &StatisticsData, sources: &Vec<RecapSource>) -> (r: Vec<
    (i32, Vec<(String, Vec<RecapItem>)>),
>)
    ensures
        ({
            let e = recap_entries(stats_data.books@, sources@);
            &&& r@.len() == entry_years(e).len()
            &&& forall|i: int|
                0 <= i < r@.len() ==> {
                    &&& (#[trigger] r@[i]).0 as int == entry_years(e)[i]
                    &&& month_items_view(r@[i].1@) == year_months(e, entry_years(e)[i])
                }
        }),
{
    let entries = collect_entries(&stats_data.books, sources);
    let ghost ev = entries_view(entries@);
    let mut years: Vec<i32> = Vec::new();
    let mut i: usize = 0;
    while i < entries.len()
        invariant
            i <= entries.len(),
            ev == entries_view(entries@),
            years@.map_values(|x: i32| x as int) == entry_years(ev.take(i as int)),
        decreases entries.len() - i,
    {
        assert(ev.take(i + 1).drop_last() =~= ev.take(i as int));
        assert(ev.take(i + 1).last() == ev[i as int]);
        add_year(&mut years, entries[i].0);
        i += 1;
    }
    assert(ev.take(entries.len() as int) =~= ev);
    let ghost yv = years@.map_values(|x: i32| x as int);
    let mut out: Vec<(i32, Vec<(String, Vec<RecapItem>)>)> = Vec::new();
    let mut k: usize = 0;
    while k < years.len()
        invariant
            k <= years.len(),
            ev == entries_view(entries@),
            yv == years@.map_values(|x: i32| x as int),
            yv == entry_years(ev),
            out.len() == k,
            forall|x: int|
                0 <= x < k ==> {
                    &&& (#[trigger] out@[x]).0 as int == yv[x]
                    &&& month_items_view(out@[x].1@) == year_months(ev, yv[x])
                },
        decreases years.len() - k,
    {
        let y = years[k];
        let mut groups: Vec<(String, Vec<RecapItem>)> = Vec::new();
        let mut i: usize = 0;
        while i < entries.len()
            invariant
                i <= entries.len(),
                ev == entries_view(entries@),
                month_items_view(groups@) == year_months(ev.take(i as int), y as int),
            decreases entries.len() - i,
        {
            assert(ev.take(i + 1).drop_last() =~= ev.take(i as int));
            assert(ev.take(i + 1).last() == ev[i as int]);
            if entries[i].0 == y {
                add_item(&mut groups, &entries[i].1, entries[i].2.duplicate());
            }
            i += 1;
        }
        assert(ev.take(entries.len() as int) =~= ev);
        out.push((y, groups));
        k += 1;
    }
    out
}

} // verus!
