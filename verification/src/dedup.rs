//! Collapsing statistics book rows that share an MD5.
//!
//! When KOReader has several book rows for one document (the same MD5), the most recently
//! opened row (the highest id among equals) becomes canonical: it takes the summed reading time
//! and pages and the larger note and highlight counts of the others, the others are removed,
//! and page reads of a removed row are moved to its canonical row.
use vstd::prelude::*;
use crate::stats_types::{PageStat, StatBook, StatBookView};
use crate::text::str_eq;

verus! {

/// Views of book rows.
pub open spec fn book_views(v: Seq<StatBook>) -> Seq<StatBookView> {
    v.map_values(|b: StatBook| b@)
}

/// The integer value of an optional count, 0 when absent.
pub open spec fn or_zero(x: Option<i64>) -> int {
    match x {
        Some(v) => v as int,
        None => 0,
    }
}

/// `a` ranks at least as high as `b`: opened later, or as late with an id at least as high.
pub open spec fn rank_ge(a: StatBookView, b: StatBookView) -> bool {
    or_zero(a.last_open) > or_zero(b.last_open) || (or_zero(a.last_open) == or_zero(b.last_open)
        && a.id >= b.id)
}

/// Index of the highest-ranked row with MD5 `key` among the first `k` (the later one among
/// equals), or -1.
pub open spec fn best_upto(v: Seq<StatBookView>, key: Seq<char>, k: int) -> int
    decreases k,
{
    if k <= 0 {
        -1
    } else {
        let b = best_upto(v, key, k - 1);
        if v[k - 1].md5 == key && (b < 0 || rank_ge(v[k - 1], v[b])) {
            k - 1
        } else {
            b
        }
    }
}

/// Index of the canonical row of row `i`'s MD5.
pub open spec fn canonical(v: Seq<StatBookView>, i: int) -> int {
    best_upto(v, v[i].md5, v.len() as int)
}

/// The counts a row carries that merging combines.
pub enum CountField {
    ReadTime,
    ReadPages,
    Notes,
    Highlights,
}

/// The value of count `f` of row `b`.
pub open spec fn count_of(b: StatBookView, f: CountField) -> Option<i64> {
    match f {
        CountField::ReadTime => b.total_read_time,
        CountField::ReadPages => b.total_read_pages,
        CountField::Notes => b.notes,
        CountField::Highlights => b.highlights,
    }
}

/// Running sum of the optional field `f` over the rows `j < k` sharing row `c`'s MD5, starting
/// from row `c`'s own value; an absent value leaves the sum as it is.
pub open spec fn sum_upto(
    v: Seq<StatBookView>,
    c: int,
    k: int,
    f: CountField,
) -> Option<int>
    decreases k,
{
    if k <= 0 {
        match count_of(v[c], f) {
            Some(x) => Some(x as int),
            None => None,
        }
    } else {
        let acc = sum_upto(v, c, k - 1, f);
        if k - 1 != c && v[k - 1].md5 == v[c].md5 && count_of(v[k - 1], f) is Some {
            Some(
                match acc {
                    Some(a) => a,
                    None => 0,
                } + count_of(v[k - 1], f)->0,
            )
        } else {
            acc
        }
    }
}

/// Running maximum of the optional field `f` over the rows `j < k` sharing row `c`'s MD5.
pub open spec fn max_upto(
    v: Seq<StatBookView>,
    c: int,
    k: int,
    f: CountField,
) -> Option<i64>
    decreases k,
{
    if k <= 0 {
        count_of(v[c], f)
    } else {
        let acc = max_upto(v, c, k - 1, f);
        if k - 1 != c && v[k - 1].md5 == v[c].md5 && count_of(v[k - 1], f) is Some {
            let a = match acc {
                Some(a) => a,
                None => 0,
            };
            let x = count_of(v[k - 1], f)->0;
            Some(
                if a >= x {
                    a
                } else {
                    x
                },
            )
        } else {
            acc
        }
    }
}

/// Every running sum of `f` for row `c`, up to `k`, stays within `i64`.
pub open spec fn sums_fit(
    v: Seq<StatBookView>,
    c: int,
    k: int,
    f: CountField,
) -> bool {
    forall|j: int|
        0 <= j <= k ==> match #[trigger] sum_upto(v, c, j, f) {
            Some(s) => i64::MIN <= s <= i64::MAX,
            None => true,
        }
}


/// An optional integer as an optional `i64`.
pub open spec fn to_i64(x: Option<int>) -> Option<i64> {
    match x {
        Some(a) => Some(a as i64),
        None => None,
    }
}

/// Canonical row `c` with the other rows of its MD5 merged in.
pub open spec fn merged_row(v: Seq<StatBookView>, c: int) -> StatBookView {
    let n = v.len() as int;
    StatBookView {
        total_read_time: to_i64(sum_upto(v, c, n, CountField::ReadTime)),
        total_read_pages: to_i64(sum_upto(v, c, n, CountField::ReadPages)),
        notes: max_upto(v, c, n, CountField::Notes),
        highlights: max_upto(v, c, n, CountField::Highlights),
        ..v[c]
    }
}

/// Rows kept among the first `k`: the canonical ones, merged, in order.
pub open spec fn kept_rows(v: Seq<StatBookView>, k: int) -> Seq<StatBookView>
    decreases k,
{
    if k <= 0 {
        Seq::empty()
    } else if canonical(v, k - 1) == k - 1 {
        kept_rows(v, k - 1).push(merged_row(v, k - 1))
    } else {
        kept_rows(v, k - 1)
    }
}

/// The book id page reads of `id` move to: that of the canonical row of the last removed row
/// with that id among the first `k`, if any.
pub open spec fn remap_upto(v: Seq<StatBookView>, id: i64, k: int) -> Option<i64>
    decreases k,
{
    if k <= 0 {
        None
    } else if canonical(v, k - 1) != k - 1 && v[k - 1].id == id {
        Some(v[canonical(v, k - 1)].id)
    } else {
        remap_upto(v, id, k - 1)
    }
}

/// A page read with its book id remapped.
pub open spec fn remapped(v: Seq<StatBookView>, p: PageStat) -> PageStat {
    match remap_upto(v, p.id_book, v.len() as int) {
        Some(id) => PageStat { id_book: id, ..p },
        None => p,
    }
}

/// No running sum of reading time or pages overflows `i64` for a canonical row.
pub open spec fn dedup_fits(v: Seq<StatBookView>) -> bool {
    forall|c: int|
        0 <= c < v.len() && #[trigger] canonical(v, c) == c ==> sums_fit(
            v,
            c,
            v.len() as int,
            CountField::ReadTime,
        ) && sums_fit(v, c, v.len() as int, CountField::ReadPages)
}

proof fn lemma_best_upto_bounds(v: Seq<StatBookView>, key: Seq<char>, k: int)
    requires
        0 <= k <= v.len(),
    ensures
        -1 <= best_upto(v, key, k) < k,
        best_upto(v, key, k) >= 0 ==> v[best_upto(v, key, k)].md5 == key,
        (exists|j: int| 0 <= j < k && v[j].md5 == key) ==> best_upto(v, key, k) >= 0,
    decreases k,
{
    if k > 0 {
        lemma_best_upto_bounds(v, key, k - 1);
    }
}

/// The canonical row of any row shares its MD5 and is its own canonical row.
proof fn lemma_canonical(v: Seq<StatBookView>, i: int)
    requires
        0 <= i < v.len(),
    ensures
        0 <= canonical(v, i) < v.len(),
        v[canonical(v, i)].md5 == v[i].md5,
        canonical(v, canonical(v, i)) == canonical(v, i),
{
    lemma_best_upto_bounds(v, v[i].md5, v.len() as int);
}

/// Some canonical row among the first `k` has MD5 `m`.
spec fn kept_from(v: Seq<StatBookView>, k: int, m: Seq<char>) -> bool {
    exists|c: int| 0 <= c < k && canonical(v, c) == c && #[trigger] v[c].md5 == m
}

proof fn lemma_kept_upto(v: Seq<StatBookView>, k: int)
    requires
        0 <= k <= v.len(),
    ensures
        forall|j: int|
            0 <= j < kept_rows(v, k).len() ==> kept_from(v, k, #[trigger] kept_rows(v, k)[j].md5),
        forall|a: int, b: int|
            0 <= a < b < kept_rows(v, k).len() ==> kept_rows(v, k)[a].md5 != kept_rows(v, k)[b].md5,
        forall|c: int|
            0 <= c < k && #[trigger] canonical(v, c) == c ==> exists|j: int|
                0 <= j < kept_rows(v, k).len() && kept_rows(v, k)[j].md5 == v[c].md5,
    decreases k,
{
    if k > 0 {
        lemma_kept_upto(v, k - 1);
        let prev = kept_rows(v, k - 1);
        let cur = kept_rows(v, k);
        assert forall|j: int| 0 <= j < prev.len() implies kept_from(v, k, #[trigger] prev[j].md5) by {
            assert(kept_from(v, k - 1, prev[j].md5));
            let c = choose|c: int| 0 <= c < k - 1 && canonical(v, c) == c && #[trigger] v[c].md5
                == prev[j].md5;
            assert(0 <= c < k && canonical(v, c) == c && v[c].md5 == prev[j].md5);
        }
        if canonical(v, k - 1) == k - 1 {
            let m = merged_row(v, k - 1);
            assert(cur == prev.push(m));
            assert(m.md5 == v[k - 1].md5);
            assert forall|j: int| 0 <= j < cur.len() implies kept_from(v, k, #[trigger] cur[j].md5) by {
                if j < prev.len() {
                    assert(cur[j] == prev[j]);
                } else {
                    assert(cur[j] == m);
                    assert(v[k - 1].md5 == m.md5);
                }
            }
            assert forall|a: int, b: int| 0 <= a < b < cur.len() implies cur[a].md5
                != cur[b].md5 by {
                assert(cur[a] == prev[a]);
                if b < prev.len() {
                    assert(cur[b] == prev[b]);
                } else {
                    assert(cur[b] == m);
                    assert(kept_from(v, k - 1, prev[a].md5));
                    let c = choose|c: int| 0 <= c < k - 1 && canonical(v, c) == c && #[trigger] v[c].md5
                        == prev[a].md5;
                    if prev[a].md5 == m.md5 {
                        assert(canonical(v, c) == best_upto(v, v[c].md5, v.len() as int));
                        assert(canonical(v, k - 1) == best_upto(v, v[k - 1].md5, v.len() as int));
                    }
                }
            }
            assert forall|c: int| 0 <= c < k && #[trigger] canonical(v, c) == c implies exists|j: int|
                0 <= j < cur.len() && cur[j].md5 == v[c].md5 by {
                if c < k - 1 {
                    let j = choose|j: int| 0 <= j < prev.len() && prev[j].md5 == v[c].md5;
                    assert(cur[j] == prev[j]);
                } else {
                    assert(cur[prev.len() as int] == m);
                }
            }
        } else {
            assert(cur == prev);
        }
    }
}

/// After collapsing, no two kept rows share an MD5, and every row's MD5 is kept.
pub proof fn lemma_kept_rows_have_distinct_md5s(v: Seq<StatBookView>)
    ensures
        forall|a: int, b: int|
            0 <= a < b < kept_rows(v, v.len() as int).len() ==> kept_rows(v, v.len() as int)[a].md5
                != kept_rows(v, v.len() as int)[b].md5,
        forall|i: int|
            0 <= i < v.len() ==> exists|j: int|
                0 <= j < kept_rows(v, v.len() as int).len() && kept_rows(v, v.len() as int)[j].md5
                    == #[trigger] v[i].md5,
{
    let n = v.len() as int;
    lemma_kept_upto(v, n);
    assert forall|i: int| 0 <= i < n implies exists|j: int|
        0 <= j < kept_rows(v, n).len() && kept_rows(v, n)[j].md5 == #[trigger] v[i].md5 by {
        lemma_canonical(v, i);
        let c = canonical(v, i);
        assert(canonical(v, c) == c);
        let j = choose|j: int| 0 <= j < kept_rows(v, n).len() && kept_rows(v, n)[j].md5 == v[c].md5;
    }
}

fn best_index(books: &Vec<StatBook>, i: usize) -> (r: usize)
    requires
        i < books.len(),
    ensures
        r as int == canonical(book_views(books@), i as int),
{
    let ghost v = book_views(books@);
    let mut best: Option<usize> = None;
    let mut k: usize = 0;
    while k < books.len()
        invariant
            k <= books.len(),
            i < books.len(),
            v == book_views(books@),
            match best {
                Some(b) => b as int == best_upto(v, v[i as int].md5, k as int),
                None => best_upto(v, v[i as int].md5, k as int) == -1,
            },
        decreases books.len() - k,
    {
        proof {
            lemma_best_upto_bounds(v, v[i as int].md5, k as int);
        }
        if str_eq(books[k].md5.as_str(), books[i].md5.as_str()) {
            let take = match best {
                None => true,
                Some(b) => {
                    let lk = match books[k].last_open {
                        Some(x) => x,
                        None => 0,
                    };
                    let lb = match books[b].last_open {
                        Some(x) => x,
                        None => 0,
                    };
                    lk > lb || (lk == lb && books[k].id >= books[b].id)
                },
            };
            if take {
                best = Some(k);
            }
        }
        k += 1;
    }
    proof {
        lemma_best_upto_bounds(v, v[i as int].md5, books.len() as int);
        assert(0 <= i < books.len() && v[i as int].md5 == v[i as int].md5);
    }
    match best {
        Some(b) => b,
        None => i,
    }
}


fn merged_book(books: &Vec<StatBook>, c: usize) -> (r: StatBook)
    requires
        c < books.len(),
        sums_fit(book_views(books@), c as int, books.len() as int, CountField::ReadTime),
        sums_fit(book_views(books@), c as int, books.len() as int, CountField::ReadPages),
    ensures
        r@ == merged_row(book_views(books@), c as int),
{
    let ghost v = book_views(books@);
    let n = books.len();
    let mut time = books[c].total_read_time;
    let mut pages = books[c].total_read_pages;
    let mut notes = books[c].notes;
    let mut highlights = books[c].highlights;
    let mut k: usize = 0;
    proof {
        assert(sum_upto(v, c as int, 0, CountField::ReadTime) == sum_upto(v, c as int, 0, CountField::ReadTime));
    }
    while k < n
        invariant
            k <= n,
            c < n,
            n == books.len(),
            v == book_views(books@),
            sums_fit(v, c as int, n as int, CountField::ReadTime),
            sums_fit(v, c as int, n as int, CountField::ReadPages),
            time == to_i64(sum_upto(v, c as int, k as int, CountField::ReadTime)),
            pages == to_i64(sum_upto(v, c as int, k as int, CountField::ReadPages)),
            notes == max_upto(v, c as int, k as int, CountField::Notes),
            highlights == max_upto(v, c as int, k as int, CountField::Highlights),
        decreases n - k,
    {
        let ghost st = sum_upto(v, c as int, k + 1, CountField::ReadTime);
        let ghost sp = sum_upto(v, c as int, k + 1, CountField::ReadPages);
        let ghost st0 = sum_upto(v, c as int, k as int, CountField::ReadTime);
        let ghost sp0 = sum_upto(v, c as int, k as int, CountField::ReadPages);
        if k != c && str_eq(books[k].md5.as_str(), books[c].md5.as_str()) {
            match books[k].total_read_time {
                Some(t) => {
                    let a = match time {
                        Some(a) => a,
                        None => 0,
                    };
                    proof {
                        if st0 is Some {
                            assert(st0->0 == a as int);
                        }
                    }
                    time = Some(a + t);
                },
                None => {},
            }
            match books[k].total_read_pages {
                Some(t) => {
                    let a = match pages {
                        Some(a) => a,
                        None => 0,
                    };
                    proof {
                        if sp0 is Some {
                            assert(sp0->0 == a as int);
                        }
                    }
                    pages = Some(a + t);
                },
                None => {},
            }
            match books[k].notes {
                Some(x) => {
                    let a = match notes {
                        Some(a) => a,
                        None => 0,
                    };
                    notes = Some(
                        if a >= x {
                            a
                        } else {
                            x
                        },
                    );
                },
                None => {},
            }
            match books[k].highlights {
                Some(x) => {
                    let a = match highlights {
                        Some(a) => a,
                        None => 0,
                    };
                    highlights = Some(
                        if a >= x {
                            a
                        } else {
                            x
                        },
                    );
                },
                None => {},
            }
        }
        k += 1;
    }
    let mut r = books[c].duplicate();
    r.total_read_time = time;
    r.total_read_pages = pages;
    r.notes = notes;
    r.highlights = highlights;
    r
}

fn remap_of(books: &Vec<StatBook>, canon: &Vec<usize>, id: i64) -> (r: Option<i64>)
    requires
        canon.len() == books.len(),
        forall|j: int|
            0 <= j < books.len() ==> #[trigger] canon@[j] as int == canonical(book_views(books@), j)
                && canon@[j] < books.len(),
    ensures
        r == remap_upto(book_views(books@), id, books.len() as int),
{
    let ghost v = book_views(books@);
    let mut found: Option<i64> = None;
    let mut j: usize = 0;
    while j < books.len()
        invariant
            j <= books.len(),
            canon.len() == books.len(),
            v == book_views(books@),
            forall|q: int|
                0 <= q < books.len() ==> #[trigger] canon@[q] as int == canonical(v, q) && canon@[q]
                    < books.len(),
            found == remap_upto(v, id, j as int),
        decreases books.len() - j,
    {
        if canon[j] != j && books[j].id == id {
            found = Some(books[canon[j]].id);
        }
        j += 1;
    }
    found
}

/// Reads KOReader's statistics database.
pub struct StatisticsParser;

impl StatisticsParser {
    /// Collapses book rows that share an MD5 into their canonical row (see the module
    /// documentation) and moves the page reads of removed rows to their canonical row.
    pub fn deduplicate_by_md5(books: &mut Vec<StatBook>, page_stats: &mut Vec<PageStat>)
        requires
            dedup_fits(book_views(old(books)@)),
        ensures
            book_views(final(books)@) == kept_rows(
                book_views(old(books)@),
                old(books).len() as int,
            ),
            final(page_stats)@ == old(page_stats)@.map_values(
                |p: PageStat| remapped(book_views(old(books)@), p),
            ),
    {
        let ghost v = book_views(books@);
        let n = books.len();
        let mut canon: Vec<usize> = Vec::new();
        let mut i: usize = 0;
        while i < n
            invariant
                i <= n,
                n == books.len(),
                v == book_views(books@),
                canon.len() == i,
                forall|j: int|
                    0 <= j < i ==> #[trigger] canon@[j] as int == canonical(v, j) && canon@[j] < n,
            decreases n - i,
        {
            let b = best_index(books, i);
            proof {
                lemma_canonical(v, i as int);
            }
            canon.push(b);
            i += 1;
        }
        let mut kept: Vec<StatBook> = Vec::new();
        let mut c: usize = 0;
        while c < n
            invariant
                c <= n,
                n == books.len(),
                v == book_views(books@),
                dedup_fits(v),
                canon.len() == n,
                forall|j: int|
                    0 <= j < n ==> #[trigger] canon@[j] as int == canonical(v, j) && canon@[j] < n,
                book_views(kept@) == kept_rows(v, c as int),
            decreases n - c,
        {
            if canon[c] == c {
                assert(canonical(v, c as int) == c);
                let m = merged_book(books, c);
                let ghost before = book_views(kept@);
                kept.push(m);
                assert(book_views(kept@) =~= before.push(merged_row(v, c as int)));
            }
            c += 1;
        }
        let ghost ps = page_stats@;
        let mut p: usize = 0;
        while p < page_stats.len()
            invariant
                p <= page_stats.len(),
                page_stats.len() == ps.len(),
                n == books.len(),
                v == book_views(books@),
                canon.len() == n,
                forall|j: int|
                    0 <= j < n ==> #[trigger] canon@[j] as int == canonical(v, j) && canon@[j] < n,
                forall|q: int| 0 <= q < p ==> #[trigger] page_stats@[q] == remapped(v, ps[q]),
                forall|q: int| p <= q < ps.len() ==> #[trigger] page_stats@[q] == ps[q],
            decreases page_stats.len() - p,
        {
            let stat = page_stats[p];
            match remap_of(books, &canon, stat.id_book) {
                Some(id) => {
                    page_stats.set(p, PageStat { id_book: id, ..stat });
                },
                None => {},
            }
            p += 1;
        }
        assert(page_stats@ =~= ps.map_values(|q: PageStat| remapped(v, q)));
        *books = kept;
    }
}

} // verus!
