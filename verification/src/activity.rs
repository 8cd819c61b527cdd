//! Author lists and daily reading activity.
use vstd::prelude::*;
use crate::sessions::StatisticsCalculator;
use crate::stats_types::{lookup, DailyStats};
use crate::text::{chars_of, copy_string, less_than, string_from_chars, text_lt, trim_chars, trim_ws};

verus! {

/// Whether `c` separates authors.
pub open spec fn is_author_sep(c: char) -> bool {
    c == ',' || c == ';'
}

/// The pieces of `s` between separators (always at least one, possibly empty).
pub open spec fn author_pieces(s: Seq<char>) -> Seq<Seq<char>>
    decreases s.len(),
{
    if s.len() == 0 {
        seq![Seq::empty()]
    } else if is_author_sep(s.last()) {
        author_pieces(s.drop_last()).push(Seq::empty())
    } else {
        let p = author_pieces(s.drop_last());
        p.update(p.len() - 1, p.last().push(s.last()))
    }
}

/// The trimmed pieces that are not empty, in order.
pub open spec fn kept_pieces(p: Seq<Seq<char>>) -> Seq<Seq<char>>
    decreases p.len(),
{
    if p.len() == 0 {
        Seq::empty()
    } else if trim_ws(p.last()).len() > 0 {
        kept_pieces(p.drop_last()).push(trim_ws(p.last()))
    } else {
        kept_pieces(p.drop_last())
    }
}

/// Author names in an authors field: split at `,` and `;`, trimmed, empty names dropped.
pub open spec fn spec_authors(s: Seq<char>) -> Seq<Seq<char>> {
    kept_pieces(author_pieces(s))
}

proof fn lemma_pieces_nonempty(s: Seq<char>)
    ensures
        author_pieces(s).len() >= 1,
    decreases s.len(),
{
    if s.len() > 0 {
        lemma_pieces_nonempty(s.drop_last());
    }
}

/// The text of each string.
pub open spec fn texts(v: Seq<String>) -> Seq<Seq<char>> {
    v.map_values(|s: String| s@)
}

/// The content of a day of activity.
pub open spec fn day_view(d: DailyStats) -> (Seq<char>, i64, i64) {
    (d.date@, d.read_time, d.pages_read)
}

/// The contents of days of activity.
pub open spec fn days_view(v: Seq<DailyStats>) -> Seq<(Seq<char>, i64, i64)> {
    v.map_values(|d: DailyStats| day_view(d))
}

/// `s` with `x` inserted after every day whose date sorts no later than `x`'s (stable insertion).
pub open spec fn insert_by_date(s: Seq<(Seq<char>, i64, i64)>, x: (Seq<char>, i64, i64)) -> Seq<
    (Seq<char>, i64, i64),
>
    decreases s.len(),
{
    if s.len() == 0 {
        seq![x]
    } else if !text_lt(x.0, s.last().0) {
        s.push(x)
    } else {
        insert_by_date(s.drop_last(), x).push(s.last())
    }
}

/// Days of reading: each date with a read time, its page count (0 when none is recorded),
/// sorted by date with a stable sort.
pub open spec fn spec_daily_activity(
    read_time: Seq<(String, i64)>,
    page_reads: Seq<(String, i64)>,
) -> Seq<(Seq<char>, i64, i64)>
    decreases read_time.len(),
{
    if read_time.len() == 0 {
        Seq::empty()
    } else {
        let e = read_time.last();
        insert_by_date(
            spec_daily_activity(read_time.drop_last(), page_reads),
            (
                e.0@,
                e.1,
                match lookup(page_reads, e.0@) {
                    Some(p) => p,
                    None => 0,
                },
            ),
        )
    }
}

proof fn lemma_insert_by_date_at(s: Seq<(Seq<char>, i64, i64)>, x: (Seq<char>, i64, i64), j: int)
    requires
        0 <= j <= s.len(),
        j > 0 ==> !text_lt(x.0, s[j - 1].0),
        forall|k: int| j <= k < s.len() ==> text_lt(x.0, #[trigger] s[k].0),
    ensures
        insert_by_date(s, x) == s.insert(j, x),
    decreases s.len(),
{
    if s.len() == 0 {
        assert(s.insert(j, x) =~= seq![x]);
    } else if j == s.len() {
        assert(s.insert(j, x) =~= s.push(x));
    } else {
        assert(text_lt(x.0, s[s.len() - 1].0));
        lemma_insert_by_date_at(s.drop_last(), x, j);
        assert(s.drop_last().insert(j, x).push(s.last()) =~= s.insert(j, x));
    }
}

fn insert_day(v: &mut Vec<DailyStats>, x: DailyStats)
    ensures
        days_view(final(v)@) == insert_by_date(days_view(old(v)@), day_view(x)),
        final(v).len() == old(v).len() + 1,
{
    let ghost s = days_view(v@);
    let mut j = v.len();
    while j > 0 && less_than(x.date.as_str(), v[j - 1].date.as_str())
        invariant
            j <= v.len(),
            s == days_view(v@),
            forall|k: int| j <= k < v.len() ==> text_lt(x.date@, #[trigger] s[k].0),
        decreases j,
    {
        j -= 1;
    }
    proof {
        if j > 0 {
            assert(s[j - 1] == day_view(v@[j - 1]));
        }
        lemma_insert_by_date_at(s, day_view(x), j as int);
    }
    v.insert(j, x);
    assert(days_view(v@) =~= s.insert(j as int, day_view(x)));
}

fn find_count(m: &Vec<(String, i64)>, k: &str) -> (r: Option<i64>)
    ensures
        r == lookup(m@, k@),
{
    crate::stats_types::find_by_key(m, k)
}

impl StatisticsCalculator {
    /// Author names of an authors field, split at `,` and `;`, trimmed, empty names dropped.
    pub fn parse_authors(authors_str: &str) -> (r: Vec<String>)
        ensures
            texts(r@) == spec_authors(authors_str@),
    {
        let s = chars_of(authors_str);
        let mut out: Vec<String> = Vec::new();
        let mut cur: Vec<char> = Vec::new();
        let mut i: usize = 0;
        proof {
            assert(s@.take(0) =~= Seq::<char>::empty());
        }
        while i < s.len()
            invariant
                i <= s.len(),
                s@ == authors_str@,
                author_pieces(s@.take(i as int)).len() >= 1,
                cur@ == author_pieces(s@.take(i as int)).last(),
                texts(out@) == kept_pieces(author_pieces(s@.take(i as int)).drop_last()),
            decreases s.len() - i,
        {
            let ghost p = author_pieces(s@.take(i as int));
            assert(s@.take(i + 1).drop_last() =~= s@.take(i as int));
            assert(s@.take(i + 1).last() == s@[i as int]);
            let c = s[i];
            if c == ',' || c == ';' {
                let t = trim_chars(&cur);
                let ghost before = texts(out@);
                if t.len() > 0 {
                    out.push(string_from_chars(t.as_slice()));
                    assert(texts(out@) =~= before.push(t@));
                }
                assert(p.push(Seq::empty()).drop_last() =~= p);
                assert(p =~= p.drop_last().push(p.last()));
                cur = Vec::new();
            } else {
                cur.push(c);
                assert(p.update(p.len() - 1, p.last().push(c)).drop_last() =~= p.drop_last());
            }
            i += 1;
            proof {
                lemma_pieces_nonempty(s@.take(i as int));
            }
        }
        assert(s@.take(s.len() as int) =~= s@);
        let ghost p = author_pieces(s@);
        assert(p =~= p.drop_last().push(p.last()));
        let t = trim_chars(&cur);
        let ghost before = texts(out@);
        if t.len() > 0 {
            out.push(string_from_chars(t.as_slice()));
            assert(texts(out@) =~= before.push(t@));
        }
        out
    }

    /// Daily activity: one entry per date of `daily_read_time`, with that date's page count
    /// from `daily_page_reads` (0 when absent), sorted by date.
    pub fn build_daily_activity(
        daily_read_time: Vec<(String, i64)>,
        daily_page_reads: Vec<(String, i64)>,
    ) -> (r: Vec<DailyStats>)
        ensures
            days_view(r@) == spec_daily_activity(daily_read_time@, daily_page_reads@),
            r.len() == daily_read_time.len(),
    {
        let mut out: Vec<DailyStats> = Vec::new();
        let mut i: usize = 0;
        while i < daily_read_time.len()
            invariant
                i <= daily_read_time.len(),
                days_view(out@) == spec_daily_activity(
                    daily_read_time@.take(i as int),
                    daily_page_reads@,
                ),
                out.len() == i,
            decreases daily_read_time.len() - i,
        {
            assert(daily_read_time@.take(i + 1).drop_last() =~= daily_read_time@.take(i as int));
            assert(daily_read_time@.take(i + 1).last() == daily_read_time@[i as int]);
            let pages_read = match find_count(&daily_page_reads, daily_read_time[i].0.as_str()) {
                Some(p) => p,
                None => 0,
            };
            let day = DailyStats {
                date: copy_string(&daily_read_time[i].0),
                read_time: daily_read_time[i].1,
                pages_read,
            };
            insert_day(&mut out, day);
            i += 1;
        }
        assert(daily_read_time@.take(daily_read_time.len() as int) =~= daily_read_time@);
        out
    }
}

/// The keys of a keyed list as text.
pub open spec fn pairs_view(m: Seq<(String, i64)>) -> Seq<(Seq<char>, i64)> {
    m.map_values(|e: (String, i64)| (e.0@, e.1))
}

/// The value of the first entry with text key `k`.
pub open spec fn lookup_text(m: Seq<(Seq<char>, i64)>, k: Seq<char>) -> Option<i64>
    decreases m.len(),
{
    if m.len() == 0 {
        None
    } else if m[0].0 == k {
        Some(m[0].1)
    } else {
        lookup_text(m.drop_first(), k)
    }
}

/// Days of reading, as `spec_daily_activity`, from the texts of the keys.
pub open spec fn daily_activity_of(
    read_time: Seq<(Seq<char>, i64)>,
    page_reads: Seq<(Seq<char>, i64)>,
) -> Seq<(Seq<char>, i64, i64)>
    decreases read_time.len(),
{
    if read_time.len() == 0 {
        Seq::empty()
    } else {
        let e = read_time.last();
        insert_by_date(
            daily_activity_of(read_time.drop_last(), page_reads),
            (
                e.0,
                e.1,
                match lookup_text(page_reads, e.0) {
                    Some(p) => p,
                    None => 0,
                },
            ),
        )
    }
}

proof fn lemma_lookup_text(m: Seq<(String, i64)>, k: Seq<char>)
    ensures
        lookup(m, k) == lookup_text(pairs_view(m), k),
    decreases m.len(),
{
    if m.len() > 0 {
        assert(pairs_view(m).drop_first() =~= pairs_view(m.drop_first()));
        lemma_lookup_text(m.drop_first(), k);
    }
}

/// `spec_daily_activity` depends on the texts of the keys alone.
pub proof fn lemma_daily_activity_of(read_time: Seq<(String, i64)>, page_reads: Seq<(String, i64)>)
    ensures
        spec_daily_activity(read_time, page_reads) == daily_activity_of(
            pairs_view(read_time),
            pairs_view(page_reads),
        ),
    decreases read_time.len(),
{
    if read_time.len() > 0 {
        lemma_daily_activity_of(read_time.drop_last(), page_reads);
        assert(pairs_view(read_time).drop_last() =~= pairs_view(read_time.drop_last()));
        lemma_lookup_text(page_reads, read_time.last().0@);
    }
}

} // verus!
