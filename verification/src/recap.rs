//! The yearly recap: what a year of reading adds up to.
use vstd::prelude::*;
use crate::activity::{day_view, days_view};
use crate::dates::{iso_date_day, parse_iso_date};
use crate::lua_value::{decimal, write_decimal};
use crate::sessions::{
    all_sessions, books_in_order, counted_time, ints, lemma_sessions_cover_reading_time, lemma_prefix_sum_bounded, lemma_sessions_positive, session_durations,
    seq_max, seq_sum,
};
use crate::stats_types::{trunc_div, DailyStats, PageStat, ReadingStats};
use crate::text::{chars_of, opt_text, string_from_chars};
use crate::site::{parse_short, parse_short_int};
use vstd::utf8::{decode_utf8, encode_utf8, encode_utf8_decode_utf8, is_char_boundary};
use vstd::string::StringSliceAdditionalSpecFns;

verus! {

/// The UTC calendar year of the Unix timestamp `ts` (chrono's `DateTime::from_timestamp` and
/// `Datelike::year`), or `None` when chrono cannot represent it.
pub uninterp spec fn utc_year(ts: i64) -> Option<i32>;

/// The English name of the month of the date that chrono reads from `s` with `%Y-%m-%d`
/// (formatted with `%B`), or `None` when chrono reads no date.
pub uninterp spec fn month_name(s: Seq<char>) -> Option<Seq<char>>;

/// `chrono::DateTime::from_timestamp(ts, 0)` and its year; the contract names the result.
#[verifier::external_body]
fn utc_year_of(ts: i64) -> (r: Option<i32>)
    ensures
        r == utc_year(ts),
{
    chrono::DateTime::from_timestamp(ts, 0).map(|dt| chrono::Datelike::year(&dt))
}

/// `NaiveDate::parse_from_str(s, "%Y-%m-%d")` formatted with `%B`; the contract names the result.
#[verifier::external_body]
pub(crate) fn month_name_of(s: &str) -> (r: Option<String>)
    ensures
        opt_text(r) == month_name(s@),
{
    chrono::NaiveDate::parse_from_str(s, "%Y-%m-%d").ok().map(|d| d.format("%B").to_string())
}

/// Whether `year` is a leap year of the proleptic Gregorian calendar.
pub open spec fn is_leap_year(year: int) -> bool {
    year % 4 == 0 && (year % 100 != 0 || year % 400 == 0)
}

/// Days in `year` as the recap counts them: 366 when chrono's December 31 of that year is its
/// 366th day, which holds for the leap years in chrono's range of years.
pub open spec fn year_length(year: i32) -> i64 {
    if -262143 <= year <= 262142 && is_leap_year(year as int) {
        366
    } else {
        365
    }
}

/// The ordinal of December 31 of `year` (`NaiveDate::from_ymd_opt(year, 12, 31)` and
/// `Datelike::ordinal`): 366 in a leap year and 365 otherwise, within chrono's range of years
/// (-262143 to 262142); `None` outside it.
#[verifier::external_body]
fn last_day_ordinal(year: i32) -> (r: Option<u32>)
    ensures
        r == (if -262143 <= year <= 262142 {
            Some(if is_leap_year(year as int) { 366u32 } else { 365u32 })
        } else {
            None
        }),
{
    chrono::NaiveDate::from_ymd_opt(year, 12, 31).map(|d| chrono::Datelike::ordinal(&d))
}

/// Days in `year`: 366 where chrono has December 31 as its 366th day, else 365.
fn days_in_year(year: i32) -> (r: i64)
    ensures
        r == year_length(year),
{
    match last_day_ordinal(year) {
        Some(o) => if o == 366 {
            366
        } else {
            365
        },
        None => 365,
    }
}

/// What the recap reads of a month: items finished and seconds read.
pub struct MonthTotals {
    pub books_finished: usize,
    pub hours_read_seconds: i64,
}

/// The figures of one year's recap. The share of active days is `active_days` over
/// `days_in_year`.
pub struct YearlySummary {
    pub total_books: usize,
    pub total_time_seconds: i64,
    pub total_time_days: i64,
    pub total_time_hours: i64,
    pub longest_session_hours: i64,
    pub longest_session_minutes: i64,
    pub average_session_hours: i64,
    pub average_session_minutes: i64,
    pub active_days: usize,
    pub days_in_year: i64,
    /// The active days as a percentage of the year's days, rounded to the nearest whole number.
    pub active_days_percentage: u128,
    pub longest_streak: i64,
    pub best_month_name: Option<String>,
    /// The best month's reading time as display text; the recap data leaves it to the page.
    pub best_month_time_display: Option<String>,
}

/// Rust's `%` on integers: the remainder of `trunc_div` (`b > 0`).
pub open spec fn trunc_rem(a: int, b: int) -> int {
    a - b * trunc_div(a, b)
}

/// Sum of the books finished per month.
pub open spec fn books_total(m: Seq<MonthTotals>) -> int
    decreases m.len(),
{
    if m.len() == 0 {
        0
    } else {
        books_total(m.drop_last()) + m.last().books_finished
    }
}

/// Sum of the seconds read per month.
pub open spec fn time_total(m: Seq<MonthTotals>) -> int
    decreases m.len(),
{
    if m.len() == 0 {
        0
    } else {
        time_total(m.drop_last()) + m.last().hours_read_seconds
    }
}

/// Whether `s` begins with `p`.
pub open spec fn starts_with(s: Seq<char>, p: Seq<char>) -> bool {
    s.len() >= p.len() && s.take(p.len() as int) == p
}

/// The page reads that started in the UTC year `year`, of the books in `ids` when given.
pub open spec fn year_page_stats(ps: Seq<PageStat>, year: i32, ids: Option<Seq<i64>>) -> Seq<PageStat>
    decreases ps.len(),
{
    if ps.len() == 0 {
        Seq::empty()
    } else {
        let prev = year_page_stats(ps.drop_last(), year, ids);
        let p = ps.last();
        if utc_year(p.start_time) == Some(year) && match ids {
            Some(v) => v.contains(p.id_book),
            None => true,
        } {
            prev.push(p)
        } else {
            prev
        }
    }
}

/// Whether a day belongs to the year `y` (by the text of its date) and has time read.
pub open spec fn active_in(d: (Seq<char>, i64, i64), y: Seq<char>) -> bool {
    starts_with(d.0, y) && d.1 > 0
}

/// Number of days of `y` with time read.
pub open spec fn active_day_count(d: Seq<(Seq<char>, i64, i64)>, y: Seq<char>) -> int
    decreases d.len(),
{
    if d.len() == 0 {
        0
    } else {
        active_day_count(d.drop_last(), y) + if active_in(d.last(), y) {
            1int
        } else {
            0
        }
    }
}

/// Day numbers of the active days of `y` whose date chrono reads, in order.
pub open spec fn active_day_numbers(d: Seq<(Seq<char>, i64, i64)>, y: Seq<char>) -> Seq<i32>
    decreases d.len(),
{
    if d.len() == 0 {
        Seq::empty()
    } else if active_in(d.last(), y) && iso_date_day(d.last().0) is Some {
        active_day_numbers(d.drop_last(), y).push(iso_date_day(d.last().0)->0)
    } else {
        active_day_numbers(d.drop_last(), y)
    }
}

/// `s` in ascending order (stable insertion).
pub open spec fn sorted_days(s: Seq<i32>) -> Seq<i32>
    decreases s.len(),
{
    if s.len() == 0 {
        Seq::empty()
    } else {
        insert_sorted_day(sorted_days(s.drop_last()), s.last())
    }
}

/// `s` with `x` inserted after every element no greater than `x`.
pub open spec fn insert_sorted_day(s: Seq<i32>, x: i32) -> Seq<i32>
    decreases s.len(),
{
    if s.len() == 0 {
        seq![x]
    } else if s.last() <= x {
        s.push(x)
    } else {
        insert_sorted_day(s.drop_last(), x).push(s.last())
    }
}

/// `s` without repeats of an element just before.
pub open spec fn dedup_days(s: Seq<i32>) -> Seq<i32>
    decreases s.len(),
{
    if s.len() <= 1 {
        s
    } else if s.last() == s[s.len() - 2] {
        dedup_days(s.drop_last())
    } else {
        dedup_days(s.drop_last()).push(s.last())
    }
}

/// Length of the run of consecutive days that ends with the last day of `d`.
pub open spec fn run_ending_last(d: Seq<i32>) -> int
    decreases d.len(),
{
    if d.len() == 0 {
        0
    } else if d.len() == 1 {
        1
    } else if d.last() == d[d.len() - 2] + 1 {
        run_ending_last(d.drop_last()) + 1
    } else {
        1
    }
}

/// Length of the longest run of consecutive days in `d`.
pub open spec fn longest_run_len(d: Seq<i32>) -> int
    decreases d.len(),
{
    if d.len() == 0 {
        0
    } else {
        let a = longest_run_len(d.drop_last());
        let b = run_ending_last(d);
        if b > a {
            b
        } else {
            a
        }
    }
}

/// The month of `y` with the most time read (the last such entry), as (key, seconds).
pub open spec fn best_month(m: Seq<(String, i64)>, y: Seq<char>) -> Option<(Seq<char>, i64)>
    decreases m.len(),
{
    if m.len() == 0 {
        None
    } else {
        let b = best_month(m.drop_last(), y);
        let l = m.last();
        if starts_with(l.0@, y) && match b {
            Some(x) => l.1 >= x.1,
            None => true,
        } {
            Some((l.0@, l.1))
        } else {
            b
        }
    }
}

/// The largest session, or 0 when there is none.
pub open spec fn max_or_zero(s: Seq<int>) -> int {
    if s.len() == 0 {
        0
    } else {
        seq_max(s)
    }
}

/// Every prefix sum of the seconds read per month fits in an `i64`, and of the books finished
/// in a `usize`.
pub open spec fn month_sums_fit(m: Seq<MonthTotals>) -> bool {
    forall|k: int|
        0 <= k <= m.len() ==> i64::MIN <= #[trigger] time_total(m.take(k)) <= i64::MAX
            && books_total(m.take(k)) <= usize::MAX
}

/// The ids of the filter, if any.
pub open spec fn ids_view(ids: Option<&Vec<i64>>) -> Option<Seq<i64>> {
    match ids {
        Some(v) => Some(v@),
        None => None,
    }
}

fn month_totals_sum(monthly: &Vec<MonthTotals>) -> (r: (usize, i64))
    requires
        month_sums_fit(monthly@),
    ensures
        r.0 == books_total(monthly@),
        r.1 == time_total(monthly@),
{
    let mut books: usize = 0;
    let mut time: i64 = 0;
    let mut i: usize = 0;
    assert(monthly@.take(0) =~= Seq::<MonthTotals>::empty());
    while i < monthly.len()
        invariant
            i <= monthly.len(),
            month_sums_fit(monthly@),
            books == books_total(monthly@.take(i as int)),
            time == time_total(monthly@.take(i as int)),
        decreases monthly.len() - i,
    {
        assert(monthly@.take(i + 1).drop_last() =~= monthly@.take(i as int));
        assert(monthly@.take(i + 1).last() == monthly@[i as int]);
        assert(i64::MIN <= time_total(monthly@.take(i + 1)) <= i64::MAX);
        assert(books_total(monthly@.take(i + 1)) <= usize::MAX);
        books = books + monthly[i].books_finished;
        time = time + monthly[i].hours_read_seconds;
        i += 1;
    }
    assert(monthly@.take(monthly.len() as int) =~= monthly@);
    (books, time)
}

fn contains_i64(v: &Vec<i64>, x: i64) -> (r: bool)
    ensures
        r == v@.contains(x),
{
    let mut i: usize = 0;
    while i < v.len()
        invariant
            i <= v.len(),
            forall|j: int| 0 <= j < i ==> v@[j] != x,
        decreases v.len() - i,
    {
        if v[i] == x {
            assert(v@[i as int] == x);
            return true;
        }
        i += 1;
    }
    false
}

fn page_stats_in_year(ps: &Vec<PageStat>, year: i32, ids: Option<&Vec<i64>>) -> (r: Vec<PageStat>)
    ensures
        r@ == year_page_stats(ps@, year, ids_view(ids)),
{
    let mut out: Vec<PageStat> = Vec::new();
    let mut i: usize = 0;
    while i < ps.len()
        invariant
            i <= ps.len(),
            out@ == year_page_stats(ps@.take(i as int), year, ids_view(ids)),
        decreases ps.len() - i,
    {
        assert(ps@.take(i + 1).drop_last() =~= ps@.take(i as int));
        assert(ps@.take(i + 1).last() == ps@[i as int]);
        let p = ps[i];
        let in_year = match utc_year_of(p.start_time) {
            Some(y) => y == year,
            None => false,
        };
        let wanted = match ids {
            Some(v) => contains_i64(v, p.id_book),
            None => true,
        };
        if in_year && wanted {
            out.push(p);
        }
        i += 1;
    }
    assert(ps@.take(ps.len() as int) =~= ps@);
    out
}

proof fn lemma_len_le_sum(s: Seq<int>)
    requires
        forall|k: int| 0 <= k < s.len() ==> s[k] > 0,
    ensures
        s.len() <= seq_sum(s),
    decreases s.len(),
{
    if s.len() > 0 {
        assert(s.drop_last().len() == s.len() - 1);
        assert forall|k: int| 0 <= k < s.drop_last().len() implies s.drop_last()[k] > 0 by {
            assert(s.drop_last()[k] == s[k]);
        }
        lemma_len_le_sum(s.drop_last());
        assert(s.last() == s[s.len() - 1]);
    }
}

/// Count, largest and sum of the sessions.
fn session_figures(sessions: &Vec<i128>) -> (r: (i64, i64, i64))
    requires
        forall|k: int| 0 <= k < sessions@.len() ==> #[trigger] sessions@[k] > 0,
        seq_sum(ints(sessions@)) <= i64::MAX,
    ensures
        r.0 == sessions.len(),
        r.1 == max_or_zero(ints(sessions@)),
        r.2 == seq_sum(ints(sessions@)),
{
    let ghost s = ints(sessions@);
    assert forall|k: int| 0 <= k < s.len() implies s[k] > 0 by {
        assert(s[k] == sessions@[k] as int);
    }
    proof {
        lemma_len_le_sum(s);
    }
    let mut max: i128 = 0;
    let mut sum: i128 = 0;
    let mut i: usize = 0;
    assert(s.take(0) =~= Seq::<int>::empty());
    while i < sessions.len()
        invariant
            i <= sessions.len(),
            s == ints(sessions@),
            forall|k: int| 0 <= k < s.len() ==> s[k] > 0,
            seq_sum(s) <= i64::MAX,
            sum == seq_sum(s.take(i as int)),
            max == max_or_zero(s.take(i as int)),
            0 <= max <= i64::MAX,
        decreases sessions.len() - i,
    {
        proof {
            lemma_prefix_sum_bounded(s, i as int);
            lemma_prefix_sum_bounded(s, i + 1);
        }
        assert(s.take(i + 1).drop_last() =~= s.take(i as int));
        assert(s.take(i + 1).last() == s[i as int]);
        assert(s[i as int] == sessions@[i as int] as int);
        let x = sessions[i];
        if i == 0 || x > max {
            max = x;
        }
        sum = sum + x;
        i += 1;
    }
    assert(s.take(sessions.len() as int) =~= s);
    (sessions.len() as i64, max as i64, sum as i64)
}

fn text_starts_with(s: &Vec<char>, p: &Vec<char>) -> (r: bool)
    ensures
        r == starts_with(s@, p@),
{
    if s.len() < p.len() {
        return false;
    }
    let mut i: usize = 0;
    while i < p.len()
        invariant
            i <= p.len() <= s.len(),
            forall|j: int| 0 <= j < i ==> s@[j] == p@[j],
        decreases p.len() - i,
    {
        if s[i] != p[i] {
            assert(s@.take(p.len() as int)[i as int] != p@[i as int]);
            return false;
        }
        i += 1;
    }
    assert(s@.take(p.len() as int) =~= p@);
    true
}

fn count_active_days(daily: &Vec<DailyStats>, y: &Vec<char>) -> (r: usize)
    ensures
        r == active_day_count(days_view(daily@), y@),
{
    let ghost d = days_view(daily@);
    let mut n: usize = 0;
    let mut i: usize = 0;
    while i < daily.len()
        invariant
            i <= daily.len(),
            d == days_view(daily@),
            n == active_day_count(d.take(i as int), y@),
            n <= i,
        decreases daily.len() - i,
    {
        assert(d.take(i + 1).drop_last() =~= d.take(i as int));
        assert(d.take(i + 1).last() == day_view(daily@[i as int]));
        let date = chars_of(daily[i].date.as_str());
        if text_starts_with(&date, y) && daily[i].read_time > 0 {
            n = n + 1;
        }
        i += 1;
    }
    assert(d.take(daily.len() as int) =~= d);
    n
}

fn insert_day(v: &mut Vec<i32>, x: i32)
    ensures
        final(v)@ == insert_sorted_day(old(v)@, x),
{
    let ghost s = v@;
    let mut j = v.len();
    assert(s.take(j as int) =~= s);
    assert(s.skip(j as int) =~= Seq::<i32>::empty());
    assert(insert_sorted_day(s, x) =~= insert_sorted_day(s.take(j as int), x) + s.skip(j as int));
    while j > 0 && v[j - 1] > x
        invariant
            j <= v.len(),
            v@ == s,
            insert_sorted_day(s, x) == insert_sorted_day(s.take(j as int), x) + s.skip(j as int),
        decreases j,
    {
        let ghost t = s.take(j as int);
        assert(t.drop_last() =~= s.take(j - 1));
        assert(t.last() == s[j - 1]);
        assert(insert_sorted_day(t, x) == insert_sorted_day(s.take(j - 1), x).push(s[j - 1]));
        assert(insert_sorted_day(s.take(j - 1), x).push(s[j - 1]) + s.skip(j as int)
            =~= insert_sorted_day(s.take(j - 1), x) + s.skip(j - 1));
        j -= 1;
    }
    proof {
        let t = s.take(j as int);
        if j > 0 {
            assert(t.last() == s[j - 1]);
            assert(insert_sorted_day(t, x) == t.push(x));
        } else {
            assert(insert_sorted_day(t, x) == seq![x]);
        }
    }
    v.insert(j, x);
    assert(v@ =~= insert_sorted_day(s.take(j as int), x) + s.skip(j as int));
}

fn year_streak(daily: &Vec<DailyStats>, y: &Vec<char>) -> (r: i64)
    ensures
        r == longest_run_len(dedup_days(sorted_days(active_day_numbers(days_view(daily@), y@)))),
{
    let ghost d = days_view(daily@);
    let mut days: Vec<i32> = Vec::new();
    let mut i: usize = 0;
    while i < daily.len()
        invariant
            i <= daily.len(),
            d == days_view(daily@),
            days@ == sorted_days(active_day_numbers(d.take(i as int), y@)),
            days.len() <= i,
        decreases daily.len() - i,
    {
        assert(d.take(i + 1).drop_last() =~= d.take(i as int));
        assert(d.take(i + 1).last() == day_view(daily@[i as int]));
        let ghost prev = active_day_numbers(d.take(i as int), y@);
        let date = chars_of(daily[i].date.as_str());
        if text_starts_with(&date, y) && daily[i].read_time > 0 {
            match parse_iso_date(daily[i].date.as_str()) {
                Some(x) => {
                    assert(active_day_numbers(d.take(i + 1), y@) == prev.push(x.0));
                    assert(prev.push(x.0).drop_last() =~= prev);
                    proof {
                        lemma_insert_sorted_len(days@, x.0);
                    }
                    insert_day(&mut days, x.0);
                },
                None => {},
            }
        }
        i += 1;
    }
    assert(d.take(daily.len() as int) =~= d);
    let ghost sorted = days@;
    // drop repeats
    let mut uniq: Vec<i32> = Vec::new();
    let mut k: usize = 0;
    while k < days.len()
        invariant
            k <= days.len(),
            days@ == sorted,
            uniq@ == dedup_days(sorted.take(k as int)),
            uniq.len() <= k,
            k > 0 ==> uniq.len() > 0 && uniq@.last() == sorted[k - 1],
        decreases days.len() - k,
    {
        let ghost t = sorted.take(k + 1);
        assert(t.drop_last() =~= sorted.take(k as int));
        assert(t.last() == sorted[k as int]);
        if k == 0 || days[k] != days[k - 1] {
            uniq.push(days[k]);
            proof {
                if k > 0 {
                    assert(t[t.len() - 2] == sorted[k - 1]);
                }
            }
        } else {
            assert(t[t.len() - 2] == sorted[k - 1]);
        }
        k += 1;
    }
    assert(sorted.take(days.len() as int) =~= sorted);
    let ghost u = uniq@;
    if uniq.len() == 0 {
        return 0;
    }
    let mut best: i64 = 1;
    let mut current: i64 = 1;
    let mut m: usize = 1;
    assert(u.take(1).drop_last() =~= Seq::<i32>::empty());
    assert(longest_run_len(u.take(1).drop_last()) == 0);
    assert(run_ending_last(u.take(1)) == 1);
    assert(longest_run_len(u.take(1)) == 1);
    while m < uniq.len()
        invariant
            1 <= m <= uniq.len(),
            u == uniq@,
            current == run_ending_last(u.take(m as int)),
            best == longest_run_len(u.take(m as int)),
            1 <= current <= u[m - 1] - i32::MIN + 1,
            1 <= best <= 0x1_0000_0001,
        decreases uniq.len() - m,
    {
        let ghost t = u.take(m + 1);
        assert(t.drop_last() =~= u.take(m as int));
        assert(t.last() == u[m as int]);
        assert(t[t.len() - 2] == u[m - 1]);
        if uniq[m - 1] < i32::MAX && uniq[m] == uniq[m - 1] + 1 {
            current = current + 1;
            if current > best {
                best = current;
            }
        } else {
            current = 1;
        }
        m += 1;
    }
    assert(u.take(uniq.len() as int) =~= u);
    best
}

proof fn lemma_insert_sorted_len(s: Seq<i32>, x: i32)
    ensures
        insert_sorted_day(s, x).len() == s.len() + 1,
    decreases s.len(),
{
    if s.len() > 0 && s.last() > x {
        lemma_insert_sorted_len(s.drop_last(), x);
    }
}

fn best_month_of(month_hours: &Vec<(String, i64)>, y: &Vec<char>) -> (r: Option<(String, i64)>)
    ensures
        match (r, best_month(month_hours@, y@)) {
            (Some(a), Some(b)) => a.0@ == b.0 && a.1 == b.1,
            (None, None) => true,
            _ => false,
        },
{
    let mut best: Option<(String, i64)> = None;
    let mut i: usize = 0;
    while i < month_hours.len()
        invariant
            i <= month_hours.len(),
            match (best, best_month(month_hours@.take(i as int), y@)) {
                (Some(a), Some(b)) => a.0@ == b.0 && a.1 == b.1,
                (None, None) => true,
                _ => false,
            },
        decreases month_hours.len() - i,
    {
        assert(month_hours@.take(i + 1).drop_last() =~= month_hours@.take(i as int));
        assert(month_hours@.take(i + 1).last() == month_hours@[i as int]);
        let key = chars_of(month_hours[i].0.as_str());
        if text_starts_with(&key, y) {
            let secs = month_hours[i].1;
            let take = match &best {
                Some(b) => secs >= b.1,
                None => true,
            };
            if take {
                best = Some((string_from_chars(key.as_slice()), secs));
            }
        }
        i += 1;
    }
    assert(month_hours@.take(month_hours.len() as int) =~= month_hours@);
    best
}

/// The month name of the best month: the English name of its month when it has time read.
pub open spec fn best_month_label(m: Seq<(String, i64)>, y: Seq<char>) -> Option<Seq<char>> {
    match best_month(m, y) {
        Some((ym, secs)) => if secs > 0 {
            month_name(ym + seq!['-', '0', '1'])
        } else {
            None
        },
        None => None,
    }
}

/// The yearly recap of `year`.
///
/// Totals come from the months; sessions from the page reads started in the UTC year (of the
/// books in `ids_filter` when given); active days and the longest streak from the daily activity
/// whose date begins with the year's digits; the best month is the month of the year with most
/// time read, named when that time is positive. Durations are split into days, hours and
/// minutes with Rust's integer division.
pub fn compute_yearly_summary(
    year: i32,
    monthly: &Vec<MonthTotals>,
    month_hours: &Vec<(String, i64)>,
    reading_stats: &ReadingStats,
    page_stats: &Vec<PageStat>,
    ids_filter: Option<&Vec<i64>>,
) -> (r: YearlySummary)
    requires
        month_sums_fit(monthly@),
        counted_time(year_page_stats(page_stats@, year, ids_view(ids_filter))) <= i64::MAX,
    ensures
        ({
            let y = decimal(year as int);
            let sessions = all_sessions(year_page_stats(page_stats@, year, ids_view(ids_filter)));
            let n = sessions.len() as int;
            let avg = if n > 0 {
                trunc_div(seq_sum(sessions), n)
            } else {
                0
            };
            let longest = max_or_zero(sessions);
            let minutes = trunc_div(time_total(monthly@), 60);
            let days = days_view(reading_stats.daily_activity@);
            &&& r.total_books == books_total(monthly@)
            &&& r.total_time_seconds == time_total(monthly@)
            &&& r.total_time_days == trunc_div(minutes, 1440)
            &&& r.total_time_hours == trunc_div(trunc_rem(minutes, 1440), 60)
            &&& r.longest_session_hours == trunc_div(trunc_div(longest, 60), 60)
            &&& r.longest_session_minutes == trunc_rem(trunc_div(longest, 60), 60)
            &&& r.average_session_hours == trunc_div(trunc_div(avg, 60), 60)
            &&& r.average_session_minutes == trunc_rem(trunc_div(avg, 60), 60)
            &&& r.active_days == active_day_count(days, y)
            &&& r.days_in_year == year_length(year)
            &&& r.active_days_percentage == (200 * r.active_days + r.days_in_year) / (2 * r.days_in_year)
            &&& r.best_month_time_display is None
            &&& r.longest_streak == longest_run_len(
                dedup_days(sorted_days(active_day_numbers(days, y))),
            )
            &&& opt_text(r.best_month_name) == best_month_label(month_hours@, y)
        }),
{
    let (total_books, total_time_seconds) = month_totals_sum(monthly);
    let year_stats = page_stats_in_year(page_stats, year, ids_filter);
    let sessions = session_durations(&year_stats);
    proof {
        lemma_sessions_cover_reading_time(year_stats@);
        lemma_sessions_positive(year_stats@, books_in_order(year_stats@));
        assert forall|k: int| 0 <= k < sessions@.len() implies #[trigger] sessions@[k] > 0 by {
            assert(ints(sessions@)[k] == sessions@[k] as int);
        }
    }
    let (session_count, longest_session_duration, session_sum) = session_figures(&sessions);
    let average_session_duration = if session_count > 0 {
        session_sum / session_count
    } else {
        0
    };
    let mut y: Vec<char> = Vec::new();
    write_decimal(&mut y, year as i64);
    assert(y@ =~= decimal(year as int));
    let active_days = count_active_days(&reading_stats.daily_activity, &y);
    let days_in_year = days_in_year(year);
    let longest_streak = year_streak(&reading_stats.daily_activity, &y);
    let best_month_name = match best_month_of(month_hours, &y) {
        Some((ym, secs)) => {
            if secs > 0 {
                let mut date = chars_of(ym.as_str());
                date.push('-');
                date.push('0');
                date.push('1');
                assert(date@ =~= ym@ + seq!['-', '0', '1']);
                let text = string_from_chars(date.as_slice());
                month_name_of(text.as_str())
            } else {
                None
            }
        },
        None => None,
    };
    let total_minutes = total_time_seconds / 60;
    let longest_session_total_mins = longest_session_duration / 60;
    let avg_session_total_mins = average_session_duration / 60;
    YearlySummary {
        total_books,
        total_time_seconds,
        total_time_days: total_minutes / (24 * 60),
        total_time_hours: (total_minutes % (24 * 60)) / 60,
        longest_session_hours: longest_session_total_mins / 60,
        longest_session_minutes: longest_session_total_mins % 60,
        average_session_hours: avg_session_total_mins / 60,
        average_session_minutes: avg_session_total_mins % 60,
        active_days,
        days_in_year,
        active_days_percentage: (200 * (active_days as u128) + (days_in_year as u128)) / (2 * (days_in_year as u128)),
        longest_streak,
        best_month_name,
        best_month_time_display: None,
    }
}

/// The year and `YYYY-MM` key of a completion end date: its first four bytes read as a number,
/// and its first seven bytes; none unless both are whole runs of characters and the year reads.
pub open spec fn year_and_month(end_date: Seq<char>) -> Option<(int, Seq<u8>)> {
    let b = encode_utf8(end_date);
    if b.len() >= 7 && is_char_boundary(b, 4) && is_char_boundary(b, 7) && parse_short_int(
        b.take(4),
    ) is Some {
        Some((parse_short_int(b.take(4))->0, b.take(7)))
    } else {
        None
    }
}

/// Year and `YYYY-MM` key of a completion end date.
pub fn completion_year_and_month(end_date: &str) -> (r: Option<(i32, String)>)
    ensures
        match year_and_month(end_date@) {
            Some((y, m)) => r matches Some(x) && x.0 == y && encode_utf8(x.1@) == m,
            None => r is None,
        },
{
    let bytes = end_date.as_bytes();
    if bytes.len() < 7 || !end_date.is_char_boundary(4) || !end_date.is_char_boundary(7) {
        return None;
    }
    let (head4, _) = end_date.split_at(4);
    let head4_bytes = head4.as_bytes();
    assert(head4_bytes@ =~= bytes@.take(4));
    let year = match parse_short(head4_bytes) {
        Some(y) => y,
        None => {
            return None;
        },
    };
    let (head7, _) = end_date.split_at(7);
    let ym = string_from_chars(chars_of(head7).as_slice());
    assert(encode_utf8(ym@) =~= bytes@.take(7));
    Some((year, ym))
}

/// The `YYYY-MM` key of a day: the first seven bytes of its date, when it has that many.
pub open spec fn month_key(date: Seq<char>) -> Option<Seq<u8>> {
    let b = encode_utf8(date);
    if b.len() >= 7 {
        Some(b.take(7))
    } else {
        None
    }
}

/// Seconds read over the days whose month key is `key`.
pub open spec fn month_total(days: Seq<DailyStats>, key: Seq<u8>) -> int
    decreases days.len(),
{
    if days.len() == 0 {
        0
    } else {
        month_total(days.drop_last(), key) + if month_key(days.last().date@) == Some(key) {
            days.last().read_time as int
        } else {
            0
        }
    }
}

/// The month keys of the days, each once, in order of first appearance.
pub open spec fn month_keys(days: Seq<DailyStats>) -> Seq<Seq<u8>>
    decreases days.len(),
{
    if days.len() == 0 {
        Seq::empty()
    } else {
        let prev = month_keys(days.drop_last());
        match month_key(days.last().date@) {
            Some(k) => if prev.contains(k) {
                prev
            } else {
                prev.push(k)
            },
            None => prev,
        }
    }
}

/// Every date with seven bytes can be cut after the seventh, and every running monthly total
/// fits in an `i64`.
pub open spec fn month_hours_ok(days: Seq<DailyStats>) -> bool {
    &&& forall|i: int|
        0 <= i < days.len() ==> {
            let b = encode_utf8(#[trigger] days[i].date@);
            b.len() >= 7 ==> is_char_boundary(b, 7)
        }
    &&& forall|k: int, key: Seq<u8>|
        0 <= k <= days.len() ==> i64::MIN <= #[trigger] month_total(days.take(k), key) <= i64::MAX
}

proof fn lemma_encode_injective(a: Seq<char>, b: Seq<char>)
    requires
        encode_utf8(a) == encode_utf8(b),
    ensures
        a == b,
{
    encode_utf8_decode_utf8(a);
    encode_utf8_decode_utf8(b);
}

proof fn lemma_month_keys_distinct(days: Seq<DailyStats>)
    ensures
        forall|a: int, b: int|
            0 <= a < b < month_keys(days).len() ==> month_keys(days)[a] != month_keys(days)[b],
    decreases days.len(),
{
    if days.len() > 0 {
        lemma_month_keys_distinct(days.drop_last());
        let prev = month_keys(days.drop_last());
        match month_key(days.last().date@) {
            Some(k) => {
                if !prev.contains(k) {
                    assert forall|a: int, b: int|
                        0 <= a < b < month_keys(days).len() implies month_keys(days)[a] != month_keys(
                            days,
                        )[b] by {
                        if b == prev.len() {
                            assert(month_keys(days)[a] == prev[a]);
                        }
                    }
                }
            },
            None => {},
        }
    }
}

proof fn lemma_absent_total_zero(days: Seq<DailyStats>, key: Seq<u8>)
    requires
        !month_keys(days).contains(key),
    ensures
        month_total(days, key) == 0,
    decreases days.len(),
{
    if days.len() > 0 {
        let prev = month_keys(days.drop_last());
        match month_key(days.last().date@) {
            Some(k) => {
                if !prev.contains(k) {
                    assert(month_keys(days) == prev.push(k));
                    assert(month_keys(days)[prev.len() as int] == k);
                    assert(k != key);
                    assert forall|x: int| 0 <= x < prev.len() implies prev[x] != key by {
                        assert(month_keys(days)[x] == prev[x]);
                    }
                } else {
                    if k == key {
                        assert(month_keys(days).contains(key));
                    }
                }
            },
            None => {},
        }
        lemma_absent_total_zero(days.drop_last(), key);
    }
}

/// Index of the first entry whose key is `key`.
fn find_month(out: &Vec<(String, i64)>, key: &str) -> (r: Option<usize>)
    ensures
        match r {
            Some(j) => j < out.len() && out@[j as int].0@ == key@,
            None => forall|x: int| 0 <= x < out.len() ==> out@[x].0@ != key@,
        },
{
    let mut j: usize = 0;
    while j < out.len()
        invariant
            j <= out.len(),
            forall|x: int| 0 <= x < j ==> out@[x].0@ != key@,
        decreases out.len() - j,
    {
        if crate::text::str_eq(out[j].0.as_str(), key) {
            return Some(j);
        }
        j += 1;
    }
    None
}

/// Seconds read per month (`YYYY-MM`), the months in order of first appearance.
pub fn month_hours_for(daily: &Vec<DailyStats>) -> (r: Vec<(String, i64)>)
    requires
        month_hours_ok(daily@),
    ensures
        r@.len() == month_keys(daily@).len(),
        forall|i: int|
            0 <= i < r@.len() ==> encode_utf8(#[trigger] r@[i].0@) == month_keys(daily@)[i]
                && r@[i].1 == month_total(daily@, month_keys(daily@)[i]),
{
    let mut out: Vec<(String, i64)> = Vec::new();
    let mut i: usize = 0;
    while i < daily.len()
        invariant
            i <= daily.len(),
            month_hours_ok(daily@),
            out@.len() == month_keys(daily@.take(i as int)).len(),
            forall|j: int|
                0 <= j < out@.len() ==> encode_utf8(#[trigger] out@[j].0@) == month_keys(
                    daily@.take(i as int),
                )[j] && out@[j].1 == month_total(
                    daily@.take(i as int),
                    month_keys(daily@.take(i as int))[j],
                ),
        decreases daily.len() - i,
    {
        let ghost pre = daily@.take(i as int);
        let ghost cur = daily@.take(i + 1);
        assert(cur.drop_last() =~= pre);
        assert(cur.last() == daily@[i as int]);
        proof {
            lemma_month_keys_distinct(pre);
        }
        let date = daily[i].date.as_str();
        let bytes = date.as_bytes();
        if bytes.len() >= 7 {
            let ghost b = encode_utf8(daily@[i as int].date@);
            assert(is_char_boundary(b, 7));
            let (head, _) = date.split_at(7);
            let key = string_from_chars(chars_of(head).as_slice());
            let ghost kb = b.take(7);
            assert(encode_utf8(key@) =~= kb);
            assert(month_key(cur.last().date@) == Some(kb));
            let t = daily[i].read_time;
            assert forall|key2: Seq<u8>| key2 != kb implies month_total(cur, key2) == month_total(
                pre,
                key2,
            ) by {}
            assert(month_total(cur, kb) == month_total(pre, kb) + t);
            assert(i64::MIN <= month_total(daily@.take(i + 1), kb) <= i64::MAX);
            match find_month(&out, key.as_str()) {
                Some(j) => {
                    let ghost keys = month_keys(pre);
                    assert(keys[j as int] == kb);
                    assert(keys.contains(kb));
                    assert(month_keys(cur) == keys);
                    let total = out[j].1 + t;
                    let name = crate::text::copy_string(&out[j].0);
                    let ghost old_out = out@;
                    out.set(j, (name, total));
                    assert forall|x: int| 0 <= x < out@.len() implies encode_utf8(
                        #[trigger] out@[x].0@,
                    ) == month_keys(cur)[x] && out@[x].1 == month_total(cur, month_keys(cur)[x]) by {
                        if x != j {
                            assert(out@[x] == old_out[x]);
                            assert(keys[x] != keys[j as int]);
                        }
                    }
                },
                None => {
                    let ghost keys = month_keys(pre);
                    assert(!keys.contains(kb)) by {
                        if keys.contains(kb) {
                            let x = choose|x: int| 0 <= x < keys.len() && keys[x] == kb;
                            assert(encode_utf8(out@[x].0@) == kb);
                            lemma_encode_injective(out@[x].0@, key@);
                        }
                    }
                    proof {
                        lemma_absent_total_zero(pre, kb);
                    }
                    assert(month_keys(cur) == keys.push(kb));
                    let ghost old_out = out@;
                    out.push((key, t));
                    assert forall|x: int| 0 <= x < out@.len() implies encode_utf8(
                        #[trigger] out@[x].0@,
                    ) == month_keys(cur)[x] && out@[x].1 == month_total(cur, month_keys(cur)[x]) by {
                        if x < old_out.len() {
                            assert(out@[x] == old_out[x]);
                            assert(keys[x] != kb);
                        }
                    }
                },
            }
        } else {
            assert(month_key(cur.last().date@) is None);
            assert(month_keys(cur) == month_keys(pre));
            assert forall|key2: Seq<u8>| month_total(cur, key2) == month_total(pre, key2) by {}
        }
        i += 1;
    }
    assert(daily@.take(daily.len() as int) =~= daily@);
    out
}

} // verus!
