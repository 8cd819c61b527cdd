//! Reading statistics over all page reads: totals, reading days, weeks, sessions and streaks.
use vstd::prelude::*;
use crate::activity::{daily_activity_of, days_view, lemma_daily_activity_of, pairs_view};
use crate::dates::{iso_date_text, today_local_day};
use crate::sessions::{
    book_sessions, counted_time, ints, reads_of, reads_of_book, seq_sum, session_summary,
    sessions_of_book, sessions_summary, summarize_sessions, time_of, StatisticsCalculator,
};
use crate::stats_types::{DailyStats, PageStat, StatBook, ReadingStats, StatisticsData, StreakInfo, WeeklyStats};
use crate::streaks::{spec_streaks, streak_view};
use crate::text::{copy_string, str_eq, text_lt};
use crate::time_config::{chrono_inner_ts, chrono_timestamp_ok, day_number_at, day_text, effective_timestamp, effective_ts};

verus! {

/// The local calendar day of a page read (`%Y-%m-%d`), its calendar year and its ISO week
/// number.
pub struct StatDay {
    pub date: String,
    pub year: i32,
    pub iso_week: u32,
}

/// Whether the local year of the Unix second `ts` lies inside chrono's range for week dates
/// (see `years_fit`) whatever the time zone: a local time differs from UTC by less than a day,
/// and `ts` is a day or more inside -262143-01-01T00:00:00Z to 262142-01-01T00:00:00Z (or is
/// read as the epoch, see `effective_ts`).
pub open spec fn week_safe_timestamp(ts: i64) -> bool {
    !chrono_timestamp_ok(ts) || (-8334601228800 + 86400 <= ts && ts < 8210235340800 - 86400)
}

/// The calendar year of the date with day number `d` (see `new_year_day_number`).
pub open spec fn year_of_day(d: int) -> int {
    choose|y: int| #[trigger] new_year_day_number(y) <= d < new_year_day_number(y + 1)
}

/// The ISO week number (`Datelike::iso_week().week()`) of the date with day number `day`.
pub uninterp spec fn iso_week_of_day(day: i32) -> u32;

/// Whether `d` holds the date of the wall-clock second `secs` counted from the epoch: its
/// `%Y-%m-%d` text and its calendar year.
pub open spec fn stat_day_is(d: StatDay, secs: int) -> bool {
    let n = day_number_at(secs);
    &&& d.date@ == iso_date_text(n as i32)
    &&& d.year == year_of_day(n)
}

/// Whether the date of `d` is that of the Unix second `ts` moved by an offset of less than a
/// day.
pub open spec fn local_date_is(d: StatDay, ts: int) -> bool {
    exists|off: int| -86400 < off < 86400 && #[trigger] stat_day_is(d, ts + off)
}

/// An offset of less than a day that moves the Unix second `ts` to the date of `d` (see
/// `stat_day_is`).
pub open spec fn local_offset(d: StatDay, ts: int) -> int {
    choose|off: int| -86400 < off < 86400 && #[trigger] stat_day_is(d, ts + off)
}

/// Whether `d` is the local day of the Unix second `ts` in some time zone: the date and year of
/// `ts` moved by an offset of less than a day, and the ISO week of that date.
pub open spec fn local_stat_day_of(d: StatDay, ts: int) -> bool {
    &&& local_date_is(d, ts)
    &&& d.iso_week == iso_week_of_day(day_number_at(ts + local_offset(d, ts)) as i32)
}

/// The local day of the Unix second `ts` (`DateTime::<Utc>::from_timestamp`, shown in the local
/// time zone). Which day depends on the machine's time zone; what holds of every zone is
/// stated: it is the day of `ts` moved by the zone's offset, which chrono keeps under a day
/// (`FixedOffset`), so a `ts` a day inside the bounds of a year range gives a year inside it.
#[verifier::external_body]
fn local_stat_day(ts: i64) -> (r: StatDay)
    requires
        chrono_inner_ts(ts as int),
    ensures
        local_date_is(r, ts as int),
        r.iso_week == iso_week_of_day(day_number_at(ts + local_offset(r, ts as int)) as i32),
        ts >= -8334601228800 + 86400 ==> r.year >= -262143,
        ts < 8210235340800 - 86400 ==> r.year < 262142,
{
    let dt = chrono::DateTime::<chrono::Utc>::from_timestamp(ts, 0).unwrap().with_timezone(&chrono::Local).naive_local();
    StatDay {
        date: dt.date().format("%Y-%m-%d").to_string(),
        year: chrono::Datelike::year(&dt),
        iso_week: chrono::Datelike::iso_week(&dt).week(),
    }
}

/// The day number of the Monday of ISO week `week` of `year` (`NaiveDate::from_isoywd_opt`);
/// `None` where chrono has no such week.
pub uninterp spec fn iso_week_monday(year: i32, week: u32) -> Option<i32>;

/// Whether a day number is one of chrono's dates (-262143-01-01 to 262142-12-31).
pub open spec fn chrono_day_ok(d: int) -> bool {
    -95746129 <= d <= 95745399
}

/// The day number (`num_days_from_ce`) of January 1 of `year`.
pub open spec fn new_year_day_number(year: int) -> int {
    365 * (year - 1) + (year - 1) / 4 - (year - 1) / 100 + (year - 1) / 400 + 1
}

/// `NaiveDate::from_isoywd_opt(year, week, Weekday::Mon)` as a day number; the contract names
/// the result, which is one of chrono's dates.
#[verifier::external_body]
fn week_monday(year: i32, week: u32) -> (r: Option<i32>)
    ensures
        r == iso_week_monday(year, week),
        r matches Some(d) ==> chrono_day_ok(d as int),
{
    chrono::NaiveDate::from_isoywd_opt(year, week, chrono::Weekday::Mon).map(|d| chrono::Datelike::num_days_from_ce(&d))
}

/// `NaiveDate::from_ymd_opt(year, 1, 1)` as a day number: January 1 for chrono's years
/// (-262143 to 262142), `None` outside them.
#[verifier::external_body]
fn new_year_day(year: i32) -> (r: Option<i32>)
    ensures
        r == (if -262143 <= year <= 262142 {
            Some(new_year_day_number(year as int) as i32)
        } else {
            None
        }),
{
    chrono::NaiveDate::from_ymd_opt(year, 1, 1).map(|d| chrono::Datelike::num_days_from_ce(&d))
}

/// The day number of the first day of ISO week `week` of `year`: its Monday, or January 1 of
/// the year where chrono has no such week.
pub open spec fn week_start_day(year: i32, week: u32) -> int {
    match iso_week_monday(year, week) {
        Some(d) => d as int,
        None => new_year_day_number(year as int),
    }
}

/// The first and last day (`%Y-%m-%d`) of ISO week `week` of `year`: its first day (see
/// `week_start_day`) and six days later.
pub open spec fn week_span(year: i32, week: u32) -> (Seq<char>, Seq<char>) {
    (iso_date_text(week_start_day(year, week) as i32), iso_date_text((week_start_day(year, week) + 6) as i32))
}

/// The first and last day of ISO week `week` of `year` (see `week_span`), for a year inside
/// chrono's range whose weeks end inside it.
fn week_dates(year: i32, week: u32) -> (r: (String, String))
    requires
        -262143 <= year < 262142,
    ensures
        (r.0@, r.1@) == week_span(year, week),
{
    let start: i32 = match week_monday(year, week) {
        Some(d) => d,
        None => match new_year_day(year) {
            Some(d) => d,
            None => 0,
        },
    };
    assert(chrono_day_ok(new_year_day_number(year as int))) by (nonlinear_arith)
        requires
            -262143 <= year < 262142,
    ;
    (day_text(start), day_text(start + 6))
}

/// Whether read `i` counts (has a positive duration).
pub open spec fn counted(ps: Seq<PageStat>, i: int) -> bool {
    ps[i].duration > 0
}

/// Seconds read in the first `n` reads.
pub open spec fn total_time(ps: Seq<PageStat>, n: int) -> int
    decreases n,
{
    if n <= 0 {
        0
    } else {
        total_time(ps, n - 1) + if counted(ps, n - 1) {
            ps[n - 1].duration as int
        } else {
            0
        }
    }
}

/// Number of counting reads among the first `n`.
pub open spec fn total_reads(ps: Seq<PageStat>, n: int) -> int
    decreases n,
{
    if n <= 0 {
        0
    } else {
        total_reads(ps, n - 1) + if counted(ps, n - 1) {
            1int
        } else {
            0
        }
    }
}

/// The dates of the counting reads among the first `n`, each once, in order of first
/// appearance.
pub open spec fn date_keys(ps: Seq<PageStat>, ds: Seq<StatDay>, n: int) -> Seq<Seq<char>>
    decreases n,
{
    if n <= 0 {
        Seq::empty()
    } else {
        let prev = date_keys(ps, ds, n - 1);
        if counted(ps, n - 1) && !prev.contains(ds[n - 1].date@) {
            prev.push(ds[n - 1].date@)
        } else {
            prev
        }
    }
}

/// Seconds read on date `key` in the first `n` reads.
pub open spec fn date_time(ps: Seq<PageStat>, ds: Seq<StatDay>, n: int, key: Seq<char>) -> int
    decreases n,
{
    if n <= 0 {
        0
    } else {
        date_time(ps, ds, n - 1, key) + if counted(ps, n - 1) && ds[n - 1].date@ == key {
            ps[n - 1].duration as int
        } else {
            0
        }
    }
}

/// Counting reads on date `key` among the first `n`.
pub open spec fn date_reads(ps: Seq<PageStat>, ds: Seq<StatDay>, n: int, key: Seq<char>) -> int
    decreases n,
{
    if n <= 0 {
        0
    } else {
        date_reads(ps, ds, n - 1, key) + if counted(ps, n - 1) && ds[n - 1].date@ == key {
            1int
        } else {
            0
        }
    }
}

/// Seconds read per date, dates in order of first appearance.
pub open spec fn daily_time_pairs(ps: Seq<PageStat>, ds: Seq<StatDay>) -> Seq<(Seq<char>, i64)> {
    let n = ps.len() as int;
    date_keys(ps, ds, n).map_values(|k: Seq<char>| (k, date_time(ps, ds, n, k) as i64))
}

/// Counting reads per date, dates in order of first appearance.
pub open spec fn daily_read_pairs(ps: Seq<PageStat>, ds: Seq<StatDay>) -> Seq<(Seq<char>, i64)> {
    let n = ps.len() as int;
    date_keys(ps, ds, n).map_values(|k: Seq<char>| (k, date_reads(ps, ds, n, k) as i64))
}

/// The (year, ISO week) keys of the counting reads among the first `n`, each once, in order.
pub open spec fn week_keys(ps: Seq<PageStat>, ds: Seq<StatDay>, n: int) -> Seq<(i32, u32)>
    decreases n,
{
    if n <= 0 {
        Seq::empty()
    } else {
        let prev = week_keys(ps, ds, n - 1);
        let k = (ds[n - 1].year, ds[n - 1].iso_week);
        if counted(ps, n - 1) && !prev.contains(k) {
            prev.push(k)
        } else {
            prev
        }
    }
}

/// The counting reads of week `key` among the first `n`, in order.
pub open spec fn week_reads(ps: Seq<PageStat>, ds: Seq<StatDay>, n: int, key: (i32, u32)) -> Seq<
    PageStat,
>
    decreases n,
{
    if n <= 0 {
        Seq::empty()
    } else {
        let prev = week_reads(ps, ds, n - 1, key);
        if counted(ps, n - 1) && (ds[n - 1].year, ds[n - 1].iso_week) == key {
            prev.push(ps[n - 1])
        } else {
            prev
        }
    }
}

/// Sum of the durations of reads.
pub open spec fn duration_sum(s: Seq<PageStat>) -> int
    decreases s.len(),
{
    if s.len() == 0 {
        0
    } else {
        duration_sum(s.drop_last()) + s.last().duration
    }
}

/// The largest value in a keyed list, 0 when it is empty.
pub open spec fn max_value(s: Seq<(Seq<char>, i64)>) -> int
    decreases s.len(),
{
    if s.len() == 0 {
        0
    } else if s.len() == 1 {
        s[0].1 as int
    } else if s.last().1 > max_value(s.drop_last()) {
        s.last().1 as int
    } else {
        max_value(s.drop_last())
    }
}

/// The content of a week: start and end date, seconds, reads, longest and average session.
pub type WeekView = (Seq<char>, Seq<char>, i64, i64, Option<i64>, Option<i64>);

/// The content of a week's statistics.
pub open spec fn week_view(w: WeeklyStats) -> WeekView {
    (
        w.start_date@,
        w.end_date@,
        w.read_time,
        w.pages_read,
        w.longest_session_duration,
        w.average_session_duration,
    )
}

/// The contents of a list of weeks.
pub open spec fn weeks_view(v: Seq<WeeklyStats>) -> Seq<WeekView> {
    v.map_values(|w: WeeklyStats| week_view(w))
}

/// The statistics of week `key` of the reads.
pub open spec fn week_of(ps: Seq<PageStat>, ds: Seq<StatDay>, key: (i32, u32)) -> WeekView {
    let reads = week_reads(ps, ds, ps.len() as int, key);
    let (avg, longest) = session_summary(reads);
    (
        week_span(key.0, key.1).0,
        week_span(key.0, key.1).1,
        duration_sum(reads) as i64,
        reads.len() as i64,
        longest,
        avg,
    )
}

/// `s` with `x` inserted after every week starting no earlier than `x` (a stable sort, newest
/// first).
pub open spec fn insert_week_desc(s: Seq<WeekView>, x: WeekView) -> Seq<WeekView>
    decreases s.len(),
{
    if s.len() == 0 {
        seq![x]
    } else if !text_lt(s.last().0, x.0) {
        s.push(x)
    } else {
        insert_week_desc(s.drop_last(), x).push(s.last())
    }
}

/// The weeks of the reads, newest first; weeks that start together keep the order of their
/// first reads.
pub open spec fn weeks_desc(ps: Seq<PageStat>, ds: Seq<StatDay>, k: int) -> Seq<WeekView>
    decreases k,
{
    if k <= 0 {
        Seq::empty()
    } else {
        insert_week_desc(
            weeks_desc(ps, ds, k - 1),
            week_of(ps, ds, week_keys(ps, ds, ps.len() as int)[k - 1]),
        )
    }
}

proof fn lemma_totals(ps: Seq<PageStat>, k: int, n: int)
    requires
        0 <= k <= n <= ps.len(),
    ensures
        total_time(ps, k) <= total_time(ps, n),
        0 <= total_reads(ps, k) <= total_time(ps, k),
        total_reads(ps, k) <= total_reads(ps, n),
        total_time(ps, k) >= 0,
    decreases n,
{
    if n > k {
        lemma_totals(ps, k, n - 1);
    } else if k > 0 {
        lemma_totals(ps, k - 1, k - 1);
    }
}

proof fn lemma_date_bounds(ps: Seq<PageStat>, ds: Seq<StatDay>, n: int, key: Seq<char>)
    requires
        0 <= n <= ps.len(),
    ensures
        0 <= date_reads(ps, ds, n, key) <= date_time(ps, ds, n, key) <= total_time(ps, n),
        date_reads(ps, ds, n, key) <= total_reads(ps, n),
        date_keys(ps, ds, n).len() <= total_reads(ps, n),
        !date_keys(ps, ds, n).contains(key) ==> date_time(ps, ds, n, key) == 0 && date_reads(
            ps,
            ds,
            n,
            key,
        ) == 0,
        forall|a: int, b: int|
            0 <= a < b < date_keys(ps, ds, n).len() ==> date_keys(ps, ds, n)[a] != date_keys(
                ps,
                ds,
                n,
            )[b],
    decreases n,
{
    if n > 0 {
        lemma_date_bounds(ps, ds, n - 1, key);
        let prev = date_keys(ps, ds, n - 1);
        let d = ds[n - 1].date@;
        if counted(ps, n - 1) && !prev.contains(d) {
            assert(date_keys(ps, ds, n) == prev.push(d));
            assert forall|a: int, b: int|
                0 <= a < b < date_keys(ps, ds, n).len() implies date_keys(ps, ds, n)[a] != date_keys(
                ps,
                ds,
                n,
            )[b] by {
                if b == prev.len() {
                    assert(date_keys(ps, ds, n)[a] == prev[a]);
                }
            }
            if !date_keys(ps, ds, n).contains(key) {
                assert(key != d) by {
                    assert(date_keys(ps, ds, n)[prev.len() as int] == d);
                }
                assert forall|x: int| 0 <= x < prev.len() implies prev[x] != key by {
                    assert(date_keys(ps, ds, n)[x] == prev[x]);
                }
            }
        } else if counted(ps, n - 1) && !date_keys(ps, ds, n).contains(key) {
            assert(prev.contains(d));
            assert(key != d);
        }
    }
}

proof fn lemma_week_bounds(ps: Seq<PageStat>, ds: Seq<StatDay>, n: int, key: (i32, u32))
    requires
        0 <= n <= ps.len(),
    ensures
        0 <= duration_sum(week_reads(ps, ds, n, key)) <= total_time(ps, n),
        week_reads(ps, ds, n, key).len() <= total_reads(ps, n),
        week_keys(ps, ds, n).len() <= total_reads(ps, n),
        !week_keys(ps, ds, n).contains(key) ==> week_reads(ps, ds, n, key).len() == 0,
        forall|a: int, b: int|
            0 <= a < b < week_keys(ps, ds, n).len() ==> week_keys(ps, ds, n)[a] != week_keys(
                ps,
                ds,
                n,
            )[b],
    decreases n,
{
    if n > 0 {
        lemma_week_bounds(ps, ds, n - 1, key);
        let prev = week_keys(ps, ds, n - 1);
        let k = (ds[n - 1].year, ds[n - 1].iso_week);
        let r = week_reads(ps, ds, n, key);
        if counted(ps, n - 1) && k == key {
            assert(r.drop_last() =~= week_reads(ps, ds, n - 1, key));
        }
        if counted(ps, n - 1) && !prev.contains(k) {
            assert(week_keys(ps, ds, n) == prev.push(k));
            assert forall|a: int, b: int|
                0 <= a < b < week_keys(ps, ds, n).len() implies week_keys(ps, ds, n)[a] != week_keys(
                ps,
                ds,
                n,
            )[b] by {
                if b == prev.len() {
                    assert(week_keys(ps, ds, n)[a] == prev[a]);
                }
            }
            if !week_keys(ps, ds, n).contains(key) {
                assert(key != k) by {
                    assert(week_keys(ps, ds, n)[prev.len() as int] == k);
                }
                assert forall|x: int| 0 <= x < prev.len() implies prev[x] != key by {
                    assert(week_keys(ps, ds, n)[x] == prev[x]);
                }
            }
        } else if counted(ps, n - 1) && !week_keys(ps, ds, n).contains(key) {
            assert(prev.contains(k));
            assert(key != k);
        }
    }
}

/// Total seconds and number of counting reads.
fn totals(ps: &Vec<PageStat>) -> (r: (i64, i64))
    requires
        total_time(ps@, ps.len() as int) <= i64::MAX,
    ensures
        r.0 == total_time(ps@, ps.len() as int),
        r.1 == total_reads(ps@, ps.len() as int),
{
    let mut time: i64 = 0;
    let mut reads: i64 = 0;
    let mut i: usize = 0;
    while i < ps.len()
        invariant
            i <= ps.len(),
            total_time(ps@, ps.len() as int) <= i64::MAX,
            time == total_time(ps@, i as int),
            reads == total_reads(ps@, i as int),
        decreases ps.len() - i,
    {
        proof {
            lemma_totals(ps@, i + 1, ps.len() as int);
        }
        if ps[i].duration > 0 {
            time = time + ps[i].duration;
            reads = reads + 1;
        }
        i += 1;
    }
    (time, reads)
}

/// Index of the entry keyed `key`.
fn find_key(v: &Vec<(String, i64)>, key: &str) -> (r: Option<usize>)
    ensures
        match r {
            Some(j) => j < v.len() && v@[j as int].0@ == key@,
            None => forall|x: int| 0 <= x < v.len() ==> v@[x].0@ != key@,
        },
{
    let mut j: usize = 0;
    while j < v.len()
        invariant
            j <= v.len(),
            forall|x: int| 0 <= x < j ==> v@[x].0@ != key@,
        decreases v.len() - j,
    {
        if str_eq(v[j].0.as_str(), key) {
            return Some(j);
        }
        j += 1;
    }
    None
}

/// Seconds read and counting reads per date.
fn daily_totals(ps: &Vec<PageStat>, ds: &Vec<StatDay>) -> (r: (Vec<(String, i64)>, Vec<(String, i64)>))
    requires
        ds.len() == ps.len(),
        total_time(ps@, ps.len() as int) <= i64::MAX,
    ensures
        pairs_view(r.0@) == daily_time_pairs(ps@, ds@),
        pairs_view(r.1@) == daily_read_pairs(ps@, ds@),
{
    let mut time: Vec<(String, i64)> = Vec::new();
    let mut reads: Vec<(String, i64)> = Vec::new();
    let mut i: usize = 0;
    while i < ps.len()
        invariant
            i <= ps.len(),
            ds.len() == ps.len(),
            total_time(ps@, ps.len() as int) <= i64::MAX,
            pairs_view(time@) =~= date_keys(ps@, ds@, i as int).map_values(
                |k: Seq<char>| (k, date_time(ps@, ds@, i as int, k) as i64),
            ),
            pairs_view(reads@) =~= date_keys(ps@, ds@, i as int).map_values(
                |k: Seq<char>| (k, date_reads(ps@, ds@, i as int, k) as i64),
            ),
        decreases ps.len() - i,
    {
        let ghost keys = date_keys(ps@, ds@, i as int);
        let ghost n1 = i + 1;
        proof {
            lemma_totals(ps@, n1, ps.len() as int);
            lemma_date_bounds(ps@, ds@, i as int, ds@[i as int].date@);
            lemma_date_bounds(ps@, ds@, n1, ds@[i as int].date@);
        }
        if ps[i].duration > 0 {
            let d = ps[i].duration;
            let ghost key = ds@[i as int].date@;
            match find_key(&time, ds[i].date.as_str()) {
                Some(j) => {
                    assert(pairs_view(time@)[j as int].0 == key);
                    assert(pairs_view(time@).len() == keys.len());
                    assert(pairs_view(time@)[j as int] == (
                        keys[j as int],
                        date_time(ps@, ds@, i as int, keys[j as int]) as i64,
                    ));
                    assert(keys[j as int] == key);
                    assert(keys.contains(key));
                    assert(date_keys(ps@, ds@, n1) == keys);
                    assert(date_time(ps@, ds@, n1, key) == date_time(ps@, ds@, i as int, key) + d);
                    assert(pairs_view(reads@)[j as int] == (
                        keys[j as int],
                        date_reads(ps@, ds@, i as int, keys[j as int]) as i64,
                    ));
                    assert(pairs_view(reads@).len() == keys.len());
                    assert(pairs_view(reads@)[j as int] == (reads@[j as int].0@, reads@[j as int].1));
                    assert(reads@[j as int].0@ == key);
                    let t = time[j].1 + d;
                    let c = reads[j].1 + 1;
                    let k1 = copy_string(&time[j].0);
                    let k2 = copy_string(&reads[j].0);
                    let ghost old_time = time@;
                    let ghost old_reads = reads@;
                    time.set(j, (k1, t));
                    reads.set(j, (k2, c));
                    proof {
                        lemma_date_bounds(ps@, ds@, i as int, key);
                        assert forall|x: int| 0 <= x < keys.len() implies #[trigger] pairs_view(time@)[x]
                            == (keys[x], date_time(ps@, ds@, n1, keys[x]) as i64) by {
                            assert(pairs_view(old_time)[x] == (
                                keys[x],
                                date_time(ps@, ds@, i as int, keys[x]) as i64,
                            ));
                            if x != j {
                                assert(keys[x] != key);
                                assert(time@[x] == old_time[x]);
                            }
                        }
                        assert forall|x: int| 0 <= x < keys.len() implies #[trigger] pairs_view(reads@)[x]
                            == (keys[x], date_reads(ps@, ds@, n1, keys[x]) as i64) by {
                            assert(pairs_view(old_reads)[x] == (
                                keys[x],
                                date_reads(ps@, ds@, i as int, keys[x]) as i64,
                            ));
                            if x != j {
                                assert(keys[x] != key);
                                assert(reads@[x] == old_reads[x]);
                            }
                        }
                    }
                },
                None => {
                    assert(!keys.contains(key)) by {
                        if keys.contains(key) {
                            let x = choose|x: int| 0 <= x < keys.len() && keys[x] == key;
                            assert(pairs_view(time@).len() == keys.len());
                            assert(pairs_view(time@)[x] == (
                                keys[x],
                                date_time(ps@, ds@, i as int, keys[x]) as i64,
                            ));
                            assert(pairs_view(time@)[x] == (time@[x].0@, time@[x].1));
                        }
                    }
                    assert(date_keys(ps@, ds@, n1) == keys.push(key));
                    let ghost old_time = time@;
                    let ghost old_reads = reads@;
                    assert(pairs_view(old_time).len() == keys.len());
                    assert(pairs_view(old_reads).len() == keys.len());
                    time.push((copy_string(&ds[i].date), d));
                    reads.push((copy_string(&ds[i].date), 1));
                    proof {
                        lemma_date_bounds(ps@, ds@, i as int, key);
                        assert forall|x: int| 0 <= x < keys.len() + 1 implies #[trigger] pairs_view(
                            time@,
                        )[x] == (keys.push(key)[x], date_time(ps@, ds@, n1, keys.push(key)[x]) as i64) by {
                            if x < keys.len() {
                                assert(pairs_view(old_time)[x] == (
                                    keys[x],
                                    date_time(ps@, ds@, i as int, keys[x]) as i64,
                                ));
                                assert(keys[x] != key);
                                assert(time@[x] == old_time[x]);
                            }
                        }
                        assert forall|x: int| 0 <= x < keys.len() + 1 implies #[trigger] pairs_view(
                            reads@,
                        )[x] == (keys.push(key)[x], date_reads(ps@, ds@, n1, keys.push(key)[x]) as i64) by {
                            if x < keys.len() {
                                assert(pairs_view(old_reads)[x] == (
                                    keys[x],
                                    date_reads(ps@, ds@, i as int, keys[x]) as i64,
                                ));
                                assert(keys[x] != key);
                                assert(reads@[x] == old_reads[x]);
                            }
                        }
                    }
                },
            }
        }
        i += 1;
    }
    (time, reads)
}

/// The (year, week) keys of the counting reads, in order of first appearance.
fn week_key_list(ps: &Vec<PageStat>, ds: &Vec<StatDay>) -> (r: Vec<(i32, u32)>)
    requires
        ds.len() == ps.len(),
    ensures
        r@ == week_keys(ps@, ds@, ps.len() as int),
{
    let mut out: Vec<(i32, u32)> = Vec::new();
    let mut i: usize = 0;
    while i < ps.len()
        invariant
            i <= ps.len(),
            ds.len() == ps.len(),
            out@ == week_keys(ps@, ds@, i as int),
        decreases ps.len() - i,
    {
        if ps[i].duration > 0 {
            let k = (ds[i].year, ds[i].iso_week);
            let mut j: usize = 0;
            let mut found = false;
            while j < out.len()
                invariant
                    j <= out.len(),
                    found ==> out@.contains(k),
                    !found ==> forall|x: int| 0 <= x < j ==> out@[x] != k,
                decreases out.len() - j,
            {
                if out[j].0 == k.0 && out[j].1 == k.1 {
                    assert(out@[j as int] == k);
                    found = true;
                }
                j += 1;
            }
            if !found {
                out.push(k);
            }
        }
        i += 1;
    }
    out
}

/// The counting reads of week `key`, in order.
fn reads_in_week(ps: &Vec<PageStat>, ds: &Vec<StatDay>, key: (i32, u32)) -> (r: Vec<PageStat>)
    requires
        ds.len() == ps.len(),
    ensures
        r@ == week_reads(ps@, ds@, ps.len() as int, key),
{
    let mut out: Vec<PageStat> = Vec::new();
    let mut i: usize = 0;
    while i < ps.len()
        invariant
            i <= ps.len(),
            ds.len() == ps.len(),
            out@ == week_reads(ps@, ds@, i as int, key),
        decreases ps.len() - i,
    {
        if ps[i].duration > 0 && ds[i].year == key.0 && ds[i].iso_week == key.1 {
            out.push(ps[i]);
        }
        i += 1;
    }
    out
}

proof fn lemma_week_reads_positive(ps: Seq<PageStat>, ds: Seq<StatDay>, n: int, key: (i32, u32))
    requires
        0 <= n <= ps.len(),
    ensures
        forall|j: int|
            0 <= j < week_reads(ps, ds, n, key).len() ==> #[trigger] week_reads(ps, ds, n, key)[j].duration
                > 0,
    decreases n,
{
    if n > 0 {
        lemma_week_reads_positive(ps, ds, n - 1, key);
        let prev = week_reads(ps, ds, n - 1, key);
        let cur = week_reads(ps, ds, n, key);
        assert forall|j: int| 0 <= j < cur.len() implies #[trigger] cur[j].duration > 0 by {
            if j < prev.len() {
                assert(cur[j] == prev[j]);
            }
        }
    }
}

proof fn lemma_duration_prefix(s: Seq<PageStat>, k: int)
    requires
        0 <= k <= s.len(),
        forall|j: int| 0 <= j < s.len() ==> #[trigger] s[j].duration > 0,
    ensures
        0 <= duration_sum(s.take(k)) <= duration_sum(s),
    decreases s.len() - k,
{
    if k < s.len() {
        lemma_duration_prefix(s, k + 1);
        assert(s.take(k + 1).drop_last() =~= s.take(k));
        assert(s.take(k + 1).last() == s[k]);
    } else {
        assert(s.take(k) =~= s);
    }
    if k > 0 {
        assert(s.take(k).drop_last() =~= s.take(k - 1));
        lemma_duration_prefix_nonneg(s.take(k));
    }
}

proof fn lemma_duration_prefix_nonneg(s: Seq<PageStat>)
    requires
        forall|j: int| 0 <= j < s.len() ==> #[trigger] s[j].duration > 0,
    ensures
        duration_sum(s) >= 0,
    decreases s.len(),
{
    if s.len() > 0 {
        assert forall|j: int| 0 <= j < s.drop_last().len() implies #[trigger] s.drop_last()[j].duration
            > 0 by {
            assert(s.drop_last()[j] == s[j]);
        }
        lemma_duration_prefix_nonneg(s.drop_last());
        assert(s.last() == s[s.len() - 1]);
    }
}

/// Sum of the durations of reads that all have a positive duration.
fn sum_durations(v: &Vec<PageStat>) -> (r: i64)
    requires
        forall|j: int| 0 <= j < v@.len() ==> #[trigger] v@[j].duration > 0,
        duration_sum(v@) <= i64::MAX,
    ensures
        r == duration_sum(v@),
{
    let mut total: i64 = 0;
    let mut i: usize = 0;
    assert(v@.take(0) =~= Seq::<PageStat>::empty());
    while i < v.len()
        invariant
            i <= v.len(),
            forall|j: int| 0 <= j < v@.len() ==> #[trigger] v@[j].duration > 0,
            duration_sum(v@) <= i64::MAX,
            total == duration_sum(v@.take(i as int)),
        decreases v.len() - i,
    {
        proof {
            lemma_duration_prefix(v@, i + 1);
            assert(v@.take(i + 1).drop_last() =~= v@.take(i as int));
            assert(v@.take(i + 1).last() == v@[i as int]);
        }
        total = total + v[i].duration;
        i += 1;
    }
    assert(v@.take(v.len() as int) =~= v@);
    total
}

proof fn lemma_insert_week_at(s: Seq<WeekView>, x: WeekView, j: int)
    requires
        0 <= j <= s.len(),
        j > 0 ==> !text_lt(s[j - 1].0, x.0),
        forall|k: int| j <= k < s.len() ==> text_lt(#[trigger] s[k].0, x.0),
    ensures
        insert_week_desc(s, x) == s.insert(j, x),
    decreases s.len(),
{
    if s.len() == 0 {
        assert(s.insert(j, x) =~= seq![x]);
    } else if j == s.len() {
        assert(s.insert(j, x) =~= s.push(x));
    } else {
        assert(text_lt(s[s.len() - 1].0, x.0));
        lemma_insert_week_at(s.drop_last(), x, j);
        assert(s.drop_last().insert(j, x).push(s.last()) =~= s.insert(j, x));
    }
}

/// Inserts a week after every week starting no earlier than it.
fn insert_week(v: &mut Vec<WeeklyStats>, x: WeeklyStats)
    ensures
        weeks_view(final(v)@) == insert_week_desc(weeks_view(old(v)@), week_view(x)),
{
    let ghost s = weeks_view(v@);
    let mut j = v.len();
    while j > 0 && crate::text::less_than(v[j - 1].start_date.as_str(), x.start_date.as_str())
        invariant
            j <= v.len(),
            s == weeks_view(v@),
            forall|k: int| j <= k < s.len() ==> text_lt(#[trigger] s[k].0, x.start_date@),
        decreases j,
    {
        assert(s[j - 1].0 == v@[j - 1].start_date@);
        j -= 1;
    }
    proof {
        if j > 0 {
            assert(s[j - 1].0 == v@[j - 1].start_date@);
        }
        lemma_insert_week_at(s, week_view(x), j as int);
    }
    v.insert(j, x);
    assert(weeks_view(v@) =~= s.insert(j as int, week_view(x)));
}

/// Every read's year lies inside chrono's range, where a week's last day can be computed.
pub open spec fn years_fit(ds: Seq<StatDay>) -> bool {
    forall|i: int| 0 <= i < ds.len() ==> -262143 <= #[trigger] ds[i].year < 262142
}

/// The time of reads that all count is their whole duration.
proof fn lemma_counted_is_duration(s: Seq<PageStat>)
    requires
        forall|j: int| 0 <= j < s.len() ==> #[trigger] s[j].duration > 0,
    ensures
        counted_time(s) == duration_sum(s),
    decreases s.len(),
{
    if s.len() > 0 {
        assert forall|j: int| 0 <= j < s.drop_last().len() implies #[trigger] s.drop_last()[j].duration
            > 0 by {
            assert(s.drop_last()[j] == s[j]);
        }
        lemma_counted_is_duration(s.drop_last());
        assert(s.last() == s[s.len() - 1]);
    }
}

/// The statistics of each week, newest first.
fn build_weekly_stats(ps: &Vec<PageStat>, ds: &Vec<StatDay>) -> (r: Vec<WeeklyStats>)
    requires
        ds.len() == ps.len(),
        total_time(ps@, ps.len() as int) <= i64::MAX,
        years_fit(ds@),
    ensures
        weeks_view(r@) == weeks_desc(ps@, ds@, week_keys(ps@, ds@, ps.len() as int).len() as int),
{
    let keys = week_key_list(ps, ds);
    let ghost n = ps.len() as int;
    let mut weeks: Vec<WeeklyStats> = Vec::new();
    let mut k: usize = 0;
    while k < keys.len()
        invariant
            k <= keys.len(),
            ds.len() == ps.len(),
            n == ps.len(),
            keys@ == week_keys(ps@, ds@, n),
            total_time(ps@, n) <= i64::MAX,
            years_fit(ds@),
            weeks_view(weeks@) == weeks_desc(ps@, ds@, k as int),
        decreases keys.len() - k,
    {
        let key = keys[k];
        assert(keys@.contains(key)) by {
            assert(keys@[k as int] == key);
        }
        let reads = reads_in_week(ps, ds, key);
        proof {
            lemma_week_bounds(ps@, ds@, n, key);
            lemma_week_reads_positive(ps@, ds@, n, key);
            lemma_totals(ps@, n, n);
            lemma_week_key_years(ps@, ds@, n, key);
            lemma_counted_is_duration(reads@);
        }
        let read_time = sum_durations(&reads);
        let pages_read = reads.len() as i64;
        let (avg, longest) = StatisticsCalculator::calculate_weekly_sessions(&reads);
        let (start_date, end_date) = week_dates(key.0, key.1);
        let w = WeeklyStats {
            start_date,
            end_date,
            read_time,
            pages_read,
            longest_session_duration: longest,
            average_session_duration: avg,
        };
        insert_week(&mut weeks, w);
        k += 1;
    }
    weeks
}

/// A week key comes from a read whose year is in range.
proof fn lemma_week_key_years(ps: Seq<PageStat>, ds: Seq<StatDay>, n: int, key: (i32, u32))
    requires
        0 <= n <= ps.len(),
        ds.len() == ps.len(),
        week_keys(ps, ds, n).contains(key),
        forall|i: int| 0 <= i < ds.len() ==> -262143 <= #[trigger] ds[i].year < 262142,
    ensures
        -262143 <= key.0 < 262142,
    decreases n,
{
    if n > 0 {
        let prev = week_keys(ps, ds, n - 1);
        let k = (ds[n - 1].year, ds[n - 1].iso_week);
        if prev.contains(key) {
            lemma_week_key_years(ps, ds, n - 1, key);
        } else {
            if counted(ps, n - 1) && !prev.contains(k) {
                let x = choose|x: int| 0 <= x < prev.push(k).len() && prev.push(k)[x] == key;
                if x < prev.len() {
                    assert(prev[x] == key);
                }
                assert(key == k);
                assert(-262143 <= ds[n - 1].year < 262142);
            }
        }
    }
}


/// The largest value of a keyed list, 0 when it is empty.
fn max_of(v: &Vec<(String, i64)>) -> (r: i64)
    ensures
        r == max_value(pairs_view(v@)),
{
    let ghost p = pairs_view(v@);
    let mut m: i64 = 0;
    let mut i: usize = 0;
    while i < v.len()
        invariant
            i <= v.len(),
            p == pairs_view(v@),
            m == max_value(p.take(i as int)),
        decreases v.len() - i,
    {
        assert(p.take(i + 1).drop_last() =~= p.take(i as int));
        assert(p.take(i + 1).last() == p[i as int]);
        assert(p[i as int].1 == v@[i as int].1);
        if i == 0 || v[i].1 > m {
            m = v[i].1;
        }
        i += 1;
    }
    assert(p.take(v.len() as int) =~= p);
    m
}

/// Completions recorded for a book row (0 when none).
pub open spec fn completions_of(b: StatBook) -> int {
    match b.completions {
        Some(c) => c.total_completions as int,
        None => 0,
    }
}

/// Completions of the first `n` book rows.
pub open spec fn completions_total(bs: Seq<StatBook>, n: int) -> int
    decreases n,
{
    if n <= 0 {
        0
    } else {
        completions_total(bs, n - 1) + completions_of(bs[n - 1])
    }
}

/// Book rows among the first `n` completed at least once.
pub open spec fn books_completed_count(bs: Seq<StatBook>, n: int) -> int
    decreases n,
{
    if n <= 0 {
        0
    } else {
        books_completed_count(bs, n - 1) + if completions_of(bs[n - 1]) > 0 {
            1int
        } else {
            0
        }
    }
}

/// Most completions of a single book row among the first `n` (0 when none).
pub open spec fn most_completions_of(bs: Seq<StatBook>, n: int) -> int
    decreases n,
{
    if n <= 0 {
        0
    } else if completions_of(bs[n - 1]) > most_completions_of(bs, n - 1) {
        completions_of(bs[n - 1])
    } else {
        most_completions_of(bs, n - 1)
    }
}

proof fn lemma_completion_bounds(bs: Seq<StatBook>, k: int, n: int)
    requires
        0 <= k <= n <= bs.len(),
    ensures
        0 <= completions_total(bs, k) <= completions_total(bs, n),
        0 <= books_completed_count(bs, k) <= completions_total(bs, k),
        0 <= most_completions_of(bs, k) <= completions_total(bs, k),
    decreases n,
{
    if n > k {
        lemma_completion_bounds(bs, k, n - 1);
    } else if k > 0 {
        lemma_completion_bounds(bs, k - 1, k - 1);
    }
}

/// Total completions, books completed at least once, and most completions of one book.
fn completion_figures(books: &Vec<StatBook>) -> (r: (i64, i64, i64))
    requires
        completions_total(books@, books.len() as int) <= i64::MAX,
    ensures
        r.0 == completions_total(books@, books.len() as int),
        r.1 == books_completed_count(books@, books.len() as int),
        r.2 == most_completions_of(books@, books.len() as int),
{
    let ghost n = books.len() as int;
    let mut total: i64 = 0;
    let mut completed: i64 = 0;
    let mut most: i64 = 0;
    let mut i: usize = 0;
    while i < books.len()
        invariant
            i <= books.len(),
            n == books.len(),
            completions_total(books@, n) <= i64::MAX,
            total == completions_total(books@, i as int),
            completed == books_completed_count(books@, i as int),
            most == most_completions_of(books@, i as int),
        decreases books.len() - i,
    {
        proof {
            lemma_completion_bounds(books@, i + 1, n);
        }
        let c: usize = match &books[i].completions {
            Some(bc) => bc.total_completions,
            None => 0,
        };
        assert(c == completions_of(books@[i as int]));
        let c = c as i64;
        total = total + c;
        if c > 0 {
            completed = completed + 1;
        }
        if c > most {
            most = c;
        }
        i += 1;
    }
    (total, completed, most)
}

proof fn lemma_total_time_counted(ps: Seq<PageStat>, n: int)
    requires
        0 <= n <= ps.len(),
    ensures
        total_time(ps, n) == counted_time(ps.take(n)),
    decreases n,
{
    if n > 0 {
        lemma_total_time_counted(ps, n - 1);
        assert(ps.take(n).drop_last() =~= ps.take(n - 1));
        assert(ps.take(n).last() == ps[n - 1]);
    }
    assert(ps.take(ps.len() as int) =~= ps);
}

/// What the reading statistics of the reads `ps`, on local days `ds`, of the book rows `bs`,
/// as of day number `today`, are.
pub open spec fn stats_of(r: ReadingStats, ps: Seq<PageStat>, ds: Seq<StatDay>, bs: Seq<StatBook>, today: i32) -> bool {
    let n = ps.len() as int;
    &&& r.total_read_time == total_time(ps, n)
    &&& r.total_page_reads == total_reads(ps, n)
    &&& r.longest_read_time_in_day == max_value(daily_time_pairs(ps, ds))
    &&& r.most_pages_in_day == max_value(daily_read_pairs(ps, ds))
    &&& (r.average_session_duration, r.longest_session_duration) == session_summary(ps)
    &&& r.total_completions == completions_total(bs, bs.len() as int)
    &&& r.books_completed == books_completed_count(bs, bs.len() as int)
    &&& r.most_completions == most_completions_of(bs, bs.len() as int)
    &&& weeks_view(r.weeks@) == weeks_desc(ps, ds, week_keys(ps, ds, n).len() as int)
    &&& days_view(r.daily_activity@) == daily_activity_of(
        daily_time_pairs(ps, ds),
        daily_read_pairs(ps, ds),
    )
    &&& (streak_view(r.longest_streak), streak_view(r.current_streak)) == spec_streaks(
        days_view(r.daily_activity@),
        today,
    )
}

impl StatisticsCalculator {
    /// Reading statistics of the page reads whose local days are `days` (one per page read,
    /// in the same order), as of day number `today`.
    ///
    /// Only reads with a positive duration count. Days are keyed by their date text, weeks by
    /// (year, ISO week) and listed newest first; the daily activity is sorted by date; sessions
    /// and streaks are those of `calculate_overall_sessions` and `calculate_streaks_at`.
    pub fn calculate_stats_for_days(stats_data: &StatisticsData, days: &Vec<StatDay>, today: i32) -> (r:
        ReadingStats)
        requires
            days.len() == stats_data.page_stats.len(),
            total_time(stats_data.page_stats@, stats_data.page_stats.len() as int) <= i64::MAX,
            completions_total(stats_data.books@, stats_data.books.len() as int) <= i64::MAX,
            years_fit(days@),
        ensures
            stats_of(r, stats_data.page_stats@, days@, stats_data.books@, today),
    {
        let ps = &stats_data.page_stats;
        let ghost n = ps.len() as int;
        let (total_read_time, total_page_reads) = totals(ps);
        let (daily_time, daily_reads) = daily_totals(ps, days);
        let longest_read_time_in_day = max_of(&daily_time);
        let most_pages_in_day = max_of(&daily_reads);
        proof {
            lemma_total_time_counted(ps@, n);
            assert(ps@.take(n) =~= ps@);
        }
        let (average_session_duration, longest_session_duration) =
            Self::calculate_overall_sessions(ps);
        let weeks = build_weekly_stats(ps, days);
        let ghost time_pairs = pairs_view(daily_time@);
        let ghost read_pairs = pairs_view(daily_reads@);
        let daily_activity = Self::build_daily_activity(daily_time, daily_reads);
        proof {
            lemma_daily_activity_of(daily_time@, daily_reads@);
            lemma_date_bounds(ps@, days@, n, Seq::empty());
            lemma_totals(ps@, n, n);
            assert(time_pairs.len() == date_keys(ps@, days@, n).len());
        }
        let (longest_streak, current_streak) = Self::calculate_streaks_at(&daily_activity, today);
        let (total_completions, books_completed, most_completions) = completion_figures(
            &stats_data.books,
        );
        ReadingStats {
            total_read_time,
            total_page_reads,
            longest_read_time_in_day,
            most_pages_in_day,
            average_session_duration,
            longest_session_duration,
            total_completions,
            books_completed,
            most_completions,
            longest_streak,
            current_streak,
            weeks,
            daily_activity,
        }
    }

    /// Reading statistics of the page reads, each on its local day (the machine's time zone),
    /// as of today; see `calculate_stats_for_days`.
    ///
    /// Which date a read falls on depends on the time zone, and today on the clock, so the
    /// contract says that the result is the statistics for days that are each the read's date
    /// moved by some offset of less than a day (see `local_stat_day_of`). It is `None` when a
    /// read's local year lies outside chrono's range for week dates (timestamps more than about
    /// 8 * 10^12 seconds from the epoch). Reads must start a day inside chrono's range (or
    /// outside it, read as the epoch), where chrono can take their local date.
    pub fn calculate_stats(stats_data: &StatisticsData) -> (r: Option<ReadingStats>)
        requires
            total_time(stats_data.page_stats@, stats_data.page_stats.len() as int) <= i64::MAX,
            completions_total(stats_data.books@, stats_data.books.len() as int) <= i64::MAX,
            forall|k: int| 0 <= k < stats_data.page_stats.len() ==> chrono_inner_ts(
                effective_ts(#[trigger] stats_data.page_stats@[k].start_time) as int,
            ),
        ensures
            (forall|k: int| 0 <= k < stats_data.page_stats.len() ==> week_safe_timestamp(
                #[trigger] stats_data.page_stats@[k].start_time,
            )) ==> r is Some,
            r matches Some(st) ==> exists|ds: Seq<StatDay>| {
                &&& ds.len() == stats_data.page_stats.len()
                &&& forall|k: int| 0 <= k < ds.len() ==> local_stat_day_of(
                    #[trigger] ds[k],
                    effective_ts(stats_data.page_stats@[k].start_time) as int,
                )
                &&& years_fit(ds)
                &&& exists|today: i32| #[trigger] stats_of(st, stats_data.page_stats@, ds, stats_data.books@, today)
            },
            r is None ==> exists|k: int, d: StatDay| {
                &&& 0 <= k < stats_data.page_stats.len()
                &&& #[trigger] local_stat_day_of(d, effective_ts(stats_data.page_stats@[k].start_time) as int)
                &&& !(-262143 <= d.year < 262142)
            },
    {
        let ps = &stats_data.page_stats;
        let mut days: Vec<StatDay> = Vec::new();
        let mut i: usize = 0;
        while i < ps.len()
            invariant
                i <= ps.len(),
                ps@ == stats_data.page_stats@,
                days.len() == i,
                years_fit(days@),
                forall|k: int| 0 <= k < ps.len() ==> chrono_inner_ts(effective_ts(#[trigger] ps@[k].start_time) as int),
                forall|k: int| 0 <= k < i ==> local_stat_day_of(
                    #[trigger] days@[k],
                    effective_ts(ps@[k].start_time) as int,
                ),
            decreases ps.len() - i,
        {
            assert(chrono_inner_ts(effective_ts(ps@[i as int].start_time) as int));
            let d = local_stat_day(effective_timestamp(ps[i].start_time));
            assert(week_safe_timestamp(ps@[i as int].start_time) ==> -262143 <= d.year < 262142);
            if d.year < -262143 || d.year >= 262142 {
                assert(local_stat_day_of(d, effective_ts(ps@[i as int].start_time) as int));
                return None;
            }
            let ghost before = days@;
            days.push(d);
            assert forall|k: int| 0 <= k < days@.len() implies -262143 <= #[trigger] days@[k].year
                < 262142 by {
                if k < before.len() {
                    assert(days@[k] == before[k]);
                }
            }
            assert forall|k: int| 0 <= k < days@.len() implies local_stat_day_of(
                #[trigger] days@[k],
                effective_ts(ps@[k].start_time) as int,
            ) by {
                if k < before.len() {
                    assert(days@[k] == before[k]);
                }
            }
            i += 1;
        }
        let today = today_local_day();
        let st = Self::calculate_stats_for_days(stats_data, &days, today);
        assert(years_fit(days@));
        Some(st)
    }
}


/// For timestamp `ts` in the machine's time zone: its local year, and its date formatted
/// `%b %d` and `%b %d %Y` (chrono); `None` when chrono cannot represent `ts`. Nothing is stated
/// of the result: it depends on the time zone.
#[verifier::external_body]
fn local_date_labels(ts: i64) -> (r: Option<(i32, String, String)>) {
    chrono::DateTime::<chrono::Utc>::from_timestamp(ts, 0).map(|utc| {
        let local = utc.with_timezone(&chrono::Local);
        (chrono::Datelike::year(&local), local.format("%b %d").to_string(), local.format("%b %d %Y").to_string())
    })
}

/// The current year in the machine's time zone (`chrono::Local::now`). Nothing is stated of
/// the result: it depends on the clock and the time zone.
#[verifier::external_body]
fn current_local_year() -> (r: i32) {
    chrono::Datelike::year(&chrono::Local::now())
}

/// Session statistics of one book.
pub struct BookSessionStats {
    pub session_count: i64,
    pub average_session_duration: Option<i64>,
    pub longest_session_duration: Option<i64>,
    pub last_read_date: Option<String>,
}

/// The latest start time among page reads.
pub open spec fn latest_start(s: Seq<PageStat>) -> Option<i64>
    decreases s.len(),
{
    if s.len() == 0 {
        None
    } else {
        match latest_start(s.drop_last()) {
            Some(t) => if s.last().start_time > t {
                Some(s.last().start_time)
            } else {
                Some(t)
            },
            None => Some(s.last().start_time),
        }
    }
}

/// Latest start time among the page reads.
fn latest_start_time(v: &Vec<PageStat>) -> (r: Option<i64>)
    ensures
        r == latest_start(v@),
{
    let mut best: Option<i64> = None;
    let mut i: usize = 0;
    while i < v.len()
        invariant
            i <= v.len(),
            best == latest_start(v@.take(i as int)),
        decreases v.len() - i,
    {
        assert(v@.take(i + 1).drop_last() =~= v@.take(i as int));
        assert(v@.take(i + 1).last() == v@[i as int]);
        let t = v[i].start_time;
        best = match best {
            Some(b) => if t > b {
                Some(t)
            } else {
                Some(b)
            },
            None => Some(t),
        };
        i += 1;
    }
    assert(v@.take(v.len() as int) =~= v@);
    best
}

/// The last-read label of a book from the local year and the two labels of its latest read:
/// the short one (`%b %d`) in the current year, else the long one (`%b %d %Y`).
pub fn last_read_text(labels: Option<(i32, String, String)>, current_year: i32) -> (r: Option<String>)
    ensures
        match labels {
            Some((year, short, long)) => r matches Some(t) && t@ == if year == current_year {
                short@
            } else {
                long@
            },
            None => r is None,
        },
{
    match labels {
        Some((year, short, long)) => if year == current_year {
            Some(short)
        } else {
            Some(long)
        },
        None => None,
    }
}

impl StatBook {
    /// Session statistics of this book from all page reads: its counting reads grouped into
    /// sessions (as in `calculate_overall_sessions`), and the local date of its latest read.
    pub fn calculate_session_stats(&self, page_stats: &Vec<PageStat>) -> (r: BookSessionStats)
        requires
            time_of(reads_of_book(page_stats@, self.id)) <= i64::MAX,
        ensures
            r.session_count == book_sessions(page_stats@, self.id).len(),
            (r.average_session_duration, r.longest_session_duration) == sessions_summary(
                book_sessions(page_stats@, self.id),
            ),
            latest_start(reads_of_book(page_stats@, self.id)) is None ==> r.last_read_date is None,
    {
        let sessions = sessions_of_book(page_stats, self.id);
        let ghost all = ints(sessions@);
        proof {
            lemma_count_le_sum(all);
        }
        let session_count = sessions.len() as i64;
        let (average_session_duration, longest_session_duration) = summarize_sessions(&sessions);
        let reads = reads_of(page_stats, self.id);
        let last_read_date = match latest_start_time(&reads) {
            Some(t) => last_read_text(local_date_labels(t), current_local_year()),
            None => None,
        };
        BookSessionStats {
            session_count,
            average_session_duration,
            longest_session_duration,
            last_read_date,
        }
    }
}

proof fn lemma_count_le_sum(s: Seq<int>)
    requires
        forall|k: int| 0 <= k < s.len() ==> s[k] > 0,
    ensures
        s.len() <= seq_sum(s),
    decreases s.len(),
{
    if s.len() > 0 {
        assert forall|k: int| 0 <= k < s.drop_last().len() implies s.drop_last()[k] > 0 by {
            assert(s.drop_last()[k] == s[k]);
        }
        lemma_count_le_sum(s.drop_last());
        assert(s.last() == s[s.len() - 1]);
    }
}


/// Whether some entry of a keyed list has key `k`.
pub open spec fn has_week_key(m: Seq<(Seq<char>, WeekView)>, k: Seq<char>) -> bool {
    exists|i: int| 0 <= i < m.len() && #[trigger] m[i].0 == k
}

/// Weeks keyed by start date, in order of first appearance; for a start date shared by several
/// weeks, the first of them.
pub open spec fn weeks_by_start(ws: Seq<WeekView>) -> Seq<(Seq<char>, WeekView)>
    decreases ws.len(),
{
    if ws.len() == 0 {
        Seq::empty()
    } else {
        let prev = weeks_by_start(ws.drop_last());
        if has_week_key(prev, ws.last().0) {
            prev
        } else {
            prev.push((ws.last().0, ws.last()))
        }
    }
}

/// The contents of a list of keyed weeks.
pub open spec fn keyed_weeks_view(v: Seq<(String, WeeklyStats)>) -> Seq<(Seq<char>, WeekView)> {
    v.map_values(|e: (String, WeeklyStats)| (e.0@, week_view(e.1)))
}

/// A copy of a week's statistics.
fn copy_week(w: &WeeklyStats) -> (r: WeeklyStats)
    ensures
        week_view(r) == week_view(*w),
{
    WeeklyStats {
        start_date: copy_string(&w.start_date),
        end_date: copy_string(&w.end_date),
        read_time: w.read_time,
        pages_read: w.pages_read,
        longest_session_duration: w.longest_session_duration,
        average_session_duration: w.average_session_duration,
    }
}

/// Weeks keyed by their start date, the first week winning for a shared start date.
pub fn week_stats_by_start(weeks: &Vec<WeeklyStats>) -> (r: Vec<(String, WeeklyStats)>)
    ensures
        keyed_weeks_view(r@) == weeks_by_start(weeks_view(weeks@)),
{
    let ghost ws = weeks_view(weeks@);
    let mut out: Vec<(String, WeeklyStats)> = Vec::new();
    let mut i: usize = 0;
    while i < weeks.len()
        invariant
            i <= weeks.len(),
            ws == weeks_view(weeks@),
            keyed_weeks_view(out@) == weeks_by_start(ws.take(i as int)),
        decreases weeks.len() - i,
    {
        assert(ws.take(i + 1).drop_last() =~= ws.take(i as int));
        assert(ws.take(i + 1).last() == week_view(weeks@[i as int]));
        let ghost prev = keyed_weeks_view(out@);
        let mut j: usize = 0;
        let mut found = false;
        while j < out.len() && !found
            invariant
                j <= out.len(),
                i < weeks.len(),
                prev == keyed_weeks_view(out@),
                found ==> has_week_key(prev, weeks@[i as int].start_date@),
                !found ==> forall|k: int| 0 <= k < j ==> prev[k].0 != weeks@[i as int].start_date@,
            decreases out.len() - j,
        {
            if str_eq(out[j].0.as_str(), weeks[i].start_date.as_str()) {
                found = true;
                assert(prev[j as int].0 == weeks@[i as int].start_date@);
            }
            j += 1;
        }
        if !found {
            assert(!has_week_key(prev, weeks@[i as int].start_date@));
            let key = copy_string(&weeks[i].start_date);
            let w = copy_week(&weeks[i]);
            out.push((key, w));
            assert(keyed_weeks_view(out@) =~= prev.push((weeks@[i as int].start_date@, week_view(weeks@[i as int]))));
        }
        i += 1;
    }
    assert(ws.take(weeks.len() as int) =~= ws);
    out
}

} // verus!
