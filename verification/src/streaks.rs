//! Reading streaks: runs of consecutive days with page reads.
use vstd::prelude::*;
use crate::activity::{day_view, days_view};
use crate::dates::{iso_date_day, iso_date_text, parse_iso_date, today_local_day};
use crate::sessions::StatisticsCalculator;
use crate::stats_types::{DailyStats, StreakInfo};
use crate::text::{copy_string, opt_text};

verus! {

/// Day numbers of the days with pages read whose date chrono reads, in order.
pub open spec fn reading_days(d: Seq<(Seq<char>, i64, i64)>) -> Seq<i32>
    decreases d.len(),
{
    if d.len() == 0 {
        Seq::empty()
    } else if d.last().2 > 0 && iso_date_day(d.last().0) is Some {
        reading_days(d.drop_last()).push(iso_date_day(d.last().0)->0)
    } else {
        reading_days(d.drop_last())
    }
}

/// `s` with `x` inserted after every day no later than `x`.
pub open spec fn insert_day_number(s: Seq<i32>, x: i32) -> Seq<i32>
    decreases s.len(),
{
    if s.len() == 0 {
        seq![x]
    } else if s.last() <= x {
        s.push(x)
    } else {
        insert_day_number(s.drop_last(), x).push(s.last())
    }
}

/// `s` in ascending order.
pub open spec fn sort_days(s: Seq<i32>) -> Seq<i32>
    decreases s.len(),
{
    if s.len() == 0 {
        Seq::empty()
    } else {
        insert_day_number(sort_days(s.drop_last()), s.last())
    }
}

/// Runs of consecutive days in sorted `s`, as (length, first day, last day).
pub open spec fn streak_runs(s: Seq<i32>) -> Seq<(int, i32, i32)>
    decreases s.len(),
{
    if s.len() == 0 {
        Seq::empty()
    } else if s.len() == 1 {
        seq![(1, s[0], s[0])]
    } else {
        let r = streak_runs(s.drop_last());
        let l = r.last();
        if s.last() == s[s.len() - 2] + 1 {
            r.update(r.len() - 1, (l.0 + 1, l.1, s.last()))
        } else {
            r.push((1, s.last(), s.last()))
        }
    }
}

/// Index of the longest run; among equally long runs, the last one.
pub open spec fn longest_run(r: Seq<(int, i32, i32)>) -> int
    decreases r.len(),
{
    if r.len() <= 1 {
        0
    } else {
        let m = longest_run(r.drop_last());
        if r.last().0 >= r[m].0 {
            r.len() - 1
        } else {
            m
        }
    }
}

/// Index of the first run that ends on day `e`.
pub open spec fn first_run_ending(r: Seq<(int, i32, i32)>, e: i32) -> int
    decreases r.len(),
{
    if r.len() == 0 {
        0
    } else if r[0].2 == e {
        0
    } else {
        1 + first_run_ending(r.drop_first(), e)
    }
}

/// The streak content: length, first date text, last date text.
pub open spec fn streak_view(s: StreakInfo) -> (int, Option<Seq<char>>, Option<Seq<char>>) {
    (s.days as int, opt_text(s.start_date), opt_text(s.end_date))
}

/// Longest and current reading streak of `days`, given today's day number.
///
/// The longest streak is the longest run of consecutive reading days (the last one among
/// equals), with its first and last date. The current streak is the run ending on the last
/// reading day, when that day is today or yesterday (or later); it has no end date.
pub open spec fn spec_streaks(days: Seq<(Seq<char>, i64, i64)>, today: i32) -> (
    (int, Option<Seq<char>>, Option<Seq<char>>),
    (int, Option<Seq<char>>, Option<Seq<char>>),
) {
    let s = sort_days(reading_days(days));
    if s.len() == 0 {
        ((0, None, None), (0, None, None))
    } else {
        let r = streak_runs(s);
        let l = r[longest_run(r)];
        let longest = (l.0, Some(iso_date_text(l.1)), Some(iso_date_text(l.2)));
        let last = s.last();
        let current = if today - last <= 1 {
            let c = r[first_run_ending(r, last)];
            (c.0, Some(iso_date_text(c.1)), None)
        } else {
            (0, None, None)
        };
        (longest, current)
    }
}

proof fn lemma_insert_day_number_len(s: Seq<i32>, x: i32)
    ensures
        insert_day_number(s, x).len() == s.len() + 1,
    decreases s.len(),
{
    if s.len() > 0 && s.last() > x {
        lemma_insert_day_number_len(s.drop_last(), x);
    }
}

proof fn lemma_insert_day_number_at(s: Seq<i32>, x: i32, j: int)
    requires
        0 <= j <= s.len(),
        j > 0 ==> s[j - 1] <= x,
        forall|k: int| j <= k < s.len() ==> s[k] > x,
    ensures
        insert_day_number(s, x) == s.insert(j, x),
    decreases s.len(),
{
    if s.len() == 0 {
        assert(s.insert(j, x) =~= seq![x]);
    } else if j == s.len() {
        assert(s.insert(j, x) =~= s.push(x));
    } else {
        assert(s[s.len() - 1] > x);
        lemma_insert_day_number_at(s.drop_last(), x, j);
        assert(s.drop_last().insert(j, x).push(s.last()) =~= s.insert(j, x));
    }
}

/// The day numbers of dated entries.
pub open spec fn day_numbers(v: Seq<(i32, String)>) -> Seq<i32> {
    v.map_values(|e: (i32, String)| e.0)
}

/// Each entry's text is chrono's text of its day.
pub open spec fn texts_match(v: Seq<(i32, String)>) -> bool {
    forall|k: int| 0 <= k < v.len() ==> #[trigger] v[k].1@ == iso_date_text(v[k].0)
}

fn insert_dated(v: &mut Vec<(i32, String)>, x: (i32, String))
    requires
        texts_match(old(v)@),
        x.1@ == iso_date_text(x.0),
    ensures
        day_numbers(final(v)@) == insert_day_number(day_numbers(old(v)@), x.0),
        texts_match(final(v)@),
{
    let ghost s = day_numbers(v@);
    let mut j = v.len();
    while j > 0 && v[j - 1].0 > x.0
        invariant
            j <= v.len(),
            s == day_numbers(v@),
            forall|k: int| j <= k < v.len() ==> #[trigger] s[k] > x.0,
        decreases j,
    {
        j -= 1;
    }
    proof {
        lemma_insert_day_number_at(s, x.0, j as int);
    }
    let ghost old_v = v@;
    v.insert(j, x);
    assert(day_numbers(v@) =~= s.insert(j as int, x.0));
    assert forall|k: int| 0 <= k < v@.len() implies #[trigger] v@[k].1@ == iso_date_text(v@[k].0) by {
        if k < j {
            assert(v@[k] == old_v[k]);
        } else if k > j {
            assert(v@[k] == old_v[k - 1]);
        }
    }
}

/// Sorted reading days, each with chrono's text of its date.
fn sorted_reading_days(daily_activity: &Vec<DailyStats>) -> (r: Vec<(i32, String)>)
    ensures
        day_numbers(r@) == sort_days(reading_days(days_view(daily_activity@))),
        texts_match(r@),
        r.len() <= daily_activity.len(),
{
    let ghost d = days_view(daily_activity@);
    let mut out: Vec<(i32, String)> = Vec::new();
    let mut i: usize = 0;
    while i < daily_activity.len()
        invariant
            i <= daily_activity.len(),
            d == days_view(daily_activity@),
            day_numbers(out@) == sort_days(reading_days(d.take(i as int))),
            texts_match(out@),
            out.len() <= i,
        decreases daily_activity.len() - i,
    {
        assert(d.take(i + 1).drop_last() =~= d.take(i as int));
        assert(d.take(i + 1).last() == day_view(daily_activity@[i as int]));
        let ghost prev = reading_days(d.take(i as int));
        if daily_activity[i].pages_read > 0 {
            match parse_iso_date(daily_activity[i].date.as_str()) {
                Some(x) => {
                    assert(reading_days(d.take(i + 1)) == prev.push(x.0));
                    assert(prev.push(x.0).drop_last() =~= prev);
                    proof {
                        lemma_insert_day_number_len(day_numbers(out@), x.0);
                    }
                    let ghost before_len = out.len();
                    insert_dated(&mut out, x);
                    assert(day_numbers(out@).len() == out.len());
                    assert(out.len() == before_len + 1);
                },
                None => {
                    assert(reading_days(d.take(i + 1)) == prev);
                },
            }
        } else {
            assert(reading_days(d.take(i + 1)) == prev);
        }
        i += 1;
    }
    assert(d.take(daily_activity.len() as int) =~= d);
    out
}

proof fn lemma_runs_len(s: Seq<i32>)
    ensures
        s.len() > 0 ==> streak_runs(s).len() >= 1,
        streak_runs(s).len() <= s.len(),
        s.len() > 0 ==> streak_runs(s).last().2 == s.last(),
        forall|k: int| 0 <= k < streak_runs(s).len() ==> 1 <= #[trigger] streak_runs(s)[k].0 <= s.len(),
    decreases s.len(),
{
    if s.len() > 1 {
        lemma_runs_len(s.drop_last());
    }
}

proof fn lemma_longest_bounds(r: Seq<(int, i32, i32)>)
    ensures
        r.len() > 0 ==> 0 <= longest_run(r) < r.len(),
    decreases r.len(),
{
    if r.len() > 1 {
        lemma_longest_bounds(r.drop_last());
    }
}

proof fn lemma_first_run_ending(r: Seq<(int, i32, i32)>, e: i32, j: int)
    requires
        0 <= j < r.len(),
        r[j].2 == e,
        forall|k: int| 0 <= k < j ==> r[k].2 != e,
    ensures
        first_run_ending(r, e) == j,
    decreases r.len(),
{
    if j > 0 {
        assert(r[0].2 != e);
        lemma_first_run_ending(r.drop_first(), e, j - 1);
    }
}

proof fn lemma_longest_is_max(r: Seq<(int, i32, i32)>)
    requires
        r.len() > 0,
    ensures
        forall|k: int| 0 <= k < r.len() ==> (#[trigger] r[k]).0 <= r[longest_run(r)].0,
    decreases r.len(),
{
    if r.len() > 1 {
        lemma_longest_is_max(r.drop_last());
        lemma_longest_bounds(r.drop_last());
        assert forall|k: int| 0 <= k < r.len() implies (#[trigger] r[k]).0 <= r[longest_run(r)].0 by {
            if k < r.len() - 1 {
                assert(r[k] == r.drop_last()[k]);
            }
        }
    }
}

proof fn lemma_first_run_ending_bounds(r: Seq<(int, i32, i32)>, e: i32)
    ensures
        0 <= first_run_ending(r, e) <= r.len(),
    decreases r.len(),
{
    if r.len() > 0 && r[0].2 != e {
        lemma_first_run_ending_bounds(r.drop_first(), e);
    }
}

/// The current streak is never longer than the longest streak, and the longest streak is
/// empty exactly when no day has pages read with a readable date.
pub proof fn lemma_current_streak_within_longest(days: Seq<(Seq<char>, i64, i64)>, today: i32)
    ensures
        spec_streaks(days, today).1.0 <= spec_streaks(days, today).0.0,
        (spec_streaks(days, today).0.0 == 0) <==> (reading_days(days).len() == 0),
{
    let s = sort_days(reading_days(days));
    lemma_sort_days_len(reading_days(days));
    if s.len() > 0 {
        let r = streak_runs(s);
        lemma_runs_len(s);
        lemma_longest_is_max(r);
        lemma_longest_bounds(r);
        lemma_first_run_ending_bounds(r, s.last());
        if first_run_ending(r, s.last()) < r.len() {
            assert(r[first_run_ending(r, s.last())].0 <= r[longest_run(r)].0);
        } else {
            assert(r[r.len() - 1].2 == s.last());
            lemma_first_run_ending_exists(r, s.last(), r.len() - 1);
        }
    }
}

proof fn lemma_first_run_ending_exists(r: Seq<(int, i32, i32)>, e: i32, j: int)
    requires
        0 <= j < r.len(),
        r[j].2 == e,
    ensures
        first_run_ending(r, e) <= j,
    decreases r.len(),
{
    if r[0].2 != e && j > 0 {
        lemma_first_run_ending_exists(r.drop_first(), e, j - 1);
    }
}

proof fn lemma_sort_days_len(s: Seq<i32>)
    ensures
        sort_days(s).len() == s.len(),
    decreases s.len(),
{
    if s.len() > 0 {
        lemma_sort_days_len(s.drop_last());
        lemma_insert_day_number_len(sort_days(s.drop_last()), s.last());
    }
}

impl StatisticsCalculator {
    /// Longest and current reading streak of the daily activity, as of today (local time).
    pub fn calculate_streaks(daily_activity: &Vec<DailyStats>) -> (r: (StreakInfo, StreakInfo))
        requires
            daily_activity.len() <= i64::MAX,
        ensures
            exists|today: i32|
                (streak_view(r.0), streak_view(r.1)) == spec_streaks(
                    days_view(daily_activity@),
                    today,
                ),
    {
        let today = today_local_day();
        Self::calculate_streaks_at(daily_activity, today)
    }

    /// Longest and current reading streak of the daily activity, as of day number `today`.
    pub fn calculate_streaks_at(daily_activity: &Vec<DailyStats>, today: i32) -> (r: (
        StreakInfo,
        StreakInfo,
    ))
        requires
            daily_activity.len() <= i64::MAX,
        ensures
            (streak_view(r.0), streak_view(r.1)) == spec_streaks(days_view(daily_activity@), today),
    {
        let sorted = sorted_reading_days(daily_activity);
        let ghost s = day_numbers(sorted@);
        if sorted.len() == 0 {
            return (StreakInfo::new(0, None, None), StreakInfo::new(0, None, None));
        }
        // runs as (length, index of first day, index of last day)
        let mut runs: Vec<(i64, usize, usize)> = Vec::new();
        runs.push((1, 0, 0));
        assert(s.take(1) =~= seq![s[0]]);
        let mut i: usize = 1;
        while i < sorted.len()
            invariant
                1 <= i <= sorted.len(),
                sorted.len() <= i64::MAX,
                s == day_numbers(sorted@),
                runs.len() == streak_runs(s.take(i as int)).len(),
                forall|k: int|
                    0 <= k < runs.len() ==> {
                        let e = #[trigger] runs@[k];
                        let t = streak_runs(s.take(i as int))[k];
                        &&& e.0 as int == t.0
                        &&& 1 <= e.0 <= i
                        &&& e.1 < i
                        &&& e.2 < i
                        &&& s[e.1 as int] == t.1
                        &&& s[e.2 as int] == t.2
                    },
            decreases sorted.len() - i,
        {
            proof {
                lemma_runs_len(s.take(i as int));
                assert(s.take(i + 1).drop_last() =~= s.take(i as int));
                assert(s.take(i + 1)[i - 1] == s[i - 1]);
            }
            let ghost before = streak_runs(s.take(i as int));
            let prev = sorted[i - 1].0 as i64;
            let curr = sorted[i].0 as i64;
            if curr == prev + 1 {
                let last = runs.len() - 1;
                let (len, start, _) = runs[last];
                runs.set(last, (len + 1, start, i));
            } else {
                runs.push((1, i, i));
            }
            i += 1;
        }
        assert(s.take(sorted.len() as int) =~= s);
        let ghost r = streak_runs(s);
        proof {
            lemma_runs_len(s);
            lemma_longest_bounds(r);
        }
        // longest run: the last one among the longest
        let mut best: usize = 0;
        let mut k: usize = 1;
        assert(r.take(1).len() == 1);
        while k < runs.len()
            invariant
                1 <= k <= runs.len(),
                runs.len() == r.len(),
                r == streak_runs(s),
                best < k,
                best as int == longest_run(r.take(k as int)),
                forall|q: int|
                    0 <= q < runs.len() ==> (#[trigger] runs@[q]).0 as int == r[q].0,
            decreases runs.len() - k,
        {
            assert(r.take(k + 1).drop_last() =~= r.take(k as int));
            assert(r.take(k + 1)[best as int] == r[best as int]);
            if runs[k].0 >= runs[best].0 {
                best = k;
            }
            k += 1;
        }
        assert(r.take(runs.len() as int) =~= r);
        let (l_len, l_start, l_end) = runs[best];
        let longest = StreakInfo::new(
            l_len,
            Some(copy_string(&sorted[l_start].1)),
            Some(copy_string(&sorted[l_end].1)),
        );
        let last_day = sorted[sorted.len() - 1].0;
        let current = if (today as i64) - (last_day as i64) <= 1 {
            let mut f: usize = 0;
            while f < runs.len() && sorted[runs[f].2].0 != last_day
                invariant
                    f <= runs.len(),
                    runs.len() == r.len(),
                    r == streak_runs(s),
                    s == day_numbers(sorted@),
                    forall|q: int| 0 <= q < f ==> r[q].2 != last_day,
                    forall|q: int|
                        0 <= q < runs.len() ==> {
                            let e = #[trigger] runs@[q];
                            &&& e.2 < sorted.len()
                            &&& s[e.2 as int] == r[q].2
                            &&& e.1 < sorted.len()
                            &&& s[e.1 as int] == r[q].1
                            &&& e.0 as int == r[q].0
                        },
                decreases runs.len() - f,
            {
                f += 1;
            }
            proof {
                assert(r.last().2 == s.last());
            }
            if f == runs.len() {
                proof {
                    assert(r[r.len() - 1].2 == last_day);
                }
                StreakInfo::new(0, None, None)
            } else {
                proof {
                    lemma_first_run_ending(r, last_day, f as int);
                }
                let (c_len, c_start, _) = runs[f];
                StreakInfo::new(c_len, Some(copy_string(&sorted[c_start].1)), None)
            }
        } else {
            StreakInfo::new(0, None, None)
        };
        (longest, current)
    }
}

proof fn lemma_insert_day_number_contains(s: Seq<i32>, x: i32, d: i32)
    ensures
        insert_day_number(s, x).contains(d) ==> (d == x || s.contains(d)),
    decreases s.len(),
{
    let r = insert_day_number(s, x);
    if r.contains(d) {
        let k = choose|k: int| 0 <= k < r.len() && r[k] == d;
        if s.len() == 0 {
        } else if s.last() <= x {
            if k < s.len() {
                assert(s[k] == d);
            }
        } else {
            let r0 = insert_day_number(s.drop_last(), x);
            lemma_insert_day_number_contains(s.drop_last(), x, d);
            if k < r0.len() {
                assert(r0[k] == d);
                assert(r0.contains(d));
                if d != x {
                    let m = choose|m: int| 0 <= m < s.drop_last().len() && s.drop_last()[m] == d;
                    assert(s[m] == d);
                }
            } else {
                assert(s[s.len() - 1] == d);
            }
        }
    }
}

proof fn lemma_sort_days_contains(s: Seq<i32>, d: i32)
    ensures
        sort_days(s).contains(d) ==> s.contains(d),
    decreases s.len(),
{
    if s.len() > 0 && sort_days(s).contains(d) {
        lemma_insert_day_number_contains(sort_days(s.drop_last()), s.last(), d);
        if d != s.last() {
            lemma_sort_days_contains(s.drop_last(), d);
            let m = choose|m: int| 0 <= m < s.drop_last().len() && s.drop_last()[m] == d;
            assert(s[m] == d);
        } else {
            assert(s[s.len() - 1] == d);
        }
    }
}

/// Every run of reading days is a stretch of consecutive calendar days: its length is its last
/// day minus its first day plus one, every day from its first to its last is a reading day, the
/// last run ends on the last day, and no run starts on the day after the one before it ended
/// (a day that continues a run is never split off into a new one).
pub proof fn lemma_streak_runs_are_consecutive(s: Seq<i32>)
    ensures
        forall|k: int| 0 <= k < streak_runs(s).len() ==> (#[trigger] streak_runs(s)[k]).0 == streak_runs(s)[k].2
            - streak_runs(s)[k].1 + 1,
        forall|k: int, d: i32|
            #![trigger streak_runs(s)[k], s.contains(d)]
            0 <= k < streak_runs(s).len() && streak_runs(s)[k].1 <= d <= streak_runs(s)[k].2 ==> s.contains(d),
        s.len() > 0 ==> streak_runs(s).len() > 0 && streak_runs(s).last().2 == s.last(),
        forall|k: int|
            0 <= k < streak_runs(s).len() - 1 ==> (#[trigger] streak_runs(s)[k + 1]).1 != streak_runs(s)[k].2 + 1,
    decreases s.len(),
{
    let r = streak_runs(s);
    if s.len() == 1 {
        assert forall|k: int, d: i32| 0 <= k < r.len() && (#[trigger] r[k]).1 <= d <= r[k].2 implies #[trigger] s.contains(d) by {
            assert(s[0] == d);
        }
    } else if s.len() > 1 {
        let t = s.drop_last();
        lemma_streak_runs_are_consecutive(t);
        let r0 = streak_runs(t);
        assert(t.last() == s[s.len() - 2]);
        assert forall|k: int, d: i32| 0 <= k < r.len() && (#[trigger] r[k]).1 <= d <= r[k].2 implies #[trigger] s.contains(d) by {
            if k < r0.len() && (k < r0.len() - 1 || s.last() != s[s.len() - 2] + 1) {
                assert(r[k] == r0[k]);
                assert(t.contains(d));
                let m = choose|m: int| 0 <= m < t.len() && t[m] == d;
                assert(s[m] == d);
            } else if k == r0.len() - 1 {
                if d <= r0[k].2 {
                    assert(r0[k].1 <= d);
                    assert(t.contains(d));
                    let m = choose|m: int| 0 <= m < t.len() && t[m] == d;
                    assert(s[m] == d);
                } else {
                    assert(d == s.last());
                    assert(s[s.len() - 1] == d);
                }
            } else {
                assert(d == s.last());
                assert(s[s.len() - 1] == d);
            }
        }
    }
}

/// The longest and the current streak are runs of consecutive reading days: the longest streak
/// runs from its first date to its last date with every day between them a reading day, and
/// its length is the number of those days; the current streak starts on a date from which its
/// length in consecutive days are all reading days, ending on the last reading day.
pub proof fn lemma_streaks_are_consecutive_days(days: Seq<(Seq<char>, i64, i64)>, today: i32)
    ensures
        ({
            let (l, c) = spec_streaks(days, today);
            &&& l.0 > 0 ==> exists|a: i32, b: i32| {
                &&& l.1 == Some(#[trigger] iso_date_text(a)) && l.2 == Some(#[trigger] iso_date_text(b))
                &&& l.0 == b - a + 1
                &&& forall|d: i32| a <= d <= b ==> #[trigger] reading_days(days).contains(d)
            }
            &&& c.0 > 0 ==> exists|a: i32| {
                &&& c.1 == Some(#[trigger] iso_date_text(a))
                &&& forall|d: i32| a <= d < a + c.0 ==> #[trigger] reading_days(days).contains(d)
                &&& sort_days(reading_days(days)).last() == a + c.0 - 1
            }
        }),
{
    let s = sort_days(reading_days(days));
    lemma_sort_days_len(reading_days(days));
    if s.len() > 0 {
        let r = streak_runs(s);
        lemma_streak_runs_are_consecutive(s);
        lemma_longest_bounds(r);
        let li = longest_run(r);
        let lr = r[li];
        assert forall|d: i32| lr.1 <= d <= lr.2 implies #[trigger] reading_days(days).contains(d) by {
            assert(s.contains(d));
            lemma_sort_days_contains(reading_days(days), d);
        }
        lemma_first_run_ending_bounds(r, s.last());
        lemma_first_run_ending_exists(r, s.last(), r.len() - 1);
        let ci = first_run_ending(r, s.last());
        if ci < r.len() {
            lemma_first_run_ending_hits(r, s.last());
            let cr = r[ci];
            assert forall|d: i32| cr.1 <= d < cr.1 + cr.0 implies #[trigger] reading_days(days).contains(d) by {
                assert(s.contains(d));
                lemma_sort_days_contains(reading_days(days), d);
            }
        }
    }
}

proof fn lemma_first_run_ending_hits(r: Seq<(int, i32, i32)>, e: i32)
    requires
        first_run_ending(r, e) < r.len(),
    ensures
        r[first_run_ending(r, e)].2 == e,
    decreases r.len(),
{
    if r.len() > 0 && r[0].2 != e {
        let f = first_run_ending(r.drop_first(), e);
        lemma_first_run_ending_bounds(r.drop_first(), e);
        assert(first_run_ending(r, e) == 1 + f);
        lemma_first_run_ending_hits(r.drop_first(), e);
        assert(r.drop_first()[f] == r[1 + f]);
    }
}

} // verus!
