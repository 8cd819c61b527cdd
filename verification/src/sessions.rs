//! Reading sessions: page reads of a book grouped by time proximity.
//!
//! Page reads of one book, in order of start time, belong to the same session while each
//! starts at most 30 seconds after the previous one ended.
use vstd::prelude::*;
use crate::stats_types::PageStat;

verus! {

/// Largest gap, in seconds, between two page reads of the same session.
pub const SESSION_GAP_SECONDS: i64 = 30;

/// `s` with `x` inserted after every element that starts no later than `x` (stable insertion).
pub open spec fn insert_by_start(s: Seq<PageStat>, x: PageStat) -> Seq<PageStat>
    decreases s.len(),
{
    if s.len() == 0 {
        seq![x]
    } else if s.last().start_time <= x.start_time {
        s.push(x)
    } else {
        insert_by_start(s.drop_last(), x).push(s.last())
    }
}

/// `s` sorted by start time; page reads with equal start times keep their order (a stable sort).
pub open spec fn sort_by_start(s: Seq<PageStat>) -> Seq<PageStat>
    decreases s.len(),
{
    if s.len() == 0 {
        Seq::empty()
    } else {
        insert_by_start(sort_by_start(s.drop_last()), s.last())
    }
}

/// Grouping state after a prefix of sorted page reads: closed sessions, the open session's
/// duration, and the end time of the last page read (0 before any).
pub open spec fn session_fold(s: Seq<PageStat>) -> (Seq<int>, int, int)
    decreases s.len(),
{
    if s.len() == 0 {
        (Seq::empty(), 0, 0)
    } else {
        let (closed, current, last_end) = session_fold(s.drop_last());
        let x = s.last();
        if last_end > 0 && x.start_time - last_end <= SESSION_GAP_SECONDS {
            (closed, current + x.duration, x.start_time + x.duration)
        } else {
            (
                if current > 0 {
                    closed.push(current)
                } else {
                    closed
                },
                x.duration as int,
                x.start_time + x.duration,
            )
        }
    }
}

/// Session durations of page reads already sorted by start time.
pub open spec fn sessions_of_sorted(s: Seq<PageStat>) -> Seq<int> {
    let (closed, current, _) = session_fold(s);
    if current > 0 {
        closed.push(current)
    } else {
        closed
    }
}

/// A page read that counts: one with a positive duration.
pub open spec fn counts(p: PageStat) -> bool {
    p.duration > 0
}

/// Counting page reads of book `id`, in order.
pub open spec fn reads_of_book(s: Seq<PageStat>, id: i64) -> Seq<PageStat>
    decreases s.len(),
{
    if s.len() == 0 {
        Seq::empty()
    } else if counts(s.last()) && s.last().id_book == id {
        reads_of_book(s.drop_last(), id).push(s.last())
    } else {
        reads_of_book(s.drop_last(), id)
    }
}

/// Books with counting page reads, in order of their first counting read.
pub open spec fn books_in_order(s: Seq<PageStat>) -> Seq<i64>
    decreases s.len(),
{
    if s.len() == 0 {
        Seq::empty()
    } else {
        let ids = books_in_order(s.drop_last());
        if counts(s.last()) && !ids.contains(s.last().id_book) {
            ids.push(s.last().id_book)
        } else {
            ids
        }
    }
}

/// Sessions of the books `ids`, book after book.
pub open spec fn sessions_of_books(s: Seq<PageStat>, ids: Seq<i64>) -> Seq<int>
    decreases ids.len(),
{
    if ids.len() == 0 {
        Seq::empty()
    } else {
        sessions_of_books(s, ids.drop_last()) + sessions_of_sorted(
            sort_by_start(reads_of_book(s, ids.last())),
        )
    }
}

/// All reading sessions in `s`: per book, its counting page reads sorted by start time and grouped.
pub open spec fn all_sessions(s: Seq<PageStat>) -> Seq<int> {
    sessions_of_books(s, books_in_order(s))
}

/// Sum of a sequence of integers.
pub open spec fn seq_sum(s: Seq<int>) -> int
    decreases s.len(),
{
    if s.len() == 0 {
        0
    } else {
        seq_sum(s.drop_last()) + s.last()
    }
}

/// Largest element of a non-empty sequence.
pub open spec fn seq_max(s: Seq<int>) -> int
    decreases s.len(),
{
    if s.len() <= 1 {
        s[0]
    } else if s.last() > seq_max(s.drop_last()) {
        s.last()
    } else {
        seq_max(s.drop_last())
    }
}

/// Average (rounded down) and longest session duration, or nothing when there is no session.
pub open spec fn session_summary(s: Seq<PageStat>) -> (Option<i64>, Option<i64>) {
    sessions_summary(all_sessions(s))
}

/// Average (rounded down) and longest of session durations, or nothing when there are none.
pub open spec fn sessions_summary(sessions: Seq<int>) -> (Option<i64>, Option<i64>) {
    if sessions.len() == 0 {
        (None, None)
    } else {
        (Some((seq_sum(sessions) / sessions.len() as int) as i64), Some(seq_max(sessions) as i64))
    }
}

/// Sessions of book `id`: its counting page reads sorted by start time and grouped.
pub open spec fn book_sessions(s: Seq<PageStat>, id: i64) -> Seq<int> {
    sessions_of_sorted(sort_by_start(reads_of_book(s, id)))
}

proof fn lemma_insert_len(s: Seq<PageStat>, x: PageStat)
    ensures
        insert_by_start(s, x).len() == s.len() + 1,
    decreases s.len(),
{
    if s.len() > 0 && s.last().start_time > x.start_time {
        lemma_insert_len(s.drop_last(), x);
    }
}

proof fn lemma_sort_len(s: Seq<PageStat>)
    ensures
        sort_by_start(s).len() == s.len(),
    decreases s.len(),
{
    if s.len() > 0 {
        lemma_sort_len(s.drop_last());
        lemma_insert_len(sort_by_start(s.drop_last()), s.last());
    }
}

/// Inserting at position `j`, after every element that starts no later than `x` and before
/// every later one.
proof fn lemma_insert_at(s: Seq<PageStat>, x: PageStat, j: int)
    requires
        0 <= j <= s.len(),
        j > 0 ==> s[j - 1].start_time <= x.start_time,
        forall|k: int| j <= k < s.len() ==> s[k].start_time > x.start_time,
    ensures
        insert_by_start(s, x) == s.subrange(0, j).push(x) + s.subrange(j, s.len() as int),
    decreases s.len(),
{
    if s.len() == 0 {
        assert(s.subrange(0, j).push(x) + s.subrange(j, s.len() as int) =~= seq![x]);
    } else if j == s.len() {
        assert(s.subrange(0, j) =~= s);
        assert(s.subrange(0, j).push(x) + s.subrange(j, s.len() as int) =~= s.push(x));
    } else {
        assert(s.last().start_time > x.start_time);
        lemma_insert_at(s.drop_last(), x, j);
        let d = s.drop_last();
        assert(d.subrange(0, j) =~= s.subrange(0, j));
        assert((s.subrange(0, j).push(x) + d.subrange(j, d.len() as int)).push(s.last())
            =~= s.subrange(0, j).push(x) + s.subrange(j, s.len() as int));
    }
}

fn insert_sorted(v: &mut Vec<PageStat>, x: PageStat)
    ensures
        final(v)@ == insert_by_start(old(v)@, x),
{
    let ghost s = v@;
    let n = v.len();
    v.push(x);
    let mut j = n;
    while j > 0 && v[j - 1].start_time > x.start_time
        invariant
            j <= n,
            n == s.len(),
            v@ == s.subrange(0, j as int).push(x) + s.subrange(j as int, n as int),
            forall|k: int| j <= k < n ==> s[k].start_time > x.start_time,
        decreases j,
    {
        let prev = v[j - 1];
        v.set(j, prev);
        v.set(j - 1, x);
        assert(v@ =~= s.subrange(0, j - 1).push(x) + s.subrange(j - 1, n as int));
        j = j - 1;
    }
    proof {
        if j > 0 {
            assert(v@[j - 1] == s[j - 1]);
        }
        lemma_insert_at(s, x, j as int);
    }
}

/// The page reads sorted by start time, equal start times keeping their order.
pub fn sort_by_start_time(s: &Vec<PageStat>) -> (r: Vec<PageStat>)
    ensures
        r@ == sort_by_start(s@),
{
    let mut out: Vec<PageStat> = Vec::new();
    let mut i: usize = 0;
    while i < s.len()
        invariant
            i <= s.len(),
            out@ == sort_by_start(s@.take(i as int)),
        decreases s.len() - i,
    {
        assert(s@.take(i + 1).drop_last() =~= s@.take(i as int));
        insert_sorted(&mut out, s[i]);
        i += 1;
    }
    assert(s@.take(s.len() as int) =~= s@);
    out
}


/// The integers of a sequence of `i128`.
pub open spec fn ints(v: Seq<i128>) -> Seq<int> {
    v.map_values(|x: i128| x as int)
}

/// Session durations of page reads sorted by start time (as `sessions_of_sorted`).
fn sessions_of_sorted_reads(s: &Vec<PageStat>) -> (r: Vec<i128>)
    ensures
        ints(r@) == sessions_of_sorted(s@),
{
    let mut closed: Vec<i128> = Vec::new();
    let mut current: i128 = 0;
    let mut last_end: i128 = 0;
    let mut i: usize = 0;
    while i < s.len()
        invariant
            i <= s.len(),
            (ints(closed@), current as int, last_end as int) == session_fold(s@.take(i as int)),
            -(i64::MAX + 1) * (i as int) <= current <= i64::MAX * (i as int),
            -0x2_0000_0000_0000_0000 <= last_end <= 0x2_0000_0000_0000_0000,
        decreases s.len() - i,
    {
        assert(s@.take(i + 1).drop_last() =~= s@.take(i as int));
        assert(s@.take(i + 1).last() == s@[i as int]);
        let x = s[i];
        let start = x.start_time as i128;
        let d = x.duration as i128;
        proof {
            assert(current + d <= i64::MAX * (i + 1)) by (nonlinear_arith)
                requires
                    current <= i64::MAX * (i as int),
                    d <= i64::MAX,
            ;
            assert(current + d >= -(i64::MAX + 1) * (i + 1)) by (nonlinear_arith)
                requires
                    current >= -(i64::MAX + 1) * (i as int),
                    d >= -i64::MAX - 1,
            ;
            assert(-(i64::MAX + 1) * (i + 1) >= -(i64::MAX + 1) * 0x1_0000_0000_0000_0000int)
                by (nonlinear_arith)
                requires
                    i + 1 <= 0x1_0000_0000_0000_0000int,
            ;
            assert(i64::MAX * (i + 1) <= i64::MAX * 0x1_0000_0000_0000_0000int) by (nonlinear_arith)
                requires
                    i + 1 <= 0x1_0000_0000_0000_0000int,
            ;
        }
        if last_end > 0 && start - last_end <= SESSION_GAP_SECONDS as i128 {
            current = current + d;
        } else {
            let ghost before = ints(closed@);
            if current > 0 {
                closed.push(current);
                assert(ints(closed@) =~= before.push(current as int));
            }
            proof {
                assert(d >= -i64::MAX - 1);
                assert(-(i64::MAX + 1) * (i + 1) <= -(i64::MAX + 1)) by (nonlinear_arith)
                    requires
                        i >= 0,
                ;
            }
            current = d;
        }
        last_end = start + d;
        i += 1;
    }
    assert(s@.take(s.len() as int) =~= s@);
    let ghost before = ints(closed@);
    if current > 0 {
        closed.push(current);
        assert(ints(closed@) =~= before.push(current as int));
    }
    closed
}

/// Counting page reads of book `id`, in order.
pub(crate) fn reads_of(s: &Vec<PageStat>, id: i64) -> (r: Vec<PageStat>)
    ensures
        r@ == reads_of_book(s@, id),
{
    let mut out: Vec<PageStat> = Vec::new();
    let mut i: usize = 0;
    while i < s.len()
        invariant
            i <= s.len(),
            out@ == reads_of_book(s@.take(i as int), id),
        decreases s.len() - i,
    {
        assert(s@.take(i + 1).drop_last() =~= s@.take(i as int));
        if s[i].duration > 0 && s[i].id_book == id {
            out.push(s[i]);
        }
        i += 1;
    }
    assert(s@.take(s.len() as int) =~= s@);
    out
}

fn contains_id(v: &Vec<i64>, id: i64) -> (r: bool)
    ensures
        r == v@.contains(id),
{
    let mut i: usize = 0;
    while i < v.len()
        invariant
            i <= v.len(),
            forall|j: int| 0 <= j < i ==> v@[j] != id,
        decreases v.len() - i,
    {
        if v[i] == id {
            assert(v@[i as int] == id);
            return true;
        }
        i += 1;
    }
    false
}

/// Books with counting page reads, in order of their first counting read.
fn book_ids_in_order(s: &Vec<PageStat>) -> (r: Vec<i64>)
    ensures
        r@ == books_in_order(s@),
{
    let mut out: Vec<i64> = Vec::new();
    let mut i: usize = 0;
    while i < s.len()
        invariant
            i <= s.len(),
            out@ == books_in_order(s@.take(i as int)),
        decreases s.len() - i,
    {
        assert(s@.take(i + 1).drop_last() =~= s@.take(i as int));
        if s[i].duration > 0 && !contains_id(&out, s[i].id_book) {
            out.push(s[i].id_book);
        }
        i += 1;
    }
    assert(s@.take(s.len() as int) =~= s@);
    out
}

/// All reading sessions of `s` (as `all_sessions`).
pub fn session_durations(s: &Vec<PageStat>) -> (r: Vec<i128>)
    ensures
        ints(r@) == all_sessions(s@),
{
    let ids = book_ids_in_order(s);
    let mut out: Vec<i128> = Vec::new();
    let mut k: usize = 0;
    while k < ids.len()
        invariant
            k <= ids.len(),
            ids@ == books_in_order(s@),
            ints(out@) == sessions_of_books(s@, ids@.take(k as int)),
        decreases ids.len() - k,
    {
        assert(ids@.take(k + 1).drop_last() =~= ids@.take(k as int));
        let group = reads_of(s, ids[k]);
        let sorted = sort_by_start_time(&group);
        let sess = sessions_of_sorted_reads(&sorted);
        let ghost before = ints(out@);
        let mut j: usize = 0;
        while j < sess.len()
            invariant
                j <= sess.len(),
                ints(out@) == before + ints(sess@).take(j as int),
            decreases sess.len() - j,
        {
            assert(ints(sess@).take(j + 1) =~= ints(sess@).take(j as int).push(sess@[j as int] as int));
            let ghost prev = out@;
            out.push(sess[j]);
            assert(ints(out@) =~= ints(prev).push(sess@[j as int] as int));
            j += 1;
            assert(ints(out@) =~= before + ints(sess@).take(j as int));
        }
        assert(ints(sess@).take(sess.len() as int) =~= ints(sess@));
        k += 1;
    }
    assert(ids@.take(ids.len() as int) =~= ids@);
    out
}

proof fn lemma_sorted_sessions_positive(s: Seq<PageStat>)
    ensures
        forall|i: int| 0 <= i < sessions_of_sorted(s).len() ==> sessions_of_sorted(s)[i] > 0,
{
    lemma_fold_closed_positive(s);
}

proof fn lemma_fold_closed_positive(s: Seq<PageStat>)
    ensures
        forall|i: int| 0 <= i < session_fold(s).0.len() ==> session_fold(s).0[i] > 0,
    decreases s.len(),
{
    if s.len() > 0 {
        lemma_fold_closed_positive(s.drop_last());
        let (closed, current, last_end) = session_fold(s.drop_last());
        let x = s.last();
        if !(last_end > 0 && x.start_time - last_end <= SESSION_GAP_SECONDS) && current > 0 {
            assert forall|i: int| 0 <= i < closed.push(current).len() implies closed.push(
                current,
            )[i] > 0 by {
                if i < closed.len() {
                    assert(closed.push(current)[i] == closed[i]);
                }
            }
        }
    }
}

pub proof fn lemma_sessions_positive(s: Seq<PageStat>, ids: Seq<i64>)
    ensures
        forall|i: int|
            0 <= i < sessions_of_books(s, ids).len() ==> sessions_of_books(s, ids)[i] > 0,
    decreases ids.len(),
{
    if ids.len() > 0 {
        lemma_sessions_positive(s, ids.drop_last());
        lemma_sorted_sessions_positive(sort_by_start(reads_of_book(s, ids.last())));
        let a = sessions_of_books(s, ids.drop_last());
        let b = sessions_of_sorted(sort_by_start(reads_of_book(s, ids.last())));
        assert forall|i: int| 0 <= i < (a + b).len() implies (a + b)[i] > 0 by {
            if i >= a.len() {
                assert((a + b)[i] == b[i - a.len()]);
            }
        }
    }
}

pub proof fn lemma_prefix_sum_bounded(s: Seq<int>, i: int)
    requires
        0 <= i <= s.len(),
        forall|k: int| 0 <= k < s.len() ==> s[k] > 0,
    ensures
        0 <= seq_sum(s.take(i)) <= seq_sum(s),
        i < s.len() ==> s[i] <= seq_sum(s),
    decreases s.len(),
{
    if s.len() > 0 {
        if i == s.len() {
            assert(s.take(i) =~= s);
            lemma_prefix_sum_bounded(s.drop_last(), i - 1);
            assert(s.drop_last().take(i - 1) =~= s.drop_last());
        } else {
            assert(s.drop_last().take(i) =~= s.take(i));
            lemma_prefix_sum_bounded(s.drop_last(), i);
        }
    }
}

/// Sum of the durations of page reads.
pub open spec fn time_of(s: Seq<PageStat>) -> int
    decreases s.len(),
{
    if s.len() == 0 {
        0
    } else {
        time_of(s.drop_last()) + s.last().duration
    }
}

/// Sum of the durations of the counting page reads.
pub open spec fn counted_time(s: Seq<PageStat>) -> int
    decreases s.len(),
{
    if s.len() == 0 {
        0
    } else {
        counted_time(s.drop_last()) + if counts(s.last()) {
            s.last().duration as int
        } else {
            0
        }
    }
}

/// Whether every page read of `s` counts.
pub open spec fn all_count(s: Seq<PageStat>) -> bool {
    forall|k: int| 0 <= k < s.len() ==> counts(#[trigger] s[k])
}

/// Time read in books `ids`, book after book.
spec fn books_time(s: Seq<PageStat>, ids: Seq<i64>) -> int
    decreases ids.len(),
{
    if ids.len() == 0 {
        0
    } else {
        books_time(s, ids.drop_last()) + time_of(reads_of_book(s, ids.last()))
    }
}

proof fn lemma_sum_concat(a: Seq<int>, b: Seq<int>)
    ensures
        seq_sum(a + b) == seq_sum(a) + seq_sum(b),
    decreases b.len(),
{
    if b.len() > 0 {
        lemma_sum_concat(a, b.drop_last());
        assert((a + b).drop_last() =~= a + b.drop_last());
    }
}

proof fn lemma_fold_time(s: Seq<PageStat>)
    requires
        all_count(s),
    ensures
        seq_sum(session_fold(s).0) + session_fold(s).1 == time_of(s),
        session_fold(s).1 >= 0,
        seq_sum(sessions_of_sorted(s)) == time_of(s),
    decreases s.len(),
{
    if s.len() > 0 {
        assert(all_count(s.drop_last())) by {
            assert forall|k: int| 0 <= k < s.drop_last().len() implies counts(
                #[trigger] s.drop_last()[k],
            ) by {
                assert(s.drop_last()[k] == s[k]);
            }
        }
        lemma_fold_time(s.drop_last());
        assert(counts(s[s.len() - 1]));
        let (closed, current, _) = session_fold(s.drop_last());
        assert(closed.push(current).drop_last() =~= closed);
    }
    let (closed, current, _) = session_fold(s);
    assert(closed.push(current).drop_last() =~= closed);
}

proof fn lemma_insert_time(s: Seq<PageStat>, x: PageStat)
    requires
        all_count(s),
        counts(x),
    ensures
        time_of(insert_by_start(s, x)) == time_of(s) + x.duration,
        all_count(insert_by_start(s, x)),
    decreases s.len(),
{
    if s.len() > 0 && s.last().start_time > x.start_time {
        let d = s.drop_last();
        assert(all_count(d)) by {
            assert forall|k: int| 0 <= k < d.len() implies counts(#[trigger] d[k]) by {
                assert(d[k] == s[k]);
            }
        }
        lemma_insert_time(d, x);
        let t = insert_by_start(d, x);
        assert(t.push(s.last()).drop_last() =~= t);
        assert(insert_by_start(s, x) == t.push(s.last()));
        assert(time_of(t.push(s.last())) == time_of(t) + s.last().duration);
        assert(time_of(s) == time_of(d) + s.last().duration);
        assert(counts(s[s.len() - 1]));
        assert forall|k: int| 0 <= k < t.push(s.last()).len() implies counts(
            #[trigger] t.push(s.last())[k],
        ) by {
            if k < t.len() {
                assert(t.push(s.last())[k] == t[k]);
            }
        }
    } else if s.len() > 0 {
        assert(s.push(x).drop_last() =~= s);
        assert forall|k: int| 0 <= k < s.push(x).len() implies counts(#[trigger] s.push(x)[k]) by {
            if k < s.len() {
                assert(s.push(x)[k] == s[k]);
            }
        }
    } else {
        assert(seq![x].drop_last() =~= Seq::<PageStat>::empty());
        assert(seq![x][0] == x);
        assert(time_of(seq![x]) == time_of(seq![x].drop_last()) + x.duration);
    }
}

proof fn lemma_sort_time(s: Seq<PageStat>)
    requires
        all_count(s),
    ensures
        time_of(sort_by_start(s)) == time_of(s),
        all_count(sort_by_start(s)),
    decreases s.len(),
{
    if s.len() > 0 {
        let d = s.drop_last();
        assert(all_count(d)) by {
            assert forall|k: int| 0 <= k < d.len() implies counts(#[trigger] d[k]) by {
                assert(d[k] == s[k]);
            }
        }
        lemma_sort_time(d);
        assert(counts(s[s.len() - 1]));
        lemma_insert_time(sort_by_start(d), s.last());
    }
}

proof fn lemma_reads_of_book_count(s: Seq<PageStat>, id: i64)
    ensures
        all_count(reads_of_book(s, id)),
        reads_of_book(s, id).len() > 0 ==> books_in_order(s).contains(id),
    decreases s.len(),
{
    if s.len() > 0 {
        let d = s.drop_last();
        lemma_reads_of_book_count(d, id);
        let r = reads_of_book(d, id);
        if counts(s.last()) && s.last().id_book == id {
            assert forall|k: int| 0 <= k < r.push(s.last()).len() implies counts(
                #[trigger] r.push(s.last())[k],
            ) by {
                if k < r.len() {
                    assert(r.push(s.last())[k] == r[k]);
                }
            }
            let ids = books_in_order(d);
            if !ids.contains(id) {
                assert(ids.push(id)[ids.len() as int] == id);
            }
        }
        let ids = books_in_order(d);
        if counts(s.last()) && !ids.contains(s.last().id_book) && ids.contains(id) {
            let j = choose|j: int| 0 <= j < ids.len() && ids[j] == id;
            assert(ids.push(s.last().id_book)[j] == id);
        }
    }
}

proof fn lemma_books_no_dup(s: Seq<PageStat>)
    ensures
        books_in_order(s).no_duplicates(),
    decreases s.len(),
{
    if s.len() > 0 {
        lemma_books_no_dup(s.drop_last());
    }
}

proof fn lemma_books_time_step(s: Seq<PageStat>, ids: Seq<i64>)
    requires
        s.len() > 0,
        ids.no_duplicates(),
    ensures
        books_time(s, ids) == books_time(s.drop_last(), ids) + if counts(s.last()) && ids.contains(
            s.last().id_book,
        ) {
            s.last().duration as int
        } else {
            0
        },
    decreases ids.len(),
{
    if ids.len() > 0 {
        let d = ids.drop_last();
        assert(d.no_duplicates());
        lemma_books_time_step(s, d);
        let y = ids.last();
        let r = reads_of_book(s.drop_last(), y);
        assert(r.push(s.last()).drop_last() =~= r);
        if d.contains(s.last().id_book) {
            let j = choose|j: int| 0 <= j < d.len() && d[j] == s.last().id_book;
            assert(ids[j] == d[j]);
            assert(ids[ids.len() - 1] == y);
        }
        if ids.contains(s.last().id_book) && !d.contains(s.last().id_book) {
            let j = choose|j: int| 0 <= j < ids.len() && ids[j] == s.last().id_book;
            if j < d.len() {
                assert(d[j] == ids[j]);
            }
        }
        if s.last().id_book == y {
            assert(ids.contains(y)) by {
                assert(ids[ids.len() - 1] == y);
            }
        }
    }
}

proof fn lemma_books_time_all(s: Seq<PageStat>)
    ensures
        books_time(s, books_in_order(s)) == counted_time(s),
    decreases s.len(),
{
    if s.len() > 0 {
        let d = s.drop_last();
        let ids = books_in_order(d);
        lemma_books_time_all(d);
        lemma_books_no_dup(d);
        lemma_books_no_dup(s);
        lemma_books_time_step(s, ids);
        if counts(s.last()) && !ids.contains(s.last().id_book) {
            let x = s.last();
            let ids2 = ids.push(x.id_book);
            assert(ids2.drop_last() =~= ids);
            lemma_books_time_step(s, ids2);
            lemma_reads_of_book_count(d, x.id_book);
            assert(reads_of_book(d, x.id_book) =~= Seq::<PageStat>::empty());
            assert(seq![x].drop_last() =~= Seq::<PageStat>::empty());
            assert(reads_of_book(d, x.id_book).push(x) =~= seq![x]);
        }
    }
}

proof fn lemma_sessions_time(s: Seq<PageStat>, ids: Seq<i64>)
    ensures
        seq_sum(sessions_of_books(s, ids)) == books_time(s, ids),
    decreases ids.len(),
{
    if ids.len() > 0 {
        lemma_sessions_time(s, ids.drop_last());
        let r = reads_of_book(s, ids.last());
        lemma_reads_of_book_count(s, ids.last());
        lemma_sort_time(r);
        lemma_fold_time(sort_by_start(r));
        lemma_sum_concat(
            sessions_of_books(s, ids.drop_last()),
            sessions_of_sorted(sort_by_start(r)),
        );
    }
}

/// The reading sessions add up to the time of the counting page reads: grouping reads into
/// sessions neither loses nor adds reading time.
pub proof fn lemma_sessions_cover_reading_time(s: Seq<PageStat>)
    ensures
        seq_sum(all_sessions(s)) == counted_time(s),
{
    lemma_sessions_time(s, books_in_order(s));
    lemma_books_time_all(s);
}

/// Session durations of book `id` (as `book_sessions`).
pub fn sessions_of_book(s: &Vec<PageStat>, id: i64) -> (r: Vec<i128>)
    ensures
        ints(r@) == book_sessions(s@, id),
        forall|k: int| 0 <= k < ints(r@).len() ==> ints(r@)[k] > 0,
        seq_sum(ints(r@)) == time_of(reads_of_book(s@, id)),
{
    let group = reads_of(s, id);
    let sorted = sort_by_start_time(&group);
    proof {
        lemma_reads_of_book_count(s@, id);
        lemma_sort_time(group@);
        lemma_fold_time(sorted@);
        lemma_sorted_sessions_positive(sorted@);
    }
    sessions_of_sorted_reads(&sorted)
}

/// Statistics calculations over page reads.
pub struct StatisticsCalculator;

impl StatisticsCalculator {
    /// Average and longest session duration of a week's page reads.
    pub fn calculate_weekly_sessions(page_stats: &Vec<PageStat>) -> (r: (Option<i64>, Option<i64>))
        requires
            counted_time(page_stats@) <= i64::MAX,
        ensures
            r == session_summary(page_stats@),
    {
        Self::session_stats(page_stats)
    }

    /// Average and longest session duration over all page reads.
    pub fn calculate_overall_sessions(page_stats: &Vec<PageStat>) -> (r: (Option<i64>, Option<i64>))
        requires
            counted_time(page_stats@) <= i64::MAX,
        ensures
            r == session_summary(page_stats@),
    {
        Self::session_stats(page_stats)
    }

    fn session_stats(page_stats: &Vec<PageStat>) -> (r: (Option<i64>, Option<i64>))
        requires
            counted_time(page_stats@) <= i64::MAX,
        ensures
            r == session_summary(page_stats@),
    {
        proof {
            lemma_sessions_cover_reading_time(page_stats@);
            lemma_sessions_positive(page_stats@, books_in_order(page_stats@));
        }
        let sessions = session_durations(page_stats);
        summarize_sessions(&sessions)
    }
}

/// Average and longest of positive session durations whose sum fits an `i64`.
pub(crate) fn summarize_sessions(sessions: &Vec<i128>) -> (r: (Option<i64>, Option<i64>))
    requires
        forall|k: int| 0 <= k < ints(sessions@).len() ==> ints(sessions@)[k] > 0,
        seq_sum(ints(sessions@)) <= i64::MAX,
    ensures
        r == sessions_summary(ints(sessions@)),
{
    let ghost all = ints(sessions@);
    if sessions.len() == 0 {
        return (None, None);
    }
    let mut total: i128 = 0;
    let mut longest: i128 = sessions[0];
    let mut i: usize = 0;
    while i < sessions.len()
        invariant
            0 <= i <= sessions.len(),
            sessions.len() > 0,
            all == ints(sessions@),
            forall|k: int| 0 <= k < all.len() ==> all[k] > 0,
            seq_sum(all) <= i64::MAX,
            total as int == seq_sum(all.take(i as int)),
            i > 0 ==> longest as int == seq_max(all.take(i as int)),
            i == 0 ==> longest == sessions@[0],
        decreases sessions.len() - i,
    {
        proof {
            lemma_prefix_sum_bounded(all, i as int);
            lemma_prefix_sum_bounded(all, i + 1);
            assert(all.take(i + 1).drop_last() =~= all.take(i as int));
        }
        let x = sessions[i];
        total = total + x;
        if i == 0 || x > longest {
            longest = x;
        }
        i += 1;
    }
    proof {
        assert(all.take(sessions.len() as int) =~= all);
        lemma_prefix_sum_bounded(all, 0);
    }
    let count = sessions.len() as i128;
    let average = total / count;
    proof {
        assert(0 <= average <= total) by (nonlinear_arith)
            requires
                average == total / count,
                count >= 1,
                total >= 0,
        ;
        lemma_max_le_sum(all);
    }
    (Some(average as i64), Some(longest as i64))
}

proof fn lemma_max_le_sum(s: Seq<int>)
    requires
        s.len() > 0,
        forall|k: int| 0 <= k < s.len() ==> s[k] > 0,
    ensures
        0 < seq_max(s) <= seq_sum(s),
    decreases s.len(),
{
    if s.len() > 1 {
        lemma_max_le_sum(s.drop_last());
        assert(s.last() > 0);
        assert(s.drop_last()[0] > 0);
    } else {
        assert(s.drop_last() =~= Seq::<int>::empty());
        assert(seq_sum(s.drop_last()) == 0);
        assert(s.last() == s[0]);
    }
}

} // verus!
