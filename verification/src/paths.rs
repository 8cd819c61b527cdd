//! Paths as text.
//!
//! A path is its text; `/` separates components. These functions follow
//! `std::path` for paths made of plain names separated by single slashes,
//! possibly with trailing slashes.
use vstd::prelude::*;
use crate::text::{chars_of, string_from_chars};

verus! {

/// `dir` joined with the relative or absolute path `name`, as `Path::join` joins on Unix.
pub open spec fn spec_join(dir: Seq<char>, name: Seq<char>) -> Seq<char> {
    if name.len() > 0 && name[0] == '/' {
        name
    } else if dir.len() == 0 {
        name
    } else if dir.last() == '/' {
        dir + name
    } else {
        dir + seq!['/'] + name
    }
}

/// `p` without its trailing separators.
pub open spec fn trim_trailing_seps(p: Seq<char>) -> Seq<char>
    decreases p.len(),
{
    if p.len() > 0 && p.last() == '/' {
        trim_trailing_seps(p.drop_last())
    } else {
        p
    }
}

/// Index of the last separator in `p`, or -1 when there is none.
pub open spec fn last_sep(p: Seq<char>) -> int
    decreases p.len(),
{
    if p.len() == 0 {
        -1
    } else if p.last() == '/' {
        p.len() - 1
    } else {
        last_sep(p.drop_last())
    }
}

/// The last component of `p`, when it is a plain name.
pub open spec fn spec_file_name(p: Seq<char>) -> Option<Seq<char>> {
    let t = trim_trailing_seps(p);
    let seg = t.subrange(last_sep(t) + 1, t.len() as int);
    if seg.len() == 0 || seg == seq!['.'] || seg == seq!['.', '.'] {
        None
    } else {
        Some(seg)
    }
}

/// `p` with its last component replaced by `name`.
pub open spec fn spec_with_file_name(p: Seq<char>, name: Seq<char>) -> Seq<char> {
    let t = trim_trailing_seps(p);
    t.subrange(0, last_sep(t) + 1) + name
}

proof fn lemma_last_sep_bounds(p: Seq<char>)
    ensures
        -1 <= last_sep(p) < p.len(),
        last_sep(p) >= 0 ==> p[last_sep(p)] == '/',
        forall|i: int| last_sep(p) < i < p.len() ==> p[i] != '/',
    decreases p.len(),
{
    if p.len() > 0 && p.last() != '/' {
        lemma_last_sep_bounds(p.drop_last());
        assert forall|i: int| last_sep(p) < i < p.len() implies p[i] != '/' by {
            if i < p.len() - 1 {
                assert(p[i] == p.drop_last()[i]);
            }
        }
    }
}

proof fn lemma_trim_is_prefix(p: Seq<char>)
    ensures
        trim_trailing_seps(p).len() <= p.len(),
        trim_trailing_seps(p) == p.subrange(0, trim_trailing_seps(p).len() as int),
        trim_trailing_seps(p).len() == 0 || trim_trailing_seps(p).last() != '/',
    decreases p.len(),
{
    if p.len() > 0 && p.last() == '/' {
        lemma_trim_is_prefix(p.drop_last());
        assert(p.drop_last().subrange(0, trim_trailing_seps(p).len() as int) =~= p.subrange(
            0,
            trim_trailing_seps(p).len() as int,
        ));
    } else {
        assert(p.subrange(0, p.len() as int) =~= p);
    }
}

/// Length of `p` once trailing separators are dropped.
fn trimmed_len(p: &Vec<char>) -> (n: usize)
    ensures
        n <= p.len(),
        p@.subrange(0, n as int) == trim_trailing_seps(p@),
{
    let mut n = p.len();
    assert(p@.subrange(0, n as int) =~= p@);
    while n > 0 && p[n - 1] == '/'
        invariant
            n <= p.len(),
            trim_trailing_seps(p@) == trim_trailing_seps(p@.subrange(0, n as int)),
        decreases n,
    {
        assert(p@.subrange(0, n as int).drop_last() =~= p@.subrange(0, n - 1));
        n = n - 1;
    }
    n
}

/// Index just past the last separator among the first `n` characters (0 when there is none).
fn after_last_sep(p: &Vec<char>, n: usize) -> (k: usize)
    requires
        n <= p.len(),
    ensures
        k as int == last_sep(p@.subrange(0, n as int)) + 1,
        k <= n,
{
    let mut k = n;
    while k > 0 && p[k - 1] != '/'
        invariant
            k <= n <= p.len(),
            last_sep(p@.subrange(0, n as int)) == last_sep(p@.subrange(0, k as int)),
        decreases k,
    {
        assert(p@.subrange(0, k as int).drop_last() =~= p@.subrange(0, k - 1));
        k = k - 1;
    }
    proof {
        lemma_last_sep_bounds(p@.subrange(0, k as int));
    }
    k
}

/// Joins `name` onto `dir` as `Path::join` does.
pub fn join(dir: &str, name: &str) -> (r: String)
    ensures
        r@ == spec_join(dir@, name@),
{
    let d = chars_of(dir);
    let n = chars_of(name);
    let mut out: Vec<char> = Vec::new();
    if n.len() > 0 && n[0] == '/' {
        return string_from_chars(n.as_slice());
    }
    let mut i: usize = 0;
    while i < d.len()
        invariant
            i <= d.len(),
            out@ == d@.subrange(0, i as int),
        decreases d.len() - i,
    {
        out.push(d[i]);
        i += 1;
        assert(out@ =~= d@.subrange(0, i as int));
    }
    assert(d@.subrange(0, d.len() as int) =~= d@);
    if d.len() > 0 && d[d.len() - 1] != '/' {
        out.push('/');
    }
    let ghost base = out@;
    let mut j: usize = 0;
    while j < n.len()
        invariant
            j <= n.len(),
            out@ == base + n@.subrange(0, j as int),
        decreases n.len() - j,
    {
        out.push(n[j]);
        j += 1;
        assert(out@ =~= base + n@.subrange(0, j as int));
    }
    assert(n@.subrange(0, n.len() as int) =~= n@);
    assert(out@ =~= spec_join(d@, n@));
    string_from_chars(out.as_slice())
}

/// The last plain-name component of `p`, if it has one (`Path::file_name`).
pub fn file_name(p: &str) -> (r: Option<String>)
    ensures
        match (r, spec_file_name(p@)) {
            (Some(x), Some(y)) => x@ == y,
            (None, None) => true,
            _ => false,
        },
{
    let v = chars_of(p);
    let n = trimmed_len(&v);
    let k = after_last_sep(&v, n);
    proof {
        lemma_trim_is_prefix(v@);
    }
    let mut seg: Vec<char> = Vec::new();
    let mut i = k;
    while i < n
        invariant
            k <= i <= n <= v.len(),
            seg@ == v@.subrange(k as int, i as int),
        decreases n - i,
    {
        seg.push(v[i]);
        i += 1;
        assert(seg@ =~= v@.subrange(k as int, i as int));
    }
    let ghost t = trim_trailing_seps(v@);
    assert(seg@ =~= t.subrange(last_sep(t) + 1, t.len() as int));
    if seg.len() == 0 || (seg.len() == 1 && seg[0] == '.') || (seg.len() == 2 && seg[0] == '.'
        && seg[1] == '.') {
        proof {
            if seg.len() == 1 {
                assert(seg@ =~= seq!['.']);
            }
            if seg.len() == 2 {
                assert(seg@ =~= seq!['.', '.']);
            }
        }
        None
    } else {
        proof {
            if seg@ == seq!['.'] {
                assert(seg@.len() == 1);
            }
            if seg@ == seq!['.', '.'] {
                assert(seg@.len() == 2);
            }
        }
        Some(string_from_chars(seg.as_slice()))
    }
}

/// `p` with its last component replaced by `name` (`Path::with_file_name` for a path that has one).
pub fn with_file_name(p: &str, name: &str) -> (r: String)
    ensures
        r@ == spec_with_file_name(p@, name@),
{
    let v = chars_of(p);
    let nm = chars_of(name);
    let n = trimmed_len(&v);
    let k = after_last_sep(&v, n);
    proof {
        lemma_trim_is_prefix(v@);
    }
    let mut out: Vec<char> = Vec::new();
    let mut i: usize = 0;
    while i < k
        invariant
            i <= k <= n <= v.len(),
            out@ == v@.subrange(0, i as int),
        decreases k - i,
    {
        out.push(v[i]);
        i += 1;
        assert(out@ =~= v@.subrange(0, i as int));
    }
    let ghost base = out@;
    let mut j: usize = 0;
    while j < nm.len()
        invariant
            j <= nm.len(),
            out@ == base + nm@.subrange(0, j as int),
        decreases nm.len() - j,
    {
        out.push(nm[j]);
        j += 1;
        assert(out@ =~= base + nm@.subrange(0, j as int));
    }
    let ghost t = trim_trailing_seps(v@);
    assert(nm@.subrange(0, nm.len() as int) =~= nm@);
    assert(base =~= t.subrange(0, last_sep(t) + 1));
    string_from_chars(out.as_slice())
}

/// Index of the last `.` in `s`, or -1 when there is none.
pub open spec fn last_dot(s: Seq<char>) -> int
    decreases s.len(),
{
    if s.len() == 0 {
        -1
    } else if s.last() == '.' {
        s.len() - 1
    } else {
        last_dot(s.drop_last())
    }
}

/// Length of the stem of the file name `name`: all of it when it has no dot after its first
/// character, else the part before the last dot.
pub open spec fn stem_len(name: Seq<char>) -> int {
    if last_dot(name) <= 0 {
        name.len() as int
    } else {
        last_dot(name)
    }
}

/// The extension of `p` (`Path::extension`): what follows the last dot of its file name, unless
/// that dot is the name's first character.
pub open spec fn spec_extension(p: Seq<char>) -> Option<Seq<char>> {
    match spec_file_name(p) {
        None => None,
        Some(name) => if last_dot(name) <= 0 {
            None
        } else {
            Some(name.subrange(last_dot(name) + 1, name.len() as int))
        },
    }
}

/// `p` with its extension replaced by `ext` (`Path::with_extension`): the text up to the end of
/// the file stem, then `.` and `ext` unless `ext` is empty; `p` itself when it has no file name.
pub open spec fn spec_with_extension(p: Seq<char>, ext: Seq<char>) -> Seq<char> {
    match spec_file_name(p) {
        None => p,
        Some(name) => {
            let t = trim_trailing_seps(p);
            t.subrange(0, last_sep(t) + 1) + name.subrange(0, stem_len(name)) + if ext.len() == 0 {
                Seq::empty()
            } else {
                seq!['.'] + ext
            }
        },
    }
}

proof fn lemma_last_dot_bounds(s: Seq<char>)
    ensures
        -1 <= last_dot(s) < s.len(),
        last_dot(s) >= 0 ==> s[last_dot(s)] == '.',
    decreases s.len(),
{
    if s.len() > 0 && s.last() != '.' {
        lemma_last_dot_bounds(s.drop_last());
        if last_dot(s) >= 0 {
            assert(s[last_dot(s)] == s.drop_last()[last_dot(s)]);
        }
    }
}

/// Giving a path whose file name has an extension that extension followed by a non-empty `q`
/// appends `q` to the path.
pub proof fn lemma_extend_extension(p: Seq<char>, q: Seq<char>)
    requires
        p.len() > 0,
        p.last() != '/',
        spec_extension(p) is Some,
        q.len() > 0,
    ensures
        spec_with_extension(p, spec_extension(p).unwrap() + q) == p + q,
{
    let t = trim_trailing_seps(p);
    assert(t == p);
    lemma_last_sep_bounds(p);
    let ls = last_sep(p);
    let name = p.subrange(ls + 1, p.len() as int);
    assert(spec_file_name(p) == Some(name));
    lemma_last_dot_bounds(name);
    let ld = last_dot(name);
    let e = name.subrange(ld + 1, name.len() as int);
    assert(spec_extension(p) == Some(e));
    assert(stem_len(name) == ld);
    assert(name.subrange(0, ld) + seq!['.'] + e =~= name);
    assert(p.subrange(0, ls + 1) + name =~= p);
    assert(p.subrange(0, ls + 1) + name.subrange(0, ld) + (seq!['.'] + (e + q)) =~= p + q);
}

/// Bounds `k..n` of the file name of `v`, when it has one.
fn file_name_bounds(v: &Vec<char>) -> (r: Option<(usize, usize)>)
    ensures
        match (r, spec_file_name(v@)) {
            (Some((k, n)), Some(name)) => {
                &&& k <= n <= v.len()
                &&& v@.subrange(k as int, n as int) == name
                &&& trim_trailing_seps(v@).subrange(0, last_sep(trim_trailing_seps(v@)) + 1)
                    == v@.subrange(0, k as int)
            },
            (None, None) => true,
            _ => false,
        },
{
    let n = trimmed_len(v);
    let k = after_last_sep(v, n);
    proof {
        lemma_trim_is_prefix(v@);
        let t = trim_trailing_seps(v@);
        assert(t =~= v@.subrange(0, n as int));
        assert(t.subrange(last_sep(t) + 1, t.len() as int) =~= v@.subrange(k as int, n as int));
        assert(t.subrange(0, last_sep(t) + 1) =~= v@.subrange(0, k as int));
    }
    let ghost seg = v@.subrange(k as int, n as int);
    if n == k || (n - k == 1 && v[k] == '.') || (n - k == 2 && v[k] == '.' && v[k + 1] == '.') {
        proof {
            if n - k == 1 {
                assert(seg =~= seq!['.']);
            }
            if n - k == 2 {
                assert(seg =~= seq!['.', '.']);
            }
        }
        None
    } else {
        proof {
            if seg == seq!['.'] {
                assert(seg.len() == 1);
                assert(seg[0] == v@[k as int]);
            }
            if seg == seq!['.', '.'] {
                assert(seg.len() == 2);
                assert(seg[0] == v@[k as int]);
                assert(seg[1] == v@[k + 1]);
            }
        }
        Some((k, n))
    }
}

/// Position just past the last dot within `v[k..n]`, or `k` when there is none.
fn after_last_dot(v: &Vec<char>, k: usize, n: usize) -> (e: usize)
    requires
        k <= n <= v.len(),
    ensures
        k <= e <= n,
        e - k - 1 == last_dot(v@.subrange(k as int, n as int)),
{
    let mut e = n;
    while e > k && v[e - 1] != '.'
        invariant
            k <= e <= n <= v.len(),
            last_dot(v@.subrange(k as int, n as int)) == last_dot(v@.subrange(k as int, e as int)),
        decreases e,
    {
        assert(v@.subrange(k as int, e as int).drop_last() =~= v@.subrange(k as int, e - 1));
        e = e - 1;
    }
    e
}

/// The extension of `p`, if it has one (`Path::extension`).
pub fn extension(p: &str) -> (r: Option<String>)
    ensures
        match (r, spec_extension(p@)) {
            (Some(x), Some(y)) => x@ == y,
            (None, None) => true,
            _ => false,
        },
{
    let v = chars_of(p);
    match file_name_bounds(&v) {
        None => None,
        Some((k, n)) => {
            let ghost name = v@.subrange(k as int, n as int);
            let e = after_last_dot(&v, k, n);
            if e <= k + 1 {
                None
            } else {
                let mut out: Vec<char> = Vec::new();
                let mut i = e;
                while i < n
                    invariant
                        e <= i <= n <= v.len(),
                        out@ == v@.subrange(e as int, i as int),
                    decreases n - i,
                {
                    out.push(v[i]);
                    i += 1;
                    assert(out@ =~= v@.subrange(e as int, i as int));
                }
                assert(out@ =~= name.subrange(last_dot(name) + 1, name.len() as int));
                Some(string_from_chars(out.as_slice()))
            }
        },
    }
}

/// `p` with its extension replaced by `ext` (`Path::with_extension`).
pub fn with_extension(p: &str, ext: &str) -> (r: String)
    ensures
        r@ == spec_with_extension(p@, ext@),
{
    let v = chars_of(p);
    let x = chars_of(ext);
    match file_name_bounds(&v) {
        None => string_from_chars(v.as_slice()),
        Some((k, n)) => {
            let ghost name = v@.subrange(k as int, n as int);
            let e = after_last_dot(&v, k, n);
            let stem_end = if e <= k + 1 {
                n
            } else {
                e - 1
            };
            let mut out: Vec<char> = Vec::new();
            let mut i: usize = 0;
            while i < stem_end
                invariant
                    i <= stem_end <= n <= v.len(),
                    out@ == v@.subrange(0, i as int),
                decreases stem_end - i,
            {
                out.push(v[i]);
                i += 1;
                assert(out@ =~= v@.subrange(0, i as int));
            }
            assert(v@.subrange(0, stem_end as int) =~= v@.subrange(0, k as int) + name.subrange(
                0,
                stem_len(name),
            ));
            let ghost base = out@;
            if x.len() > 0 {
                out.push('.');
                let ghost dotted = out@;
                let mut j: usize = 0;
                while j < x.len()
                    invariant
                        j <= x.len(),
                        out@ == dotted + x@.subrange(0, j as int),
                    decreases x.len() - j,
                {
                    out.push(x[j]);
                    j += 1;
                    assert(out@ =~= dotted + x@.subrange(0, j as int));
                }
                assert(x@.subrange(0, x.len() as int) =~= x@);
                assert(out@ =~= base + (seq!['.'] + x@));
            } else {
                assert(out@ =~= base + Seq::<char>::empty());
            }
            string_from_chars(out.as_slice())
        },
    }
}

/// `p` relative to `base` (`Path::strip_prefix`): what follows `base` and one separator, when the
/// components of `base` begin `p`. Trailing separators of either are not significant.
pub open spec fn spec_strip_prefix(p: Seq<char>, base: Seq<char>) -> Option<Seq<char>> {
    let pt = trim_trailing_seps(p);
    let bt = trim_trailing_seps(base);
    if base.len() == 0 {
        Some(pt)
    } else if bt.len() == 0 {
        // `base` is the root
        if pt.len() > 0 && pt[0] == '/' {
            Some(pt.subrange(1, pt.len() as int))
        } else if p.len() > 0 && pt.len() == 0 {
            Some(Seq::empty())
        } else {
            None
        }
    } else if pt == bt {
        Some(Seq::empty())
    } else if pt.len() > bt.len() && pt.subrange(0, bt.len() as int) == bt && pt[bt.len() as int]
        == '/' {
        Some(pt.subrange(bt.len() as int + 1, pt.len() as int))
    } else {
        None
    }
}

/// Copy of `v[lo..hi]`.
fn copy_range(v: &Vec<char>, lo: usize, hi: usize) -> (r: Vec<char>)
    requires
        lo <= hi <= v.len(),
    ensures
        r@ == v@.subrange(lo as int, hi as int),
{
    let mut out: Vec<char> = Vec::new();
    let mut i = lo;
    while i < hi
        invariant
            lo <= i <= hi <= v.len(),
            out@ == v@.subrange(lo as int, i as int),
        decreases hi - i,
    {
        out.push(v[i]);
        i += 1;
        assert(out@ =~= v@.subrange(lo as int, i as int));
    }
    out
}

/// `p` relative to `base`, if `base` is a prefix of it (`Path::strip_prefix`).
pub fn strip_prefix(p: &str, base: &str) -> (r: Option<String>)
    ensures
        match (r, spec_strip_prefix(p@, base@)) {
            (Some(x), Some(y)) => x@ == y,
            (None, None) => true,
            _ => false,
        },
{
    let pv = chars_of(p);
    let bv = chars_of(base);
    let pn = trimmed_len(&pv);
    let bn = trimmed_len(&bv);
    proof {
        lemma_trim_is_prefix(pv@);
        lemma_trim_is_prefix(bv@);
    }
    let ghost pt = trim_trailing_seps(pv@);
    let ghost bt = trim_trailing_seps(bv@);
    assert(pt =~= pv@.subrange(0, pn as int));
    assert(bt =~= bv@.subrange(0, bn as int));
    if bv.len() == 0 {
        return Some(string_from_chars(copy_range(&pv, 0, pn).as_slice()));
    }
    if bn == 0 {
        if pn > 0 && pv[0] == '/' {
            return Some(string_from_chars(copy_range(&pv, 1, pn).as_slice()));
        } else if pv.len() > 0 && pn == 0 {
            return Some(string_from_chars(Vec::new().as_slice()));
        } else {
            return None;
        }
    }
    if pn < bn {
        proof {
            if pt == bt {
                assert(pt.len() == bt.len());
            }
        }
        return None;
    }
    let mut i: usize = 0;
    while i < bn
        invariant
            i <= bn <= pn <= pv.len(),
            bn <= bv.len(),
            pv@.subrange(0, i as int) == bv@.subrange(0, i as int),
            pt == pv@.subrange(0, pn as int),
            bt == bv@.subrange(0, bn as int),
            pt == trim_trailing_seps(p@),
            bt == trim_trailing_seps(base@),
            base@.len() > 0,
            bn > 0,
        decreases bn - i,
    {
        if pv[i] != bv[i] {
            proof {
                assert(pt[i as int] != bt[i as int]);
                assert(pt.subrange(0, bt.len() as int)[i as int] == pt[i as int]);
                assert(pt.subrange(0, bt.len() as int) != bt);
                assert(pt != bt);
            }
            return None;
        }
        i += 1;
        assert(pv@.subrange(0, i as int) =~= bv@.subrange(0, i as int));
    }
    assert(pt.subrange(0, bt.len() as int) =~= bt);
    if pn == bn {
        assert(pt =~= bt);
        return Some(string_from_chars(Vec::new().as_slice()));
    }
    if pv[bn] == '/' {
        Some(string_from_chars(copy_range(&pv, bn + 1, pn).as_slice()))
    } else {
        proof {
            if pt == bt {
                assert(pt.len() == bt.len());
            }
        }
        None
    }
}

} // verus!
