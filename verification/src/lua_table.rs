//! Lua tables as lists of entries: what a lookup finds, and how a field is set or removed.
//!
//! A table's entries never repeat a string or an integer key (`unique_keys`). Setting a key
//! drops its entries and, unless the new value is `nil`, adds one entry at the end; where an
//! entry stands does not matter, since the writer orders entries by key.
use vstd::prelude::*;
use crate::lua_value::{LuaKey, LuaValue};
use crate::text::{chars_of, str_eq, string_from_chars};

verus! {

/// An entry of a table.
pub type Entry = (LuaKey, LuaValue);

/// Whether `k` is the string key `name`.
pub open spec fn key_is(k: LuaKey, name: Seq<char>) -> bool {
    k matches LuaKey::Str(s) && s@ == name
}

/// Whether `k` is the integer key `n`.
pub open spec fn key_is_int(k: LuaKey, n: i64) -> bool {
    k matches LuaKey::Int(i) && i == n
}

/// Whether `k` is neither a string nor an integer key.
pub open spec fn odd_key(k: LuaKey) -> bool {
    k is BadStr || k is Other
}

/// Index of the first entry with the string key `name`, or -1.
pub open spec fn str_find(es: Seq<Entry>, name: Seq<char>) -> int
    decreases es.len(),
{
    if es.len() == 0 {
        -1
    } else if str_find(es.drop_last(), name) >= 0 {
        str_find(es.drop_last(), name)
    } else if key_is(es.last().0, name) {
        es.len() - 1
    } else {
        -1
    }
}

/// Index of the first entry with the integer key `n`, or -1.
pub open spec fn int_find(es: Seq<Entry>, n: i64) -> int
    decreases es.len(),
{
    if es.len() == 0 {
        -1
    } else if int_find(es.drop_last(), n) >= 0 {
        int_find(es.drop_last(), n)
    } else if key_is_int(es.last().0, n) {
        es.len() - 1
    } else {
        -1
    }
}

/// `t[name]`: the value under the string key `name`, `nil` when there is none.
pub open spec fn str_get(es: Seq<Entry>, name: Seq<char>) -> LuaValue {
    if str_find(es, name) >= 0 {
        es[str_find(es, name)].1
    } else {
        LuaValue::Nil
    }
}

/// `t[n]`: the value under the integer key `n`, `nil` when there is none.
pub open spec fn int_get(es: Seq<Entry>, n: i64) -> LuaValue {
    if int_find(es, n) >= 0 {
        es[int_find(es, n)].1
    } else {
        LuaValue::Nil
    }
}

/// The entries whose keys are neither strings nor integers, in order.
pub open spec fn odd_entries(es: Seq<Entry>) -> Seq<Entry>
    decreases es.len(),
{
    if es.len() == 0 {
        Seq::empty()
    } else if odd_key(es.last().0) {
        odd_entries(es.drop_last()).push(es.last())
    } else {
        odd_entries(es.drop_last())
    }
}

/// No string key and no integer key occurs twice.
pub open spec fn unique_keys(es: Seq<Entry>) -> bool {
    forall|a: int, b: int|
        0 <= a < b < es.len() ==> !(es[a].0 is Str && es[b].0 is Str && es[a].0->Str_0@
            == es[b].0->Str_0@) && !(es[a].0 is Int && es[b].0 is Int && es[a].0->Int_0
            == es[b].0->Int_0)
}

/// Whether two tables agree on every key but the string key `name`.
pub open spec fn same_except_str(a: Seq<Entry>, b: Seq<Entry>, name: Seq<char>) -> bool {
    &&& forall|k: Seq<char>| k != name ==> #[trigger] str_get(a, k) == str_get(b, k)
    &&& forall|n: i64| #[trigger] int_get(a, n) == int_get(b, n)
    &&& odd_entries(a) == odd_entries(b)
}

/// Whether two tables agree on every key but the integer keys in `lo..=hi`.
pub open spec fn same_except_ints(a: Seq<Entry>, b: Seq<Entry>, lo: i64, hi: i64) -> bool {
    &&& forall|k: Seq<char>| #[trigger] str_get(a, k) == str_get(b, k)
    &&& forall|n: i64| !(lo <= n <= hi) ==> #[trigger] int_get(a, n) == int_get(b, n)
    &&& odd_entries(a) == odd_entries(b)
}

/// Whether `v` is the string `t`.
pub open spec fn is_text(v: LuaValue, t: Seq<char>) -> bool {
    v matches LuaValue::Str(s) && s@ == t
}

proof fn lemma_find_bounds(es: Seq<Entry>, name: Seq<char>, n: i64)
    ensures
        -1 <= str_find(es, name) < es.len(),
        str_find(es, name) >= 0 ==> key_is(es[str_find(es, name)].0, name),
        str_find(es, name) < 0 ==> forall|j: int| 0 <= j < es.len() ==> !key_is(#[trigger] es[j].0, name),
        -1 <= int_find(es, n) < es.len(),
        int_find(es, n) >= 0 ==> key_is_int(es[int_find(es, n)].0, n),
        int_find(es, n) < 0 ==> forall|j: int| 0 <= j < es.len() ==> !key_is_int(#[trigger] es[j].0, n),
    decreases es.len(),
{
    if es.len() > 0 {
        lemma_find_bounds(es.drop_last(), name, n);
        assert forall|j: int| 0 <= j < es.len() - 1 implies es[j] == es.drop_last()[j] by {}
    }
}

/// Lookups in `es` with `e` added at the end: `e` is found only for its own key, and only when
/// `es` lacks that key.
proof fn lemma_get_push(es: Seq<Entry>, e: Entry, name: Seq<char>, n: i64)
    ensures
        str_get(es.push(e), name) == if str_find(es, name) < 0 && key_is(e.0, name) {
            e.1
        } else {
            str_get(es, name)
        },
        int_get(es.push(e), n) == if int_find(es, n) < 0 && key_is_int(e.0, n) {
            e.1
        } else {
            int_get(es, n)
        },
        odd_entries(es.push(e)) == if odd_key(e.0) {
            odd_entries(es).push(e)
        } else {
            odd_entries(es)
        },
{
    assert(es.push(e).drop_last() =~= es);
    lemma_find_bounds(es, name, n);
    if str_find(es, name) >= 0 {
        assert(es.push(e)[str_find(es, name)] == es[str_find(es, name)]);
    }
    if int_find(es, n) >= 0 {
        assert(es.push(e)[int_find(es, n)] == es[int_find(es, n)]);
    }
}

/// Copy of a text.
fn copy_text(s: &str) -> (r: String)
    ensures
        r@ == s@,
{
    string_from_chars(chars_of(s).as_slice())
}

/// Index of the first entry with the string key `name`.
pub fn str_index(es: &Vec<Entry>, name: &str) -> (r: Option<usize>)
    ensures
        match r {
            Some(i) => i == str_find(es@, name@) && i < es@.len(),
            None => str_find(es@, name@) < 0,
        },
{
    let mut i: usize = 0;
    while i < es.len()
        invariant
            i <= es.len(),
            str_find(es@.take(i as int), name@) < 0,
        decreases es.len() - i,
    {
        let ghost t = es@.take(i + 1);
        assert(t.drop_last() =~= es@.take(i as int));
        let found = match &es[i].0 {
            LuaKey::Str(s) => str_eq(s.as_str(), name),
            _ => false,
        };
        if found {
            assert(str_find(t, name@) == i);
            proof {
                lemma_find_prefix(es@, i + 1, name@, 0);
            }
            return Some(i);
        }
        i += 1;
    }
    assert(es@.take(es.len() as int) =~= es@);
    None
}

/// Index of the first entry with the integer key `n`.
pub fn int_index(es: &Vec<Entry>, n: i64) -> (r: Option<usize>)
    ensures
        match r {
            Some(i) => i == int_find(es@, n) && i < es@.len(),
            None => int_find(es@, n) < 0,
        },
{
    let mut i: usize = 0;
    while i < es.len()
        invariant
            i <= es.len(),
            int_find(es@.take(i as int), n) < 0,
        decreases es.len() - i,
    {
        let ghost t = es@.take(i + 1);
        assert(t.drop_last() =~= es@.take(i as int));
        let found = match &es[i].0 {
            LuaKey::Int(k) => *k == n,
            _ => false,
        };
        if found {
            assert(int_find(t, n) == i);
            proof {
                lemma_find_prefix(es@, i + 1, seq![], n);
            }
            return Some(i);
        }
        i += 1;
    }
    assert(es@.take(es.len() as int) =~= es@);
    None
}

/// A find in a prefix that succeeds is the find in the whole.
proof fn lemma_find_prefix(es: Seq<Entry>, k: int, name: Seq<char>, n: i64)
    requires
        0 <= k <= es.len(),
    ensures
        str_find(es.take(k), name) >= 0 ==> str_find(es, name) == str_find(es.take(k), name),
        int_find(es.take(k), n) >= 0 ==> int_find(es, n) == int_find(es.take(k), n),
    decreases es.len() - k,
{
    if k < es.len() {
        lemma_find_prefix(es, k + 1, name, n);
        assert(es.take(k + 1).drop_last() =~= es.take(k));
    } else {
        assert(es.take(k) =~= es);
    }
}

/// Lookups after removing entry `i`, for keys other than its own.
proof fn lemma_remove(es: Seq<Entry>, i: int, name: Seq<char>, n: i64)
    requires
        0 <= i < es.len(),
        !odd_key(es[i].0),
    ensures
        !key_is(es[i].0, name) ==> str_get(es.remove(i), name) == str_get(es, name),
        !key_is_int(es[i].0, n) ==> int_get(es.remove(i), n) == int_get(es, n),
        odd_entries(es.remove(i)) == odd_entries(es),
    decreases es.len(),
{
    let r = es.remove(i);
    if i == es.len() - 1 {
        assert(r =~= es.drop_last());
        lemma_find_bounds(es.drop_last(), name, n);
        if str_find(es.drop_last(), name) >= 0 {
            assert(es[str_find(es.drop_last(), name)] == es.drop_last()[str_find(es.drop_last(), name)]);
        }
        if int_find(es.drop_last(), n) >= 0 {
            assert(es[int_find(es.drop_last(), n)] == es.drop_last()[int_find(es.drop_last(), n)]);
        }
    } else {
        let d = es.drop_last();
        assert(d[i] == es[i]);
        lemma_remove(d, i, name, n);
        assert(r.drop_last() =~= d.remove(i));
        assert(r.last() == es.last());
        lemma_get_push(d.remove(i), es.last(), name, n);
        lemma_get_push(d, es.last(), name, n);
        assert(r =~= d.remove(i).push(es.last()));
        assert(es =~= d.push(es.last()));
        if !key_is(es[i].0, name) {
            // whether the rest finds the key is unchanged by the removal
            lemma_remove_find(d, i, name, n);
        }
        if !key_is_int(es[i].0, n) {
            lemma_remove_find(d, i, name, n);
        }
    }
}

/// Removing an entry with another key keeps whether a key is found.
proof fn lemma_remove_find(es: Seq<Entry>, i: int, name: Seq<char>, n: i64)
    requires
        0 <= i < es.len(),
    ensures
        !key_is(es[i].0, name) ==> (str_find(es.remove(i), name) < 0 <==> str_find(es, name) < 0),
        !key_is_int(es[i].0, n) ==> (int_find(es.remove(i), n) < 0 <==> int_find(es, n) < 0),
{
    let r = es.remove(i);
    lemma_find_bounds(es, name, n);
    lemma_find_bounds(r, name, n);
    if !key_is(es[i].0, name) {
        if str_find(es, name) >= 0 {
            let f = str_find(es, name);
            if f < i {
                assert(r[f] == es[f]);
            } else {
                assert(r[f - 1] == es[f]);
            }
        }
        if str_find(r, name) >= 0 {
            let f = str_find(r, name);
            if f < i {
                assert(r[f] == es[f]);
            } else {
                assert(r[f] == es[f + 1]);
            }
        }
    }
    if !key_is_int(es[i].0, n) {
        if int_find(es, n) >= 0 {
            let f = int_find(es, n);
            if f < i {
                assert(r[f] == es[f]);
            } else {
                assert(r[f - 1] == es[f]);
            }
        }
        if int_find(r, n) >= 0 {
            let f = int_find(r, n);
            if f < i {
                assert(r[f] == es[f]);
            } else {
                assert(r[f] == es[f + 1]);
            }
        }
    }
}

proof fn lemma_remove_unique(es: Seq<Entry>, i: int)
    requires
        0 <= i < es.len(),
        unique_keys(es),
    ensures
        unique_keys(es.remove(i)),
{
    let r = es.remove(i);
    assert forall|a: int, b: int| 0 <= a < b < r.len() implies !(r[a].0 is Str && r[b].0 is Str
        && r[a].0->Str_0@ == r[b].0->Str_0@) && !(r[a].0 is Int && r[b].0 is Int && r[a].0->Int_0
        == r[b].0->Int_0) by {
        let a2 = if a < i {
            a
        } else {
            a + 1
        };
        let b2 = if b < i {
            b
        } else {
            b + 1
        };
        assert(r[a] == es[a2]);
        assert(r[b] == es[b2]);
    }
}

/// Removes the entry with the string key `name`, giving the value `t[name]` had.
pub fn take_str(es: &mut Vec<Entry>, name: &str) -> (r: LuaValue)
    requires
        unique_keys(old(es)@),
    ensures
        r == str_get(old(es)@, name@),
        str_get(final(es)@, name@) is Nil,
        str_find(final(es)@, name@) < 0,
        same_except_str(final(es)@, old(es)@, name@),
        unique_keys(final(es)@),
{
    let ghost e0 = es@;
    proof {
        lemma_find_bounds(e0, name@, 0);
    }
    match str_index(es, name) {
        None => LuaValue::Nil,
        Some(i) => {
            let ghost k = e0[i as int].0;
            let entry = es.remove(i);
            proof {
                lemma_remove_unique(e0, i as int);
                lemma_find_bounds(es@, name@, 0);
                if str_find(es@, name@) >= 0 {
                    let f = str_find(es@, name@);
                    let f2 = if f < i {
                        f
                    } else {
                        f + 1
                    };
                    assert(es@[f] == e0[f2]);
                    assert(f2 != i);
                    if f2 < i {
                        assert(false);
                    } else {
                        assert(e0[i as int].0->Str_0@ == e0[f2].0->Str_0@);
                    }
                }
                assert forall|k2: Seq<char>| k2 != name@ implies #[trigger] str_get(es@, k2) == str_get(
                    e0,
                    k2,
                ) by {
                    lemma_remove(e0, i as int, k2, 0);
                }
                assert forall|n: i64| #[trigger] int_get(es@, n) == int_get(e0, n) by {
                    lemma_remove(e0, i as int, name@, n);
                }
                lemma_remove(e0, i as int, name@, 0);
            }
            entry.1
        },
    }
}

/// Removes the entry with the integer key `n`, giving the value `t[n]` had.
pub fn take_int(es: &mut Vec<Entry>, n: i64) -> (r: LuaValue)
    requires
        unique_keys(old(es)@),
    ensures
        r == int_get(old(es)@, n),
        int_get(final(es)@, n) is Nil,
        int_find(final(es)@, n) < 0,
        same_except_ints(final(es)@, old(es)@, n, n),
        unique_keys(final(es)@),
{
    let ghost e0 = es@;
    proof {
        lemma_find_bounds(e0, seq![], n);
    }
    match int_index(es, n) {
        None => LuaValue::Nil,
        Some(i) => {
            let entry = es.remove(i);
            proof {
                lemma_remove_unique(e0, i as int);
                lemma_find_bounds(es@, seq![], n);
                if int_find(es@, n) >= 0 {
                    let f = int_find(es@, n);
                    let f2 = if f < i {
                        f
                    } else {
                        f + 1
                    };
                    assert(es@[f] == e0[f2]);
                    if f2 < i {
                        assert(false);
                    } else {
                        assert(e0[i as int].0->Int_0 == e0[f2].0->Int_0);
                    }
                }
                assert forall|k2: Seq<char>| #[trigger] str_get(es@, k2) == str_get(e0, k2) by {
                    lemma_remove(e0, i as int, k2, n);
                }
                assert forall|m: i64| !(n <= m <= n) implies #[trigger] int_get(es@, m) == int_get(
                    e0,
                    m,
                ) by {
                    lemma_remove(e0, i as int, seq![], m);
                }
                lemma_remove(e0, i as int, seq![], n);
            }
            entry.1
        },
    }
}

/// `t[name] = v`.
pub fn put_str(es: &mut Vec<Entry>, name: &str, v: LuaValue)
    requires
        unique_keys(old(es)@),
    ensures
        str_get(final(es)@, name@) == (if v is Nil {
            LuaValue::Nil
        } else {
            v
        }),
        same_except_str(final(es)@, old(es)@, name@),
        unique_keys(final(es)@),
{
    let _ = take_str(es, name);
    let ghost e1 = es@;
    let is_nil = match &v {
        LuaValue::Nil => true,
        _ => false,
    };
    if !is_nil {
        let key = LuaKey::Str(copy_text(name));
        let ghost k = key;
        proof {
            lemma_find_bounds(e1, name@, 0);
        }
        es.push((key, v));
        proof {
            assert forall|k2: Seq<char>| #[trigger] str_get(es@, k2) == (if k2 == name@ {
                v
            } else {
                str_get(e1, k2)
            }) by {
                lemma_get_push(e1, (k, v), k2, 0);
            }
            assert forall|m: i64| #[trigger] int_get(es@, m) == int_get(e1, m) by {
                lemma_get_push(e1, (k, v), name@, m);
            }
            lemma_get_push(e1, (k, v), name@, 0);
            assert(unique_keys(es@)) by {
                assert forall|a: int, b: int| 0 <= a < b < es@.len() implies !(es@[a].0 is Str
                    && es@[b].0 is Str && es@[a].0->Str_0@ == es@[b].0->Str_0@) && !(es@[a].0 is Int
                    && es@[b].0 is Int && es@[a].0->Int_0 == es@[b].0->Int_0) by {
                    if b == e1.len() {
                        assert(es@[a] == e1[a]);
                        assert(!key_is(e1[a].0, name@));
                    } else {
                        assert(es@[a] == e1[a] && es@[b] == e1[b]);
                    }
                }
            }
        }
    }
}

/// `t[n] = v`.
pub fn put_int(es: &mut Vec<Entry>, n: i64, v: LuaValue)
    requires
        unique_keys(old(es)@),
    ensures
        int_get(final(es)@, n) == (if v is Nil {
            LuaValue::Nil
        } else {
            v
        }),
        same_except_ints(final(es)@, old(es)@, n, n),
        unique_keys(final(es)@),
{
    let _ = take_int(es, n);
    let ghost e1 = es@;
    let is_nil = match &v {
        LuaValue::Nil => true,
        _ => false,
    };
    if !is_nil {
        let key = LuaKey::Int(n);
        proof {
            lemma_find_bounds(e1, seq![], n);
        }
        es.push((key, v));
        proof {
            assert forall|k2: Seq<char>| #[trigger] str_get(es@, k2) == str_get(e1, k2) by {
                lemma_get_push(e1, (key, v), k2, n);
            }
            assert forall|m: i64| #[trigger] int_get(es@, m) == (if m == n {
                v
            } else {
                int_get(e1, m)
            }) by {
                lemma_get_push(e1, (key, v), seq![], m);
            }
            lemma_get_push(e1, (key, v), seq![], n);
            assert(unique_keys(es@)) by {
                assert forall|a: int, b: int| 0 <= a < b < es@.len() implies !(es@[a].0 is Str
                    && es@[b].0 is Str && es@[a].0->Str_0@ == es@[b].0->Str_0@) && !(es@[a].0 is Int
                    && es@[b].0 is Int && es@[a].0->Int_0 == es@[b].0->Int_0) by {
                    if b == e1.len() {
                        assert(es@[a] == e1[a]);
                        assert(!key_is_int(e1[a].0, n));
                    } else {
                        assert(es@[a] == e1[a] && es@[b] == e1[b]);
                    }
                }
            }
        }
    }
}

} // verus!
