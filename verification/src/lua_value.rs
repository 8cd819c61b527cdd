//! Lua data as KOReader stores it in metadata sidecar files, and its `dump()` text form.
use vstd::prelude::*;
use crate::paths::{extension, lemma_extend_extension, spec_extension, spec_with_extension, with_extension};
use crate::text::{chars_of, lemma_text_lt_total, lemma_text_lt_transitive, less_than, string_from_chars, text_lt};

verus! {

/// Key of a Lua table entry.
#[derive(Debug)]
pub enum LuaKey {
    /// An integer key (a float key with an integral value counts as one).
    Int(i64),
    /// A string key that is valid UTF-8.
    Str(String),
    /// A string key that is not valid UTF-8.
    BadStr,
    /// A key of any other type.
    Other,
}

/// A Lua value.
#[derive(Debug)]
pub enum LuaValue {
    Nil,
    Boolean(bool),
    Integer(i64),
    /// A float, held as the text it is written as.
    Number(String),
    /// A string that is valid UTF-8.
    Str(String),
    /// A string that is not valid UTF-8.
    BadStr,
    /// A table, as its entries.
    Table(Vec<(LuaKey, LuaValue)>),
    /// A function, userdata, thread, light userdata or error value: not data.
    Unsupported,
    /// A value of another kind: kept in tables, written as nothing.
    Opaque,
}

/// Why a value cannot be written out.
#[derive(Clone, Copy, Debug, PartialEq, Eq, Structural)]
pub enum LuaWriteError {
    /// Tables nest deeper than `MAX_DEPTH`.
    DepthExceeded,
    /// A string value is not valid UTF-8.
    NonUtf8String,
    /// A table key is not valid UTF-8.
    NonUtf8Key,
}

/// Deepest table nesting that is written out.
pub const MAX_DEPTH: usize = 64;

/// One level of indentation.
pub open spec fn indent_unit() -> Seq<char> {
    seq![' ', ' ', ' ', ' ']
}

/// `n` levels of indentation.
pub open spec fn indent(n: int) -> Seq<char>
    decreases n,
{
    if n <= 0 {
        Seq::empty()
    } else {
        indent(n - 1) + indent_unit()
    }
}

/// The `%q`-style escape of one character (KOReader's `dump.lua` output, as Lua 5.1 / LuaJIT
/// `string.format("%q", ..)` writes it), given whether a decimal digit follows it: NUL becomes
/// `\0`, or `\000` before a digit so that the digit cannot extend the escape.
pub open spec fn escape_char(c: char, digit_follows: bool) -> Seq<char> {
    if c == '\\' {
        seq!['\\', '\\']
    } else if c == '"' {
        seq!['\\', '"']
    } else if c == '\n' {
        seq!['\\', '\n']
    } else if c == '\r' {
        seq!['\\', 'r']
    } else if c == '\0' {
        if digit_follows {
            seq!['\\', '0', '0', '0']
        } else {
            seq!['\\', '0']
        }
    } else {
        seq![c]
    }
}

/// Whether the character after position `i` of `s` is a decimal digit.
pub open spec fn digit_follows(s: Seq<char>, i: int) -> bool {
    i + 1 < s.len() && '0' <= s[i + 1] <= '9'
}

/// The escapes of the first `n` characters of `s`.
pub open spec fn escape_prefix(s: Seq<char>, n: int) -> Seq<char>
    decreases n,
{
    if n <= 0 {
        Seq::empty()
    } else {
        escape_prefix(s, n - 1) + escape_char(s[n - 1], digit_follows(s, n - 1))
    }
}

/// `%q`-style escape of a text, without surrounding quotes.
pub open spec fn escape_text(s: Seq<char>) -> Seq<char> {
    escape_prefix(s, s.len() as int)
}

/// The decimal digit for `d` (0..=9).
pub open spec fn digit_char(d: int) -> char {
    if d == 0 {
        '0'
    } else if d == 1 {
        '1'
    } else if d == 2 {
        '2'
    } else if d == 3 {
        '3'
    } else if d == 4 {
        '4'
    } else if d == 5 {
        '5'
    } else if d == 6 {
        '6'
    } else if d == 7 {
        '7'
    } else if d == 8 {
        '8'
    } else {
        '9'
    }
}

/// Decimal digits of a natural number, without leading zeros.
pub open spec fn digits(n: nat) -> Seq<char>
    decreases n,
{
    if n < 10 {
        seq![digit_char(n as int)]
    } else {
        digits(n / 10) + seq![digit_char((n % 10) as int)]
    }
}

/// Decimal text of an integer, as `{}` formats it.
pub open spec fn decimal(i: int) -> Seq<char> {
    if i < 0 {
        seq!['-'] + digits((-i) as nat)
    } else {
        digits(i as nat)
    }
}

/// The key text inside an entry line: `[n]` or `["escaped"]`.
pub open spec fn key_text(k: LuaKey) -> Seq<char> {
    match k {
        LuaKey::Int(i) => seq!['['] + decimal(i as int) + seq![']'],
        LuaKey::Str(s) => seq!['[', '"'] + escape_text(s@) + seq!['"', ']'],
        _ => Seq::empty(),
    }
}

/// Whether a value is data (kept when a table is written).
pub open spec fn is_data(v: LuaValue) -> bool {
    !(v is Nil || v is Unsupported)
}

/// Indices of the data entries with integer keys, in order.
pub open spec fn int_keyed(es: Seq<(LuaKey, LuaValue)>) -> Seq<int>
    decreases es.len(),
{
    if es.len() == 0 {
        Seq::empty()
    } else if is_data(es.last().1) && es.last().0 is Int {
        int_keyed(es.drop_last()).push(es.len() - 1)
    } else {
        int_keyed(es.drop_last())
    }
}

/// Indices of the data entries with (valid) string keys, in order.
pub open spec fn str_keyed(es: Seq<(LuaKey, LuaValue)>) -> Seq<int>
    decreases es.len(),
{
    if es.len() == 0 {
        Seq::empty()
    } else if is_data(es.last().1) && es.last().0 is Str {
        str_keyed(es.drop_last()).push(es.len() - 1)
    } else {
        str_keyed(es.drop_last())
    }
}

/// Whether some data entry has a string key that is not valid UTF-8.
pub open spec fn has_bad_key(es: Seq<(LuaKey, LuaValue)>) -> bool {
    exists|j: int| 0 <= j < es.len() && is_data(es[j].1) && es[j].0 is BadStr
}

/// Integer key of entry `j`.
pub open spec fn int_key_at(es: Seq<(LuaKey, LuaValue)>, j: int) -> i64 {
    match es[j].0 {
        LuaKey::Int(i) => i,
        _ => 0,
    }
}

/// Text of the string key of entry `j`.
pub open spec fn str_key_at(es: Seq<(LuaKey, LuaValue)>, j: int) -> Seq<char> {
    match es[j].0 {
        LuaKey::Str(s) => s@,
        _ => Seq::empty(),
    }
}

/// Stable insertion of index `x` into indices ordered by integer key.
pub open spec fn insert_int_idx(es: Seq<(LuaKey, LuaValue)>, s: Seq<int>, x: int) -> Seq<int>
    decreases s.len(),
{
    if s.len() == 0 {
        seq![x]
    } else if int_key_at(es, s.last()) <= int_key_at(es, x) {
        s.push(x)
    } else {
        insert_int_idx(es, s.drop_last(), x).push(s.last())
    }
}

/// Indices sorted by integer key, equal keys keeping their order.
pub open spec fn sort_int_idx(es: Seq<(LuaKey, LuaValue)>, s: Seq<int>) -> Seq<int>
    decreases s.len(),
{
    if s.len() == 0 {
        Seq::empty()
    } else {
        insert_int_idx(es, sort_int_idx(es, s.drop_last()), s.last())
    }
}

/// Stable insertion of index `x` into indices ordered by string key.
pub open spec fn insert_str_idx(es: Seq<(LuaKey, LuaValue)>, s: Seq<int>, x: int) -> Seq<int>
    decreases s.len(),
{
    if s.len() == 0 {
        seq![x]
    } else if !text_lt(str_key_at(es, x), str_key_at(es, s.last())) {
        s.push(x)
    } else {
        insert_str_idx(es, s.drop_last(), x).push(s.last())
    }
}

/// Indices sorted by string key, equal keys keeping their order.
pub open spec fn sort_str_idx(es: Seq<(LuaKey, LuaValue)>, s: Seq<int>) -> Seq<int>
    decreases s.len(),
{
    if s.len() == 0 {
        Seq::empty()
    } else {
        insert_str_idx(es, sort_str_idx(es, s.drop_last()), s.last())
    }
}

/// Order in which a table's entries are written: integer keys ascending, then string keys
/// ascending.
pub open spec fn write_order(es: Seq<(LuaKey, LuaValue)>) -> Seq<int> {
    sort_int_idx(es, int_keyed(es)) + sort_str_idx(es, str_keyed(es))
}

/// The text of the entries `idxs` of a table at `depth`, one line each.
pub open spec fn entries_text(
    es: Seq<(LuaKey, LuaValue)>,
    idxs: Seq<int>,
    depth: int,
) -> Result<Seq<char>, LuaWriteError>
    decreases es, idxs.len(),
{
    if idxs.len() == 0 {
        Ok(Seq::empty())
    } else {
        match entries_text(es, idxs.drop_last(), depth) {
            Err(e) => Err(e),
            Ok(prefix) => {
                let j = idxs.last();
                if 0 <= j < es.len() {
                    match value_text(es[j].1, depth + 1) {
                        Err(e) => Err(e),
                        Ok(text) => Ok(
                            prefix + indent(depth + 1) + key_text(es[j].0) + seq![' ', '=', ' ']
                                + text + seq![',', '\n'],
                        ),
                    }
                } else {
                    Err(LuaWriteError::DepthExceeded)
                }
            },
        }
    }
}

/// The `dump()` text of a value at nesting `depth`.
pub open spec fn value_text(v: LuaValue, depth: int) -> Result<Seq<char>, LuaWriteError>
    decreases v, 0int,
{
    if depth > MAX_DEPTH {
        Err(LuaWriteError::DepthExceeded)
    } else {
        match v {
            LuaValue::Table(es) => {
                if has_bad_key(es@) {
                    Err(LuaWriteError::NonUtf8Key)
                } else {
                    let order = write_order(es@);
                    if order.len() == 0 {
                        Ok(seq!['{', '}'])
                    } else {
                        match entries_text(es@, order, depth) {
                            Err(e) => Err(e),
                            Ok(body) => Ok(seq!['{', '\n'] + body + indent(depth) + seq!['}']),
                        }
                    }
                }
            },
            LuaValue::Str(s) => Ok(seq!['"'] + escape_text(s@) + seq!['"']),
            LuaValue::BadStr => Err(LuaWriteError::NonUtf8String),
            LuaValue::Integer(i) => Ok(decimal(i as int)),
            LuaValue::Number(t) => Ok(t@),
            LuaValue::Boolean(b) => Ok(
                if b {
                    seq!['t', 'r', 'u', 'e']
                } else {
                    seq!['f', 'a', 'l', 's', 'e']
                },
            ),
            _ => Ok(Seq::empty()),
        }
    }
}


/// Appends `s` to `buf`.
pub fn push_seq(buf: &mut Vec<char>, s: &Vec<char>)
    ensures
        final(buf)@ == old(buf)@ + s@,
{
    let ghost start = buf@;
    let mut i: usize = 0;
    while i < s.len()
        invariant
            i <= s.len(),
            buf@ == start + s@.take(i as int),
        decreases s.len() - i,
    {
        buf.push(s[i]);
        i += 1;
        assert(buf@ =~= start + s@.take(i as int));
    }
    assert(s@.take(s.len() as int) =~= s@);
}

/// Appends the characters of `s` to `buf`.
pub fn push_str(buf: &mut Vec<char>, s: &str)
    ensures
        final(buf)@ == old(buf)@ + s@,
{
    let v = chars_of(s);
    push_seq(buf, &v);
}

fn escape_char_into(buf: &mut Vec<char>, c: char, digit_next: bool)
    ensures
        final(buf)@ == old(buf)@ + escape_char(c, digit_next),
{
    let ghost start = buf@;
    if c == '\\' {
        buf.push('\\');
        buf.push('\\');
    } else if c == '"' {
        buf.push('\\');
        buf.push('"');
    } else if c == '\n' {
        buf.push('\\');
        buf.push('\n');
    } else if c == '\r' {
        buf.push('\\');
        buf.push('r');
    } else if c == '\0' {
        buf.push('\\');
        buf.push('0');
        if digit_next {
            buf.push('0');
            buf.push('0');
        }
    } else {
        buf.push(c);
    }
    assert(buf@ =~= start + escape_char(c, digit_next));
}

/// Appends the `%q`-style escape of `s` (no surrounding quotes): `\` and `"` are escaped with a
/// backslash, a newline becomes a backslash followed by a newline, CR becomes `\r`, NUL `\0`
/// (`\000` where a digit follows).
pub fn write_lua_escaped_chars(buf: &mut Vec<char>, s: &str)
    ensures
        final(buf)@ == old(buf)@ + escape_text(s@),
{
    let v = chars_of(s);
    let ghost start = buf@;
    let mut i: usize = 0;
    while i < v.len()
        invariant
            i <= v.len(),
            buf@ == start + escape_prefix(v@, i as int),
        decreases v.len() - i,
    {
        let digit_next = i + 1 < v.len() && '0' <= v[i + 1] && v[i + 1] <= '9';
        escape_char_into(buf, v[i], digit_next);
        i += 1;
        assert(buf@ =~= start + escape_prefix(v@, i as int));
    }
}

/// Appends `s` as a quoted `%q`-style Lua string.
pub fn write_lua_string(buf: &mut Vec<char>, s: &str)
    ensures
        final(buf)@ == old(buf)@ + seq!['"'] + escape_text(s@) + seq!['"'],
{
    let ghost start = buf@;
    buf.push('"');
    write_lua_escaped_chars(buf, s);
    buf.push('"');
    assert(buf@ =~= start + seq!['"'] + escape_text(s@) + seq!['"']);
}

fn digit_of(d: u64) -> (c: char)
    requires
        d < 10,
    ensures
        c == digit_char(d as int),
{
    if d == 0 {
        '0'
    } else if d == 1 {
        '1'
    } else if d == 2 {
        '2'
    } else if d == 3 {
        '3'
    } else if d == 4 {
        '4'
    } else if d == 5 {
        '5'
    } else if d == 6 {
        '6'
    } else if d == 7 {
        '7'
    } else if d == 8 {
        '8'
    } else {
        '9'
    }
}

fn write_digits(buf: &mut Vec<char>, n: u64)
    ensures
        final(buf)@ == old(buf)@ + digits(n as nat),
    decreases n,
{
    if n < 10 {
        buf.push(digit_of(n));
    } else {
        let ghost start = buf@;
        write_digits(buf, n / 10);
        buf.push(digit_of(n % 10));
        assert(buf@ =~= start + digits(n as nat));
    }
}

/// Appends the decimal text of `i`.
pub fn write_decimal(buf: &mut Vec<char>, i: i64)
    ensures
        final(buf)@ == old(buf)@ + decimal(i as int),
{
    let ghost start = buf@;
    if i < 0 {
        buf.push('-');
        let n = (0i128 - i as i128) as u64;
        write_digits(buf, n);
        assert(buf@ =~= start + decimal(i as int));
    } else {
        write_digits(buf, i as u64);
    }
}

fn write_indent(buf: &mut Vec<char>, n: usize)
    ensures
        final(buf)@ == old(buf)@ + indent(n as int),
{
    let ghost start = buf@;
    let mut k: usize = 0;
    while k < n
        invariant
            k <= n,
            buf@ == start + indent(k as int),
        decreases n - k,
    {
        buf.push(' ');
        buf.push(' ');
        buf.push(' ');
        buf.push(' ');
        k += 1;
        assert(buf@ =~= start + indent(k as int));
    }
}

fn value_is_data(v: &LuaValue) -> (r: bool)
    ensures
        r == is_data(*v),
{
    match v {
        LuaValue::Nil => false,
        LuaValue::Unsupported => false,
        _ => true,
    }
}

fn key_int(k: &LuaKey) -> (r: i64)
    ensures
        k is Int ==> r == k->Int_0,
{
    match k {
        LuaKey::Int(i) => *i,
        _ => 0,
    }
}

fn key_less(a: &LuaKey, b: &LuaKey) -> (r: bool)
    requires
        a is Str,
        b is Str,
    ensures
        r == text_lt(a->Str_0@, b->Str_0@),
{
    match (a, b) {
        (LuaKey::Str(x), LuaKey::Str(y)) => less_than(x.as_str(), y.as_str()),
        _ => false,
    }
}

proof fn lemma_insert_int_idx_at(es: Seq<(LuaKey, LuaValue)>, s: Seq<int>, x: int, j: int)
    requires
        0 <= j <= s.len(),
        j > 0 ==> int_key_at(es, s[j - 1]) <= int_key_at(es, x),
        forall|k: int| j <= k < s.len() ==> int_key_at(es, #[trigger] s[k]) > int_key_at(es, x),
    ensures
        insert_int_idx(es, s, x) == s.insert(j, x),
    decreases s.len(),
{
    if s.len() == 0 {
        assert(s.insert(j, x) =~= seq![x]);
    } else if j == s.len() {
        assert(s.insert(j, x) =~= s.push(x));
    } else {
        assert(int_key_at(es, s[s.len() - 1]) > int_key_at(es, x));
        lemma_insert_int_idx_at(es, s.drop_last(), x, j);
        assert(s.drop_last().insert(j, x).push(s.last()) =~= s.insert(j, x));
    }
}

proof fn lemma_insert_str_idx_at(es: Seq<(LuaKey, LuaValue)>, s: Seq<int>, x: int, j: int)
    requires
        0 <= j <= s.len(),
        j > 0 ==> !text_lt(str_key_at(es, x), str_key_at(es, s[j - 1])),
        forall|k: int|
            j <= k < s.len() ==> text_lt(str_key_at(es, x), str_key_at(es, #[trigger] s[k])),
    ensures
        insert_str_idx(es, s, x) == s.insert(j, x),
    decreases s.len(),
{
    if s.len() == 0 {
        assert(s.insert(j, x) =~= seq![x]);
    } else if j == s.len() {
        assert(s.insert(j, x) =~= s.push(x));
    } else {
        assert(text_lt(str_key_at(es, x), str_key_at(es, s[s.len() - 1])));
        lemma_insert_str_idx_at(es, s.drop_last(), x, j);
        assert(s.drop_last().insert(j, x).push(s.last()) =~= s.insert(j, x));
    }
}

/// Indices as integers.
pub open spec fn idx_ints(v: Seq<usize>) -> Seq<int> {
    v.map_values(|x: usize| x as int)
}

/// All indices are in bounds.
pub open spec fn idx_in_bounds(v: Seq<int>, n: int) -> bool {
    forall|k: int| 0 <= k < v.len() ==> 0 <= #[trigger] v[k] < n
}

proof fn lemma_insert_int_bounds(es: Seq<(LuaKey, LuaValue)>, s: Seq<int>, x: int, n: int)
    requires
        idx_in_bounds(s, n),
        0 <= x < n,
    ensures
        idx_in_bounds(insert_int_idx(es, s, x), n),
        insert_int_idx(es, s, x).len() == s.len() + 1,
    decreases s.len(),
{
    if s.len() > 0 && int_key_at(es, s.last()) > int_key_at(es, x) {
        lemma_insert_int_bounds(es, s.drop_last(), x, n);
    }
}

fn sorted_int_indices(es: &Vec<(LuaKey, LuaValue)>) -> (r: Vec<usize>)
    ensures
        idx_ints(r@) == sort_int_idx(es@, int_keyed(es@)),
        idx_in_bounds(idx_ints(r@), es.len() as int),
{
    let mut out: Vec<usize> = Vec::new();
    let mut i: usize = 0;
    while i < es.len()
        invariant
            i <= es.len(),
            idx_ints(out@) == sort_int_idx(es@, int_keyed(es@.take(i as int))),
            idx_in_bounds(idx_ints(out@), i as int),
            forall|k: int| 0 <= k < out@.len() ==> (#[trigger] es@[out@[k] as int]).0 is Int,
            forall|k: int| 0 <= k < out@.len() ==> #[trigger] out@[k] < i,
        decreases es.len() - i,
    {
        let ghost t = es@.take(i + 1);
        assert(t.drop_last() =~= es@.take(i as int));
        assert(t.last() == es@[i as int]);
        if value_is_data(&es[i].1) && (match &es[i].0 {
            LuaKey::Int(_) => true,
            _ => false,
        }) {
            let ki = key_int(&es[i].0);
            let ghost s = idx_ints(out@);
            assert(int_keyed(t) == int_keyed(es@.take(i as int)).push(i as int));
            assert(int_keyed(t).drop_last() =~= int_keyed(es@.take(i as int)));
            let mut j = out.len();
            while j > 0 && key_int(&es[out[j - 1]].0) > ki
                invariant
                    j <= out.len(),
                    s == idx_ints(out@),
                    idx_in_bounds(s, i as int),
                    i < es.len(),
                    ki == int_key_at(es@, i as int),
                    forall|k: int| 0 <= k < out@.len() ==> (#[trigger] es@[out@[k] as int]).0 is Int,
                    forall|k: int| 0 <= k < out@.len() ==> #[trigger] out@[k] < i,
                    forall|k: int| j <= k < s.len() ==> int_key_at(es@, #[trigger] s[k]) > ki,
                decreases j,
            {
                assert(s[j - 1] == out@[j - 1] as int);
                assert(es@[out@[j - 1] as int].0 is Int);
                j -= 1;
            }
            proof {
                lemma_insert_int_idx_at(es@, s, i as int, j as int);
                lemma_insert_int_bounds(es@, s, i as int, i + 1);
            }
            let ghost before = out@;
            out.insert(j, i);
            assert(idx_ints(out@) =~= s.insert(j as int, i as int));
            assert forall|k: int| 0 <= k < out@.len() implies (#[trigger] es@[out@[k] as int]).0 is Int
                && out@[k] < i + 1 by {
                if k < j {
                    assert(out@[k] == before[k]);
                } else if k > j {
                    assert(out@[k] == before[k - 1]);
                }
            }
        } else {
            assert(int_keyed(t) == int_keyed(es@.take(i as int)));
        }
        i += 1;
    }
    assert(es@.take(es.len() as int) =~= es@);
    out
}

proof fn lemma_insert_str_bounds(es: Seq<(LuaKey, LuaValue)>, s: Seq<int>, x: int, n: int)
    requires
        idx_in_bounds(s, n),
        0 <= x < n,
    ensures
        idx_in_bounds(insert_str_idx(es, s, x), n),
        insert_str_idx(es, s, x).len() == s.len() + 1,
    decreases s.len(),
{
    if s.len() > 0 && text_lt(str_key_at(es, x), str_key_at(es, s.last())) {
        lemma_insert_str_bounds(es, s.drop_last(), x, n);
    }
}

fn sorted_str_indices(es: &Vec<(LuaKey, LuaValue)>) -> (r: Vec<usize>)
    ensures
        idx_ints(r@) == sort_str_idx(es@, str_keyed(es@)),
        idx_in_bounds(idx_ints(r@), es.len() as int),
{
    let mut out: Vec<usize> = Vec::new();
    let mut i: usize = 0;
    while i < es.len()
        invariant
            i <= es.len(),
            idx_ints(out@) == sort_str_idx(es@, str_keyed(es@.take(i as int))),
            idx_in_bounds(idx_ints(out@), i as int),
            forall|k: int| 0 <= k < out@.len() ==> (#[trigger] es@[out@[k] as int]).0 is Str,
            forall|k: int| 0 <= k < out@.len() ==> #[trigger] out@[k] < i,
        decreases es.len() - i,
    {
        let ghost t = es@.take(i + 1);
        assert(t.drop_last() =~= es@.take(i as int));
        assert(t.last() == es@[i as int]);
        if value_is_data(&es[i].1) && (match &es[i].0 {
            LuaKey::Str(_) => true,
            _ => false,
        }) {
            let ghost s = idx_ints(out@);
            assert(str_keyed(t) == str_keyed(es@.take(i as int)).push(i as int));
            assert(str_keyed(t).drop_last() =~= str_keyed(es@.take(i as int)));
            let mut j = out.len();
            while j > 0 && key_less(&es[i].0, &es[out[j - 1]].0)
                invariant
                    j <= out.len(),
                    s == idx_ints(out@),
                    idx_in_bounds(s, i as int),
                    i < es.len(),
                    es@[i as int].0 is Str,
                    forall|k: int| 0 <= k < out@.len() ==> (#[trigger] es@[out@[k] as int]).0 is Str,
                    forall|k: int| 0 <= k < out@.len() ==> #[trigger] out@[k] < i,
                    forall|k: int|
                        j <= k < s.len() ==> text_lt(
                            str_key_at(es@, i as int),
                            str_key_at(es@, #[trigger] s[k]),
                        ),
                decreases j,
            {
                assert(s[j - 1] == out@[j - 1] as int);
                j -= 1;
            }
            proof {
                if j > 0 {
                    assert(s[j - 1] == out@[j - 1] as int);
                }
                lemma_insert_str_idx_at(es@, s, i as int, j as int);
                lemma_insert_str_bounds(es@, s, i as int, i + 1);
            }
            let ghost before = out@;
            out.insert(j, i);
            assert(idx_ints(out@) =~= s.insert(j as int, i as int));
            assert forall|k: int| 0 <= k < out@.len() implies (#[trigger] es@[out@[k] as int]).0 is Str
                && out@[k] < i + 1 by {
                if k < j {
                    assert(out@[k] == before[k]);
                } else if k > j {
                    assert(out@[k] == before[k - 1]);
                }
            }
        } else {
            assert(str_keyed(t) == str_keyed(es@.take(i as int)));
        }
        i += 1;
    }
    assert(es@.take(es.len() as int) =~= es@);
    out
}

fn write_order_of(es: &Vec<(LuaKey, LuaValue)>) -> (r: Vec<usize>)
    ensures
        idx_ints(r@) == write_order(es@),
        idx_in_bounds(idx_ints(r@), es.len() as int),
{
    let mut out = sorted_int_indices(es);
    let tail = sorted_str_indices(es);
    let ghost a = idx_ints(out@);
    let ghost b = idx_ints(tail@);
    let mut k: usize = 0;
    while k < tail.len()
        invariant
            k <= tail.len(),
            b == idx_ints(tail@),
            idx_in_bounds(a, es.len() as int),
            idx_in_bounds(b, es.len() as int),
            idx_ints(out@) == a + b.take(k as int),
        decreases tail.len() - k,
    {
        let ghost prev = out@;
        out.push(tail[k]);
        assert(b[k as int] == tail@[k as int] as int);
        assert(b.take(k + 1) =~= b.take(k as int).push(b[k as int]));
        assert(idx_ints(out@) =~= idx_ints(prev).push(tail@[k as int] as int));
        k += 1;
        assert(idx_ints(out@) =~= a + b.take(k as int));
    }
    assert(b.take(tail.len() as int) =~= b);
    out
}

fn find_bad_key(es: &Vec<(LuaKey, LuaValue)>) -> (r: bool)
    ensures
        r == has_bad_key(es@),
{
    let mut i: usize = 0;
    while i < es.len()
        invariant
            i <= es.len(),
            forall|j: int| 0 <= j < i ==> !(is_data(#[trigger] es@[j].1) && es@[j].0 is BadStr),
        decreases es.len() - i,
    {
        if value_is_data(&es[i].1) && (match &es[i].0 {
            LuaKey::BadStr => true,
            _ => false,
        }) {
            assert(is_data(es@[i as int].1) && es@[i as int].0 is BadStr);
            return true;
        }
        i += 1;
    }
    false
}

fn write_key(buf: &mut Vec<char>, k: &LuaKey)
    ensures
        final(buf)@ == old(buf)@ + key_text(*k),
{
    let ghost start = buf@;
    match k {
        LuaKey::Int(i) => {
            buf.push('[');
            write_decimal(buf, *i);
            buf.push(']');
            assert(buf@ =~= start + key_text(*k));
        },
        LuaKey::Str(s) => {
            buf.push('[');
            buf.push('"');
            write_lua_escaped_chars(buf, s.as_str());
            buf.push('"');
            buf.push(']');
            assert(buf@ =~= start + key_text(*k));
        },
        _ => {
            assert(buf@ =~= start + key_text(*k));
        },
    }
}

proof fn lemma_entries_err_extends(
    es: Seq<(LuaKey, LuaValue)>,
    idxs: Seq<int>,
    k: int,
    depth: int,
    e: LuaWriteError,
)
    requires
        0 <= k <= idxs.len(),
        entries_text(es, idxs.take(k), depth) == Err::<Seq<char>, LuaWriteError>(e),
    ensures
        entries_text(es, idxs, depth) == Err::<Seq<char>, LuaWriteError>(e),
    decreases idxs.len(),
{
    if k == idxs.len() {
        assert(idxs.take(k) =~= idxs);
    } else {
        assert(idxs.drop_last().take(k) =~= idxs.take(k));
        lemma_entries_err_extends(es, idxs.drop_last(), k, depth, e);
    }
}

/// Appends the lines of the entries `order` of a table at `depth`.
fn write_entries(
    buf: &mut Vec<char>,
    es: &Vec<(LuaKey, LuaValue)>,
    order: &Vec<usize>,
    depth: usize,
) -> (r: Result<(), LuaWriteError>)
    requires
        depth <= MAX_DEPTH,
        idx_in_bounds(idx_ints(order@), es.len() as int),
    ensures
        match entries_text(es@, idx_ints(order@), depth as int) {
            Ok(t) => r is Ok && final(buf)@ == old(buf)@ + t,
            Err(e) => r == Err::<(), LuaWriteError>(e),
        },
    decreases es, 0nat,
{
    let ghost ord = idx_ints(order@);
    let ghost head = buf@;
    let ghost mut acc: Seq<char> = Seq::empty();
    let mut k: usize = 0;
    assert(ord.take(0) =~= Seq::<int>::empty());
    while k < order.len()
        invariant
            k <= order.len(),
            depth <= MAX_DEPTH,
            ord == idx_ints(order@),
            idx_in_bounds(ord, es.len() as int),
            entries_text(es@, ord.take(k as int), depth as int) == Ok::<Seq<char>, LuaWriteError>(acc),
            buf@ == head + acc,
        decreases order.len() - k,
    {
        let j = order[k];
        let ghost t = ord.take(k + 1);
        assert(t.drop_last() =~= ord.take(k as int));
        assert(t.last() == j as int);
        assert(0 <= j < es.len());
        write_indent(buf, depth + 1);
        write_key(buf, &es[j].0);
        buf.push(' ');
        buf.push('=');
        buf.push(' ');
        let res = write_value(buf, &es[j].1, depth + 1);
        match res {
            Err(e) => {
                proof {
                    lemma_entries_err_extends(es@, ord, k + 1, depth as int, e);
                }
                return Err(e);
            },
            Ok(()) => {},
        }
        buf.push(',');
        buf.push('\n');
        proof {
            let text = value_text(es@[j as int].1, depth + 1)->Ok_0;
            acc = acc + indent(depth + 1) + key_text(es@[j as int].0) + seq![' ', '=', ' '] + text
                + seq![',', '\n'];
        }
        k += 1;
        assert(buf@ =~= head + acc);
    }
    assert(ord.take(order.len() as int) =~= ord);
    Ok(())
}

/// Appends the `dump()` text of the table `es` at nesting `depth`.
fn write_table(buf: &mut Vec<char>, es: &Vec<(LuaKey, LuaValue)>, depth: usize) -> (r: Result<
    (),
    LuaWriteError,
>)
    requires
        depth <= MAX_DEPTH,
    ensures
        match value_text(LuaValue::Table(*es), depth as int) {
            Ok(t) => r is Ok && final(buf)@ == old(buf)@ + t,
            Err(e) => r == Err::<(), LuaWriteError>(e),
        },
    decreases es, 1nat,
{
    let ghost start = buf@;
    if find_bad_key(es) {
        return Err(LuaWriteError::NonUtf8Key);
    }
    let order = write_order_of(es);
    if order.len() == 0 {
        buf.push('{');
        buf.push('}');
        assert(buf@ =~= start + seq!['{', '}']);
        return Ok(());
    }
    buf.push('{');
    buf.push('\n');
    let ghost head = buf@;
    let res = write_entries(buf, es, &order, depth);
    match res {
        Err(e) => {
            return Err(e);
        },
        Ok(()) => {},
    }
    let ghost body = buf@.subrange(head.len() as int, buf@.len() as int);
    assert(buf@ =~= head + body);
    write_indent(buf, depth);
    buf.push('}');
    assert(buf@ =~= start + (seq!['{', '\n'] + body + indent(depth as int) + seq!['}']));
    Ok(())
}

/// Appends the `dump()` text of `v` at nesting `depth`; on error the buffer holds a partial text.
fn write_value(buf: &mut Vec<char>, v: &LuaValue, depth: usize) -> (r: Result<(), LuaWriteError>)
    requires
        depth <= MAX_DEPTH + 1,
    ensures
        match value_text(*v, depth as int) {
            Ok(t) => r is Ok && final(buf)@ == old(buf)@ + t,
            Err(e) => r == Err::<(), LuaWriteError>(e),
        },
    decreases v, 2nat,
{
    if depth > MAX_DEPTH {
        return Err(LuaWriteError::DepthExceeded);
    }
    let ghost start = buf@;
    match v {
        LuaValue::Table(es) => write_table(buf, es, depth),
        LuaValue::Str(s) => {
            write_lua_string(buf, s.as_str());
            Ok(())
        },
        LuaValue::BadStr => Err(LuaWriteError::NonUtf8String),
        LuaValue::Integer(i) => {
            write_decimal(buf, *i);
            Ok(())
        },
        LuaValue::Number(t) => {
            push_str(buf, t.as_str());
            Ok(())
        },
        LuaValue::Boolean(b) => {
            proof {
                reveal_strlit("true");
                reveal_strlit("false");
            }
            if *b {
                push_str(buf, "true");
            } else {
                push_str(buf, "false");
            }
            Ok(())
        },
        _ => {
            assert(buf@ =~= start + Seq::<char>::empty());
            Ok(())
        },
    }
}

/// The text of a metadata file holding `table`: a `-- <file_path>` header line, then
/// `return ` and the table's `dump()` text, then a newline.
pub open spec fn file_text(es: Vec<(LuaKey, LuaValue)>, file_path: Seq<char>) -> Result<
    Seq<char>,
    LuaWriteError,
> {
    match value_text(LuaValue::Table(es), 0) {
        Ok(t) => Ok(
            seq!['-', '-', ' '] + file_path + seq!['\n', 'r', 'e', 't', 'u', 'r', 'n', ' '] + t
                + seq!['\n'],
        ),
        Err(e) => Err(e),
    }
}

/// Serializes a metadata table in KOReader's `dump()` format, headed by a comment naming the file.
pub fn serialize_table(table: &Vec<(LuaKey, LuaValue)>, file_path: &str) -> (r: Result<
    String,
    LuaWriteError,
>)
    ensures
        match file_text(*table, file_path@) {
            Ok(t) => r is Ok && r->Ok_0@ == t,
            Err(e) => r == Err::<String, LuaWriteError>(e),
        },
{
    let mut buf: Vec<char> = Vec::new();
    buf.push('-');
    buf.push('-');
    buf.push(' ');
    push_str(&mut buf, file_path);
    buf.push('\n');
    push_str(&mut buf, "return ");
    proof {
        reveal_strlit("return ");
    }
    let ghost head = buf@;
    match write_table(&mut buf, table, 0) {
        Err(e) => {
            return Err(e);
        },
        Ok(()) => {},
    }
    buf.push('\n');
    let ghost t = value_text(LuaValue::Table(*table), 0)->Ok_0;
    assert(buf@ =~= seq!['-', '-', ' '] + file_path@ + seq!['\n', 'r', 'e', 't', 'u', 'r', 'n', ' ']
        + t + seq!['\n']);
    Ok(string_from_chars(buf.as_slice()))
}

/// The `.old` backup path of a metadata file: its extension gets `.old` appended
/// (`foo.lua` becomes `foo.lua.old`).
pub open spec fn spec_backup_path(p: Seq<char>) -> Seq<char> {
    let ext = match spec_extension(p) {
        Some(e) => e,
        None => Seq::empty(),
    };
    spec_with_extension(p, ext + seq!['.', 'o', 'l', 'd'])
}

/// The backup of a metadata file whose name has an extension is the file's own path with `.old`
/// appended.
pub proof fn lemma_backup_path_appends_old(p: Seq<char>)
    requires
        p.len() > 0,
        p.last() != '/',
        spec_extension(p) is Some,
    ensures
        spec_backup_path(p) == p + seq!['.', 'o', 'l', 'd'],
{
    lemma_extend_extension(p, seq!['.', 'o', 'l', 'd']);
}

/// The `.old` backup path of a metadata file.
pub fn backup_path(path: &str) -> (r: String)
    ensures
        r@ == spec_backup_path(path@),
{
    let mut ext: Vec<char> = match extension(path) {
        Some(e) => chars_of(e.as_str()),
        None => Vec::new(),
    };
    ext.push('.');
    ext.push('o');
    ext.push('l');
    ext.push('d');
    let ext_text = string_from_chars(ext.as_slice());
    with_extension(path, ext_text.as_str())
}

/// Whether indices are in ascending order of their entries' integer keys.
pub open spec fn int_sorted(es: Seq<(LuaKey, LuaValue)>, s: Seq<int>) -> bool {
    forall|i: int, j: int| 0 <= i < j < s.len() ==> int_key_at(es, #[trigger] s[i]) <= int_key_at(es, #[trigger] s[j])
}

/// Whether indices are in ascending order of their entries' string keys.
pub open spec fn str_sorted(es: Seq<(LuaKey, LuaValue)>, s: Seq<int>) -> bool {
    forall|i: int, j: int| 0 <= i < j < s.len() ==> !text_lt(str_key_at(es, #[trigger] s[j]), str_key_at(es, #[trigger] s[i]))
}

proof fn lemma_int_keyed(es: Seq<(LuaKey, LuaValue)>)
    ensures
        forall|k: int| 0 <= k < int_keyed(es).len() ==> 0 <= #[trigger] int_keyed(es)[k] < es.len()
            && es[int_keyed(es)[k]].0 is Int,
    decreases es.len(),
{
    if es.len() > 0 {
        lemma_int_keyed(es.drop_last());
    }
}

proof fn lemma_str_keyed(es: Seq<(LuaKey, LuaValue)>)
    ensures
        forall|k: int| 0 <= k < str_keyed(es).len() ==> 0 <= #[trigger] str_keyed(es)[k] < es.len()
            && es[str_keyed(es)[k]].0 is Str,
    decreases es.len(),
{
    if es.len() > 0 {
        lemma_str_keyed(es.drop_last());
    }
}

proof fn lemma_insert_int(es: Seq<(LuaKey, LuaValue)>, s: Seq<int>, x: int)
    requires
        int_sorted(es, s),
    ensures
        int_sorted(es, insert_int_idx(es, s, x)),
        insert_int_idx(es, s, x).len() == s.len() + 1,
        forall|k: int| 0 <= k < s.len() + 1 ==> (#[trigger] insert_int_idx(es, s, x)[k] == x || s.contains(
            insert_int_idx(es, s, x)[k],
        )),
    decreases s.len(),
{
    let r = insert_int_idx(es, s, x);
    if s.len() == 0 {
    } else if int_key_at(es, s.last()) <= int_key_at(es, x) {
        assert forall|k: int| 0 <= k < s.len() + 1 implies (#[trigger] r[k] == x || s.contains(r[k])) by {
            if k < s.len() {
                assert(r[k] == s[k]);
            }
        }
    } else {
        let d = s.drop_last();
        assert(int_sorted(es, d));
        lemma_insert_int(es, d, x);
        let r0 = insert_int_idx(es, d, x);
        assert forall|k: int| 0 <= k < r0.len() implies int_key_at(es, #[trigger] r0[k]) <= int_key_at(es, s.last()) by {
            if r0[k] != x {
                let m = choose|m: int| 0 <= m < d.len() && d[m] == r0[k];
                assert(s[m] == d[m]);
            }
        }
        assert forall|i: int, j: int| 0 <= i < j < r.len() implies int_key_at(es, #[trigger] r[i]) <= int_key_at(es, #[trigger] r[j]) by {
            if j < r0.len() {
                assert(r[i] == r0[i] && r[j] == r0[j]);
            } else {
                assert(r[i] == r0[i]);
            }
        }
        assert forall|k: int| 0 <= k < s.len() + 1 implies (#[trigger] r[k] == x || s.contains(r[k])) by {
            if k < r0.len() {
                assert(r[k] == r0[k]);
                if r0[k] != x {
                    let m = choose|m: int| 0 <= m < d.len() && d[m] == r0[k];
                    assert(s[m] == d[m]);
                }
            } else {
                assert(r[k] == s[s.len() - 1]);
            }
        }
    }
}

proof fn lemma_sort_int(es: Seq<(LuaKey, LuaValue)>, s: Seq<int>)
    ensures
        int_sorted(es, sort_int_idx(es, s)),
        sort_int_idx(es, s).len() == s.len(),
        forall|k: int| 0 <= k < s.len() ==> s.contains(#[trigger] sort_int_idx(es, s)[k]),
    decreases s.len(),
{
    if s.len() > 0 {
        let d = s.drop_last();
        lemma_sort_int(es, d);
        let t = sort_int_idx(es, d);
        lemma_insert_int(es, t, s.last());
        let r = sort_int_idx(es, s);
        assert forall|k: int| 0 <= k < s.len() implies s.contains(#[trigger] r[k]) by {
            if r[k] == s.last() {
                assert(s[s.len() - 1] == s.last());
            } else {
                let m = choose|m: int| 0 <= m < t.len() && t[m] == r[k];
                assert(d.contains(t[m]));
                let n = choose|n: int| 0 <= n < d.len() && d[n] == t[m];
                assert(s[n] == d[n]);
            }
        }
    }
}

/// `b` does not come before `a` in text order, and `c` does not come before `b`: then `c` does
/// not come before `a`.
proof fn lemma_text_le_transitive(a: Seq<char>, b: Seq<char>, c: Seq<char>)
    requires
        !text_lt(b, a),
        !text_lt(c, b),
    ensures
        !text_lt(c, a),
{
    lemma_text_lt_total(a, b);
    lemma_text_lt_total(b, c);
    if text_lt(c, a) {
        if a == b {
        } else {
            lemma_text_lt_transitive(c, a, b);
        }
    }
}

proof fn lemma_insert_str(es: Seq<(LuaKey, LuaValue)>, s: Seq<int>, x: int)
    requires
        str_sorted(es, s),
    ensures
        str_sorted(es, insert_str_idx(es, s, x)),
        insert_str_idx(es, s, x).len() == s.len() + 1,
        forall|k: int| 0 <= k < s.len() + 1 ==> (#[trigger] insert_str_idx(es, s, x)[k] == x || s.contains(
            insert_str_idx(es, s, x)[k],
        )),
    decreases s.len(),
{
    let r = insert_str_idx(es, s, x);
    if s.len() == 0 {
    } else if !text_lt(str_key_at(es, x), str_key_at(es, s.last())) {
        assert forall|i: int, j: int| 0 <= i < j < r.len() implies !text_lt(str_key_at(es, #[trigger] r[j]), str_key_at(es, #[trigger] r[i])) by {
            if j < s.len() {
                assert(r[i] == s[i] && r[j] == s[j]);
            } else {
                assert(r[i] == s[i] && r[j] == x);
                if i < s.len() - 1 {
                    assert(!text_lt(str_key_at(es, s[s.len() - 1]), str_key_at(es, s[i])));
                    lemma_text_le_transitive(str_key_at(es, s[i]), str_key_at(es, s[s.len() - 1]), str_key_at(es, x));
                }
            }
        }
        assert forall|k: int| 0 <= k < s.len() + 1 implies (#[trigger] r[k] == x || s.contains(r[k])) by {
            if k < s.len() {
                assert(r[k] == s[k]);
            }
        }
    } else {
        let d = s.drop_last();
        assert(str_sorted(es, d)) by {
            assert forall|i: int, j: int| 0 <= i < j < d.len() implies !text_lt(str_key_at(es, #[trigger] d[j]), str_key_at(es, #[trigger] d[i])) by {
                assert(d[i] == s[i] && d[j] == s[j]);
            }
        }
        lemma_insert_str(es, d, x);
        let r0 = insert_str_idx(es, d, x);
        lemma_text_lt_total(str_key_at(es, x), str_key_at(es, s.last()));
        assert forall|k: int| 0 <= k < r0.len() implies !text_lt(str_key_at(es, s.last()), str_key_at(es, #[trigger] r0[k])) by {
            if r0[k] != x {
                let m = choose|m: int| 0 <= m < d.len() && d[m] == r0[k];
                assert(s[m] == d[m]);
                assert(!text_lt(str_key_at(es, s[s.len() - 1]), str_key_at(es, s[m])));
            }
        }
        assert forall|i: int, j: int| 0 <= i < j < r.len() implies !text_lt(str_key_at(es, #[trigger] r[j]), str_key_at(es, #[trigger] r[i])) by {
            if j < r0.len() {
                assert(r[i] == r0[i] && r[j] == r0[j]);
            } else {
                assert(r[i] == r0[i]);
                assert(r[j] == s.last());
            }
        }
        assert forall|k: int| 0 <= k < s.len() + 1 implies (#[trigger] r[k] == x || s.contains(r[k])) by {
            if k < r0.len() {
                assert(r[k] == r0[k]);
                if r0[k] != x {
                    let m = choose|m: int| 0 <= m < d.len() && d[m] == r0[k];
                    assert(s[m] == d[m]);
                }
            } else {
                assert(r[k] == s[s.len() - 1]);
            }
        }
    }
}

proof fn lemma_sort_str(es: Seq<(LuaKey, LuaValue)>, s: Seq<int>)
    ensures
        str_sorted(es, sort_str_idx(es, s)),
        sort_str_idx(es, s).len() == s.len(),
        forall|k: int| 0 <= k < s.len() ==> s.contains(#[trigger] sort_str_idx(es, s)[k]),
    decreases s.len(),
{
    if s.len() > 0 {
        let d = s.drop_last();
        lemma_sort_str(es, d);
        let t = sort_str_idx(es, d);
        lemma_insert_str(es, t, s.last());
        let r = sort_str_idx(es, s);
        assert forall|k: int| 0 <= k < s.len() implies s.contains(#[trigger] r[k]) by {
            if r[k] == s.last() {
                assert(s[s.len() - 1] == s.last());
            } else {
                let m = choose|m: int| 0 <= m < t.len() && t[m] == r[k];
                assert(d.contains(t[m]));
                let n = choose|n: int| 0 <= n < d.len() && d[n] == t[m];
                assert(s[n] == d[n]);
            }
        }
    }
}

/// The writer lists a table's integer-keyed entries first, in ascending order of their keys,
/// and then its string-keyed entries, in ascending order of their text (`serialize_table`
/// writes the entries in `write_order`).
pub proof fn lemma_write_order_sorted(es: Seq<(LuaKey, LuaValue)>)
    ensures
        ({
            let o = write_order(es);
            let n = int_keyed(es).len() as int;
            &&& o.len() == n + str_keyed(es).len()
            &&& forall|i: int| 0 <= i < o.len() ==> 0 <= #[trigger] o[i] < es.len()
            &&& forall|i: int| 0 <= i < n ==> es[#[trigger] o[i]].0 is Int
            &&& forall|i: int| n <= i < o.len() ==> es[#[trigger] o[i]].0 is Str
            &&& forall|i: int, j: int| 0 <= i < j < n ==> int_key_at(es, #[trigger] o[i]) <= int_key_at(es, #[trigger] o[j])
            &&& forall|i: int, j: int| n <= i < j < o.len() ==> !text_lt(
                str_key_at(es, #[trigger] o[j]),
                str_key_at(es, #[trigger] o[i]),
            )
        }),
{
    let a = sort_int_idx(es, int_keyed(es));
    let b = sort_str_idx(es, str_keyed(es));
    let o = write_order(es);
    let n = int_keyed(es).len() as int;
    lemma_int_keyed(es);
    lemma_str_keyed(es);
    lemma_sort_int(es, int_keyed(es));
    lemma_sort_str(es, str_keyed(es));
    assert(o == a + b);
    assert forall|i: int| 0 <= i < o.len() implies 0 <= #[trigger] o[i] < es.len() && (i < n ==> es[o[i]].0 is Int)
        && (i >= n ==> es[o[i]].0 is Str) by {
        if i < n {
            assert(o[i] == a[i]);
            assert(int_keyed(es).contains(a[i]));
        } else {
            assert(o[i] == b[i - n]);
            assert(str_keyed(es).contains(b[i - n]));
        }
    }
    assert forall|i: int, j: int| 0 <= i < j < n implies int_key_at(es, #[trigger] o[i]) <= int_key_at(es, #[trigger] o[j]) by {
        assert(o[i] == a[i] && o[j] == a[j]);
    }
    assert forall|i: int, j: int| n <= i < j < o.len() implies !text_lt(str_key_at(es, #[trigger] o[j]), str_key_at(es, #[trigger] o[i])) by {
        assert(o[i] == b[i - n] && o[j] == b[j - n]);
    }
}

} // verus!
