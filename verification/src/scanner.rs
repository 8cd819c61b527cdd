//! Library scanning decisions: which files are items, and which extensionless files the Kobo
//! database names.
use vstd::prelude::*;
use vstd::utf8::{decode_utf8, encode_utf8, valid_utf8};
use crate::kobo::{copy_hints, texts, HintsView, KoboContentEntry, KoboFileHints};
use crate::paths::{extension, file_name, last_sep, spec_extension, spec_file_name};
use crate::text::{chars_of, copy_string, str_eq, string_from_chars, trim_chars, trim_ws};

verus! {

/// What `String::from_utf8_lossy` makes of a byte string.
pub uninterp spec fn utf8_lossy(b: Seq<u8>) -> Seq<char>;

/// `String::from_utf8_lossy`: the text that `utf8_lossy` names, which for valid UTF-8 is the
/// decoded text (invalid sequences become U+FFFD, which is not stated here).
#[verifier::external_body]
pub(crate) fn from_utf8_lossy(b: &[u8]) -> (r: String)
    ensures
        r@ == utf8_lossy(b@),
        valid_utf8(b@) ==> r@ == decode_utf8(b@),
{
    String::from_utf8_lossy(b).into_owned()
}

/// Where KOReader keeps the metadata of the books.
pub enum MetadataLocation {
    /// In a `.sdr` folder next to each book.
    InBookFolder,
    /// In a docsettings folder that mirrors the full path of each book.
    DocSettings(String),
    /// In a hashdocsettings folder, by partial MD5 of each book.
    HashDocSettings(String),
}

/// The formats of library items.
#[derive(Clone, Copy, Debug, PartialEq, Eq, Structural)]
pub enum LibraryItemFormat {
    Epub,
    Fb2,
    Mobi,
    Cbz,
    Cbr,
}

/// A file found in the library.
pub struct CollectedItem {
    pub path: String,
    pub format: LibraryItemFormat,
    pub kobo_hints: Option<KoboFileHints>,
}

/// Options of a library scan.
pub struct CollectionOptions {
    pub kobo_db_path: Option<String>,
}

/// Index of the first `c` in `s`, or its length.
pub open spec fn first_index(s: Seq<char>, c: char) -> int
    decreases s.len(),
{
    if s.len() == 0 || s[0] == c {
        0
    } else {
        1 + first_index(s.drop_first(), c)
    }
}

/// What precedes the first `c` in `s` (all of `s` when there is none).
pub open spec fn before_first(s: Seq<char>, c: char) -> Seq<char> {
    s.take(first_index(s, c))
}

/// What follows the last `/` in `s` (all of `s` when there is none).
pub open spec fn last_segment(s: Seq<char>) -> Seq<char> {
    s.subrange(last_sep(s) + 1, s.len() as int)
}

/// The value of a hex digit.
pub open spec fn hex_val(b: u8) -> Option<u8> {
    if 48 <= b <= 57 {
        Some((b - 48) as u8)
    } else if 97 <= b <= 102 {
        Some((b - 97 + 10) as u8)
    } else if 65 <= b <= 70 {
        Some((b - 65 + 10) as u8)
    } else {
        None
    }
}

/// `b` with each `%XY` (two hex digits) replaced by the byte it codes.
pub open spec fn pct_decode(b: Seq<u8>) -> Seq<u8>
    decreases b.len(),
{
    if b.len() == 0 {
        Seq::empty()
    } else if b[0] == 37 && 2 < b.len() && hex_val(b[1]) is Some && hex_val(b[2]) is Some {
        seq![(hex_val(b[1])->0 * 16 + hex_val(b[2])->0) as u8] + pct_decode(b.skip(3))
    } else {
        seq![b[0]] + pct_decode(b.skip(1))
    }
}

/// The percent-decoded text of `s`.
pub open spec fn decoded_text(s: Seq<char>) -> Seq<char> {
    utf8_lossy(pct_decode(encode_utf8(s)))
}

/// `vals` with `v` added at the end, unless it is empty or already there.
pub open spec fn with_unique(vals: Seq<Seq<char>>, v: Seq<char>) -> Seq<Seq<char>> {
    if v.len() > 0 && !vals.contains(v) {
        vals.push(v)
    } else {
        vals
    }
}

/// `file://`.
pub open spec fn file_scheme() -> Seq<char> {
    seq!['f', 'i', 'l', 'e', ':', '/', '/']
}

/// The file names under which a Kobo content ID may be found in the library: the ID without
/// its fragment and query, its last path segment percent-decoded, and for a `file://` URL the
/// last segment of the decoded path; empty ones and repeats left out.
pub open spec fn candidates_of(content_id: Seq<char>) -> Seq<Seq<char>> {
    let t = trim_ws(content_id);
    if t.len() == 0 {
        Seq::empty()
    } else {
        let q = before_first(before_first(t, '#'), '?');
        let c0 = with_unique(Seq::empty(), q);
        let seg = last_segment(q);
        let c1 = if seg.len() > 0 {
            with_unique(c0, decoded_text(seg))
        } else {
            c0
        };
        if q.len() >= 7 && q.take(7) == file_scheme() {
            let d = last_segment(decoded_text(q.skip(7)));
            if d.len() > 0 {
                with_unique(c1, d)
            } else {
                c1
            }
        } else {
            c1
        }
    }
}

/// The value of a hex digit, if `byte` is one.
pub fn hex_value(byte: u8) -> (r: Option<u8>)
    ensures
        r == hex_val(byte),
{
    if 48 <= byte && byte <= 57 {
        Some(byte - 48)
    } else if 97 <= byte && byte <= 102 {
        Some(byte - 97 + 10)
    } else if 65 <= byte && byte <= 70 {
        Some(byte - 65 + 10)
    } else {
        None
    }
}

/// Decodes `%XY` escapes in `input`; the bytes are read as UTF-8, lossily.
pub fn percent_decode(input: &str) -> (r: String)
    ensures
        r@ == decoded_text(input@),
{
    let bytes = input.as_bytes();
    let ghost b = bytes@;
    assert(b == encode_utf8(input@));
    let mut output: Vec<u8> = Vec::new();
    let mut i: usize = 0;
    assert(b.skip(0) =~= b);
    while i < bytes.len()
        invariant
            i <= bytes.len(),
            b == bytes@,
            output@ + pct_decode(b.skip(i as int)) == pct_decode(b),
        decreases bytes.len() - i,
    {
        let ghost rest = b.skip(i as int);
        assert(rest[0] == b[i as int]);
        if bytes[i] == 37 && bytes.len() > 2 && i < bytes.len() - 2 {
            let hi = hex_value(bytes[i + 1]);
            let lo = hex_value(bytes[i + 2]);
            assert(rest[1] == b[i + 1] && rest[2] == b[i + 2]);
            match (hi, lo) {
                (Some(h), Some(l)) => {
                    assert(rest.skip(3) =~= b.skip(i + 3));
                    output.push(h * 16 + l);
                    i += 3;
                    assert(output@ + pct_decode(b.skip(i as int)) =~= pct_decode(b));
                    continue;
                },
                _ => {},
            }
        }
        assert(rest.skip(1) =~= b.skip(i + 1));
        output.push(bytes[i]);
        i += 1;
        assert(output@ + pct_decode(b.skip(i as int)) =~= pct_decode(b));
    }
    assert(b.skip(i as int) =~= Seq::<u8>::empty());
    assert(output@ =~= pct_decode(b));
    from_utf8_lossy(output.as_slice())
}

/// Adds `value` at the end of `values`, unless it is empty or already there.
pub fn push_unique(values: &mut Vec<String>, value: String)
    ensures
        texts(final(values)@) == with_unique(texts(old(values)@), value@),
{
    let mut i: usize = 0;
    while i < values.len()
        invariant
            i <= values.len(),
            forall|j: int| 0 <= j < i ==> values@[j]@ != value@,
        decreases values.len() - i,
    {
        if str_eq(values[i].as_str(), value.as_str()) {
            assert(texts(values@)[i as int] == value@);
            return ;
        }
        i += 1;
    }
    let ghost before = texts(values@);
    assert(!before.contains(value@)) by {
        assert forall|j: int| 0 <= j < before.len() implies before[j] != value@ by {
            assert(before[j] == values@[j]@);
        }
    }
    if !value.as_str().is_empty() {
        values.push(value);
        assert(texts(values@) =~= before.push(value@));
    } else {
        assert(value@.len() == 0);
    }
}

/// Copy of `v[lo..hi]`.
fn slice_chars(v: &Vec<char>, lo: usize, hi: usize) -> (r: Vec<char>)
    requires
        lo <= hi <= v.len(),
    ensures
        r@ == v@.subrange(lo as int, hi as int),
{
    let mut out: Vec<char> = Vec::new();
    let mut i = lo;
    while i < hi
        invariant
            lo <= i <= hi <= v.len(),
            out@ == v@.subrange(lo as int, i as int),
        decreases hi - i,
    {
        out.push(v[i]);
        i += 1;
        assert(out@ =~= v@.subrange(lo as int, i as int));
    }
    out
}

/// What precedes the first `c` in `v`.
pub(crate) fn chars_before(v: &Vec<char>, c: char) -> (r: Vec<char>)
    ensures
        r@ == before_first(v@, c),
{
    let mut i: usize = 0;
    assert(v@.skip(0) =~= v@);
    while i < v.len() && v[i] != c
        invariant
            i <= v.len(),
            first_index(v@, c) == i + first_index(v@.skip(i as int), c),
        decreases v.len() - i,
    {
        assert(v@.skip(i as int).drop_first() =~= v@.skip(i + 1));
        i += 1;
    }
    assert(first_index(v@.skip(i as int), c) == 0) by {
        if i < v.len() {
            assert(v@.skip(i as int)[0] == v@[i as int]);
        }
    }
    slice_chars(v, 0, i)
}

/// What follows the last `/` in `v`.
fn chars_after_last_slash(v: &Vec<char>) -> (r: Vec<char>)
    ensures
        r@ == last_segment(v@),
{
    let mut k = v.len();
    assert(v@.subrange(0, k as int) =~= v@);
    while k > 0 && v[k - 1] != '/'
        invariant
            k <= v.len(),
            last_sep(v@) == last_sep(v@.subrange(0, k as int)),
        decreases k,
    {
        assert(v@.subrange(0, k as int).drop_last() =~= v@.subrange(0, k - 1));
        k = k - 1;
    }
    if k > 0 {
        assert(v@.subrange(0, k as int).last() == '/');
    }
    slice_chars(v, k, v.len())
}

/// The file names under which a Kobo content ID may be found in the library.
pub fn filename_candidates(content_id: &str) -> (r: Vec<String>)
    ensures
        texts(r@) == candidates_of(content_id@),
{
    let t = trim_chars(&chars_of(content_id));
    let mut candidates: Vec<String> = Vec::new();
    if t.len() == 0 {
        assert(texts(candidates@) =~= Seq::<Seq<char>>::empty());
        return candidates;
    }
    let q = chars_before(&chars_before(&t, '#'), '?');
    let ghost qv = q@;
    push_unique(&mut candidates, string_from_chars(q.as_slice()));
    assert(texts(candidates@) == with_unique(Seq::empty(), qv)) by {
        assert(texts(Seq::<String>::empty()) =~= Seq::<Seq<char>>::empty());
    }
    let seg = chars_after_last_slash(&q);
    if seg.len() > 0 {
        let seg_text = string_from_chars(seg.as_slice());
        push_unique(&mut candidates, percent_decode(seg_text.as_str()));
    }
    let scheme: [char; 7] = ['f', 'i', 'l', 'e', ':', '/', '/'];
    assert(scheme@ =~= file_scheme());
    let mut is_file_url = q.len() >= 7;
    if is_file_url {
        let mut j: usize = 0;
        while j < 7
            invariant
                q.len() >= 7,
                j <= 7,
                scheme@ == file_scheme(),
                is_file_url <==> forall|k: int| 0 <= k < j ==> q@[k] == scheme@[k],
            decreases 7 - j,
        {
            if q[j] != scheme[j] {
                is_file_url = false;
            }
            j += 1;
        }
        assert(is_file_url <==> q@.take(7) =~= file_scheme());
    }
    if is_file_url {
        let rest = string_from_chars(slice_chars(&q, 7, q.len()).as_slice());
        assert(rest@ =~= qv.skip(7));
        let decoded = percent_decode(rest.as_str());
        let last = chars_after_last_slash(&chars_of(decoded.as_str()));
        if last.len() > 0 {
            push_unique(&mut candidates, string_from_chars(last.as_slice()));
        }
    }
    candidates
}

/// The hints of the first entry, in order, one of whose candidate file names is `name`.
pub open spec fn first_hint(entries: Seq<KoboContentEntry>, name: Seq<char>) -> Option<HintsView>
    decreases entries.len(),
{
    if entries.len() == 0 {
        None
    } else {
        match first_hint(entries.drop_last(), name) {
            Some(h) => Some(h),
            None => if candidates_of(entries.last().hints.content_id@).contains(name) {
                Some(entries.last().hints@)
            } else {
                None
            },
        }
    }
}

/// The hints held for `name` in a list of (file name, hints) pairs.
pub open spec fn pair_lookup(m: Seq<(String, KoboFileHints)>, name: Seq<char>) -> Option<HintsView>
    decreases m.len(),
{
    if m.len() == 0 {
        None
    } else if m.last().0@ == name {
        Some(m.last().1@)
    } else {
        pair_lookup(m.drop_last(), name)
    }
}

/// Kobo books by candidate file name.
pub struct KoboMatchIndex {
    by_filename: Vec<(String, KoboFileHints)>,
}

impl KoboMatchIndex {
    /// The hints the index holds for the file name `name`.
    pub closed spec fn hint_for(&self, name: Seq<char>) -> Option<HintsView> {
        pair_lookup(self.by_filename@, name)
    }

    /// The index of the entries of a Kobo database: each candidate file name of an entry leads
    /// to the first entry that has it.
    pub fn from_entries(entries: &Vec<KoboContentEntry>) -> (r: Self)
        ensures
            forall|name: Seq<char>| #[trigger] r.hint_for(name) == first_hint(entries@, name),
    {
        let mut by_filename: Vec<(String, KoboFileHints)> = Vec::new();
        let mut i: usize = 0;
        while i < entries.len()
            invariant
                i <= entries.len(),
                forall|name: Seq<char>|
                    #[trigger] pair_lookup(by_filename@, name) == first_hint(
                        entries@.take(i as int),
                        name,
                    ),
            decreases entries.len() - i,
        {
            let ghost pre = entries@.take(i as int);
            assert(entries@.take(i + 1).drop_last() =~= pre);
            let hints = &entries[i].hints;
            let cands = filename_candidates(hints.content_id.as_str());
            let ghost cv = texts(cands@);
            let mut j: usize = 0;
            while j < cands.len()
                invariant
                    j <= cands.len(),
                    i < entries.len(),
                    pre == entries@.take(i as int),
                    cv == texts(cands@),
                    cv == candidates_of(entries@[i as int].hints.content_id@),
                    *hints == entries@[i as int].hints,
                    forall|name: Seq<char>|
                        #[trigger] pair_lookup(by_filename@, name) == (match first_hint(pre, name) {
                            Some(h) => Some(h),
                            None => if cv.take(j as int).contains(name) {
                                Some(hints@)
                            } else {
                                None
                            },
                        }),
                decreases cands.len() - j,
            {
                let ghost c = cv[j as int];
                assert(cands@[j as int]@ == c);
                let ghost m0 = by_filename@;
                let mut present = false;
                let mut k: usize = 0;
                while k < by_filename.len()
                    invariant
                        k <= by_filename.len(),
                        j < cands.len(),
                        c == cands@[j as int]@,
                        present ==> pair_lookup(by_filename@, c) is Some,
                        !present ==> forall|x: int| 0 <= x < k ==> by_filename@[x].0@ != c,
                    decreases by_filename.len() - k,
                {
                    if !present && str_eq(by_filename[k].0.as_str(), cands[j].as_str()) {
                        proof {
                            lemma_pair_lookup_found(by_filename@, k as int, c);
                        }
                        present = true;
                    }
                    k += 1;
                }
                if !present {
                    proof {
                        lemma_pair_lookup_absent(by_filename@, c);
                    }
                    by_filename.push((copy_string(&cands[j]), copy_hints(hints)));
                    assert(by_filename@.drop_last() =~= m0);
                    assert(by_filename@.last().0@ == c);
                    assert(by_filename@.last().1@ == hints@);
                }
                assert forall|name: Seq<char>|
                    #[trigger] pair_lookup(by_filename@, name) == (match first_hint(pre, name) {
                        Some(h) => Some(h),
                        None => if cv.take(j + 1).contains(name) {
                            Some(hints@)
                        } else {
                            None
                        },
                    }) by {
                    assert(cv.take(j + 1) =~= cv.take(j as int).push(c));
                    assert(pair_lookup(m0, name) == (match first_hint(pre, name) {
                        Some(h) => Some(h),
                        None => if cv.take(j as int).contains(name) {
                            Some(hints@)
                        } else {
                            None
                        },
                    }));
                    assert(pair_lookup(m0, c) == (match first_hint(pre, c) {
                        Some(h) => Some(h),
                        None => if cv.take(j as int).contains(c) {
                            Some(hints@)
                        } else {
                            None
                        },
                    }));
                    assert(cv.take(j + 1).contains(c)) by {
                        assert(cv.take(j + 1)[j as int] == c);
                    }
                    if cv.take(j + 1).contains(name) && !cv.take(j as int).contains(name) {
                        assert(name == c);
                    }
                    if cv.take(j as int).contains(name) {
                        let x = choose|x: int| 0 <= x < j && cv.take(j as int)[x] == name;
                        assert(cv.take(j + 1)[x] == name);
                    }
                }
                j += 1;
            }
            assert(cv.take(cands.len() as int) =~= cv);
            assert forall|name: Seq<char>|
                #[trigger] pair_lookup(by_filename@, name) == first_hint(
                    entries@.take(i + 1),
                    name,
                ) by {
                assert(entries@.take(i + 1).last() == entries@[i as int]);
            }
            i += 1;
        }
        assert(entries@.take(entries.len() as int) =~= entries@);
        KoboMatchIndex { by_filename }
    }

    /// The hints for the file named by the last component of `path`, if any entry has that name.
    pub fn match_path(&self, path: &str) -> (r: Option<KoboFileHints>)
        ensures
            match spec_file_name(path@) {
                Some(name) => match (r, self.hint_for(name)) {
                    (Some(h), Some(v)) => h@ == v,
                    (None, None) => true,
                    _ => false,
                },
                None => r is None,
            },
    {
        let name = match file_name(path) {
            Some(n) => n,
            None => {
                return None;
            },
        };
        assert(spec_file_name(path@) == Some(name@));
        let mut k = self.by_filename.len();
        assert(self.by_filename@.take(k as int) =~= self.by_filename@);
        while k > 0
            invariant
                k <= self.by_filename.len(),
                spec_file_name(path@) == Some(name@),
                pair_lookup(self.by_filename@, name@) == pair_lookup(
                    self.by_filename@.take(k as int),
                    name@,
                ),
            decreases k,
        {
            let ghost t = self.by_filename@.take(k as int);
            assert(t.drop_last() =~= self.by_filename@.take(k - 1));
            assert(t.last() == self.by_filename@[k - 1]);
            if str_eq(self.by_filename[k - 1].0.as_str(), name.as_str()) {
                return Some(copy_hints(&self.by_filename[k - 1].1));
            }
            k -= 1;
        }
        None
    }
}

proof fn lemma_pair_lookup_found(m: Seq<(String, KoboFileHints)>, k: int, c: Seq<char>)
    requires
        0 <= k < m.len(),
        m[k].0@ == c,
    ensures
        pair_lookup(m, c) is Some,
    decreases m.len(),
{
    if k < m.len() - 1 && m.last().0@ != c {
        assert(m.drop_last()[k] == m[k]);
        lemma_pair_lookup_found(m.drop_last(), k, c);
    }
}

proof fn lemma_pair_lookup_absent(m: Seq<(String, KoboFileHints)>, c: Seq<char>)
    requires
        forall|x: int| 0 <= x < m.len() ==> m[x].0@ != c,
    ensures
        pair_lookup(m, c) is None,
    decreases m.len(),
{
    if m.len() > 0 {
        assert forall|x: int| 0 <= x < m.drop_last().len() implies m.drop_last()[x].0@ != c by {
            assert(m.drop_last()[x] == m[x]);
        }
        lemma_pair_lookup_absent(m.drop_last(), c);
    }
}

/// A character with ASCII upper-case letters folded to lower case, as a code point.
pub open spec fn ascii_fold(c: char) -> u32 {
    if 'A' <= c <= 'Z' {
        (c as u32 + 32) as u32
    } else {
        c as u32
    }
}

/// Whether `a` and `b` are equal but for ASCII case.
pub open spec fn eq_ignore_ascii_case(a: Seq<char>, b: Seq<char>) -> bool {
    a.len() == b.len() && forall|i: int| 0 <= i < a.len() ==> ascii_fold(a[i]) == ascii_fold(b[i])
}

/// Whether `s` ends with `suffix`, ASCII case aside.
pub open spec fn ends_with_ignore_case(s: Seq<char>, suffix: Seq<char>) -> bool {
    s.len() >= suffix.len() && eq_ignore_ascii_case(s.skip(s.len() - suffix.len()), suffix)
}

/// The format of the library item at `path`: by its extension (`epub`, `fb2`, `mobi`, `cbz`,
/// `cbr`, ASCII case aside), or `Fb2` for a file name ending in `.fb2.zip`.
pub open spec fn format_of(path: Seq<char>) -> Option<LibraryItemFormat> {
    let ext = match spec_extension(path) {
        Some(e) => e,
        None => Seq::empty(),
    };
    let name = match spec_file_name(path) {
        Some(n) => n,
        None => Seq::empty(),
    };
    if spec_extension(path) is Some && eq_ignore_ascii_case(ext, seq!['e', 'p', 'u', 'b']) {
        Some(LibraryItemFormat::Epub)
    } else if spec_extension(path) is Some && eq_ignore_ascii_case(ext, seq!['f', 'b', '2']) {
        Some(LibraryItemFormat::Fb2)
    } else if spec_extension(path) is Some && eq_ignore_ascii_case(ext, seq!['m', 'o', 'b', 'i']) {
        Some(LibraryItemFormat::Mobi)
    } else if spec_extension(path) is Some && eq_ignore_ascii_case(ext, seq!['c', 'b', 'z']) {
        Some(LibraryItemFormat::Cbz)
    } else if spec_extension(path) is Some && eq_ignore_ascii_case(ext, seq!['c', 'b', 'r']) {
        Some(LibraryItemFormat::Cbr)
    } else if ends_with_ignore_case(name, seq!['.', 'f', 'b', '2', '.', 'z', 'i', 'p']) {
        Some(LibraryItemFormat::Fb2)
    } else {
        None
    }
}

fn fold_char(c: char) -> (r: u32)
    ensures
        r == ascii_fold(c),
{
    let u = c as u32;
    if 65 <= u && u <= 90 {
        u + 32
    } else {
        u
    }
}

/// Whether `s[start..]` equals `lit`, ASCII case aside.
fn tail_eq_ignore_case(s: &Vec<char>, lit: &Vec<char>) -> (r: bool)
    ensures
        r == ends_with_ignore_case(s@, lit@),
{
    if s.len() < lit.len() {
        return false;
    }
    let start = s.len() - lit.len();
    let ghost t = s@.skip(start as int);
    let mut i: usize = 0;
    while i < lit.len()
        invariant
            i <= lit.len(),
            start + lit.len() == s.len(),
            t == s@.skip(start as int),
            forall|j: int| 0 <= j < i ==> ascii_fold(t[j]) == ascii_fold(lit@[j]),
        decreases lit.len() - i,
    {
        assert(t[i as int] == s@[start + i]);
        if fold_char(s[start + i]) != fold_char(lit[i]) {
            return false;
        }
        i += 1;
    }
    true
}

impl LibraryItemFormat {
    /// The format of the item at `path`, if it is one the library reads.
    pub fn from_path(path: &str) -> (r: Option<LibraryItemFormat>)
        ensures
            r == format_of(path@),
    {
        let ext = match extension(path) {
            Some(e) => chars_of(e.as_str()),
            None => Vec::new(),
        };
        let has_ext = extension(path).is_some();
        let name = match file_name(path) {
            Some(n) => chars_of(n.as_str()),
            None => Vec::new(),
        };
        let epub = vec!['e', 'p', 'u', 'b'];
        let fb2 = vec!['f', 'b', '2'];
        let mobi = vec!['m', 'o', 'b', 'i'];
        let cbz = vec!['c', 'b', 'z'];
        let cbr = vec!['c', 'b', 'r'];
        let fb2zip = vec!['.', 'f', 'b', '2', '.', 'z', 'i', 'p'];
        proof {
            assert(ext@.skip(0) =~= ext@);
        }
        if has_ext && ext.len() == epub.len() && tail_eq_ignore_case(&ext, &epub) {
            Some(LibraryItemFormat::Epub)
        } else if has_ext && ext.len() == fb2.len() && tail_eq_ignore_case(&ext, &fb2) {
            Some(LibraryItemFormat::Fb2)
        } else if has_ext && ext.len() == mobi.len() && tail_eq_ignore_case(&ext, &mobi) {
            Some(LibraryItemFormat::Mobi)
        } else if has_ext && ext.len() == cbz.len() && tail_eq_ignore_case(&ext, &cbz) {
            Some(LibraryItemFormat::Cbz)
        } else if has_ext && ext.len() == cbr.len() && tail_eq_ignore_case(&ext, &cbr) {
            Some(LibraryItemFormat::Cbr)
        } else if tail_eq_ignore_case(&name, &fb2zip) {
            Some(LibraryItemFormat::Fb2)
        } else {
            None
        }
    }
}

/// The item a library walk yields for the entry at `path` (`is_file` when it is a regular file):
/// a file of a known format, or else an extensionless file that the Kobo index names, read as
/// EPUB with the Kobo hints.
pub open spec fn collected_for(path: Seq<char>, is_file: bool, index: Option<&KoboMatchIndex>) -> Option<
    (LibraryItemFormat, Option<HintsView>),
> {
    match format_of(path) {
        Some(f) => Some((f, None)),
        None => match index {
            Some(ix) => if is_file && spec_extension(path) is None && spec_file_name(path) is Some
                && ix.hint_for(spec_file_name(path)->0) is Some {
                Some((LibraryItemFormat::Epub, Some(ix.hint_for(spec_file_name(path)->0)->0)))
            } else {
                None
            },
            None => None,
        },
    }
}

/// Whether `path` has no extension.
pub fn is_extensionless(path: &str) -> (r: bool)
    ensures
        r == (spec_extension(path@) is None),
{
    extension(path).is_none()
}

/// The item a library walk yields for the entry at `path`, if any.
pub fn collect_entry(path: &str, is_file: bool, kobo_index: Option<&KoboMatchIndex>) -> (r: Option<
    CollectedItem,
>)
    ensures
        match (r, collected_for(path@, is_file, kobo_index)) {
            (Some(item), Some((f, h))) => item.path@ == path@ && item.format == f && match (
                item.kobo_hints,
                h,
            ) {
                (Some(x), Some(y)) => x@ == y,
                (None, None) => true,
                _ => false,
            },
            (None, None) => true,
            _ => false,
        },
{
    if let Some(format) = LibraryItemFormat::from_path(path) {
        return Some(
            CollectedItem { path: string_from_chars(chars_of(path).as_slice()), format, kobo_hints: None },
        );
    }
    match kobo_index {
        Some(index) => {
            if is_file && is_extensionless(path) {
                match index.match_path(path) {
                    Some(hints) => Some(
                        CollectedItem {
                            path: string_from_chars(chars_of(path).as_slice()),
                            format: LibraryItemFormat::Epub,
                            kobo_hints: Some(hints),
                        },
                    ),
                    None => None,
                }
            } else {
                None
            }
        },
        None => None,
    }
}

proof fn lemma_with_unique(vals: Seq<Seq<char>>, v: Seq<char>)
    requires
        forall|i: int| 0 <= i < vals.len() ==> (#[trigger] vals[i]).len() > 0,
        forall|i: int, j: int| 0 <= i < j < vals.len() ==> #[trigger] vals[i] != #[trigger] vals[j],
    ensures
        ({
            let r = with_unique(vals, v);
            &&& vals.len() <= r.len() <= vals.len() + 1
            &&& forall|i: int| 0 <= i < vals.len() ==> #[trigger] r[i] == vals[i]
            &&& forall|i: int| 0 <= i < r.len() ==> (#[trigger] r[i]).len() > 0
            &&& forall|i: int, j: int| 0 <= i < j < r.len() ==> #[trigger] r[i] != #[trigger] r[j]
        }),
{
    let r = with_unique(vals, v);
    if v.len() > 0 && !vals.contains(v) {
        assert forall|i: int, j: int| 0 <= i < j < r.len() implies #[trigger] r[i] != #[trigger] r[j] by {
            if j == vals.len() {
                assert(r[i] == vals[i]);
                assert(vals.contains(vals[i]));
            }
        }
    }
}

/// The file-name candidates of a content ID hold no empty name and no name twice, are at most
/// three, and are none exactly when the ID without its fragment and query is empty; otherwise
/// the first is that ID (see `filename_candidates`).
pub proof fn lemma_filename_candidates_shape(content_id: Seq<char>)
    ensures
        ({
            let c = candidates_of(content_id);
            let q = before_first(before_first(trim_ws(content_id), '#'), '?');
            &&& c.len() <= 3
            &&& forall|i: int| 0 <= i < c.len() ==> (#[trigger] c[i]).len() > 0
            &&& forall|i: int, j: int| 0 <= i < j < c.len() ==> #[trigger] c[i] != #[trigger] c[j]
            &&& (c.len() == 0 <==> q.len() == 0)
            &&& q.len() > 0 ==> c[0] == q
        }),
{
    let t = trim_ws(content_id);
    let q = before_first(before_first(t, '#'), '?');
    if t.len() == 0 {
        assert(before_first(t, '#').len() == 0);
        assert(q.len() == 0);
    } else {
        let e = Seq::<Seq<char>>::empty();
        lemma_with_unique(e, q);
        let c0 = with_unique(e, q);
        let seg = last_segment(q);
        let c1 = if seg.len() > 0 {
            with_unique(c0, decoded_text(seg))
        } else {
            c0
        };
        lemma_with_unique(c0, decoded_text(seg));
        if q.len() >= 7 && q.take(7) == file_scheme() {
            let d = last_segment(decoded_text(q.skip(7)));
            lemma_with_unique(c1, d);
        }
        if q.len() == 0 {
            assert(c0.len() == 0);
            assert(seg.len() == 0);
        } else {
            assert(!e.contains(q));
            assert(c0 == seq![q]);
        }
    }
}

/// Whether `e` spells a word letter by letter, each letter as in `lower` or as in `upper`.
pub open spec fn spells_ignoring_case(e: Seq<char>, lower: Seq<char>, upper: Seq<char>) -> bool {
    &&& e.len() == lower.len()
    &&& forall|i: int| 0 <= i < e.len() ==> (#[trigger] e[i] == lower[i] || e[i] == upper[i])
}

proof fn lemma_spells_folds(e: Seq<char>, lower: Seq<char>, upper: Seq<char>)
    requires
        spells_ignoring_case(e, lower, upper),
        lower.len() == upper.len(),
        forall|i: int| 0 <= i < lower.len() ==> ascii_fold(#[trigger] upper[i]) == ascii_fold(lower[i]),
    ensures
        eq_ignore_ascii_case(e, lower),
{
    assert forall|i: int| 0 <= i < e.len() implies ascii_fold(e[i]) == ascii_fold(lower[i]) by {
        assert(e[i] == lower[i] || e[i] == upper[i]);
        assert(ascii_fold(upper[i]) == ascii_fold(lower[i]));
    }
}

/// A library item is recognised by its extension, whatever the case of its letters: `epub`,
/// `fb2`, `mobi`, `cbz` and `cbr` give the format of that name.
pub proof fn lemma_format_follows_extension(path: Seq<char>, e: Seq<char>)
    requires
        spec_extension(path) == Some(e),
    ensures
        spells_ignoring_case(e, seq!['e', 'p', 'u', 'b'], seq!['E', 'P', 'U', 'B']) ==> format_of(path) == Some(
            LibraryItemFormat::Epub,
        ),
        spells_ignoring_case(e, seq!['f', 'b', '2'], seq!['F', 'B', '2']) ==> format_of(path) == Some(
            LibraryItemFormat::Fb2,
        ),
        spells_ignoring_case(e, seq!['m', 'o', 'b', 'i'], seq!['M', 'O', 'B', 'I']) ==> format_of(path) == Some(
            LibraryItemFormat::Mobi,
        ),
        spells_ignoring_case(e, seq!['c', 'b', 'z'], seq!['C', 'B', 'Z']) ==> format_of(path) == Some(
            LibraryItemFormat::Cbz,
        ),
        spells_ignoring_case(e, seq!['c', 'b', 'r'], seq!['C', 'B', 'R']) ==> format_of(path) == Some(
            LibraryItemFormat::Cbr,
        ),
{
    let el = seq!['e', 'p', 'u', 'b'];
    let eu = seq!['E', 'P', 'U', 'B'];
    let fl = seq!['f', 'b', '2'];
    let fu = seq!['F', 'B', '2'];
    let ml = seq!['m', 'o', 'b', 'i'];
    let mu = seq!['M', 'O', 'B', 'I'];
    let zl = seq!['c', 'b', 'z'];
    let zu = seq!['C', 'B', 'Z'];
    let rl = seq!['c', 'b', 'r'];
    let ru = seq!['C', 'B', 'R'];
    assert forall|i: int| 0 <= i < 4 implies ascii_fold(#[trigger] eu[i]) == ascii_fold(el[i]) by {}
    assert forall|i: int| 0 <= i < 3 implies ascii_fold(#[trigger] fu[i]) == ascii_fold(fl[i]) by {}
    assert forall|i: int| 0 <= i < 4 implies ascii_fold(#[trigger] mu[i]) == ascii_fold(ml[i]) by {}
    assert forall|i: int| 0 <= i < 3 implies ascii_fold(#[trigger] zu[i]) == ascii_fold(zl[i]) by {}
    assert forall|i: int| 0 <= i < 3 implies ascii_fold(#[trigger] ru[i]) == ascii_fold(rl[i]) by {}
    if spells_ignoring_case(e, el, eu) {
        lemma_spells_folds(e, el, eu);
    }
    if spells_ignoring_case(e, fl, fu) {
        lemma_spells_folds(e, fl, fu);
        assert(e[0] == 'f' || e[0] == 'F');
        assert(!eq_ignore_ascii_case(e, seq!['e', 'p', 'u', 'b']));
    }
    if spells_ignoring_case(e, ml, mu) {
        lemma_spells_folds(e, ml, mu);
        assert(e[0] == 'm' || e[0] == 'M');
        assert(ascii_fold(e[0]) != ascii_fold(el[0]));
        assert(!eq_ignore_ascii_case(e, seq!['e', 'p', 'u', 'b']));
        assert(!eq_ignore_ascii_case(e, seq!['f', 'b', '2']));
    }
    if spells_ignoring_case(e, zl, zu) {
        lemma_spells_folds(e, zl, zu);
        assert(e[0] == 'c' || e[0] == 'C');
        assert(ascii_fold(e[0]) != ascii_fold(fl[0]));
        assert(!eq_ignore_ascii_case(e, seq!['f', 'b', '2']));
        assert(!eq_ignore_ascii_case(e, seq!['e', 'p', 'u', 'b']));
        assert(!eq_ignore_ascii_case(e, seq!['m', 'o', 'b', 'i']));
    }
    if spells_ignoring_case(e, rl, ru) {
        lemma_spells_folds(e, rl, ru);
        assert(e[0] == 'c' || e[0] == 'C');
        assert(e[2] == 'r' || e[2] == 'R');
        assert(ascii_fold(e[0]) != ascii_fold(fl[0]));
        assert(ascii_fold(e[2]) != ascii_fold(zl[2]));
        assert(!eq_ignore_ascii_case(e, seq!['f', 'b', '2']));
        assert(!eq_ignore_ascii_case(e, seq!['c', 'b', 'z']));
        assert(!eq_ignore_ascii_case(e, seq!['e', 'p', 'u', 'b']));
        assert(!eq_ignore_ascii_case(e, seq!['m', 'o', 'b', 'i']));
    }
}

} // verus!
