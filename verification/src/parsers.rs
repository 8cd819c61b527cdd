//! The book-format parsers: what they decide about paths, names and text.
use vstd::prelude::*;
use crate::paths::{spec_file_name, spec_join, file_name, join, last_dot, stem_len};
use crate::text::{chars_of, copy_string, lowercase, str_eq, string_from_chars, to_lowercase};
use crate::scanner::{before_first, chars_before};
use crate::utils::{collapse_whitespace, collapse_ws};

verus! {

/// Reads EPUB files.
pub struct EpubParser;

/// Reads CBZ and CBR comic archives.
pub struct ComicParser;

/// Reads FB2 files.
pub struct Fb2Parser;

/// The parts of a path in a ZIP archive after `..` steps are applied, as folded over its
/// characters: (parts so far, part being read).
pub open spec fn zip_fold(s: Seq<char>) -> (Seq<Seq<char>>, Seq<char>)
    decreases s.len(),
{
    if s.len() == 0 {
        (Seq::empty(), Seq::empty())
    } else {
        let (parts, cur) = zip_fold(s.drop_last());
        if s.last() == '/' {
            (apply_part(parts, cur), Seq::empty())
        } else {
            (parts, cur.push(s.last()))
        }
    }
}

/// `parts` after one path component: an empty one and `.` change nothing, `..` drops the last
/// part, any other is added.
pub open spec fn apply_part(parts: Seq<Seq<char>>, c: Seq<char>) -> Seq<Seq<char>> {
    if c.len() == 0 || c == seq!['.'] {
        parts
    } else if c == seq!['.', '.'] {
        if parts.len() > 0 {
            parts.drop_last()
        } else {
            parts
        }
    } else {
        parts.push(c)
    }
}

/// `parts` joined by `/`.
pub open spec fn join_parts(parts: Seq<Seq<char>>) -> Seq<char>
    decreases parts.len(),
{
    if parts.len() == 0 {
        Seq::empty()
    } else if parts.len() == 1 {
        parts[0]
    } else {
        join_parts(parts.drop_last()) + seq!['/'] + parts.last()
    }
}

/// A path inside an archive with `.` and empty components dropped and `..` applied (never
/// above the root).
pub open spec fn normalized_zip_path(s: Seq<char>) -> Seq<char> {
    join_parts(zip_parts(s))
}

/// The components of the normalized path.
pub open spec fn zip_parts(s: Seq<char>) -> Seq<Seq<char>> {
    let (parts, cur) = zip_fold(s);
    apply_part(parts, cur)
}

/// A plain component: not empty, not `.` or `..`, and without a `/`.
pub open spec fn plain_component(c: Seq<char>) -> bool {
    c.len() > 0 && c != seq!['.'] && c != seq!['.', '.'] && !c.contains('/')
}

proof fn lemma_zip_fold_plain(s: Seq<char>)
    ensures
        forall|k: int|
            0 <= k < zip_fold(s).0.len() ==> plain_component(#[trigger] zip_fold(s).0[k]),
        !zip_fold(s).1.contains('/'),
    decreases s.len(),
{
    if s.len() > 0 {
        lemma_zip_fold_plain(s.drop_last());
        let (parts, cur) = zip_fold(s.drop_last());
        if s.last() == '/' {
            lemma_apply_part_plain(parts, cur);
        } else {
            assert forall|i: int| 0 <= i < cur.push(s.last()).len() implies cur.push(s.last())[i]
                != '/' by {
                if i < cur.len() {
                    assert(cur.push(s.last())[i] == cur[i]);
                }
            }
        }
    }
}

proof fn lemma_apply_part_plain(parts: Seq<Seq<char>>, c: Seq<char>)
    requires
        forall|k: int| 0 <= k < parts.len() ==> plain_component(#[trigger] parts[k]),
        !c.contains('/'),
    ensures
        forall|k: int|
            0 <= k < apply_part(parts, c).len() ==> plain_component(#[trigger] apply_part(parts, c)[k]),
{
    let r = apply_part(parts, c);
    assert forall|k: int| 0 <= k < r.len() implies plain_component(#[trigger] r[k]) by {
        if c.len() == 0 || c == seq!['.'] {
        } else if c == seq!['.', '.'] {
            if parts.len() > 0 {
                assert(r[k] == parts[k]);
            }
        } else if k < parts.len() {
            assert(r[k] == parts[k]);
        }
    }
}

/// A normalized archive path is its plain components joined by `/`: none is empty, `.` or `..`,
/// so it cannot climb out of the archive or name the archive's root.
pub proof fn lemma_normalized_zip_path_is_plain(s: Seq<char>)
    ensures
        normalized_zip_path(s) == join_parts(zip_parts(s)),
        forall|k: int| 0 <= k < zip_parts(s).len() ==> plain_component(#[trigger] zip_parts(s)[k]),
{
    lemma_zip_fold_plain(s);
    let (parts, cur) = zip_fold(s);
    lemma_apply_part_plain(parts, cur);
}

proof fn lemma_zip_fold_suffix(a: Seq<char>, c: Seq<char>)
    requires
        !c.contains('/'),
    ensures
        zip_fold(a + c) == (zip_fold(a).0, zip_fold(a).1 + c),
    decreases c.len(),
{
    if c.len() == 0 {
        assert(a + c =~= a);
        assert(zip_fold(a).1 + c =~= zip_fold(a).1);
    } else {
        let d = c.drop_last();
        assert(!d.contains('/')) by {
            if d.contains('/') {
                let k = choose|k: int| 0 <= k < d.len() && d[k] == '/';
                assert(c[k] == '/');
            }
        }
        lemma_zip_fold_suffix(a, d);
        assert((a + c).drop_last() =~= a + d);
        assert((a + c).last() == c.last());
        assert(c.last() != '/') by {
            assert(c[c.len() - 1] == c.last());
        }
        assert((zip_fold(a).1 + d).push(c.last()) =~= zip_fold(a).1 + c);
    }
}

proof fn lemma_zip_fold_of_join(p: Seq<Seq<char>>)
    requires
        p.len() > 0,
        forall|k: int| 0 <= k < p.len() ==> plain_component(#[trigger] p[k]),
    ensures
        zip_fold(join_parts(p)) == (p.drop_last(), p.last()),
    decreases p.len(),
{
    if p.len() == 1 {
        lemma_zip_fold_suffix(Seq::empty(), p[0]);
        assert(Seq::<char>::empty() + p[0] =~= p[0]);
        assert(Seq::<char>::empty() + p[0] =~= p[0]);
        assert(p.drop_last() =~= Seq::<Seq<char>>::empty());
    } else {
        let q = p.drop_last();
        assert(forall|k: int| 0 <= k < q.len() ==> plain_component(#[trigger] q[k])) by {
            assert forall|k: int| 0 <= k < q.len() implies plain_component(#[trigger] q[k]) by {
                assert(q[k] == p[k]);
            }
        }
        lemma_zip_fold_of_join(q);
        let a = join_parts(q) + seq!['/'];
        assert(a.drop_last() =~= join_parts(q));
        assert(zip_fold(a) == (apply_part(q.drop_last(), q.last()), Seq::<char>::empty()));
        assert(plain_component(q.last()));
        assert(q.drop_last().push(q.last()) =~= q);
        assert(plain_component(p.last()));
        lemma_zip_fold_suffix(a, p.last());
        assert(join_parts(p) == a + p.last());
        assert(Seq::<char>::empty() + p.last() =~= p.last());
    }
}

/// Normalizing a normalized archive path changes nothing.
pub proof fn lemma_normalize_zip_path_is_idempotent(s: Seq<char>)
    ensures
        normalized_zip_path(normalized_zip_path(s)) == normalized_zip_path(s),
{
    lemma_normalized_zip_path_is_plain(s);
    let p = zip_parts(s);
    if p.len() == 0 {
        assert(join_parts(p) =~= Seq::<char>::empty());
    } else {
        lemma_zip_fold_of_join(p);
        assert(p.drop_last().push(p.last()) =~= p);
        assert(zip_parts(join_parts(p)) == p);
    }
}

/// `s` with every `\` turned into `/`.
pub open spec fn slashes(s: Seq<char>) -> Seq<char> {
    s.map_values(|c: char| if c == '\\' { '/' } else { c })
}

/// Whether `s` ends with `suffix`.
pub open spec fn ends_with(s: Seq<char>, suffix: Seq<char>) -> bool {
    s.len() >= suffix.len() && s.skip(s.len() - suffix.len()) == suffix
}

/// The image MIME type for a lower-cased file name, by its extension.
pub open spec fn mime_of(lower: Seq<char>) -> Option<Seq<char>> {
    if ends_with(lower, seq!['.', 'j', 'p', 'g']) || ends_with(lower, seq!['.', 'j', 'p', 'e', 'g']) {
        Some(seq!['i', 'm', 'a', 'g', 'e', '/', 'j', 'p', 'e', 'g'])
    } else if ends_with(lower, seq!['.', 'p', 'n', 'g']) {
        Some(seq!['i', 'm', 'a', 'g', 'e', '/', 'p', 'n', 'g'])
    } else if ends_with(lower, seq!['.', 'w', 'e', 'b', 'p']) {
        Some(seq!['i', 'm', 'a', 'g', 'e', '/', 'w', 'e', 'b', 'p'])
    } else if ends_with(lower, seq!['.', 'g', 'i', 'f']) {
        Some(seq!['i', 'm', 'a', 'g', 'e', '/', 'g', 'i', 'f'])
    } else {
        None
    }
}

/// The text outside `<...>` tags, as folded over the characters: (text, inside a tag).
pub open spec fn untagged_state(s: Seq<char>) -> (Seq<char>, bool)
    decreases s.len(),
{
    if s.len() == 0 {
        (Seq::empty(), false)
    } else {
        let (out, in_tag) = untagged_state(s.drop_last());
        let c = s.last();
        if c == '<' {
            (out, true)
        } else if c == '>' {
            (out, false)
        } else if !in_tag {
            (out.push(c), in_tag)
        } else {
            (out, in_tag)
        }
    }
}

/// Plain text of an XML fragment: the text outside tags, its words joined by single spaces.
pub open spec fn plain_text(s: Seq<char>) -> Seq<char> {
    collapse_ws(untagged_state(s).0, ' ')
}

/// The title a comic gets from its file name: the name without its extension, or
/// `Unknown Comic` when the path has no file name.
pub open spec fn comic_title(path: Seq<char>) -> Seq<char> {
    match spec_file_name(path) {
        Some(name) => name.take(stem_len(name)),
        None => seq!['U', 'n', 'k', 'n', 'o', 'w', 'n', ' ', 'C', 'o', 'm', 'i', 'c'],
    }
}

/// Copy of `v` with `\` turned into `/`.
fn to_slashes(v: &Vec<char>) -> (r: Vec<char>)
    ensures
        r@ == slashes(v@),
{
    let mut out: Vec<char> = Vec::new();
    let mut i: usize = 0;
    while i < v.len()
        invariant
            i <= v.len(),
            out@ == slashes(v@.take(i as int)),
        decreases v.len() - i,
    {
        let c = v[i];
        out.push(
            if c == '\\' {
                '/'
            } else {
                c
            },
        );
        i += 1;
        assert(out@ =~= slashes(v@.take(i as int)));
    }
    assert(v@.take(v.len() as int) =~= v@);
    out
}

/// Whether `v` is `.` or `..`, as (is dot, is dot-dot).
fn dots(v: &Vec<char>) -> (r: (bool, bool))
    ensures
        r.0 == (v@ == seq!['.']),
        r.1 == (v@ == seq!['.', '.']),
{
    let one = v.len() == 1 && v[0] == '.';
    let two = v.len() == 2 && v[0] == '.' && v[1] == '.';
    proof {
        if one {
            assert(v@ =~= seq!['.']);
        }
        if two {
            assert(v@ =~= seq!['.', '.']);
        }
        if v@ == seq!['.'] {
            assert(v@.len() == 1 && v@[0] == '.');
        }
        if v@ == seq!['.', '.'] {
            assert(v@.len() == 2 && v@[0] == '.' && v@[1] == '.');
        }
    }
    (one, two)
}

/// The views of a list of character vectors.
pub open spec fn part_views(v: Seq<Vec<char>>) -> Seq<Seq<char>> {
    v.map_values(|p: Vec<char>| p@)
}

fn apply_part_exec(parts: &mut Vec<Vec<char>>, cur: Vec<char>)
    ensures
        part_views(final(parts)@) == apply_part(part_views(old(parts)@), cur@),
{
    let (one, two) = dots(&cur);
    if cur.len() == 0 || one {
        return ;
    }
    if two {
        if parts.len() > 0 {
            let ghost before = parts@;
            let _ = parts.pop();
            assert(part_views(parts@) =~= part_views(before).drop_last());
        }
        return ;
    }
    let ghost before = parts@;
    parts.push(cur);
    assert(part_views(parts@) =~= part_views(before).push(cur@));
}

/// A chapter of the table of contents and where its document starts: `offset` of the spine's
/// `total` bytes, so that its position in the book is `offset / total`.
pub struct ChapterFraction {
    pub title: String,
    pub offset: u64,
    pub total: u64,
}

/// Bytes of the first `n` spine documents.
pub open spec fn spine_bytes(spine: Seq<(Seq<char>, u64)>, n: int) -> int
    decreases n,
{
    if n <= 0 {
        0
    } else {
        spine_bytes(spine, n - 1) + spine[n - 1].1
    }
}

/// Index of the last spine document named `href` among the first `n`, or -1.
pub open spec fn last_spine_index(spine: Seq<(Seq<char>, u64)>, href: Seq<char>, n: int) -> int
    decreases n,
{
    if n <= 0 {
        -1
    } else if spine[n - 1].0 == href {
        n - 1
    } else {
        last_spine_index(spine, href, n - 1)
    }
}

/// The table-of-contents entries (link, title) whose document (the link without its fragment)
/// is in the spine, as (title, bytes of the spine before that document), in order.
pub open spec fn toc_offsets(toc: Seq<(Seq<char>, Seq<char>)>, spine: Seq<(Seq<char>, u64)>) -> Seq<
    (Seq<char>, int),
>
    decreases toc.len(),
{
    if toc.len() == 0 {
        Seq::empty()
    } else {
        let prev = toc_offsets(toc.drop_last(), spine);
        let e = toc.last();
        let idx = last_spine_index(spine, before_first(e.0, '#'), spine.len() as int);
        if idx >= 0 {
            prev.push((e.1, spine_bytes(spine, idx)))
        } else {
            prev
        }
    }
}

/// The contents of (link, title) pairs.
pub open spec fn toc_view(v: Seq<(String, String)>) -> Seq<(Seq<char>, Seq<char>)> {
    v.map_values(|e: (String, String)| (e.0@, e.1@))
}

/// The contents of (document, size) pairs.
pub open spec fn spine_view(v: Seq<(String, u64)>) -> Seq<(Seq<char>, u64)> {
    v.map_values(|e: (String, u64)| (e.0@, e.1))
}

/// The contents of chapter fractions.
pub open spec fn fractions_view(v: Seq<ChapterFraction>) -> Seq<(Seq<char>, int)> {
    v.map_values(|c: ChapterFraction| (c.title@, c.offset as int))
}

proof fn lemma_spine_bytes_mono(spine: Seq<(Seq<char>, u64)>, k: int, n: int)
    requires
        0 <= k <= n <= spine.len(),
    ensures
        0 <= spine_bytes(spine, k) <= spine_bytes(spine, n),
    decreases n,
{
    if n > k {
        lemma_spine_bytes_mono(spine, k, n - 1);
    } else if k > 0 {
        lemma_spine_bytes_mono(spine, k - 1, k - 1);
    }
}

impl EpubParser {
    /// Where each table-of-contents entry starts, as a fraction of the spine's bytes (see
    /// `toc_offsets`); none when the spine has no bytes.
    pub fn map_toc_to_fractions(toc_entries: &Vec<(String, String)>, spine_byte_map: &Vec<(String, u64)>) -> (r: Vec<ChapterFraction>)
        requires
            spine_bytes(spine_view(spine_byte_map@), spine_byte_map.len() as int) <= u64::MAX,
        ensures
            spine_bytes(spine_view(spine_byte_map@), spine_byte_map.len() as int) == 0 ==> r.len()
                == 0,
            spine_bytes(spine_view(spine_byte_map@), spine_byte_map.len() as int) > 0 ==> fractions_view(
                r@,
            ) == toc_offsets(toc_view(toc_entries@), spine_view(spine_byte_map@)),
            forall|i: int|
                0 <= i < r.len() ==> #[trigger] r@[i].total == spine_bytes(
                    spine_view(spine_byte_map@),
                    spine_byte_map.len() as int,
                ),
    {
        let ghost sp = spine_view(spine_byte_map@);
        let ghost n = spine_byte_map.len() as int;
        let mut cumulative: Vec<u64> = Vec::new();
        let mut running: u64 = 0;
        let mut i: usize = 0;
        while i < spine_byte_map.len()
            invariant
                i <= spine_byte_map.len(),
                sp == spine_view(spine_byte_map@),
                n == spine_byte_map.len(),
                spine_bytes(sp, n) <= u64::MAX,
                running == spine_bytes(sp, i as int),
                cumulative.len() == i,
                forall|k: int| 0 <= k < i ==> #[trigger] cumulative@[k] == spine_bytes(sp, k),
            decreases spine_byte_map.len() - i,
        {
            proof {
                lemma_spine_bytes_mono(sp, i + 1, n);
            }
            cumulative.push(running);
            running = running + spine_byte_map[i].1;
            i += 1;
        }
        let total = running;
        let mut chapters: Vec<ChapterFraction> = Vec::new();
        if total == 0 {
            return chapters;
        }
        let ghost tv = toc_view(toc_entries@);
        let mut t: usize = 0;
        while t < toc_entries.len()
            invariant
                t <= toc_entries.len(),
                tv == toc_view(toc_entries@),
                sp == spine_view(spine_byte_map@),
                n == spine_byte_map.len(),
                cumulative.len() == n,
                forall|k: int| 0 <= k < n ==> #[trigger] cumulative@[k] == spine_bytes(sp, k),
                total == spine_bytes(sp, n),
                fractions_view(chapters@) == toc_offsets(tv.take(t as int), sp),
                forall|q: int| 0 <= q < chapters.len() ==> #[trigger] chapters@[q].total == total,
            decreases toc_entries.len() - t,
        {
            assert(tv.take(t + 1).drop_last() =~= tv.take(t as int));
            assert(tv.take(t + 1).last() == tv[t as int]);
            let link = chars_of(toc_entries[t].0.as_str());
            let file = string_from_chars(chars_before(&link, '#').as_slice());
            let ghost key = file@;
            let mut k = spine_byte_map.len();
            while k > 0 && !str_eq(spine_byte_map[k - 1].0.as_str(), file.as_str())
                invariant
                    k <= n,
                    n == spine_byte_map.len(),
                    sp == spine_view(spine_byte_map@),
                    key == file@,
                    last_spine_index(sp, key, n) == last_spine_index(sp, key, k as int),
                decreases k,
            {
                assert(sp[k - 1].0 == spine_byte_map@[k - 1].0@);
                k -= 1;
            }
            if k > 0 {
                assert(sp[k - 1].0 == spine_byte_map@[k - 1].0@);
                assert(last_spine_index(sp, key, k as int) == k - 1);
                let ghost before = fractions_view(chapters@);
                chapters.push(
                    ChapterFraction {
                        title: copy_string(&toc_entries[t].1),
                        offset: cumulative[k - 1],
                        total,
                    },
                );
                assert(fractions_view(chapters@) =~= before.push((tv[t as int].1, spine_bytes(sp, k - 1))));
            }
            t += 1;
        }
        assert(tv.take(toc_entries.len() as int) =~= tv);
        chapters
    }


    /// A parser.
    pub fn new() -> (r: Self) {
        EpubParser
    }

    /// A path inside an archive with `.` and empty components dropped and `..` applied, so
    /// that it cannot climb out of the archive.
    pub fn normalize_zip_path(path: &str) -> (r: String)
        ensures
            r@ == normalized_zip_path(path@),
    {
        let v = chars_of(path);
        let mut parts: Vec<Vec<char>> = Vec::new();
        let mut cur: Vec<char> = Vec::new();
        let mut i: usize = 0;
        while i < v.len()
            invariant
                i <= v.len(),
                (part_views(parts@), cur@) == zip_fold(v@.take(i as int)),
            decreases v.len() - i,
        {
            assert(v@.take(i + 1).drop_last() =~= v@.take(i as int));
            assert(v@.take(i + 1).last() == v@[i as int]);
            if v[i] == '/' {
                let done = cur;
                cur = Vec::new();
                apply_part_exec(&mut parts, done);
            } else {
                cur.push(v[i]);
            }
            i += 1;
        }
        assert(v@.take(v.len() as int) =~= v@);
        apply_part_exec(&mut parts, cur);
        let ghost pv = part_views(parts@);
        let mut out: Vec<char> = Vec::new();
        let mut k: usize = 0;
        while k < parts.len()
            invariant
                k <= parts.len(),
                pv == part_views(parts@),
                out@ == join_parts(pv.take(k as int)),
            decreases parts.len() - k,
        {
            assert(pv.take(k + 1).drop_last() =~= pv.take(k as int));
            assert(pv.take(k + 1).last() == parts@[k as int]@);
            let ghost before = out@;
            if k > 0 {
                out.push('/');
            }
            let p = &parts[k];
            let mut j: usize = 0;
            let ghost base = out@;
            while j < p.len()
                invariant
                    j <= p.len(),
                    out@ == base + p@.take(j as int),
                decreases p.len() - j,
            {
                out.push(p[j]);
                j += 1;
                assert(out@ =~= base + p@.take(j as int));
            }
            assert(p@.take(p.len() as int) =~= p@);
            proof {
                if k == 0 {
                    assert(pv.take(1) =~= seq![p@]);
                    assert(out@ =~= p@);
                }
            }
            k += 1;
        }
        assert(pv.take(parts.len() as int) =~= pv);
        string_from_chars(out.as_slice())
    }

    /// A path of the archive given relative to the directory of the package document: joined
    /// onto that directory when there is one, `\` read as `/`, then normalized.
    pub fn resolve_relative_path(opf_parent: Option<&str>, rel_path: &str) -> (r: String)
        ensures
            r@ == normalized_zip_path(
                slashes(
                    match opf_parent {
                        Some(p) => spec_join(p@, rel_path@),
                        None => rel_path@,
                    },
                ),
            ),
    {
        let joined = match opf_parent {
            Some(p) => join(p, rel_path),
            None => string_from_chars(chars_of(rel_path).as_slice()),
        };
        let s = to_slashes(&chars_of(joined.as_str()));
        let text = string_from_chars(s.as_slice());
        Self::normalize_zip_path(text.as_str())
    }
}

/// Whether `v` ends with `suffix`.
fn vec_ends_with(v: &Vec<char>, suffix: &Vec<char>) -> (r: bool)
    ensures
        r == ends_with(v@, suffix@),
{
    if v.len() < suffix.len() {
        return false;
    }
    let start = v.len() - suffix.len();
    let mut i: usize = 0;
    while i < suffix.len()
        invariant
            i <= suffix.len(),
            start + suffix.len() == v.len(),
            forall|j: int| 0 <= j < i ==> v@[start + j] == suffix@[j],
        decreases suffix.len() - i,
    {
        if v[start + i] != suffix[i] {
            assert(v@.skip(start as int)[i as int] != suffix@[i as int]);
            return false;
        }
        i += 1;
    }
    assert(v@.skip(start as int) =~= suffix@);
    true
}

impl ComicParser {
    /// A parser.
    pub fn new() -> (r: Self) {
        ComicParser
    }

    /// The image MIME type of an archive member, by its extension (any case).
    pub fn mime_type_from_extension(filename: &str) -> (r: Option<String>)
        ensures
            match (r, mime_of(lowercase(filename@))) {
                (Some(a), Some(b)) => a@ == b,
                (None, None) => true,
                _ => false,
            },
    {
        let lower = to_lowercase(filename);
        let v = chars_of(lower.as_str());
        if vec_ends_with(&v, &vec!['.', 'j', 'p', 'g']) || vec_ends_with(&v, &vec!['.', 'j', 'p', 'e', 'g']) {
            Some(string_from_chars(vec!['i', 'm', 'a', 'g', 'e', '/', 'j', 'p', 'e', 'g'].as_slice()))
        } else if vec_ends_with(&v, &vec!['.', 'p', 'n', 'g']) {
            Some(string_from_chars(vec!['i', 'm', 'a', 'g', 'e', '/', 'p', 'n', 'g'].as_slice()))
        } else if vec_ends_with(&v, &vec!['.', 'w', 'e', 'b', 'p']) {
            Some(string_from_chars(vec!['i', 'm', 'a', 'g', 'e', '/', 'w', 'e', 'b', 'p'].as_slice()))
        } else if vec_ends_with(&v, &vec!['.', 'g', 'i', 'f']) {
            Some(string_from_chars(vec!['i', 'm', 'a', 'g', 'e', '/', 'g', 'i', 'f'].as_slice()))
        } else {
            None
        }
    }

    /// The title of a comic known only by its path: its file name without the extension.
    pub fn title_from_filename(path: &str) -> (r: String)
        ensures
            r@ == comic_title(path@),
    {
        match file_name(path) {
            Some(name) => {
                let v = chars_of(name.as_str());
                let mut e = v.len();
                assert(v@.take(e as int) =~= v@);
                while e > 0 && v[e - 1] != '.'
                    invariant
                        e <= v.len(),
                        last_dot(v@) == last_dot(v@.take(e as int)),
                    decreases e,
                {
                    assert(v@.take(e as int).drop_last() =~= v@.take(e - 1));
                    e = e - 1;
                }
                proof {
                    assert(v@.take(v.len() as int) =~= v@);
                }
                let stem_end = if e <= 1 {
                    v.len()
                } else {
                    e - 1
                };
                assert(stem_end == stem_len(v@)) by {
                    if e > 0 {
                        assert(v@.take(e as int).last() == '.');
                    }
                }
                let mut out: Vec<char> = Vec::new();
                let mut i: usize = 0;
                while i < stem_end
                    invariant
                        i <= stem_end <= v.len(),
                        out@ == v@.take(i as int),
                    decreases stem_end - i,
                {
                    out.push(v[i]);
                    i += 1;
                    assert(out@ =~= v@.take(i as int));
                }
                string_from_chars(out.as_slice())
            },
            None => {
                let t = vec!['U', 'n', 'k', 'n', 'o', 'w', 'n', ' ', 'C', 'o', 'm', 'i', 'c'];
                assert(t@ =~= comic_title(path@));
                string_from_chars(t.as_slice())
            },
        }
    }
}

impl Fb2Parser {
    /// A parser.
    pub fn new() -> (r: Self) {
        Fb2Parser
    }

    /// The plain text of an XML fragment: tags dropped, words joined by single spaces.
    pub fn strip_xml_tags(input: &str) -> (r: String)
        ensures
            r@ == plain_text(input@),
    {
        let v = chars_of(input);
        let mut out: Vec<char> = Vec::new();
        let mut in_tag = false;
        let mut i: usize = 0;
        while i < v.len()
            invariant
                i <= v.len(),
                (out@, in_tag) == untagged_state(v@.take(i as int)),
            decreases v.len() - i,
        {
            assert(v@.take(i + 1).drop_last() =~= v@.take(i as int));
            assert(v@.take(i + 1).last() == v@[i as int]);
            let c = v[i];
            if c == '<' {
                in_tag = true;
            } else if c == '>' {
                in_tag = false;
            } else if !in_tag {
                out.push(c);
            }
            i += 1;
        }
        assert(v@.take(v.len() as int) =~= v@);
        let words = collapse_whitespace(&out, ' ');
        string_from_chars(words.as_slice())
    }
}

} // verus!
