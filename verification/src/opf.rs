//! The metadata of an EPUB package document: title, authors, description, publisher,
//! language, identifiers, subjects, series, page count, the cover id and the navigation
//! document, read from the stream of XML events one event at a time.
use vstd::prelude::*;
use crate::parsers::{ChapterFraction, EpubParser};
use crate::text::{chars_of, copy_string, str_eq, string_from_chars, trim_chars, trim_ws};
use crate::time_config::{parse_unsigned_chars, parse_unsigned_text};
use crate::utils::{sanitize_html, sanitized_html, unescape_or_same, unescaped_or_same};
use crate::xml::{
    contains_text, document_items, item_text, last_attr, last_attr_of, lemma_resume_index, opt_view,
    resume_after_text, resume_index, text_contains, xml_items, XmlEvent, XmlItem, XmlTag,
};

verus! {

/// An identifier of a book under a scheme (`ISBN`, `uuid`, ...).
pub struct Identifier {
    pub scheme: String,
    pub value: String,
}

/// What a book file tells about the book.
pub struct BookInfo {
    pub title: String,
    pub authors: Vec<String>,
    pub description: Option<String>,
    pub publisher: Option<String>,
    pub language: Option<String>,
    pub identifiers: Vec<Identifier>,
    pub subjects: Vec<String>,
    pub series: Option<String>,
    pub series_number: Option<String>,
    pub pages: Option<u32>,
    pub chapters: Vec<ChapterFraction>,
    pub cover_data: Option<Vec<u8>>,
    pub cover_mime_type: Option<String>,
}

/// Why the package document's metadata could not be read.
#[derive(Debug, Clone, Copy, PartialEq, Eq)]
pub enum OpfError {
    /// The document is not well-formed XML.
    Parse,
    /// An attribute the metadata needs does not unescape.
    BadAttribute,
}

/// What the text of the element just started is read for.
pub enum OpfText {
    Title,
    Creator,
    Description,
    Publisher,
    Language,
    /// An identifier, with the scheme its attributes give.
    Identifier(Option<String>),
    Subject,
    /// The name of an EPUB 3 collection, with the element's id.
    Collection(Option<String>),
    /// The position in an EPUB 3 collection, with the id the element refines.
    GroupPosition(Option<String>),
    /// The page count (`schema:numberOfPages`).
    Pages,
}

/// The contents of a list of strings.
pub open spec fn texts_of(v: Seq<String>) -> Seq<Seq<char>> {
    v.map_values(|x: String| x@)
}

/// The contents of a list of (key, value) strings.
pub open spec fn pairs_of(v: Seq<(String, String)>) -> Seq<(Seq<char>, Seq<char>)> {
    v.map_values(|p: (String, String)| (p.0@, p.1@))
}

/// The contents of identifiers, as (scheme, value).
pub open spec fn identifiers_of(v: Seq<Identifier>) -> Seq<(Seq<char>, Seq<char>)> {
    v.map_values(|i: Identifier| (i.scheme@, i.value@))
}

/// What reading the package document has gathered.
pub struct OpfView {
    pub in_metadata: bool,
    pub in_manifest: bool,
    pub title: Option<Seq<char>>,
    pub authors: Seq<Seq<char>>,
    pub description: Option<Seq<char>>,
    pub publisher: Option<Seq<char>>,
    pub language: Option<Seq<char>>,
    pub identifiers: Seq<(Seq<char>, Seq<char>)>,
    pub subjects: Seq<Seq<char>>,
    pub cover_id: Option<Seq<char>>,
    pub cal_series: Option<Seq<char>>,
    pub cal_series_number: Option<Seq<char>>,
    pub pages: Option<u32>,
    pub nav_path: Option<Seq<char>>,
    /// EPUB 3 collections: (id, name), each id once.
    pub collections: Seq<(Seq<char>, Seq<char>)>,
    /// EPUB 3 group positions: (refined id, position), each id once.
    pub indices: Seq<(Seq<char>, Seq<char>)>,
}

/// The `property`, `id`, `refines`, `name` and `content` attributes of a `meta` tag (the last
/// of each), or `None` when one of them does not unescape.
pub open spec fn meta_fields(attrs: Seq<Option<(String, Option<String>)>>) -> Option<
    (Option<Seq<char>>, Option<Seq<char>>, Option<Seq<char>>, Option<Seq<char>>, Option<Seq<char>>),
>
    decreases attrs.len(),
{
    if attrs.len() == 0 {
        Some((None, None, None, None, None))
    } else {
        match meta_fields(attrs.drop_last()) {
            None => None,
            Some(f) => match attrs.last() {
                None => Some(f),
                Some((key, value)) => {
                    let k = key@;
                    if k == "property"@ || k == "id"@ || k == "refines"@ || k == "name"@ || k
                        == "content"@ {
                        match value {
                            None => None,
                            Some(v) => if k == "property"@ {
                                Some((Some(v@), f.1, f.2, f.3, f.4))
                            } else if k == "id"@ {
                                Some((f.0, Some(v@), f.2, f.3, f.4))
                            } else if k == "refines"@ {
                                Some((f.0, f.1, Some(v@), f.3, f.4))
                            } else if k == "name"@ {
                                Some((f.0, f.1, f.2, Some(v@), f.4))
                            } else {
                                Some((f.0, f.1, f.2, f.3, Some(v@)))
                            },
                        }
                    } else {
                        Some(f)
                    }
                },
            },
        }
    }
}

/// The `name` and `content` attributes of an empty `meta` tag (the last of each), or `None`
/// when one of them does not unescape.
pub open spec fn name_content(attrs: Seq<Option<(String, Option<String>)>>) -> Option<
    (Option<Seq<char>>, Option<Seq<char>>),
>
    decreases attrs.len(),
{
    if attrs.len() == 0 {
        Some((None, None))
    } else {
        match name_content(attrs.drop_last()) {
            None => None,
            Some(f) => match attrs.last() {
                None => Some(f),
                Some((key, value)) => {
                    let k = key@;
                    if k == "name"@ || k == "content"@ {
                        match value {
                            None => None,
                            Some(v) => if k == "name"@ {
                                Some((Some(v@), f.1))
                            } else {
                                Some((f.0, Some(v@)))
                            },
                        }
                    } else {
                        Some(f)
                    }
                },
            },
        }
    }
}

/// The scheme attribute (`opf:scheme` or `scheme`, the last) of an `identifier` tag, or `None`
/// when one does not unescape.
pub open spec fn scheme_of(attrs: Seq<Option<(String, Option<String>)>>) -> Option<Option<Seq<char>>>
    decreases attrs.len(),
{
    if attrs.len() == 0 {
        Some(None)
    } else {
        match scheme_of(attrs.drop_last()) {
            None => None,
            Some(f) => match attrs.last() {
                Some((key, value)) => if key@ == "opf:scheme"@ || key@ == "scheme"@ {
                    match value {
                        None => None,
                        Some(v) => Some(Some(v@)),
                    }
                } else {
                    Some(f)
                },
                None => Some(f),
            },
        }
    }
}

/// `v` after a `meta` tag of the metadata with these name and content, the three checks made
/// one after another.
pub open spec fn meta_start_names(v: OpfView, n: Option<Seq<char>>, c: Option<Seq<char>>) -> OpfView {
    match (n, c) {
        (Some(n), Some(c)) => {
            let v1 = if n == "cover"@ {
                OpfView { cover_id: Some(c), ..v }
            } else {
                v
            };
            let v2 = if n == "calibre:series"@ {
                OpfView { cal_series: Some(c), ..v1 }
            } else {
                v1
            };
            if n == "calibre:series_index"@ {
                OpfView { cal_series_number: Some(c), ..v2 }
            } else {
                v2
            }
        },
        _ => v,
    }
}

/// `v` after an empty `meta` tag of the metadata with these name and content.
pub open spec fn meta_empty_names(v: OpfView, n: Option<Seq<char>>, c: Option<Seq<char>>) -> OpfView {
    match (n, c) {
        (Some(n), Some(c)) => if n == "cover"@ {
            OpfView { cover_id: Some(c), ..v }
        } else if n == "calibre:series"@ {
            OpfView { cal_series: Some(c), ..v }
        } else if n == "calibre:series_index"@ {
            OpfView { cal_series_number: Some(c), ..v }
        } else {
            v
        },
        _ => v,
    }
}

/// The text to read after a `meta` start tag with this property, id and refines.
pub open spec fn meta_text(prop: Option<Seq<char>>, id: Option<Seq<char>>, refines: Option<Seq<char>>) -> Option<
    OpfTextView,
> {
    match prop {
        Some(p) => if p == "belongs-to-collection"@ {
            Some(OpfTextView::Collection(id))
        } else if p == "group-position"@ {
            Some(OpfTextView::GroupPosition(refines))
        } else if p == "schema:numberOfPages"@ {
            Some(OpfTextView::Pages)
        } else {
            None
        },
        None => None,
    }
}

/// The content of an `OpfText`.
pub enum OpfTextView {
    Title,
    Creator,
    Description,
    Publisher,
    Language,
    Identifier(Option<Seq<char>>),
    Subject,
    Collection(Option<Seq<char>>),
    GroupPosition(Option<Seq<char>>),
    Pages,
}

/// The content of an `OpfText`.
pub open spec fn text_view(t: OpfText) -> OpfTextView {
    match t {
        OpfText::Title => OpfTextView::Title,
        OpfText::Creator => OpfTextView::Creator,
        OpfText::Description => OpfTextView::Description,
        OpfText::Publisher => OpfTextView::Publisher,
        OpfText::Language => OpfTextView::Language,
        OpfText::Identifier(s) => OpfTextView::Identifier(opt_view(s)),
        OpfText::Subject => OpfTextView::Subject,
        OpfText::Collection(s) => OpfTextView::Collection(opt_view(s)),
        OpfText::GroupPosition(s) => OpfTextView::GroupPosition(opt_view(s)),
        OpfText::Pages => OpfTextView::Pages,
    }
}

/// The reader after one start tag: the new content and the text to read next, or `None` when
/// an attribute the metadata needs does not unescape.
pub open spec fn opf_start(v: OpfView, t: XmlTag) -> Option<(OpfView, Option<OpfTextView>)> {
    let name = t.local_name@;
    let attrs = t.attributes@;
    if name == "metadata"@ {
        Some((OpfView { in_metadata: true, ..v }, None))
    } else if name == "manifest"@ {
        Some((OpfView { in_manifest: true, ..v }, None))
    } else if v.in_metadata {
        if name == "title"@ {
            Some((v, Some(OpfTextView::Title)))
        } else if name == "creator"@ {
            Some((v, Some(OpfTextView::Creator)))
        } else if name == "description"@ {
            Some((v, Some(OpfTextView::Description)))
        } else if name == "publisher"@ {
            Some((v, Some(OpfTextView::Publisher)))
        } else if name == "language"@ {
            Some((v, Some(OpfTextView::Language)))
        } else if name == "identifier"@ {
            match scheme_of(attrs) {
                None => None,
                Some(s) => Some((v, Some(OpfTextView::Identifier(s)))),
            }
        } else if name == "subject"@ {
            Some((v, Some(OpfTextView::Subject)))
        } else if name == "meta"@ {
            match meta_fields(attrs) {
                None => None,
                Some(f) => Some((meta_start_names(v, f.3, f.4), meta_text(f.0, f.1, f.2))),
            }
        } else {
            Some((v, None))
        }
    } else {
        Some((v, None))
    }
}

/// The reader after one empty-element tag, or `None` when an attribute the metadata needs does
/// not unescape.
pub open spec fn opf_empty(v: OpfView, t: XmlTag) -> Option<OpfView> {
    let name = t.local_name@;
    let attrs = t.attributes@;
    if v.in_metadata && name == "meta"@ {
        match name_content(attrs) {
            None => None,
            Some(f) => Some(meta_empty_names(v, f.0, f.1)),
        }
    } else if v.in_manifest && name == "item"@ {
        match (last_attr(attrs, 0, "href"@, None), last_attr(attrs, 0, "properties"@, None)) {
            (Some(h), Some(p)) => if text_contains(p, "nav"@) {
                Some(OpfView { nav_path: Some(h), ..v })
            } else {
                Some(v)
            },
            _ => Some(v),
        }
    } else {
        Some(v)
    }
}

/// The reader after one end tag.
pub open spec fn opf_end(v: OpfView, name: Seq<char>) -> OpfView {
    if name == "metadata"@ {
        OpfView { in_metadata: false, ..v }
    } else if name == "manifest"@ {
        OpfView { in_manifest: false, ..v }
    } else {
        v
    }
}

/// `m` with `k` mapped to `x`: the entry for `k` changed in place, or a new one at the end.
pub open spec fn map_set(m: Seq<(Seq<char>, Seq<char>)>, k: Seq<char>, x: Seq<char>) -> Seq<
    (Seq<char>, Seq<char>),
>
    decreases m.len(),
{
    if m.len() == 0 {
        seq![(k, x)]
    } else if m[0].0 == k {
        m.update(0, (k, x))
    } else {
        seq![m[0]] + map_set(m.drop_first(), k, x)
    }
}

/// `s` without the `#` characters it starts with.
pub open spec fn trim_hashes(s: Seq<char>) -> Seq<char>
    decreases s.len(),
{
    if s.len() > 0 && s[0] == '#' {
        trim_hashes(s.drop_first())
    } else {
        s
    }
}

/// Index of the first `c` in `s`, or -1.
pub open spec fn find_char(s: Seq<char>, c: char) -> int
    decreases s.len(),
{
    if s.len() == 0 {
        -1
    } else if s[0] == c {
        0
    } else if find_char(s.drop_first(), c) < 0 {
        -1
    } else {
        1 + find_char(s.drop_first(), c)
    }
}

/// An identifier from its scheme attribute and its unescaped text: the attribute's scheme, else
/// the text before the first `:` as scheme and the rest as value, else `unknown`.
pub open spec fn identifier_of(scheme: Option<Seq<char>>, value: Seq<char>) -> (Seq<char>, Seq<char>) {
    match scheme {
        Some(s) => (s, value),
        None => if find_char(value, ':') >= 0 {
            (value.take(find_char(value, ':')), value.skip(find_char(value, ':') + 1))
        } else {
            ("unknown"@, value)
        },
    }
}

/// The reader after the text read for `what` (`None` where reading failed).
pub open spec fn opf_text(v: OpfView, what: OpfTextView, text: Option<Seq<char>>) -> OpfView {
    match text {
        None => v,
        Some(raw) => {
            let u = unescaped_or_same(raw);
            match what {
                OpfTextView::Title => OpfView { title: Some(u), ..v },
                OpfTextView::Creator => OpfView { authors: v.authors.push(u), ..v },
                OpfTextView::Description => {
                    let d = trim_ws(sanitized_html(raw));
                    if d.len() > 0 {
                        OpfView { description: Some(d), ..v }
                    } else {
                        v
                    }
                },
                OpfTextView::Publisher => OpfView { publisher: Some(u), ..v },
                OpfTextView::Language => OpfView { language: Some(u), ..v },
                OpfTextView::Identifier(s) => OpfView {
                    identifiers: v.identifiers.push(identifier_of(s, u)),
                    ..v
                },
                OpfTextView::Subject => if u.len() > 0 {
                    OpfView { subjects: v.subjects.push(u), ..v }
                } else {
                    v
                },
                OpfTextView::Collection(id) => match id {
                    Some(i) => OpfView { collections: map_set(v.collections, i, u), ..v },
                    None => v,
                },
                OpfTextView::GroupPosition(r) => match r {
                    Some(r) => OpfView { indices: map_set(v.indices, trim_hashes(r), u), ..v },
                    None => v,
                },
                OpfTextView::Pages => match parse_unsigned_text(trim_ws(raw), u32::MAX as int) {
                    Some(n) => OpfView { pages: Some(n as u32), ..v },
                    None => v,
                },
            }
        },
    }
}

/// The value `m` gives `k`.
pub open spec fn map_get(m: Seq<(Seq<char>, Seq<char>)>, k: Seq<char>) -> Option<Seq<char>>
    decreases m.len(),
{
    if m.len() == 0 {
        None
    } else if m[0].0 == k {
        Some(m[0].1)
    } else {
        map_get(m.drop_first(), k)
    }
}

/// The series and its number from the EPUB 3 collections from `i` on: the first collection
/// that has a position.
pub open spec fn collection_with_index(c: Seq<(Seq<char>, Seq<char>)>, ix: Seq<(Seq<char>, Seq<char>)>, i: int) -> Option<
    (Seq<char>, Seq<char>),
>
    decreases c.len() - i,
{
    if i < 0 || i >= c.len() {
        None
    } else {
        match map_get(ix, c[i].0) {
            Some(p) => Some((c[i].1, p)),
            None => collection_with_index(c, ix, i + 1),
        }
    }
}

/// The series and its number: from the EPUB 3 collections when there are any (the first one
/// with a position, else the first one without a number), else from calibre's metadata.
pub open spec fn series_of(v: OpfView) -> (Option<Seq<char>>, Option<Seq<char>>) {
    if v.collections.len() > 0 {
        match collection_with_index(v.collections, v.indices, 0) {
            Some((n, p)) => (Some(n), Some(p)),
            None => (Some(v.collections[0].1), None),
        }
    } else {
        (v.cal_series, v.cal_series_number)
    }
}


/// The `meta` fields (see `meta_fields`).
fn meta_fields_of(attrs: &Vec<Option<(String, Option<String>)>>) -> (r: Option<
    (Option<String>, Option<String>, Option<String>, Option<String>, Option<String>),
>)
    ensures
        match (r, meta_fields(attrs@)) {
            (None, None) => true,
            (Some(f), Some(g)) => opt_view(f.0) == g.0 && opt_view(f.1) == g.1 && opt_view(f.2)
                == g.2 && opt_view(f.3) == g.3 && opt_view(f.4) == g.4,
            _ => false,
        },
{
    let mut f: (Option<String>, Option<String>, Option<String>, Option<String>, Option<String>) = (
        None,
        None,
        None,
        None,
        None,
    );
    let mut k: usize = 0;
    while k < attrs.len()
        invariant
            k <= attrs.len(),
            meta_fields(attrs@.take(k as int)) == Some(
                (opt_view(f.0), opt_view(f.1), opt_view(f.2), opt_view(f.3), opt_view(f.4)),
            ),
        decreases attrs.len() - k,
    {
        assert(attrs@.take(k + 1).drop_last() =~= attrs@.take(k as int));
        assert(attrs@.take(k + 1).last() == attrs@[k as int]);
        if let Some((key, value)) = &attrs[k] {
            let is_prop = str_eq(key.as_str(), "property");
            let is_id = str_eq(key.as_str(), "id");
            let is_refines = str_eq(key.as_str(), "refines");
            let is_name = str_eq(key.as_str(), "name");
            let is_content = str_eq(key.as_str(), "content");
            if is_prop || is_id || is_refines || is_name || is_content {
                match value {
                    None => {
                        proof {
                            lemma_meta_none_sticks(attrs@, k + 1);
                        }
                        return None;
                    },
                    Some(v) => {
                        let v2 = Some(copy_string(v));
                        if is_prop {
                            f.0 = v2;
                        } else if is_id {
                            f.1 = v2;
                        } else if is_refines {
                            f.2 = v2;
                        } else if is_name {
                            f.3 = v2;
                        } else {
                            f.4 = v2;
                        }
                    },
                }
            }
        }
        k += 1;
    }
    assert(attrs@.take(attrs.len() as int) =~= attrs@);
    Some(f)
}

proof fn lemma_meta_none_sticks(attrs: Seq<Option<(String, Option<String>)>>, k: int)
    requires
        0 <= k <= attrs.len(),
        meta_fields(attrs.take(k)) is None,
    ensures
        meta_fields(attrs) is None,
    decreases attrs.len() - k,
{
    if k < attrs.len() {
        assert(attrs.take(k + 1).drop_last() =~= attrs.take(k));
        lemma_meta_none_sticks(attrs, k + 1);
    } else {
        assert(attrs.take(k) =~= attrs);
    }
}

/// The `name` and `content` of an empty `meta` tag (see `name_content`).
fn name_content_of(attrs: &Vec<Option<(String, Option<String>)>>) -> (r: Option<(Option<String>, Option<String>)>)
    ensures
        match (r, name_content(attrs@)) {
            (None, None) => true,
            (Some(f), Some(g)) => opt_view(f.0) == g.0 && opt_view(f.1) == g.1,
            _ => false,
        },
{
    let mut f: (Option<String>, Option<String>) = (None, None);
    let mut k: usize = 0;
    while k < attrs.len()
        invariant
            k <= attrs.len(),
            name_content(attrs@.take(k as int)) == Some((opt_view(f.0), opt_view(f.1))),
        decreases attrs.len() - k,
    {
        assert(attrs@.take(k + 1).drop_last() =~= attrs@.take(k as int));
        assert(attrs@.take(k + 1).last() == attrs@[k as int]);
        if let Some((key, value)) = &attrs[k] {
            let is_name = str_eq(key.as_str(), "name");
            let is_content = str_eq(key.as_str(), "content");
            if is_name || is_content {
                match value {
                    None => {
                        proof {
                            lemma_name_content_none_sticks(attrs@, k + 1);
                        }
                        return None;
                    },
                    Some(v) => {
                        if is_name {
                            f.0 = Some(copy_string(v));
                        } else {
                            f.1 = Some(copy_string(v));
                        }
                    },
                }
            }
        }
        k += 1;
    }
    assert(attrs@.take(attrs.len() as int) =~= attrs@);
    Some(f)
}

proof fn lemma_name_content_none_sticks(attrs: Seq<Option<(String, Option<String>)>>, k: int)
    requires
        0 <= k <= attrs.len(),
        name_content(attrs.take(k)) is None,
    ensures
        name_content(attrs) is None,
    decreases attrs.len() - k,
{
    if k < attrs.len() {
        assert(attrs.take(k + 1).drop_last() =~= attrs.take(k));
        lemma_name_content_none_sticks(attrs, k + 1);
    } else {
        assert(attrs.take(k) =~= attrs);
    }
}

/// The scheme of an `identifier` tag (see `scheme_of`).
fn scheme_of_exec(attrs: &Vec<Option<(String, Option<String>)>>) -> (r: Option<Option<String>>)
    ensures
        match (r, scheme_of(attrs@)) {
            (None, None) => true,
            (Some(f), Some(g)) => opt_view(f) == g,
            _ => false,
        },
{
    let mut f: Option<String> = None;
    let mut k: usize = 0;
    while k < attrs.len()
        invariant
            k <= attrs.len(),
            scheme_of(attrs@.take(k as int)) == Some(opt_view(f)),
        decreases attrs.len() - k,
    {
        assert(attrs@.take(k + 1).drop_last() =~= attrs@.take(k as int));
        assert(attrs@.take(k + 1).last() == attrs@[k as int]);
        if let Some((key, value)) = &attrs[k] {
            if str_eq(key.as_str(), "opf:scheme") || str_eq(key.as_str(), "scheme") {
                match value {
                    None => {
                        proof {
                            lemma_scheme_none_sticks(attrs@, k + 1);
                        }
                        return None;
                    },
                    Some(v) => {
                        f = Some(copy_string(v));
                    },
                }
            }
        }
        k += 1;
    }
    assert(attrs@.take(attrs.len() as int) =~= attrs@);
    Some(f)
}

proof fn lemma_scheme_none_sticks(attrs: Seq<Option<(String, Option<String>)>>, k: int)
    requires
        0 <= k <= attrs.len(),
        scheme_of(attrs.take(k)) is None,
    ensures
        scheme_of(attrs) is None,
    decreases attrs.len() - k,
{
    if k < attrs.len() {
        assert(attrs.take(k + 1).drop_last() =~= attrs.take(k));
        lemma_scheme_none_sticks(attrs, k + 1);
    } else {
        assert(attrs.take(k) =~= attrs);
    }
}

/// Maps `k` to `x` in a keyed list (see `map_set`).
fn map_set_exec(m: &mut Vec<(String, String)>, k: String, x: String)
    ensures
        pairs_of(final(m)@) == map_set(pairs_of(old(m)@), k@, x@),
{
    let ghost pm = pairs_of(m@);
    let mut i: usize = 0;
    while i < m.len()
        invariant
            i <= m.len(),
            pm == pairs_of(m@),
            pm == pairs_of(old(m)@),
            forall|j: int| 0 <= j < i ==> pm[j].0 != k@,
        decreases m.len() - i,
    {
        if str_eq(m[i].0.as_str(), k.as_str()) {
            assert(pm[i as int].0 == m@[i as int].0@);
            proof {
                lemma_map_set_at(pm, k@, x@, i as int);
            }
            let kv = k;
            let xv = x;
            m.set(i, (kv, xv));
            assert(pairs_of(m@) =~= pm.update(i as int, (k@, x@)));
            return;
        }
        assert(pm[i as int].0 == m@[i as int].0@);
        i += 1;
    }
    proof {
        lemma_map_set_absent(pm, k@, x@);
    }
    let kv = k;
    let xv = x;
    m.push((kv, xv));
    assert(pairs_of(m@) =~= pm.push((k@, x@)));
}

proof fn lemma_map_set_at(m: Seq<(Seq<char>, Seq<char>)>, k: Seq<char>, x: Seq<char>, i: int)
    requires
        0 <= i < m.len(),
        m[i].0 == k,
        forall|j: int| 0 <= j < i ==> m[j].0 != k,
    ensures
        map_set(m, k, x) == m.update(i, (k, x)),
    decreases i,
{
    if i > 0 {
        lemma_map_set_at(m.drop_first(), k, x, i - 1);
        assert(seq![m[0]] + m.drop_first().update(i - 1, (k, x)) =~= m.update(i, (k, x)));
    }
}

proof fn lemma_map_set_absent(m: Seq<(Seq<char>, Seq<char>)>, k: Seq<char>, x: Seq<char>)
    requires
        forall|j: int| 0 <= j < m.len() ==> m[j].0 != k,
    ensures
        map_set(m, k, x) == m.push((k, x)),
    decreases m.len(),
{
    if m.len() > 0 {
        lemma_map_set_absent(m.drop_first(), k, x);
        assert(seq![m[0]] + m.drop_first().push((k, x)) =~= m.push((k, x)));
    } else {
        assert(seq![(k, x)] =~= m.push((k, x)));
    }
}

/// The value a keyed list gives `k` (see `map_get`).
fn map_get_exec(m: &Vec<(String, String)>, k: &str) -> (r: Option<String>)
    ensures
        opt_view(r) == map_get(pairs_of(m@), k@),
{
    let ghost pm = pairs_of(m@);
    let mut i: usize = 0;
    assert(pm.skip(0) =~= pm);
    while i < m.len()
        invariant
            i <= m.len(),
            pm == pairs_of(m@),
            map_get(pm, k@) == map_get(pm.skip(i as int), k@),
        decreases m.len() - i,
    {
        assert(pm.skip(i as int).drop_first() =~= pm.skip(i + 1));
        assert(pm.skip(i as int)[0] == pm[i as int]);
        if str_eq(m[i].0.as_str(), k) {
            return Some(copy_string(&m[i].1));
        }
        i += 1;
    }
    None
}

/// `s` without its leading `#` characters.
pub(crate) fn trim_hashes_text(s: &String) -> (r: String)
    ensures
        r@ == trim_hashes(s@),
{
    let v = chars_of(s.as_str());
    let mut i: usize = 0;
    assert(v@.skip(0) =~= v@);
    while i < v.len() && v[i] == '#'
        invariant
            i <= v.len(),
            v@ == s@,
            trim_hashes(s@) == trim_hashes(v@.skip(i as int)),
        decreases v.len() - i,
    {
        assert(v@.skip(i as int).drop_first() =~= v@.skip(i + 1));
        i += 1;
    }
    let mut out: Vec<char> = Vec::new();
    let mut j = i;
    while j < v.len()
        invariant
            i <= j <= v.len(),
            out@ == v@.subrange(i as int, j as int),
        decreases v.len() - j,
    {
        out.push(v[j]);
        assert(v@.subrange(i as int, j + 1) =~= v@.subrange(i as int, j as int).push(v@[j as int]));
        j += 1;
    }
    assert(v@.subrange(i as int, v.len() as int) =~= v@.skip(i as int));
    string_from_chars(out.as_slice())
}

/// An identifier from its scheme and unescaped text (see `identifier_of`).
fn identifier_from(scheme: Option<String>, value: String) -> (r: Identifier)
    ensures
        (r.scheme@, r.value@) == identifier_of(opt_view(scheme), value@),
{
    match scheme {
        Some(s) => Identifier { scheme: s, value },
        None => {
            let v = chars_of(value.as_str());
            let mut i: usize = 0;
            assert(v@.skip(0) =~= v@);
            while i < v.len() && v[i] != ':'
                invariant
                    i <= v.len(),
                    v@ == value@,
                    find_char(value@, ':') == if find_char(v@.skip(i as int), ':') < 0 {
                        -1
                    } else {
                        i + find_char(v@.skip(i as int), ':')
                    },
                decreases v.len() - i,
            {
                assert(v@.skip(i as int).drop_first() =~= v@.skip(i + 1));
                assert(v@.skip(i as int)[0] == v@[i as int]);
                i += 1;
            }
            if i == v.len() {
                assert(v@.skip(i as int) =~= Seq::<char>::empty());
                proof {
                    reveal_strlit("unknown");
                }
                Identifier { scheme: string_from_chars(chars_of("unknown").as_slice()), value }
            } else {
                assert(v@.skip(i as int)[0] == v@[i as int]);
                let head = string_from_chars(&v.as_slice()[0..i]);
                let mut tail_v: Vec<char> = Vec::new();
                let mut j = i + 1;
                while j < v.len()
                    invariant
                        i < j <= v.len(),
                        tail_v@ == v@.subrange(i + 1, j as int),
                    decreases v.len() - j,
                {
                    tail_v.push(v[j]);
                    assert(v@.subrange(i + 1, j + 1) =~= v@.subrange(i + 1, j as int).push(v@[j as int]));
                    j += 1;
                }
                assert(v@.subrange(0, i as int) =~= v@.take(i as int));
                assert(v@.subrange(i + 1, v.len() as int) =~= v@.skip(i + 1));
                Identifier { scheme: head, value: string_from_chars(tail_v.as_slice()) }
            }
        },
    }
}


/// Reading a package document's metadata, one event at a time.
pub struct OpfMetadataReader {
    pub in_metadata: bool,
    pub in_manifest: bool,
    pub title: Option<String>,
    pub authors: Vec<String>,
    pub description: Option<String>,
    pub publisher: Option<String>,
    pub language: Option<String>,
    pub identifiers: Vec<Identifier>,
    pub subjects: Vec<String>,
    pub cover_id: Option<String>,
    pub cal_series: Option<String>,
    pub cal_series_number: Option<String>,
    pub pages: Option<u32>,
    pub nav_path: Option<String>,
    pub collections: Vec<(String, String)>,
    pub indices: Vec<(String, String)>,
}

/// The content of an optional `OpfText`.
/// What reading a package document's metadata has gathered before the document.
pub open spec fn opf_reader_start() -> OpfView {
    OpfView {
        in_metadata: false,
        in_manifest: false,
        title: None,
        authors: Seq::empty(),
        description: None,
        publisher: None,
        language: None,
        identifiers: Seq::empty(),
        subjects: Seq::empty(),
        cover_id: None,
        cal_series: None,
        cal_series_number: None,
        pages: None,
        nav_path: None,
        collections: Seq::empty(),
        indices: Seq::empty(),
    }
}

/// What reading the items of a package document from `i` on gathers: start tags go through
/// `opf_start` (where it asks for the element's text, that text goes through `opf_text` and
/// reading resumes after it), empty-element tags through `opf_empty`, end tags through
/// `opf_end`; a tag whose needed attribute does not unescape or an error of the document fails
/// the reading, its end stops it.
pub open spec fn opf_run(items: Seq<XmlItem>, i: int, v: OpfView) -> Result<OpfView, OpfError>
    decreases items.len() - i,
{
    if i < 0 || i >= items.len() {
        Ok(v)
    } else {
        let it = items[i];
        match it.event {
            XmlEvent::Start(t) => match opf_start(v, t) {
                None => Err(OpfError::BadAttribute),
                Some((v2, w)) => match w {
                    Some(what) => {
                        let (txt, to) = item_text(it);
                        proof {
                            lemma_resume_index(items, i + 1, to);
                        }
                        opf_run(items, resume_index(items, i + 1, to), opf_text(v2, what, txt))
                    },
                    None => opf_run(items, i + 1, v2),
                },
            },
            XmlEvent::Empty(t) => match opf_empty(v, t) {
                None => Err(OpfError::BadAttribute),
                Some(v2) => opf_run(items, i + 1, v2),
            },
            XmlEvent::End(n) => opf_run(items, i + 1, opf_end(v, n@)),
            XmlEvent::Eof => Ok(v),
            XmlEvent::Error => Err(OpfError::Parse),
            XmlEvent::Other => opf_run(items, i + 1, v),
        }
    }
}

pub open spec fn opt_text_view(t: Option<OpfText>) -> Option<OpfTextView> {
    match t {
        Some(x) => Some(text_view(x)),
        None => None,
    }
}

/// The metadata of a finished reading: the title (`Unknown Title` when there is none) and the
/// rest as gathered, the series from `series_of`; no chapters and no cover data yet.
pub open spec fn book_info_of(b: BookInfo, v: OpfView) -> bool {
    &&& b.title@ == match v.title {
        Some(t) => t,
        None => "Unknown Title"@,
    }
    &&& texts_of(b.authors@) == v.authors
    &&& opt_view(b.description) == v.description
    &&& opt_view(b.publisher) == v.publisher
    &&& opt_view(b.language) == v.language
    &&& identifiers_of(b.identifiers@) == v.identifiers
    &&& texts_of(b.subjects@) == v.subjects
    &&& (opt_view(b.series), opt_view(b.series_number)) == series_of(v)
    &&& b.pages == v.pages
    &&& b.chapters.len() == 0
    &&& b.cover_data is None
    &&& b.cover_mime_type is None
}

impl OpfMetadataReader {
    /// The content of the reader.
    pub open spec fn view(&self) -> OpfView {
        OpfView {
            in_metadata: self.in_metadata,
            in_manifest: self.in_manifest,
            title: opt_view(self.title),
            authors: texts_of(self.authors@),
            description: opt_view(self.description),
            publisher: opt_view(self.publisher),
            language: opt_view(self.language),
            identifiers: identifiers_of(self.identifiers@),
            subjects: texts_of(self.subjects@),
            cover_id: opt_view(self.cover_id),
            cal_series: opt_view(self.cal_series),
            cal_series_number: opt_view(self.cal_series_number),
            pages: self.pages,
            nav_path: opt_view(self.nav_path),
            collections: pairs_of(self.collections@),
            indices: pairs_of(self.indices@),
        }
    }

    /// A reader before the document.
    pub fn new() -> (r: Self)
        ensures
            r.view() == opf_reader_start(),
    {
        let r = OpfMetadataReader {
            in_metadata: false,
            in_manifest: false,
            title: None,
            authors: Vec::new(),
            description: None,
            publisher: None,
            language: None,
            identifiers: Vec::new(),
            subjects: Vec::new(),
            cover_id: None,
            cal_series: None,
            cal_series_number: None,
            pages: None,
            nav_path: None,
            collections: Vec::new(),
            indices: Vec::new(),
        };
        assert(texts_of(r.authors@) =~= Seq::<Seq<char>>::empty());
        assert(texts_of(r.subjects@) =~= Seq::<Seq<char>>::empty());
        assert(identifiers_of(r.identifiers@) =~= Seq::<(Seq<char>, Seq<char>)>::empty());
        assert(pairs_of(r.collections@) =~= Seq::<(Seq<char>, Seq<char>)>::empty());
        assert(pairs_of(r.indices@) =~= Seq::<(Seq<char>, Seq<char>)>::empty());
        r
    }

    /// Takes a start tag (see `opf_start`): returns the text to read next, if any.
    pub fn start(&mut self, t: &XmlTag) -> (r: Result<Option<OpfText>, OpfError>)
        ensures
            match opf_start(old(self).view(), *t) {
                None => r matches Err(OpfError::BadAttribute),
                Some((v, what)) => r matches Ok(o) && final(self).view() == v && opt_text_view(o)
                    == what,
            },
    {
        let name = t.local_name.as_str();
        if str_eq(name, "metadata") {
            self.in_metadata = true;
            return Ok(None);
        }
        if str_eq(name, "manifest") {
            self.in_manifest = true;
            return Ok(None);
        }
        if !self.in_metadata {
            return Ok(None);
        }
        if str_eq(name, "title") {
            Ok(Some(OpfText::Title))
        } else if str_eq(name, "creator") {
            Ok(Some(OpfText::Creator))
        } else if str_eq(name, "description") {
            Ok(Some(OpfText::Description))
        } else if str_eq(name, "publisher") {
            Ok(Some(OpfText::Publisher))
        } else if str_eq(name, "language") {
            Ok(Some(OpfText::Language))
        } else if str_eq(name, "identifier") {
            match scheme_of_exec(&t.attributes) {
                None => Err(OpfError::BadAttribute),
                Some(s) => Ok(Some(OpfText::Identifier(s))),
            }
        } else if str_eq(name, "subject") {
            Ok(Some(OpfText::Subject))
        } else if str_eq(name, "meta") {
            match meta_fields_of(&t.attributes) {
                None => Err(OpfError::BadAttribute),
                Some((prop, id, refines, n, c)) => {
                    if let (Some(n), Some(c)) = (&n, &c) {
                        if str_eq(n.as_str(), "cover") {
                            self.cover_id = Some(copy_string(c));
                        }
                        if str_eq(n.as_str(), "calibre:series") {
                            self.cal_series = Some(copy_string(c));
                        }
                        if str_eq(n.as_str(), "calibre:series_index") {
                            self.cal_series_number = Some(copy_string(c));
                        }
                    }
                    match prop {
                        Some(p) => {
                            if str_eq(p.as_str(), "belongs-to-collection") {
                                Ok(Some(OpfText::Collection(id)))
                            } else if str_eq(p.as_str(), "group-position") {
                                Ok(Some(OpfText::GroupPosition(refines)))
                            } else if str_eq(p.as_str(), "schema:numberOfPages") {
                                Ok(Some(OpfText::Pages))
                            } else {
                                Ok(None)
                            }
                        },
                        None => Ok(None),
                    }
                },
            }
        } else {
            Ok(None)
        }
    }

    /// Takes an empty-element tag (see `opf_empty`).
    pub fn empty(&mut self, t: &XmlTag) -> (r: Result<(), OpfError>)
        ensures
            match opf_empty(old(self).view(), *t) {
                None => r matches Err(OpfError::BadAttribute),
                Some(v) => r is Ok && final(self).view() == v,
            },
    {
        let name = t.local_name.as_str();
        if self.in_metadata && str_eq(name, "meta") {
            match name_content_of(&t.attributes) {
                None => Err(OpfError::BadAttribute),
                Some((n, c)) => {
                    if let (Some(n), Some(c)) = (n, c) {
                        if str_eq(n.as_str(), "cover") {
                            self.cover_id = Some(c);
                        } else if str_eq(n.as_str(), "calibre:series") {
                            self.cal_series = Some(c);
                        } else if str_eq(n.as_str(), "calibre:series_index") {
                            self.cal_series_number = Some(c);
                        }
                    }
                    Ok(())
                },
            }
        } else if self.in_manifest && str_eq(name, "item") {
            let href = last_attr_of(&t.attributes, "href", None);
            let props = last_attr_of(&t.attributes, "properties", None);
            if let (Some(h), Some(p)) = (href, props) {
                if contains_text(p.as_str(), "nav") {
                    self.nav_path = Some(h);
                }
            }
            Ok(())
        } else {
            Ok(())
        }
    }

    /// Takes an end tag (see `opf_end`).
    pub fn end(&mut self, name: &String)
        ensures
            final(self).view() == opf_end(old(self).view(), name@),
    {
        if str_eq(name.as_str(), "metadata") {
            self.in_metadata = false;
        } else if str_eq(name.as_str(), "manifest") {
            self.in_manifest = false;
        }
    }

    /// Takes the text read for `what` (see `opf_text`).
    pub fn text(&mut self, what: OpfText, text: Option<String>)
        ensures
            final(self).view() == opf_text(old(self).view(), text_view(what), opt_view(text)),
    {
        let raw = match text {
            None => {
                return;
            },
            Some(raw) => raw,
        };
        match what {
            OpfText::Title => {
                self.title = Some(unescape_or_same(raw.as_str()));
            },
            OpfText::Creator => {
                let ghost before = texts_of(self.authors@);
                self.authors.push(unescape_or_same(raw.as_str()));
                assert(texts_of(self.authors@) =~= before.push(self.authors@.last()@));
            },
            OpfText::Description => {
                let cleaned = sanitize_html(raw.as_str());
                let d = trim_chars(&chars_of(cleaned.as_str()));
                if d.len() > 0 {
                    self.description = Some(string_from_chars(d.as_slice()));
                }
            },
            OpfText::Publisher => {
                self.publisher = Some(unescape_or_same(raw.as_str()));
            },
            OpfText::Language => {
                self.language = Some(unescape_or_same(raw.as_str()));
            },
            OpfText::Identifier(s) => {
                let u = unescape_or_same(raw.as_str());
                let ghost before = identifiers_of(self.identifiers@);
                let id = identifier_from(s, u);
                self.identifiers.push(id);
                assert(identifiers_of(self.identifiers@) =~= before.push(
                    (self.identifiers@.last().scheme@, self.identifiers@.last().value@),
                ));
            },
            OpfText::Subject => {
                let u = unescape_or_same(raw.as_str());
                if chars_of(u.as_str()).len() > 0 {
                    let ghost before = texts_of(self.subjects@);
                    self.subjects.push(u);
                    assert(texts_of(self.subjects@) =~= before.push(self.subjects@.last()@));
                }
            },
            OpfText::Collection(id) => {
                if let Some(i) = id {
                    let u = unescape_or_same(raw.as_str());
                    map_set_exec(&mut self.collections, i, u);
                }
            },
            OpfText::GroupPosition(r) => {
                if let Some(r) = r {
                    let key = trim_hashes_text(&r);
                    let u = unescape_or_same(raw.as_str());
                    map_set_exec(&mut self.indices, key, u);
                }
            },
            OpfText::Pages => {
                let t = trim_chars(&chars_of(raw.as_str()));
                let n = t.len();
                assert(t@.subrange(0, n as int) =~= t@);
                if let Some(p) = parse_unsigned_chars(&t, 0, n, 4294967295) {
                    self.pages = Some(p);
                }
            },
        }
    }

    /// The metadata read (see `book_info_of`), the cover id and the navigation document's path.
    pub fn finish(self) -> (r: (BookInfo, Option<String>, Option<String>))
        ensures
            book_info_of(r.0, self.view()),
            opt_view(r.1) == self.view().cover_id,
            opt_view(r.2) == self.view().nav_path,
    {
        let ghost v = self.view();
        let (series, series_number) = if self.collections.len() > 0 {
            let mut found: Option<(String, String)> = None;
            let mut i: usize = 0;
            while i < self.collections.len() && found.is_none()
                invariant
                    i <= self.collections.len(),
                    v == self.view(),
                    found is None ==> collection_with_index(v.collections, v.indices, 0)
                        == collection_with_index(v.collections, v.indices, i as int),
                    found matches Some(f) ==> collection_with_index(v.collections, v.indices, 0)
                        == Some((f.0@, f.1@)),
                decreases self.collections.len() - i,
            {
                match map_get_exec(&self.indices, self.collections[i].0.as_str()) {
                    Some(p) => {
                        found = Some((copy_string(&self.collections[i].1), p));
                    },
                    None => {},
                }
                i += 1;
            }
            match found {
                Some((n, p)) => (Some(n), Some(p)),
                None => (Some(copy_string(&self.collections[0].1)), None),
            }
        } else {
            (self.cal_series, self.cal_series_number)
        };
        proof {
            reveal_strlit("Unknown Title");
        }
        let title = match self.title {
            Some(t) => t,
            None => string_from_chars(chars_of("Unknown Title").as_slice()),
        };
        let info = BookInfo {
            title,
            authors: self.authors,
            description: self.description,
            publisher: self.publisher,
            language: self.language,
            identifiers: self.identifiers,
            subjects: self.subjects,
            series,
            series_number,
            pages: self.pages,
            chapters: Vec::new(),
            cover_data: None,
            cover_mime_type: None,
        };
        (info, self.cover_id, self.nav_path)
    }
}
impl EpubParser {
    /// The metadata of an EPUB package document, with its cover id and the path of its navigation
    /// document: what `OpfMetadataReader::finish` makes of the reading of the document's items
    /// (see `opf_run`), or the error that reading meets.
    pub fn parse_opf_metadata(opf_xml: &str) -> (r: Result<(BookInfo, Option<String>, Option<String>), OpfError>)
        ensures
            match (r, opf_run(document_items(opf_xml@), 0, opf_reader_start())) {
                (Ok(x), Ok(v)) => book_info_of(x.0, v) && opt_view(x.1) == v.cover_id && opt_view(x.2)
                    == v.nav_path,
                (Err(e), Err(f)) => e == f,
                _ => false,
            },
            r matches Ok(x) ==> x.0.chapters.len() == 0 && x.0.cover_data is None,
    {
        let items = xml_items(opf_xml);
        let ghost all = items@;
        let mut st = OpfMetadataReader::new();
        let mut i: usize = 0;
        while i < items.len()
            invariant
                i <= items.len(),
                all == items@,
                all == document_items(opf_xml@),
                opf_run(all, 0, opf_reader_start()) == opf_run(all, i as int, st.view()),
            ensures
                opf_run(all, 0, opf_reader_start()) == Ok::<OpfView, OpfError>(st.view()),
            decreases items.len() - i,
        {
            match &items[i].event {
                XmlEvent::Start(t) => {
                    match st.start(t) {
                        Err(err) => {
                            return Err(err);
                        },
                        Ok(Some(what)) => {
                            let text = match &items[i].text {
                                Some((x, _)) => crate::text::copy_opt_string(x),
                                None => None,
                            };
                            let next = resume_after_text(&items, i);
                            st.text(what, text);
                            i = next;
                        },
                        Ok(None) => {
                            i += 1;
                        },
                    }
                },
                XmlEvent::Empty(t) => {
                    if let Err(err) = st.empty(t) {
                        return Err(err);
                    }
                    i += 1;
                },
                XmlEvent::End(name) => {
                    st.end(name);
                    i += 1;
                },
                XmlEvent::Eof => {
                    break;
                },
                XmlEvent::Error => {
                    assert(opf_run(all, i as int, st.view()) == Err::<OpfView, OpfError>(OpfError::Parse));
                    return Err(OpfError::Parse);
                },
                XmlEvent::Other => {
                    i += 1;
                },
            }
        }
        Ok(st.finish())
    }
}

} // verus!
