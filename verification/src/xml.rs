//! XML documents as the stream of events that quick-xml reads from them, and the EPUB package
//! logic that works on that stream: the package path in `container.xml`, the cover image and
//! the reading order of the package document, and the page count of the navigation document.
use vstd::prelude::*;
use crate::parsers::EpubParser;
use crate::text::{chars_of, copy_string, find_first, first_from, str_eq, string_from_chars, trim_chars, trim_ws};
use crate::utils::{xml_unescape, xml_unescaped};

verus! {

/// A start or empty-element tag: its local name and its attributes in order, each as its key
/// and its unescaped value (`None` where unescaping fails); `None` for an attribute that
/// quick-xml reports as malformed.
pub struct XmlTag {
    /// The qualified name (with its prefix).
    pub name: String,
    pub local_name: String,
    pub attributes: Vec<Option<(String, Option<String>)>>,
}

/// An event of the stream.
pub enum XmlEvent {
    Start(XmlTag),
    Empty(XmlTag),
    /// An end tag, by its local name.
    End(String),
    Eof,
    Error,
    /// Text, comments, declarations and other events the logic here passes over.
    Other,
}

#[verifier::external_type_specification]
#[verifier::external_body]
#[verifier::reject_recursive_types(R)]
pub struct ExXmlReader<R>(quick_xml::Reader<R>);

#[verifier::external_type_specification]
#[verifier::external_body]
pub struct ExXmlBytesStart<'a>(quick_xml::events::BytesStart<'a>);

/// An event of a document as the library holds it, with the byte offset at which the reader
/// stands after it (`Reader::buffer_position`); for a start tag also what `Reader::read_text`
/// gives for the element (its raw content up to the matching end tag, `None` where quick-xml
/// reports an error) and the offset at which the reader stands after that.
pub struct XmlItem {
    pub event: XmlEvent,
    pub position: u64,
    pub text: Option<(Option<String>, u64)>,
}

/// The items quick-xml reads from the text `xml` (with whitespace around text trimmed): its
/// events in order, up to and including the end of the document or the first error.
pub uninterp spec fn document_items(xml: Seq<char>) -> Seq<XmlItem>;

/// The events of the items.
pub open spec fn item_events(items: Seq<XmlItem>) -> Seq<XmlEvent> {
    items.map_values(|it: XmlItem| it.event)
}

/// The events quick-xml reads from the text `xml`.
pub open spec fn document_events(xml: Seq<char>) -> Seq<XmlEvent> {
    item_events(document_items(xml))
}

/// Whether an event ends the stream.
pub open spec fn is_last(e: XmlEvent) -> bool {
    e is Eof || e is Error
}

/// Whether a stream of events ends with its only end-of-document or error event.
pub open spec fn ends_once(ev: Seq<XmlEvent>) -> bool {
    &&& ev.len() > 0
    &&& is_last(ev.last())
    &&& forall|i: int| 0 <= i < ev.len() - 1 ==> !is_last(#[trigger] ev[i])
}

/// `quick_xml::Reader::from_str` with whitespace around text trimmed.
#[verifier::external_body]
fn xml_reader(xml: &str) -> quick_xml::Reader<&[u8]> {
    let mut reader = quick_xml::Reader::from_str(xml);
    reader.config_mut().trim_text(true);
    reader
}

/// A tag as the library holds it: `name()`, `local_name()`, and each of `attributes()` with its
/// key and `unescape_value()`.
#[verifier::external_body]
#[allow(deprecated)]
fn tag_of(e: &quick_xml::events::BytesStart) -> XmlTag {
    XmlTag {
        name: e.name().as_ref().to_string(),
        local_name: e.local_name().as_ref().to_string(),
        attributes: e
            .attributes()
            .map(|a| a.ok().map(|a| (a.key.as_ref().to_string(), a.unescape_value().ok().map(|v| v.into_owned()))))
            .collect(),
    }
}

/// A quick-xml reader over the text `xml` (see `xml_reader`) that has read the first `read`
/// items of `document_items(xml)`; only the functions of this module move it.
pub struct XmlCursor<'a> {
    reader: quick_xml::Reader<&'a [u8]>,
    xml: Ghost<Seq<char>>,
    read: Ghost<nat>,
}

impl<'a> XmlCursor<'a> {
    /// The text being read.
    pub closed spec fn text(&self) -> Seq<char> {
        self.xml@
    }

    /// How many items of the text have been read.
    pub closed spec fn count(&self) -> nat {
        self.read@
    }

    /// Whether another item can be read: none has been read yet, or the last one read did not
    /// end the stream.
    pub open spec fn can_read(&self) -> bool {
        ||| self.count() == 0
        ||| self.count() <= document_items(self.text()).len() && !is_last(
            document_items(self.text())[self.count() - 1].event,
        )
    }

    /// A cursor at the start of `xml`.
    fn open(xml: &'a str) -> (r: Self)
        ensures
            r.text() == xml@,
            r.count() == 0,
    {
        XmlCursor { reader: xml_reader(xml), xml: Ghost(xml@), read: Ghost(0) }
    }
}

/// `Reader::read_event`, each kind of event turned into the library's. The event is the next
/// item's; the stream has such an item, and it ends there exactly when the event is the end of
/// the document or an error; no text is read for an event other than a start tag.
#[verifier::external_body]
fn next_event(cur: &mut XmlCursor) -> (e: XmlEvent)
    requires
        old(cur).can_read(),
    ensures
        old(cur).count() < document_items(old(cur).text()).len(),
        e == document_items(old(cur).text())[old(cur).count() as int].event,
        is_last(e) <==> old(cur).count() + 1 == document_items(old(cur).text()).len(),
        !(e is Start) ==> document_items(old(cur).text())[old(cur).count() as int].text is None,
        final(cur).text() == old(cur).text(),
        final(cur).count() == old(cur).count() + 1,
{
    match cur.reader.read_event() {
        Ok(quick_xml::events::Event::Start(e)) => XmlEvent::Start(tag_of(&e)),
        Ok(quick_xml::events::Event::Empty(e)) => XmlEvent::Empty(tag_of(&e)),
        Ok(quick_xml::events::Event::End(e)) => XmlEvent::End(e.local_name().as_ref().to_string()),
        Ok(quick_xml::events::Event::Eof) => XmlEvent::Eof,
        Ok(_) => XmlEvent::Other,
        Err(_) => XmlEvent::Error,
    }
}

/// `Reader::buffer_position`: the offset after the last item read.
#[verifier::external_body]
fn cursor_position(cur: &XmlCursor) -> (r: u64)
    requires
        0 < cur.count() <= document_items(cur.text()).len(),
    ensures
        r == document_items(cur.text())[cur.count() - 1].position,
{
    cur.reader.buffer_position()
}

/// After a start tag named `name`: `Reader::read_text` up to its end tag on a copy of the reader
/// (`Clone`), as text (`None` where quick-xml reports an error), and that copy's
/// `buffer_position` after it.
#[verifier::external_body]
fn text_after_start(cur: &XmlCursor, name: &str) -> (r: (Option<String>, u64))
    requires
        0 < cur.count() <= document_items(cur.text()).len(),
        document_items(cur.text())[cur.count() - 1].event matches XmlEvent::Start(t) && t.name@ == name@,
    ensures
        document_items(cur.text())[cur.count() - 1].text == Some(r),
{
    let mut probe = cur.reader.clone();
    let text = probe.read_text(quick_xml::name::QName(name)).ok().map(|t| t.into_inner().into_owned());
    (text, probe.buffer_position())
}

/// The items of a document (see `document_items`), read one by one until the end of the
/// document or the first error.
pub(crate) fn xml_items(xml: &str) -> (r: Vec<XmlItem>)
    ensures
        r@ == document_items(xml@),
        ends_once(item_events(r@)),
{
    let mut cur = XmlCursor::open(xml);
    let mut items: Vec<XmlItem> = Vec::new();
    loop
        invariant
            cur.text() == xml@,
            cur.count() == items.len(),
            items.len() <= document_items(xml@).len(),
            items@ == document_items(xml@).take(items.len() as int),
            cur.can_read(),
            forall|i: int| 0 <= i < items.len() ==> !is_last(#[trigger] items@[i].event),
        decreases document_items(xml@).len() - items.len(),
    {
        let ghost k = items.len() as int;
        let event = next_event(&mut cur);
        let position = cursor_position(&cur);
        let text = match &event {
            XmlEvent::Start(t) => Some(text_after_start(&cur, t.name.as_str())),
            _ => None,
        };
        let last = match &event {
            XmlEvent::Eof => true,
            XmlEvent::Error => true,
            _ => false,
        };
        items.push(XmlItem { event, position, text });
        assert(items@ =~= document_items(xml@).take(k + 1));
        if last {
            assert(items@ =~= document_items(xml@));
            return items;
        }
    }
}

/// Where reading resumes after the text of a start tag was read: just past the first item
/// from `k` on that ends at or beyond the offset `to` the text reading reached, or past the end.
pub open spec fn resume_index(items: Seq<XmlItem>, k: int, to: u64) -> int
    decreases items.len() - k,
{
    if k < 0 || k >= items.len() {
        items.len() as int
    } else if items[k].position >= to {
        k + 1
    } else {
        resume_index(items, k + 1, to)
    }
}

/// Reading resumes after `k` and within the items.
pub proof fn lemma_resume_index(items: Seq<XmlItem>, k: int, to: u64)
    requires
        0 <= k,
    ensures
        k <= resume_index(items, k, to) <= items.len() || (k > items.len() && resume_index(items, k, to) == items.len()),
    decreases items.len() - k,
{
    if k < items.len() && items[k].position < to {
        lemma_resume_index(items, k + 1, to);
    }
}

/// The text read for a start-tag item (its view) and the offset reading reached.
pub open spec fn item_text(it: XmlItem) -> (Option<Seq<char>>, u64) {
    match it.text {
        Some((t, to)) => (opt_view(t), to),
        None => (None, it.position),
    }
}

/// Where reading resumes after the text of the start-tag item at `i` (see `resume_index`).
pub fn resume_after_text(items: &Vec<XmlItem>, i: usize) -> (r: usize)
    requires
        i < items.len(),
    ensures
        r == resume_index(items@, i + 1, item_text(items@[i as int]).1),
        i < r <= items.len(),
{
    let to = match &items[i].text {
        Some((_, to)) => *to,
        None => items[i].position,
    };
    let mut k = i + 1;
    proof {
        lemma_resume_index(items@, (i + 1) as int, to);
    }
    while k < items.len() && items[k].position < to
        invariant
            i < k <= items.len(),
            resume_index(items@, (i + 1) as int, to) == resume_index(items@, k as int, to),
        decreases items.len() - k,
    {
        k += 1;
    }
    if k < items.len() {
        k + 1
    } else {
        k
    }
}

/// The events of a document (see `document_events`).
pub fn xml_events(xml: &str) -> (r: Vec<XmlEvent>)
    ensures
        r@ == document_events(xml@),
        ends_once(r@),
{
    let mut items = xml_items(xml);
    let ghost all = item_events(items@);
    let mut rev: Vec<XmlEvent> = Vec::new();
    while items.len() > 0
        invariant
            item_events(items@) + rev@.reverse() == all,
        decreases items.len(),
    {
        let ghost i0 = item_events(items@);
        let ghost r0 = rev@;
        let it = items.pop().unwrap();
        rev.push(it.event);
        assert(i0 =~= item_events(items@).push(rev@.last()));
        assert(rev@.reverse() =~= seq![rev@.last()] + r0.reverse());
        assert(item_events(items@) + rev@.reverse() =~= i0 + r0.reverse());
    }
    assert(item_events(items@) =~= Seq::<XmlEvent>::empty());
    let mut events: Vec<XmlEvent> = Vec::new();
    while rev.len() > 0
        invariant
            events@ + rev@.reverse() == all,
        decreases rev.len(),
    {
        let ghost r0 = rev@;
        let ghost e0 = events@;
        let e = rev.pop().unwrap();
        events.push(e);
        assert(r0 =~= rev@.push(e));
        assert(r0.reverse() =~= seq![e] + rev@.reverse());
        assert(events@ + rev@.reverse() =~= e0 + r0.reverse());
    }
    assert(events@ =~= all);
    events
}

/// Whether `s` ends with `suffix`.
pub open spec fn text_ends_with(s: Seq<char>, suffix: Seq<char>) -> bool {
    s.len() >= suffix.len() && s.skip(s.len() - suffix.len()) == suffix
}

/// Whether `s` ends with `suffix`.
pub(crate) fn ends_with_text(s: &str, suffix: &str) -> (r: bool)
    ensures
        r == text_ends_with(s@, suffix@),
{
    let a = chars_of(s);
    let b = chars_of(suffix);
    if a.len() < b.len() {
        return false;
    }
    let off = a.len() - b.len();
    let mut i: usize = 0;
    while i < b.len()
        invariant
            i <= b.len(),
            off + b.len() == a.len(),
            a@ == s@,
            b@ == suffix@,
            forall|k: int| 0 <= k < i ==> a@[off + k] == b@[k],
        decreases b.len() - i,
    {
        if a[off + i] != b[i] {
            assert(a@.skip(off as int)[i as int] != b@[i as int]);
            return false;
        }
        i += 1;
    }
    assert(a@.skip(off as int) =~= b@);
    true
}

/// Whether `pat` occurs in `s`.
pub open spec fn text_contains(s: Seq<char>, pat: Seq<char>) -> bool {
    first_from(s, pat, 0) >= 0
}

/// Whether `pat` occurs in `s`.
pub(crate) fn contains_text(s: &str, pat: &str) -> (r: bool)
    ensures
        r == text_contains(s@, pat@),
{
    find_first(&chars_of(s), &chars_of(pat)).is_some()
}

// ── container.xml ───────────────────────────────────────────────────────

/// Why no package path was found in `container.xml`.
#[derive(Debug, Clone, Copy, PartialEq, Eq)]
pub enum OpfPathError {
    /// The document is not well-formed XML.
    Parse,
    /// The `full-path` attribute of a `rootfile` does not unescape.
    BadAttribute,
    /// No `rootfile` with a `full-path`.
    Missing,
}

/// The package path named by the attributes `attrs` (from `k` on) of a `rootfile` tag: the
/// first `full-path`.
pub open spec fn full_path_from(attrs: Seq<Option<(String, Option<String>)>>, k: int) -> Option<
    Result<Seq<char>, OpfPathError>,
>
    decreases attrs.len() - k,
{
    if k < 0 || k >= attrs.len() {
        None
    } else {
        match attrs[k] {
            Some((key, value)) => if key@ == "full-path"@ {
                match value {
                    Some(v) => Some(Ok(v@)),
                    None => Some(Err(OpfPathError::BadAttribute)),
                }
            } else {
                full_path_from(attrs, k + 1)
            },
            None => full_path_from(attrs, k + 1),
        }
    }
}

/// The package path named in `container.xml`, read from event `i` on.
pub open spec fn opf_path_from(events: Seq<XmlEvent>, i: int) -> Result<Seq<char>, OpfPathError>
    decreases events.len() - i,
{
    if i < 0 || i >= events.len() {
        Err(OpfPathError::Missing)
    } else {
        match events[i] {
            XmlEvent::Start(t) | XmlEvent::Empty(t) => if t.local_name@ == "rootfile"@ {
                match full_path_from(t.attributes@, 0) {
                    Some(r) => r,
                    None => opf_path_from(events, i + 1),
                }
            } else {
                opf_path_from(events, i + 1)
            },
            XmlEvent::Eof => Err(OpfPathError::Missing),
            XmlEvent::Error => Err(OpfPathError::Parse),
            _ => opf_path_from(events, i + 1),
        }
    }
}

/// The `full-path` of a `rootfile` tag's attributes, if it has one.
fn full_path_of(attrs: &Vec<Option<(String, Option<String>)>>) -> (r: Option<Result<String, OpfPathError>>)
    ensures
        match (r, full_path_from(attrs@, 0)) {
            (None, None) => true,
            (Some(Ok(p)), Some(Ok(q))) => p@ == q,
            (Some(Err(e)), Some(Err(f))) => e == f,
            _ => false,
        },
{
    let mut k: usize = 0;
    while k < attrs.len()
        invariant
            k <= attrs.len(),
            full_path_from(attrs@, 0) == full_path_from(attrs@, k as int),
        decreases attrs.len() - k,
    {
        if let Some((key, value)) = &attrs[k] {
            if str_eq(key.as_str(), "full-path") {
                return match value {
                    Some(v) => Some(Ok(copy_string(v))),
                    None => Some(Err(OpfPathError::BadAttribute)),
                };
            }
        }
        k += 1;
    }
    None
}

/// The package path named in `container.xml` by its events (see `opf_path_from`).
pub fn opf_path_in(events: &Vec<XmlEvent>) -> (r: Result<String, OpfPathError>)
    ensures
        match (r, opf_path_from(events@, 0)) {
            (Ok(p), Ok(q)) => p@ == q,
            (Err(e), Err(f)) => e == f,
            _ => false,
        },
{
    let mut i: usize = 0;
    while i < events.len()
        invariant
            i <= events.len(),
            opf_path_from(events@, 0) == opf_path_from(events@, i as int),
        decreases events.len() - i,
    {
        match &events[i] {
            XmlEvent::Start(t) | XmlEvent::Empty(t) => {
                if str_eq(t.local_name.as_str(), "rootfile") {
                    match full_path_of(&t.attributes) {
                        Some(r) => {
                            return r;
                        },
                        None => {},
                    }
                }
            },
            XmlEvent::Eof => {
                return Err(OpfPathError::Missing);
            },
            XmlEvent::Error => {
                return Err(OpfPathError::Parse);
            },
            _ => {},
        }
        i += 1;
    }
    Err(OpfPathError::Missing)
}
impl EpubParser {
    /// The package path named in an EPUB's `container.xml`: the `full-path` of its first
    /// `rootfile` that has one (see `opf_path_in`, applied to the events quick-xml reads).
    pub fn find_opf_path(container_xml: &str) -> (r: Result<String, OpfPathError>)
        ensures
            match (r, opf_path_from(document_events(container_xml@), 0)) {
                (Ok(p), Ok(q)) => p@ == q,
                (Err(e), Err(f)) => e == f,
                _ => false,
            },
    {
        let events = xml_events(container_xml);
        opf_path_in(&events)
    }
}


// ── Cover image of the package document ─────────────────────────────────

/// Why the cover image could not be looked up.
#[derive(Debug, Clone, Copy, PartialEq, Eq)]
pub enum CoverPathError {
    /// The document is not well-formed XML.
    Parse,
    /// An `id`, `href`, `media-type` or `properties` attribute of an `item` does not unescape.
    BadAttribute,
}

/// The `id`, `href`, `media-type` and `properties` of an `item` tag (the last of each), or
/// `None` when one of them does not unescape.
pub open spec fn item_fields(attrs: Seq<Option<(String, Option<String>)>>) -> Option<
    (Option<Seq<char>>, Option<Seq<char>>, Option<Seq<char>>, Option<Seq<char>>),
>
    decreases attrs.len(),
{
    if attrs.len() == 0 {
        Some((None, None, None, None))
    } else {
        match item_fields(attrs.drop_last()) {
            None => None,
            Some(f) => match attrs.last() {
                None => Some(f),
                Some((key, value)) => {
                    let k = key@;
                    if k == "id"@ || k == "href"@ || k == "media-type"@ || k == "properties"@ {
                        match value {
                            None => None,
                            Some(v) => if k == "id"@ {
                                Some((Some(v@), f.1, f.2, f.3))
                            } else if k == "href"@ {
                                Some((f.0, Some(v@), f.2, f.3))
                            } else if k == "media-type"@ {
                                Some((f.0, f.1, Some(v@), f.3))
                            } else {
                                Some((f.0, f.1, f.2, Some(v@)))
                            },
                        }
                    } else {
                        Some(f)
                    }
                },
            },
        }
    }
}

/// Whether `s` starts with `prefix`.
pub open spec fn text_starts_with(s: Seq<char>, prefix: Seq<char>) -> bool {
    s.len() >= prefix.len() && s.take(prefix.len() as int) == prefix
}

/// The cover image an `item` with these fields names: an image whose `properties` mention
/// `cover-image` (EPUB 3), or whose `id` is the cover id of the metadata (EPUB 2).
pub open spec fn cover_pick(
    f: (Option<Seq<char>>, Option<Seq<char>>, Option<Seq<char>>, Option<Seq<char>>),
    cover_id: Option<Seq<char>>,
) -> Option<(Seq<char>, Seq<char>)> {
    match (f.1, f.2) {
        (Some(href), Some(media)) => if text_starts_with(media, "image/"@) {
            if (f.3 matches Some(p) && text_contains(p, "cover-image"@)) || (cover_id matches Some(
                c,
            ) && f.0 == Some(c)) {
                Some((href, media))
            } else {
                None
            }
        } else {
            None
        },
        _ => None,
    }
}

/// The path and media type of the cover image, read from event `i` on: those of the first
/// `item` that `cover_pick` takes, or none.
pub open spec fn cover_from(events: Seq<XmlEvent>, i: int, cover_id: Option<Seq<char>>) -> Result<
    Option<(Seq<char>, Seq<char>)>,
    CoverPathError,
>
    decreases events.len() - i,
{
    if i < 0 || i >= events.len() {
        Ok(None)
    } else {
        match events[i] {
            XmlEvent::Start(t) | XmlEvent::Empty(t) => if t.local_name@ == "item"@ {
                match item_fields(t.attributes@) {
                    None => Err(CoverPathError::BadAttribute),
                    Some(f) => match cover_pick(f, cover_id) {
                        Some(c) => Ok(Some(c)),
                        None => cover_from(events, i + 1, cover_id),
                    },
                }
            } else {
                cover_from(events, i + 1, cover_id)
            },
            XmlEvent::Eof => Ok(None),
            XmlEvent::Error => Err(CoverPathError::Parse),
            _ => cover_from(events, i + 1, cover_id),
        }
    }
}

/// Whether `s` starts with `prefix`.
pub(crate) fn starts_with_text(s: &str, prefix: &str) -> (r: bool)
    ensures
        r == text_starts_with(s@, prefix@),
{
    let a = chars_of(s);
    let b = chars_of(prefix);
    if a.len() < b.len() {
        return false;
    }
    let mut i: usize = 0;
    while i < b.len()
        invariant
            i <= b.len() <= a.len(),
            a@ == s@,
            b@ == prefix@,
            forall|k: int| 0 <= k < i ==> a@[k] == b@[k],
        decreases b.len() - i,
    {
        if a[i] != b[i] {
            assert(a@.take(b.len() as int)[i as int] != b@[i as int]);
            return false;
        }
        i += 1;
    }
    assert(a@.take(b.len() as int) =~= b@);
    true
}

/// The text of an optional string.
pub open spec fn opt_view(o: Option<String>) -> Option<Seq<char>> {
    match o {
        Some(s) => Some(s@),
        None => None,
    }
}

/// The fields of an `item` tag (see `item_fields`).
fn item_fields_of(attrs: &Vec<Option<(String, Option<String>)>>) -> (r: Option<
    (Option<String>, Option<String>, Option<String>, Option<String>),
>)
    ensures
        match (r, item_fields(attrs@)) {
            (None, None) => true,
            (Some(f), Some(g)) => opt_view(f.0) == g.0 && opt_view(f.1) == g.1 && opt_view(f.2)
                == g.2 && opt_view(f.3) == g.3,
            _ => false,
        },
{
    let mut id: Option<String> = None;
    let mut href: Option<String> = None;
    let mut media: Option<String> = None;
    let mut props: Option<String> = None;
    let mut k: usize = 0;
    while k < attrs.len()
        invariant
            k <= attrs.len(),
            item_fields(attrs@.take(k as int)) == Some(
                (opt_view(id), opt_view(href), opt_view(media), opt_view(props)),
            ),
        decreases attrs.len() - k,
    {
        assert(attrs@.take(k + 1).drop_last() =~= attrs@.take(k as int));
        assert(attrs@.take(k + 1).last() == attrs@[k as int]);
        if let Some((key, value)) = &attrs[k] {
            let is_id = str_eq(key.as_str(), "id");
            let is_href = str_eq(key.as_str(), "href");
            let is_media = str_eq(key.as_str(), "media-type");
            let is_props = str_eq(key.as_str(), "properties");
            if is_id || is_href || is_media || is_props {
                match value {
                    None => {
                        proof {
                            lemma_item_fields_none_sticks(attrs@, k + 1);
                        }
                        return None;
                    },
                    Some(v) => {
                        let v2 = copy_string(v);
                        if is_id {
                            id = Some(v2);
                        } else if is_href {
                            href = Some(v2);
                        } else if is_media {
                            media = Some(v2);
                        } else {
                            props = Some(v2);
                        }
                    },
                }
            }
        }
        k += 1;
    }
    assert(attrs@.take(attrs.len() as int) =~= attrs@);
    Some((id, href, media, props))
}

proof fn lemma_item_fields_none_sticks(attrs: Seq<Option<(String, Option<String>)>>, k: int)
    requires
        0 <= k <= attrs.len(),
        item_fields(attrs.take(k)) is None,
    ensures
        item_fields(attrs) is None,
    decreases attrs.len() - k,
{
    if k < attrs.len() {
        assert(attrs.take(k + 1).drop_last() =~= attrs.take(k));
        lemma_item_fields_none_sticks(attrs, k + 1);
    } else {
        assert(attrs.take(k) =~= attrs);
    }
}

/// The path and media type of the cover image in the package document's events (see
/// `cover_from`).
pub fn cover_in(events: &Vec<XmlEvent>, cover_id: &Option<String>) -> (r: Result<
    (Option<String>, Option<String>),
    CoverPathError,
>)
    ensures
        match (r, cover_from(events@, 0, opt_view(*cover_id))) {
            (Ok((Some(h), Some(m))), Ok(Some((h2, m2)))) => h@ == h2 && m@ == m2,
            (Ok((None, None)), Ok(None)) => true,
            (Err(e), Err(f)) => e == f,
            _ => false,
        },
{
    let ghost cid = opt_view(*cover_id);
    let mut i: usize = 0;
    while i < events.len()
        invariant
            i <= events.len(),
            cid == opt_view(*cover_id),
            cover_from(events@, 0, cid) == cover_from(events@, i as int, cid),
        decreases events.len() - i,
    {
        match &events[i] {
            XmlEvent::Start(t) | XmlEvent::Empty(t) => {
                if str_eq(t.local_name.as_str(), "item") {
                    match item_fields_of(&t.attributes) {
                        None => {
                            return Err(CoverPathError::BadAttribute);
                        },
                        Some((id, href, media, props)) => {
                            if let (Some(h), Some(m)) = (&href, &media) {
                                if starts_with_text(m.as_str(), "image/") {
                                    let by_props = match &props {
                                        Some(p) => contains_text(p.as_str(), "cover-image"),
                                        None => false,
                                    };
                                    let by_id = match (cover_id, &id) {
                                        (Some(c), Some(x)) => str_eq(x.as_str(), c.as_str()),
                                        _ => false,
                                    };
                                    if by_props || by_id {
                                        return Ok((Some(copy_string(h)), Some(copy_string(m))));
                                    }
                                }
                            }
                        },
                    }
                }
            },
            XmlEvent::Eof => {
                return Ok((None, None));
            },
            XmlEvent::Error => {
                return Err(CoverPathError::Parse);
            },
            _ => {},
        }
        i += 1;
    }
    Ok((None, None))
}
impl EpubParser {
    /// The path and media type of an EPUB's cover image in its package document (see `cover_in`,
    /// applied to the events quick-xml reads).
    pub fn find_cover_path(opf_xml: &str, cover_id: &Option<String>) -> (r: Result<
        (Option<String>, Option<String>),
        CoverPathError,
    >)
        ensures
            match (r, cover_from(document_events(opf_xml@), 0, opt_view(*cover_id))) {
                (Ok((Some(h), Some(m))), Ok(Some((h2, m2)))) => h@ == h2 && m@ == m2,
                (Ok((None, None)), Ok(None)) => true,
                (Err(e), Err(f)) => e == f,
                _ => false,
            },
    {
        let events = xml_events(opf_xml);
        cover_in(&events, cover_id)
    }
}


// ── Page list of the navigation document ────────────────────────────────

/// Whether an attribute key names the type of a `nav` element: `epub:type`, any `*:type`, or
/// `type`.
pub open spec fn is_type_key(k: Seq<char>) -> bool {
    k == "epub:type"@ || text_ends_with(k, ":type"@) || k == "type"@
}

/// Whether some attribute from `k` on marks a `nav` element as the page list.
pub open spec fn marks_page_list(attrs: Seq<Option<(String, Option<String>)>>, k: int) -> bool
    decreases attrs.len() - k,
{
    if k < 0 || k >= attrs.len() {
        false
    } else {
        (attrs[k] matches Some((key, Some(v))) && is_type_key(key@) && text_contains(
            v@,
            "page-list"@,
        )) || marks_page_list(attrs, k + 1)
    }
}

/// The number of page anchors from event `i` on, inside the page list when `in_list`, having
/// counted `count` so far: every `a` tag while inside a `nav` marked as the page list.
pub open spec fn page_count_from(events: Seq<XmlEvent>, i: int, in_list: bool, count: int) -> int
    decreases events.len() - i,
{
    if i < 0 || i >= events.len() {
        count
    } else {
        match events[i] {
            XmlEvent::Start(t) | XmlEvent::Empty(t) => {
                let in2 = in_list || (t.local_name@ == "nav"@ && marks_page_list(
                    t.attributes@,
                    0,
                ));
                let c2 = if in2 && t.local_name@ == "a"@ {
                    count + 1
                } else {
                    count
                };
                page_count_from(events, i + 1, in2, c2)
            },
            XmlEvent::End(name) => page_count_from(
                events,
                i + 1,
                if name@ == "nav"@ {
                    false
                } else {
                    in_list
                },
                count,
            ),
            XmlEvent::Eof | XmlEvent::Error => count,
            XmlEvent::Other => page_count_from(events, i + 1, in_list, count),
        }
    }
}

/// Whether a `nav` tag's attributes mark it as the page list.
fn marks_page_list_exec(attrs: &Vec<Option<(String, Option<String>)>>) -> (r: bool)
    ensures
        r == marks_page_list(attrs@, 0),
{
    let mut k: usize = 0;
    while k < attrs.len()
        invariant
            k <= attrs.len(),
            marks_page_list(attrs@, 0) == marks_page_list(attrs@, k as int),
        decreases attrs.len() - k,
    {
        if let Some((key, Some(v))) = &attrs[k] {
            let type_key = str_eq(key.as_str(), "epub:type") || ends_with_text(key.as_str(), ":type")
                || str_eq(key.as_str(), "type");
            if type_key && contains_text(v.as_str(), "page-list") {
                return true;
            }
        }
        k += 1;
    }
    false
}

proof fn lemma_page_count_bounds(events: Seq<XmlEvent>, i: int, in_list: bool, count: int)
    requires
        0 <= i <= events.len(),
    ensures
        count <= page_count_from(events, i, in_list, count) <= count + (events.len() - i),
    decreases events.len() - i,
{
    if i < events.len() {
        match events[i] {
            XmlEvent::Start(t) | XmlEvent::Empty(t) => {
                let in2 = in_list || (t.local_name@ == "nav"@ && marks_page_list(t.attributes@, 0));
                let c2 = if in2 && t.local_name@ == "a"@ {
                    count + 1
                } else {
                    count
                };
                lemma_page_count_bounds(events, i + 1, in2, c2);
            },
            XmlEvent::End(name) => {
                lemma_page_count_bounds(
                    events,
                    i + 1,
                    if name@ == "nav"@ {
                        false
                    } else {
                        in_list
                    },
                    count,
                );
            },
            XmlEvent::Eof | XmlEvent::Error => {},
            XmlEvent::Other => {
                lemma_page_count_bounds(events, i + 1, in_list, count);
            },
        }
    }
}

/// The number of pages the navigation document's events list (see `page_count_from`), when
/// there is at least one.
pub fn page_count_in(events: &Vec<XmlEvent>) -> (r: Option<u32>)
    requires
        events.len() <= u32::MAX,
    ensures
        match r {
            Some(n) => n == page_count_from(events@, 0, false, 0) && n > 0,
            None => page_count_from(events@, 0, false, 0) == 0,
        },
{
    let mut in_list = false;
    let mut count: u32 = 0;
    let mut i: usize = 0;
    let mut stopped = false;
    while i < events.len() && !stopped
        invariant
            i <= events.len() <= u32::MAX,
            count <= i,
            page_count_from(events@, 0, false, 0) == page_count_from(
                events@,
                i as int,
                in_list,
                count as int,
            ),
            stopped ==> i < events.len() && is_last(events@[i as int]),
        decreases 2 * (events.len() - i) + if stopped {
            0int
        } else {
            1int
        },
    {
        match &events[i] {
            XmlEvent::Start(t) | XmlEvent::Empty(t) => {
                if !in_list && str_eq(t.local_name.as_str(), "nav") && marks_page_list_exec(
                    &t.attributes,
                ) {
                    in_list = true;
                }
                if in_list && str_eq(t.local_name.as_str(), "a") {
                    count = count + 1;
                }
            },
            XmlEvent::End(name) => {
                if str_eq(name.as_str(), "nav") {
                    in_list = false;
                }
            },
            XmlEvent::Eof | XmlEvent::Error => {
                stopped = true;
            },
            XmlEvent::Other => {},
        }
        if !stopped {
            i += 1;
        }
    }
    if count > 0 {
        Some(count)
    } else {
        None
    }
}
impl EpubParser {
    /// The number of pages an EPUB 3 navigation document lists in its page list, when there is
    /// at least one (see `page_count_in`, applied to the events quick-xml reads). A document of
    /// more than `u32::MAX` events is not counted.
    pub fn parse_page_list(nav_xml: &str) -> (r: Option<u32>)
        ensures
            document_events(nav_xml@).len() > u32::MAX ==> r is None,
            document_events(nav_xml@).len() <= u32::MAX ==> match r {
                Some(n) => n == page_count_from(document_events(nav_xml@), 0, false, 0) && n > 0,
                None => page_count_from(document_events(nav_xml@), 0, false, 0) == 0,
            },
    {
        let events = xml_events(nav_xml);
        if events.len() > 4294967295 {
            return None;
        }
        page_count_in(&events)
    }
}


// ── Reading order of the package document ───────────────────────────────

/// What reading the package document has gathered: the manifest's (id, href) pairs in order,
/// the spine's idrefs in order, the spine's `toc` id, and whether the reader is inside the
/// manifest and inside the spine.
pub type SpineState = (Seq<(Seq<char>, Seq<char>)>, Seq<Seq<char>>, Option<Seq<char>>, bool, bool);

/// The `toc` id after the attributes from `k` on of a `spine` tag: the last one that unescapes.
pub open spec fn toc_after(attrs: Seq<Option<(String, Option<String>)>>, k: int, toc: Option<Seq<char>>) -> Option<
    Seq<char>,
>
    decreases attrs.len() - k,
{
    if k < 0 || k >= attrs.len() {
        toc
    } else {
        let t2 = match attrs[k] {
            Some((key, Some(v))) => if key@ == "toc"@ {
                Some(v@)
            } else {
                toc
            },
            _ => toc,
        };
        toc_after(attrs, k + 1, t2)
    }
}

/// The (id, href) of a manifest `item` from its attributes from `k` on: the last of each
/// that unescapes.
pub open spec fn id_href_after(
    attrs: Seq<Option<(String, Option<String>)>>,
    k: int,
    id: Option<Seq<char>>,
    href: Option<Seq<char>>,
) -> (Option<Seq<char>>, Option<Seq<char>>)
    decreases attrs.len() - k,
{
    if k < 0 || k >= attrs.len() {
        (id, href)
    } else {
        match attrs[k] {
            Some((key, Some(v))) => if key@ == "id"@ {
                id_href_after(attrs, k + 1, Some(v@), href)
            } else if key@ == "href"@ {
                id_href_after(attrs, k + 1, id, Some(v@))
            } else {
                id_href_after(attrs, k + 1, id, href)
            },
            _ => id_href_after(attrs, k + 1, id, href),
        }
    }
}

/// The idrefs of a spine `itemref`'s attributes from `k` on, appended to `refs`.
pub open spec fn idrefs_after(attrs: Seq<Option<(String, Option<String>)>>, k: int, refs: Seq<Seq<char>>) -> Seq<
    Seq<char>,
>
    decreases attrs.len() - k,
{
    if k < 0 || k >= attrs.len() {
        refs
    } else {
        match attrs[k] {
            Some((key, Some(v))) => if key@ == "idref"@ {
                idrefs_after(attrs, k + 1, refs.push(v@))
            } else {
                idrefs_after(attrs, k + 1, refs)
            },
            _ => idrefs_after(attrs, k + 1, refs),
        }
    }
}

/// The state after one start or empty-element tag.
pub open spec fn spine_tag_step(st: SpineState, t: XmlTag) -> SpineState {
    let name = t.local_name@;
    let attrs = t.attributes@;
    if name == "manifest"@ {
        (st.0, st.1, st.2, true, st.4)
    } else if name == "spine"@ {
        (st.0, st.1, toc_after(attrs, 0, st.2), st.3, true)
    } else if st.3 && name == "item"@ {
        match id_href_after(attrs, 0, None, None) {
            (Some(id), Some(href)) => (st.0.push((id, href)), st.1, st.2, st.3, st.4),
            _ => st,
        }
    } else if st.4 && name == "itemref"@ {
        (st.0, idrefs_after(attrs, 0, st.1), st.2, st.3, st.4)
    } else {
        st
    }
}

/// The state after the events from `i` on (up to the end of the stream).
pub open spec fn spine_from(events: Seq<XmlEvent>, i: int, st: SpineState) -> SpineState
    decreases events.len() - i,
{
    if i < 0 || i >= events.len() {
        st
    } else {
        match events[i] {
            XmlEvent::Start(t) | XmlEvent::Empty(t) => spine_from(events, i + 1, spine_tag_step(st, t)),
            XmlEvent::End(name) => spine_from(
                events,
                i + 1,
                if name@ == "manifest"@ {
                    (st.0, st.1, st.2, false, st.4)
                } else if name@ == "spine"@ {
                    (st.0, st.1, st.2, st.3, false)
                } else {
                    st
                },
            ),
            XmlEvent::Eof | XmlEvent::Error => st,
            XmlEvent::Other => spine_from(events, i + 1, st),
        }
    }
}

/// The href the manifest gives `id` (its last entry for it).
pub open spec fn manifest_href(m: Seq<(Seq<char>, Seq<char>)>, id: Seq<char>) -> Option<Seq<char>>
    decreases m.len(),
{
    if m.len() == 0 {
        None
    } else if m.last().0 == id {
        Some(m.last().1)
    } else {
        manifest_href(m.drop_last(), id)
    }
}

/// The hrefs of the idrefs the manifest knows, in order.
pub open spec fn spine_hrefs(m: Seq<(Seq<char>, Seq<char>)>, refs: Seq<Seq<char>>) -> Seq<Seq<char>>
    decreases refs.len(),
{
    if refs.len() == 0 {
        Seq::empty()
    } else {
        let prev = spine_hrefs(m, refs.drop_last());
        match manifest_href(m, refs.last()) {
            Some(h) => prev.push(h),
            None => prev,
        }
    }
}

/// The initial state.
pub open spec fn spine_start() -> SpineState {
    (Seq::empty(), Seq::empty(), None, false, false)
}

/// The reading order of the package document's events (the hrefs of the spine's items) and
/// the href of its NCX table of contents.
pub open spec fn opf_spine_of(events: Seq<XmlEvent>) -> (Seq<Seq<char>>, Option<Seq<char>>) {
    let st = spine_from(events, 0, spine_start());
    (
        spine_hrefs(st.0, st.1),
        match st.2 {
            Some(id) => manifest_href(st.0, id),
            None => None,
        },
    )
}

/// The contents of a list of (id, href) pairs.
pub open spec fn pair_texts(v: Seq<(String, String)>) -> Seq<(Seq<char>, Seq<char>)> {
    v.map_values(|p: (String, String)| (p.0@, p.1@))
}

/// The contents of a list of strings.
pub open spec fn string_texts(v: Seq<String>) -> Seq<Seq<char>> {
    v.map_values(|x: String| x@)
}

/// The href the manifest gives `id`.
fn manifest_lookup(m: &Vec<(String, String)>, id: &str) -> (r: Option<String>)
    ensures
        opt_view(r) == manifest_href(pair_texts(m@), id@),
{
    let ghost pm = pair_texts(m@);
    let mut k = m.len();
    assert(pm.take(k as int) =~= pm);
    while k > 0
        invariant
            k <= m.len(),
            pm == pair_texts(m@),
            manifest_href(pm, id@) == manifest_href(pm.take(k as int), id@),
        decreases k,
    {
        assert(pm.take(k as int).drop_last() =~= pm.take(k - 1));
        assert(pm.take(k as int).last() == pm[k - 1]);
        if str_eq(m[k - 1].0.as_str(), id) {
            return Some(copy_string(&m[k - 1].1));
        }
        k -= 1;
    }
    None
}

/// Applies one start or empty-element tag to the reading state.
fn spine_tag(
    t: &XmlTag,
    manifest: &mut Vec<(String, String)>,
    refs: &mut Vec<String>,
    toc: &mut Option<String>,
    in_manifest: &mut bool,
    in_spine: &mut bool,
)
    ensures
        (pair_texts(final(manifest)@), string_texts(final(refs)@), opt_view(*final(toc)), *final(in_manifest), *final(in_spine))
            == spine_tag_step(
            (pair_texts(old(manifest)@), string_texts(old(refs)@), opt_view(*old(toc)), *old(in_manifest), *old(in_spine)),
            *t,
        ),
{
    let ghost attrs = t.attributes@;
    if str_eq(t.local_name.as_str(), "manifest") {
        *in_manifest = true;
    } else if str_eq(t.local_name.as_str(), "spine") {
        *in_spine = true;
        let mut k: usize = 0;
        while k < t.attributes.len()
            invariant
                k <= t.attributes.len(),
                attrs == t.attributes@,
                toc_after(attrs, 0, opt_view(*old(toc))) == toc_after(attrs, k as int, opt_view(*toc)),
            decreases t.attributes.len() - k,
        {
            if let Some((key, Some(v))) = &t.attributes[k] {
                if str_eq(key.as_str(), "toc") {
                    *toc = Some(copy_string(v));
                }
            }
            k += 1;
        }
    } else if *in_manifest && str_eq(t.local_name.as_str(), "item") {
        let mut id: Option<String> = None;
        let mut href: Option<String> = None;
        let mut k: usize = 0;
        while k < t.attributes.len()
            invariant
                k <= t.attributes.len(),
                attrs == t.attributes@,
                id_href_after(attrs, 0, None, None) == id_href_after(attrs, k as int, opt_view(id), opt_view(href)),
            decreases t.attributes.len() - k,
        {
            if let Some((key, Some(v))) = &t.attributes[k] {
                if str_eq(key.as_str(), "id") {
                    id = Some(copy_string(v));
                } else if str_eq(key.as_str(), "href") {
                    href = Some(copy_string(v));
                }
            }
            k += 1;
        }
        if let (Some(i), Some(h)) = (id, href) {
            let ghost before = pair_texts(manifest@);
            let iv = i;
            let hv = h;
            manifest.push((iv, hv));
            assert(pair_texts(manifest@) =~= before.push((iv@, hv@)));
        }
    } else if *in_spine && str_eq(t.local_name.as_str(), "itemref") {
        let mut k: usize = 0;
        while k < t.attributes.len()
            invariant
                k <= t.attributes.len(),
                attrs == t.attributes@,
                idrefs_after(attrs, 0, string_texts(old(refs)@)) == idrefs_after(
                    attrs,
                    k as int,
                    string_texts(refs@),
                ),
            decreases t.attributes.len() - k,
        {
            if let Some((key, Some(v))) = &t.attributes[k] {
                if str_eq(key.as_str(), "idref") {
                    let ghost before = string_texts(refs@);
                    refs.push(copy_string(v));
                    assert(string_texts(refs@) =~= before.push(v@));
                }
            }
            k += 1;
        }
    }
}

/// The reading order (spine hrefs) and NCX href of the package document's events (see
/// `opf_spine_of`).
pub fn opf_spine_in(events: &Vec<XmlEvent>) -> (r: (Vec<String>, Option<String>))
    ensures
        (string_texts(r.0@), opt_view(r.1)) == opf_spine_of(events@),
{
    let mut manifest: Vec<(String, String)> = Vec::new();
    let mut refs: Vec<String> = Vec::new();
    let mut toc: Option<String> = None;
    let mut in_manifest = false;
    let mut in_spine = false;
    let mut i: usize = 0;
    let mut stopped = false;
    assert(pair_texts(manifest@) =~= Seq::<(Seq<char>, Seq<char>)>::empty());
    assert(string_texts(refs@) =~= Seq::<Seq<char>>::empty());
    while i < events.len() && !stopped
        invariant
            i <= events.len(),
            spine_from(events@, 0, spine_start()) == spine_from(
                events@,
                i as int,
                (pair_texts(manifest@), string_texts(refs@), opt_view(toc), in_manifest, in_spine),
            ),
            stopped ==> i < events.len() && is_last(events@[i as int]),
        decreases 2 * (events.len() - i) + if stopped {
            0int
        } else {
            1int
        },
    {
        match &events[i] {
            XmlEvent::Start(t) | XmlEvent::Empty(t) => {
                spine_tag(t, &mut manifest, &mut refs, &mut toc, &mut in_manifest, &mut in_spine);
            },
            XmlEvent::End(name) => {
                if str_eq(name.as_str(), "manifest") {
                    in_manifest = false;
                } else if str_eq(name.as_str(), "spine") {
                    in_spine = false;
                }
            },
            XmlEvent::Eof | XmlEvent::Error => {
                stopped = true;
            },
            XmlEvent::Other => {},
        }
        if !stopped {
            i += 1;
        }
    }
    let ghost st = (pair_texts(manifest@), string_texts(refs@), opt_view(toc), in_manifest, in_spine);
    assert(spine_from(events@, 0, spine_start()) == st);
    let mut hrefs: Vec<String> = Vec::new();
    let mut k: usize = 0;
    while k < refs.len()
        invariant
            k <= refs.len(),
            st.0 == pair_texts(manifest@),
            st.1 == string_texts(refs@),
            string_texts(hrefs@) == spine_hrefs(st.0, st.1.take(k as int)),
        decreases refs.len() - k,
    {
        assert(st.1.take(k + 1).drop_last() =~= st.1.take(k as int));
        assert(st.1.take(k + 1).last() == refs@[k as int]@);
        match manifest_lookup(&manifest, refs[k].as_str()) {
            Some(h) => {
                let ghost before = string_texts(hrefs@);
                hrefs.push(h);
                assert(string_texts(hrefs@) =~= before.push(hrefs@.last()@));
            },
            None => {},
        }
        k += 1;
    }
    assert(st.1.take(refs.len() as int) =~= st.1);
    let ncx = match &toc {
        Some(id) => manifest_lookup(&manifest, id.as_str()),
        None => None,
    };
    (hrefs, ncx)
}
impl EpubParser {
    /// The reading order and NCX href of an EPUB's package document (see `opf_spine_in`, applied
    /// to the events quick-xml reads).
    pub fn parse_opf_spine(opf_xml: &str) -> (r: (Vec<String>, Option<String>))
        ensures
            (string_texts(r.0@), opt_view(r.1)) == opf_spine_of(document_events(opf_xml@)),
    {
        let events = xml_events(opf_xml);
        opf_spine_in(&events)
    }
}


// ── Tables of contents ──────────────────────────────────────────────────


/// The title of a table-of-contents entry from the raw text of its element: unescaped (kept
/// as it is where it does not unescape), then trimmed.
pub open spec fn toc_title(raw: Seq<char>) -> Seq<char> {
    trim_ws(
        match xml_unescaped(raw) {
            Some(t) => t,
            None => raw,
        },
    )
}

/// The title of a table-of-contents entry (see `toc_title`).
fn toc_title_of(raw: &String) -> (r: String)
    ensures
        r@ == toc_title(raw@),
{
    let text = match xml_unescape(raw.as_str()) {
        Some(t) => t,
        None => copy_string(raw),
    };
    string_from_chars(trim_chars(&chars_of(text.as_str())).as_slice())
}

/// Reading a navigation document's `toc` list: inside the list or not, the depth of nested
/// lists, the link of the anchor whose text is being read, and the entries so far.
pub struct NavTocReader {
    pub in_toc: bool,
    pub depth: u64,
    pub pending_href: Option<String>,
    pub entries: Vec<(String, String)>,
}

/// The content of a `NavTocReader`.
pub type NavView = (bool, u64, Option<Seq<char>>, Seq<(Seq<char>, Seq<char>)>);

/// Whether some attribute from `k` on marks a `nav` element as the table of contents.
pub open spec fn marks_toc(attrs: Seq<Option<(String, Option<String>)>>, k: int) -> bool
    decreases attrs.len() - k,
{
    if k < 0 || k >= attrs.len() {
        false
    } else {
        (attrs[k] matches Some((key, Some(v))) && is_type_key(key@) && text_contains(v@, "toc"@))
            || marks_toc(attrs, k + 1)
    }
}

/// The last `key` attribute from `k` on that unescapes, else `cur`.
pub open spec fn last_attr(attrs: Seq<Option<(String, Option<String>)>>, k: int, key: Seq<char>, cur: Option<Seq<char>>) -> Option<
    Seq<char>,
>
    decreases attrs.len() - k,
{
    if k < 0 || k >= attrs.len() {
        cur
    } else {
        let c2 = match attrs[k] {
            Some((name, Some(v))) => if name@ == key {
                Some(v@)
            } else {
                cur
            },
            _ => cur,
        };
        last_attr(attrs, k + 1, key, c2)
    }
}

/// The reader after one event of a navigation document, and whether the text of the element
/// it starts is read next: an `a` inside a list of the table of contents.
pub open spec fn nav_step(v: NavView, e: XmlEvent) -> (NavView, bool) {
    match e {
        XmlEvent::Start(t) => {
            let name = t.local_name@;
            if name == "nav"@ {
                ((v.0 || marks_toc(t.attributes@, 0), v.1, v.2, v.3), false)
            } else if v.0 && name == "ol"@ {
                ((v.0, if v.1 < u64::MAX {
                    (v.1 + 1) as u64
                } else {
                    v.1
                }, v.2, v.3), false)
            } else if v.0 && v.1 >= 1 && name == "a"@ {
                ((v.0, v.1, last_attr(t.attributes@, 0, "href"@, None), v.3), true)
            } else {
                (v, false)
            }
        },
        XmlEvent::End(name) => if name@ == "nav"@ {
            ((false, 0, v.2, v.3), false)
        } else if v.0 && name@ == "ol"@ {
            ((v.0, if v.1 > 0 {
                (v.1 - 1) as u64
            } else {
                0
            }, v.2, v.3), false)
        } else {
            (v, false)
        },
        _ => (v, false),
    }
}

/// The reader after the text of an anchor was read (`None` where reading failed): an entry of
/// the anchor's link and its title, when it has a link and a non-empty title.
pub open spec fn nav_text_step(v: NavView, text: Option<Seq<char>>) -> NavView {
    match (v.2, text) {
        (Some(href), Some(raw)) => if toc_title(raw).len() > 0 {
            (v.0, v.1, None, v.3.push((href, toc_title(raw))))
        } else {
            (v.0, v.1, None, v.3)
        },
        _ => (v.0, v.1, None, v.3),
    }
}

/// The last `key` attribute that unescapes, else `cur`.
pub(crate) fn last_attr_of(attrs: &Vec<Option<(String, Option<String>)>>, key: &str, cur: Option<String>) -> (r: Option<String>)
    ensures
        opt_view(r) == last_attr(attrs@, 0, key@, opt_view(cur)),
{
    let mut cur = cur;
    let ghost start = opt_view(cur);
    let mut k: usize = 0;
    while k < attrs.len()
        invariant
            k <= attrs.len(),
            last_attr(attrs@, 0, key@, start) == last_attr(attrs@, k as int, key@, opt_view(cur)),
        decreases attrs.len() - k,
    {
        if let Some((name, Some(v))) = &attrs[k] {
            if str_eq(name.as_str(), key) {
                cur = Some(copy_string(v));
            }
        }
        k += 1;
    }
    cur
}

/// Whether a `nav` tag's attributes mark it as the table of contents.
fn marks_toc_exec(attrs: &Vec<Option<(String, Option<String>)>>) -> (r: bool)
    ensures
        r == marks_toc(attrs@, 0),
{
    let mut k: usize = 0;
    while k < attrs.len()
        invariant
            k <= attrs.len(),
            marks_toc(attrs@, 0) == marks_toc(attrs@, k as int),
        decreases attrs.len() - k,
    {
        if let Some((key, Some(v))) = &attrs[k] {
            let type_key = str_eq(key.as_str(), "epub:type") || ends_with_text(key.as_str(), ":type")
                || str_eq(key.as_str(), "type");
            if type_key && contains_text(v.as_str(), "toc") {
                return true;
            }
        }
        k += 1;
    }
    false
}

impl NavTocReader {
    /// The content of the reader.
    pub open spec fn view(&self) -> NavView {
        (self.in_toc, self.depth, opt_view(self.pending_href), pair_texts(self.entries@))
    }

    /// A reader before the document.
    pub fn new() -> (r: Self)
        ensures
            r.view() == (false, 0u64, None::<Seq<char>>, Seq::<(Seq<char>, Seq<char>)>::empty()),
    {
        let r = NavTocReader { in_toc: false, depth: 0, pending_href: None, entries: Vec::new() };
        assert(pair_texts(r.entries@) =~= Seq::<(Seq<char>, Seq<char>)>::empty());
        r
    }

    /// Takes one event (see `nav_step`); returns whether the element's text is to be read next.
    pub fn event(&mut self, e: &XmlEvent) -> (r: bool)
        ensures
            (final(self).view(), r) == nav_step(old(self).view(), *e),
    {
        match e {
            XmlEvent::Start(t) => {
                if str_eq(t.local_name.as_str(), "nav") {
                    if marks_toc_exec(&t.attributes) {
                        self.in_toc = true;
                    }
                    false
                } else if self.in_toc && str_eq(t.local_name.as_str(), "ol") {
                    self.depth = self.depth.saturating_add(1);
                    false
                } else if self.in_toc && self.depth >= 1 && str_eq(t.local_name.as_str(), "a") {
                    self.pending_href = last_attr_of(&t.attributes, "href", None);
                    true
                } else {
                    false
                }
            },
            XmlEvent::End(name) => {
                if str_eq(name.as_str(), "nav") {
                    self.in_toc = false;
                    self.depth = 0;
                } else if self.in_toc && str_eq(name.as_str(), "ol") {
                    self.depth = self.depth.saturating_sub(1);
                }
                false
            },
            _ => false,
        }
    }

    /// Takes the text read for the current anchor (see `nav_text_step`).
    pub fn text(&mut self, text: Option<String>)
        ensures
            final(self).view() == nav_text_step(old(self).view(), opt_view(text)),
    {
        let href = self.pending_href.take();
        if let (Some(h), Some(raw)) = (href, text) {
            let title = toc_title_of(&raw);
            if chars_of(title.as_str()).len() > 0 {
                let ghost before = pair_texts(self.entries@);
                self.entries.push((h, title));
                assert(pair_texts(self.entries@) =~= before.push((self.entries@.last().0@, self.entries@.last().1@)));
            }
        }
    }
}

/// What reading the items of a navigation document from `i` on gives: each event goes through
/// `nav_step`; where it asks for the element's text, that text goes through `nav_text_step`
/// and reading resumes after it; the end of the document or its first error stops the reading.
pub open spec fn nav_run(items: Seq<XmlItem>, i: int, v: NavView) -> NavView
    decreases items.len() - i,
{
    if i < 0 || i >= items.len() || is_last(items[i].event) {
        v
    } else {
        let it = items[i];
        let (v2, wants) = nav_step(v, it.event);
        if wants {
            let (txt, to) = item_text(it);
            proof {
                lemma_resume_index(items, i + 1, to);
            }
            nav_run(items, resume_index(items, i + 1, to), nav_text_step(v2, txt))
        } else {
            nav_run(items, i + 1, v2)
        }
    }
}

/// What reading the items of an NCX document from `i` on gives (as `nav_run`, with `ncx_step`
/// and `ncx_text_step`).
pub open spec fn ncx_run(items: Seq<XmlItem>, i: int, v: NcxView) -> NcxView
    decreases items.len() - i,
{
    if i < 0 || i >= items.len() || is_last(items[i].event) {
        v
    } else {
        let it = items[i];
        let (v2, wants) = ncx_step(v, it.event);
        if wants {
            let (txt, to) = item_text(it);
            proof {
                lemma_resume_index(items, i + 1, to);
            }
            ncx_run(items, resume_index(items, i + 1, to), ncx_text_step(v2, txt))
        } else {
            ncx_run(items, i + 1, v2)
        }
    }
}

proof fn lemma_nav_titles(items: Seq<XmlItem>, i: int, v: NavView)
    requires
        titles_nonempty(v.3),
    ensures
        titles_nonempty(nav_run(items, i, v).3),
    decreases items.len() - i,
{
    if 0 <= i < items.len() && !is_last(items[i].event) {
        let it = items[i];
        let (v2, wants) = nav_step(v, it.event);
        assert(v2.3 == v.3);
        if wants {
            let (txt, to) = item_text(it);
            lemma_resume_index(items, i + 1, to);
            let v3 = nav_text_step(v2, txt);
            assert forall|k: int| 0 <= k < v3.3.len() implies (#[trigger] v3.3[k]).1.len() > 0 by {
                if k < v2.3.len() {
                    assert(v3.3[k] == v2.3[k]);
                }
            }
            lemma_nav_titles(items, resume_index(items, i + 1, to), v3);
        } else {
            lemma_nav_titles(items, i + 1, v2);
        }
    }
}

proof fn lemma_ncx_titles(items: Seq<XmlItem>, i: int, v: NcxView)
    requires
        titles_nonempty(v.4),
    ensures
        titles_nonempty(ncx_run(items, i, v).4),
    decreases items.len() - i,
{
    if 0 <= i < items.len() && !is_last(items[i].event) {
        let it = items[i];
        let (v2, wants) = ncx_step(v, it.event);
        assert forall|k: int| 0 <= k < v2.4.len() implies (#[trigger] v2.4[k]).1.len() > 0 by {
            if k < v.4.len() {
                assert(v2.4[k] == v.4[k]);
            }
        }
        if wants {
            let (txt, to) = item_text(it);
            lemma_resume_index(items, i + 1, to);
            lemma_ncx_titles(items, resume_index(items, i + 1, to), ncx_text_step(v2, txt));
        } else {
            lemma_ncx_titles(items, i + 1, v2);
        }
    }
}

/// Every entry has a non-empty title.
pub open spec fn titles_nonempty(es: Seq<(Seq<char>, Seq<char>)>) -> bool {
    forall|i: int| 0 <= i < es.len() ==> (#[trigger] es[i]).1.len() > 0
}
impl EpubParser {
    /// The table of contents of an EPUB 3 navigation document, as (link, title) pairs: what
    /// reading its items gives (see `nav_run`), each entry with a non-empty title.
    pub fn parse_nav_toc(nav_xml: &str) -> (r: Vec<(String, String)>)
        ensures
            pair_texts(r@) == nav_run(document_items(nav_xml@), 0, (false, 0u64, None, Seq::empty())).3,
            titles_nonempty(pair_texts(r@)),
    {
        let items = xml_items(nav_xml);
        let ghost all = items@;
        let ghost v0: NavView = (false, 0u64, None, Seq::empty());
        let mut st = NavTocReader::new();
        let mut i: usize = 0;
        while i < items.len()
            invariant
                i <= items.len(),
                all == items@,
                all == document_items(nav_xml@),
                nav_run(all, 0, v0) == nav_run(all, i as int, st.view()),
            ensures
                nav_run(all, 0, v0) == st.view(),
            decreases items.len() - i,
        {
            match &items[i].event {
                XmlEvent::Eof | XmlEvent::Error => {
                    break;
                },
                _ => {},
            }
            let wants = st.event(&items[i].event);
            if wants {
                let text = match &items[i].text {
                    Some((x, _)) => crate::text::copy_opt_string(x),
                    None => None,
                };
                let next = resume_after_text(&items, i);
                st.text(text);
                i = next;
            } else {
                i += 1;
            }
        }
        proof {
            lemma_nav_titles(all, 0, v0);
        }
        st.entries
    }
}


/// Reading an NCX navigation map: inside the map or not, the depth of nested nav points, the
/// title and source of the current nav point, and the entries so far.
pub struct NcxTocReader {
    pub in_nav_map: bool,
    pub depth: u64,
    pub title: Option<String>,
    pub src: Option<String>,
    pub entries: Vec<(String, String)>,
}

/// The content of an `NcxTocReader`.
pub type NcxView = (bool, u64, Option<Seq<char>>, Option<Seq<char>>, Seq<(Seq<char>, Seq<char>)>);

/// The reader after one event of an NCX document, and whether the text of the element it
/// starts is read next: a `text` inside a nav point of the map. A nav point that ends with a
/// source and a non-empty title becomes an entry.
pub open spec fn ncx_step(v: NcxView, e: XmlEvent) -> (NcxView, bool) {
    match e {
        XmlEvent::Start(t) => {
            let name = t.local_name@;
            if name == "navMap"@ {
                ((true, v.1, v.2, v.3, v.4), false)
            } else if v.0 && name == "navPoint"@ {
                ((v.0, if v.1 < u64::MAX {
                    (v.1 + 1) as u64
                } else {
                    v.1
                }, None, None, v.4), false)
            } else if v.0 && v.1 >= 1 && name == "text"@ {
                (v, true)
            } else {
                (v, false)
            }
        },
        XmlEvent::Empty(t) => if v.0 && v.1 >= 1 && t.local_name@ == "content"@ {
            ((v.0, v.1, v.2, last_attr(t.attributes@, 0, "src"@, v.3), v.4), false)
        } else {
            (v, false)
        },
        XmlEvent::End(name) => if name@ == "navMap"@ {
            ((false, v.1, v.2, v.3, v.4), false)
        } else if v.0 && name@ == "navPoint"@ {
            let es = match (v.3, v.2) {
                (Some(src), Some(title)) => if title.len() > 0 {
                    v.4.push((src, title))
                } else {
                    v.4
                },
                _ => v.4,
            };
            ((v.0, if v.1 > 0 {
                (v.1 - 1) as u64
            } else {
                0
            }, None, None, es), false)
        } else {
            (v, false)
        },
        _ => (v, false),
    }
}

/// The reader after the text of a nav point's `text` element was read (`None` where reading
/// failed): its title becomes that text, unescaped and trimmed.
pub open spec fn ncx_text_step(v: NcxView, text: Option<Seq<char>>) -> NcxView {
    match text {
        Some(raw) => (v.0, v.1, Some(toc_title(raw)), v.3, v.4),
        None => v,
    }
}

impl NcxTocReader {
    /// The content of the reader.
    pub open spec fn view(&self) -> NcxView {
        (self.in_nav_map, self.depth, opt_view(self.title), opt_view(self.src), pair_texts(self.entries@))
    }

    /// A reader before the document.
    pub fn new() -> (r: Self)
        ensures
            r.view() == (
                false,
                0u64,
                None::<Seq<char>>,
                None::<Seq<char>>,
                Seq::<(Seq<char>, Seq<char>)>::empty(),
            ),
    {
        let r = NcxTocReader { in_nav_map: false, depth: 0, title: None, src: None, entries: Vec::new() };
        assert(pair_texts(r.entries@) =~= Seq::<(Seq<char>, Seq<char>)>::empty());
        r
    }

    /// Takes one event (see `ncx_step`); returns whether the element's text is to be read next.
    pub fn event(&mut self, e: &XmlEvent) -> (r: bool)
        ensures
            (final(self).view(), r) == ncx_step(old(self).view(), *e),
    {
        match e {
            XmlEvent::Start(t) => {
                if str_eq(t.local_name.as_str(), "navMap") {
                    self.in_nav_map = true;
                    false
                } else if self.in_nav_map && str_eq(t.local_name.as_str(), "navPoint") {
                    self.depth = self.depth.saturating_add(1);
                    self.title = None;
                    self.src = None;
                    false
                } else {
                    self.in_nav_map && self.depth >= 1 && str_eq(t.local_name.as_str(), "text")
                }
            },
            XmlEvent::Empty(t) => {
                if self.in_nav_map && self.depth >= 1 && str_eq(t.local_name.as_str(), "content") {
                    let cur = self.src.take();
                    self.src = last_attr_of(&t.attributes, "src", cur);
                }
                false
            },
            XmlEvent::End(name) => {
                if str_eq(name.as_str(), "navMap") {
                    self.in_nav_map = false;
                } else if self.in_nav_map && str_eq(name.as_str(), "navPoint") {
                    let src = self.src.take();
                    let title = self.title.take();
                    if let (Some(s), Some(t)) = (src, title) {
                        if chars_of(t.as_str()).len() > 0 {
                            let ghost before = pair_texts(self.entries@);
                            self.entries.push((s, t));
                            assert(pair_texts(self.entries@) =~= before.push(
                                (self.entries@.last().0@, self.entries@.last().1@),
                            ));
                        }
                    }
                    self.depth = self.depth.saturating_sub(1);
                }
                false
            },
            _ => false,
        }
    }

    /// Takes the text read for the current `text` element (see `ncx_text_step`).
    pub fn text(&mut self, text: Option<String>)
        ensures
            final(self).view() == ncx_text_step(old(self).view(), opt_view(text)),
    {
        if let Some(raw) = text {
            self.title = Some(toc_title_of(&raw));
        }
    }
}
impl EpubParser {
    /// The table of contents of an EPUB 2 NCX document, as (source, title) pairs: what reading
    /// its items gives (see `ncx_run`), each entry with a non-empty title.
    pub fn parse_ncx_toc(ncx_xml: &str) -> (r: Vec<(String, String)>)
        ensures
            pair_texts(r@) == ncx_run(document_items(ncx_xml@), 0, (false, 0u64, None, None, Seq::empty())).4,
            titles_nonempty(pair_texts(r@)),
    {
        let items = xml_items(ncx_xml);
        let ghost all = items@;
        let ghost v0: NcxView = (false, 0u64, None, None, Seq::empty());
        let mut st = NcxTocReader::new();
        let mut i: usize = 0;
        while i < items.len()
            invariant
                i <= items.len(),
                all == items@,
                all == document_items(ncx_xml@),
                ncx_run(all, 0, v0) == ncx_run(all, i as int, st.view()),
            ensures
                ncx_run(all, 0, v0) == st.view(),
            decreases items.len() - i,
        {
            match &items[i].event {
                XmlEvent::Eof | XmlEvent::Error => {
                    break;
                },
                _ => {},
            }
            let wants = st.event(&items[i].event);
            if wants {
                let text = match &items[i].text {
                    Some((x, _)) => crate::text::copy_opt_string(x),
                    None => None,
                };
                let next = resume_after_text(&items, i);
                st.text(text);
                i = next;
            } else {
                i += 1;
            }
        }
        proof {
            lemma_ncx_titles(all, 0, v0);
        }
        st.entries
    }
}

/// The table of contents of a navigation document (see `parse_nav_toc`).
pub open spec fn nav_toc_of(xml: Seq<char>) -> Seq<(Seq<char>, Seq<char>)> {
    nav_run(document_items(xml), 0, (false, 0u64, None, Seq::empty())).3
}

/// The table of contents of an NCX document (see `parse_ncx_toc`).
pub open spec fn ncx_toc_of(xml: Seq<char>) -> Seq<(Seq<char>, Seq<char>)> {
    ncx_run(document_items(xml), 0, (false, 0u64, None, None, Seq::empty())).4
}

/// The page count a navigation document's page list gives (see `parse_page_list`).
pub open spec fn page_list_of(xml: Seq<char>) -> Option<u32> {
    let events = document_events(xml);
    if events.len() > u32::MAX || page_count_from(events, 0, false, 0) == 0 {
        None
    } else {
        Some(page_count_from(events, 0, false, 0) as u32)
    }
}

} // verus!
