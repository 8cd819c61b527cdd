//! The cover image of an FB2 book, stored base64-encoded in a `binary` element, and the book
//! as a whole: its metadata, its chapters and its cover.
use vstd::prelude::*;
use base64::Engine;
use crate::fb2::Fb2Error;
use crate::opf::BookInfo;
use crate::parsers::Fb2Parser;
use crate::parsers::ends_with;
use crate::text::{chars_of, lowercase, str_eq, to_lowercase, trim_chars, trim_ws};
use crate::fb2::{fb2_reader_start, fb2_run};
use crate::fb2_chapters::{chapter_scan_start, chapters_finished, chapters_run};
use crate::opf::{identifiers_of, texts_of};
use crate::xml::{
    document_items, item_text, last_attr, last_attr_of, lemma_resume_index, opt_view, resume_after_text, resume_index,
    xml_items, XmlEvent, XmlItem, XmlTag,
};

verus! {

/// The bytes that the standard base64 alphabet, with canonical padding, decodes `text` to;
/// `None` where `text` is not such base64.
pub uninterp spec fn base64_decoded(text: Seq<char>) -> Option<Seq<u8>>;

/// `base64::engine::general_purpose::STANDARD.decode`; the contract names the result.
#[verifier::external_body]
fn base64_decode(text: &str) -> (r: Option<Vec<u8>>)
    ensures
        match r {
            Some(v) => base64_decoded(text@) == Some(v@),
            None => base64_decoded(text@) is None,
        },
{
    base64::engine::general_purpose::STANDARD.decode(text).ok()
}

/// Whether an attribute is `key` with a value that unescapes to `value`.
pub open spec fn attr_is(a: Option<(String, Option<String>)>, key: Seq<char>, value: Seq<char>) -> bool {
    match a {
        Some((k, Some(v))) => k@ == key && v@ == value,
        _ => false,
    }
}

/// Whether the attributes `attrs` hold `key` with a value that unescapes to `value`.
pub open spec fn has_attr_value(attrs: Seq<Option<(String, Option<String>)>>, key: Seq<char>, value: Seq<char>) -> bool {
    exists|i: int| 0 <= i < attrs.len() && attr_is(#[trigger] attrs[i], key, value)
}

/// For a start tag: where it is the `binary` element with `id` equal to `href`, the element's
/// content type (its last `content-type` attribute that unescapes); else `None`.
pub open spec fn binary_cover(t: XmlTag, href: Seq<char>) -> Option<Option<Seq<char>>> {
    if t.local_name@ == "binary"@ && has_attr_value(t.attributes@, "id"@, href) {
        Some(last_attr(t.attributes@, 0, "content-type"@, None))
    } else {
        None
    }
}

/// The base64 text of a `binary` element with its line breaks and spaces taken out: trimmed,
/// then without `\n`, `\r` and ` `.
pub open spec fn cleaned_base64(raw: Seq<char>) -> Seq<char> {
    trim_ws(raw).filter(kept_in_base64())
}

/// Whether a character stays in the base64 text: all but `\n`, `\r` and ` `.
pub open spec fn kept_in_base64() -> spec_fn(char) -> bool {
    |c: char| c != '\n' && c != '\r' && c != ' '
}

/// See `binary_cover`.
pub fn binary_cover_of(t: &XmlTag, href: &str) -> (r: Option<Option<String>>)
    ensures
        match binary_cover(*t, href@) {
            Some(m) => r matches Some(x) && opt_view(x) == m,
            None => r is None,
        },
{
    if !str_eq(t.local_name.as_str(), "binary") {
        return None;
    }
    let mut found = false;
    let mut k: usize = 0;
    while k < t.attributes.len()
        invariant
            k <= t.attributes.len(),
            found == exists|i: int| 0 <= i < k && attr_is(#[trigger] t.attributes@[i], "id"@, href@),
        decreases t.attributes.len() - k,
    {
        if let Some((n, Some(v))) = &t.attributes[k] {
            if str_eq(n.as_str(), "id") && str_eq(v.as_str(), href) {
                found = true;
            }
        }
        k += 1;
    }
    if found {
        Some(last_attr_of(&t.attributes, "content-type", None))
    } else {
        None
    }
}

/// The image that the text of a `binary` element holds: `cleaned_base64` of it, decoded.
pub fn decode_cover_text(raw: &str) -> (r: Option<Vec<u8>>)
    ensures
        match r {
            Some(v) => base64_decoded(cleaned_base64(raw@)) == Some(v@),
            None => base64_decoded(cleaned_base64(raw@)) is None,
        },
{
    let t = trim_chars(&chars_of(raw));
    let ghost keep = kept_in_base64();
    let mut out: Vec<char> = Vec::new();
    let mut i: usize = 0;
    while i < t.len()
        invariant
            i <= t.len(),
            keep == kept_in_base64(),
            out@ == t@.take(i as int).filter(keep),
        decreases t.len() - i,
    {
        proof {
            assert(t@.take(i + 1).drop_last() =~= t@.take(i as int));
            t@.take(i as int).lemma_filter_push(t@[i as int], keep);
            assert(t@.take(i as int).push(t@[i as int]) =~= t@.take(i + 1));
        }
        let c = t[i];
        if c != '\n' && c != '\r' && c != ' ' {
            out.push(c);
        }
        i += 1;
    }
    assert(t@.take(t.len() as int) =~= t@);
    let s = crate::text::string_from_chars(out.as_slice());
    base64_decode(s.as_str())
}

/// The cover found in the items of an FB2 document from `i` on: at the first `binary` start
/// tag whose `id` is `href` (see `binary_cover`) and whose text was read and decodes (see
/// `cleaned_base64`), its bytes and content type; reading resumes after the text of such a tag
/// that does not decode; none at the end of the document or its first error.
pub open spec fn cover_run(items: Seq<XmlItem>, i: int, href: Seq<char>) -> (Option<Seq<u8>>, Option<Seq<char>>)
    decreases items.len() - i,
{
    if i < 0 || i >= items.len() {
        (None, None)
    } else {
        let it = items[i];
        match it.event {
            XmlEvent::Start(t) => match binary_cover(t, href) {
                Some(mime) => {
                    let (txt, to) = item_text(it);
                    proof {
                        lemma_resume_index(items, i + 1, to);
                    }
                    match txt {
                        Some(raw) => match base64_decoded(cleaned_base64(raw)) {
                            Some(d) => (Some(d), mime),
                            None => cover_run(items, resume_index(items, i + 1, to), href),
                        },
                        None => cover_run(items, resume_index(items, i + 1, to), href),
                    }
                },
                None => cover_run(items, i + 1, href),
            },
            XmlEvent::Eof | XmlEvent::Error => (None, None),
            _ => cover_run(items, i + 1, href),
        }
    }
}

/// The bytes of an optional byte list.
pub open spec fn opt_bytes_of(b: Option<Vec<u8>>) -> Option<Seq<u8>> {
    match b {
        Some(v) => Some(v@),
        None => None,
    }
}

impl Fb2Parser {
    /// The cover image of an FB2 document (see `cover_run` over the document's items).
    pub fn extract_cover_image(fb2_xml: &str, cover_href: &str) -> (r: (Option<Vec<u8>>, Option<String>))
        ensures
            (opt_bytes_of(r.0), opt_view(r.1)) == cover_run(document_items(fb2_xml@), 0, cover_href@),
    {
        let items = xml_items(fb2_xml);
        let ghost all = items@;
        let mut i: usize = 0;
        while i < items.len()
            invariant
                i <= items.len(),
                all == items@,
                all == document_items(fb2_xml@),
                cover_run(all, 0, cover_href@) == cover_run(all, i as int, cover_href@),
            ensures
                cover_run(all, 0, cover_href@) == (None::<Seq<u8>>, None::<Seq<char>>),
            decreases items.len() - i,
        {
            match &items[i].event {
                XmlEvent::Start(t) => {
                    match binary_cover_of(t, cover_href) {
                        Some(mime) => {
                            let next = resume_after_text(&items, i);
                            match &items[i].text {
                                Some((Some(raw), _)) => {
                                    match decode_cover_text(raw.as_str()) {
                                        Some(data) => {
                                            return (Some(data), mime);
                                        },
                                        None => {},
                                    }
                                },
                                _ => {},
                            }
                            i = next;
                        },
                        None => {
                            i += 1;
                        },
                    }
                },
                XmlEvent::Eof | XmlEvent::Error => {
                    break;
                },
                _ => {
                    i += 1;
                },
            }
        }
        (None, None)
    }

    /// A book from the text of an FB2 document: its metadata (see `parse_fb2_metadata`, failing
    /// where the document is not well-formed), its chapters (see `extract_chapters`), and, where
    /// the metadata names a cover, the cover image with its content type (see
    /// `extract_cover_image`).
    pub fn parse_fb2_xml(fb2_xml: &str) -> (r: Result<BookInfo, Fb2Error>)
        ensures
            ({
                let items = document_items(fb2_xml@);
                match (r, fb2_run(items, 0, fb2_reader_start())) {
                    (Ok(b), Ok(v)) => {
                        &&& b.title@ == match v.title {
                            Some(t) => t,
                            None => "Unknown Title"@,
                        }
                        &&& texts_of(b.authors@) == v.authors
                        &&& opt_view(b.description) == v.description
                        &&& opt_view(b.publisher) == v.publisher
                        &&& opt_view(b.language) == v.language
                        &&& identifiers_of(b.identifiers@) == v.identifiers
                        &&& texts_of(b.subjects@) == v.subjects
                        &&& opt_view(b.series) == v.series
                        &&& opt_view(b.series_number) == v.series_number
                        &&& b.pages is None
                        &&& chapters_finished(b.chapters@, chapters_run(items, 0, chapter_scan_start()))
                        &&& (opt_bytes_of(b.cover_data), opt_view(b.cover_mime_type)) == match v.cover_href {
                            Some(h) => cover_run(items, 0, h),
                            None => (None, None),
                        }
                    },
                    (Err(e), Err(f)) => e == f,
                    _ => false,
                }
            }),
    {
        let (info, cover_href) = match Fb2Parser::parse_fb2_metadata(fb2_xml) {
            Ok(x) => x,
            Err(e) => {
                return Err(e);
            },
        };
        let chapters = Fb2Parser::extract_chapters(fb2_xml);
        let (cover_data, cover_mime_type) = match cover_href {
            Some(h) => Fb2Parser::extract_cover_image(fb2_xml, h.as_str()),
            None => (None, None),
        };
        Ok(BookInfo { chapters, cover_data, cover_mime_type, ..info })
    }
}

/// Whether `s` ends with `suffix`.
fn ends_with_text(s: &str, suffix: &str) -> (r: bool)
    ensures
        r == ends_with(s@, suffix@),
{
    let v = chars_of(s);
    let t = chars_of(suffix);
    if v.len() < t.len() {
        return false;
    }
    let start = v.len() - t.len();
    let mut i: usize = 0;
    while i < t.len()
        invariant
            i <= t.len(),
            start + t.len() == v.len(),
            v@ == s@,
            t@ == suffix@,
            forall|j: int| 0 <= j < i ==> v@[start + j] == t@[j],
        decreases t.len() - i,
    {
        if v[start + i] != t[i] {
            assert(v@.skip(start as int)[i as int] != t@[i as int]);
            return false;
        }
        i += 1;
    }
    assert(v@.skip(start as int) =~= t@);
    true
}

impl Fb2Parser {
    /// Whether a file name marks a zipped FB2 book: lower-cased, it ends with `.fb2.zip`.
    pub fn is_fb2_zip_name(filename: &str) -> (r: bool)
        ensures
            r == ends_with(lowercase(filename@), ".fb2.zip"@),
    {
        ends_with_text(to_lowercase(filename).as_str(), ".fb2.zip")
    }

    /// Whether the first bytes of a file are the ZIP signature `PK\x03\x04`.
    pub fn has_zip_magic(bytes: &[u8]) -> (r: bool)
        ensures
            r == (bytes.len() >= 4 && bytes[0] == 0x50 && bytes[1] == 0x4B && bytes[2] == 0x03 && bytes[3] == 0x04),
    {
        bytes.len() >= 4 && bytes[0] == 0x50 && bytes[1] == 0x4B && bytes[2] == 0x03 && bytes[3] == 0x04
    }

    /// Whether a member of a zipped FB2 book holds the book: lower-cased, its name ends with
    /// `.fb2` or `.xml`.
    pub fn is_fb2_member(name: &str) -> (r: bool)
        ensures
            r == (ends_with(lowercase(name@), ".fb2"@) || ends_with(lowercase(name@), ".xml"@)),
    {
        let l = to_lowercase(name);
        ends_with_text(l.as_str(), ".fb2") || ends_with_text(l.as_str(), ".xml")
    }
}

} // verus!
