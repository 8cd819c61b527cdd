//! The metadata of an FB2 book: title, authors, annotation, publisher, language, ISBN, genres,
//! series and the cover image reference, read from the stream of XML events one event at a
//! time.
use vstd::prelude::*;
use crate::opf::{identifiers_of, texts_of, trim_hashes, BookInfo, Identifier};
use crate::parsers::Fb2Parser;
use crate::text::{chars_of, copy_string, str_eq, string_from_chars, trim_chars, trim_ws};
use crate::utils::{sanitize_html, sanitized_html, unescape_or_same, unescaped_or_same};
use crate::xml::{
    document_items, ends_with_text, item_text, last_attr, last_attr_of, lemma_resume_index, opt_view,
    resume_after_text, resume_index, text_ends_with, xml_items, XmlEvent, XmlItem, XmlTag,
};

verus! {

/// Why an FB2 document could not be read.
#[derive(Debug, Clone, Copy, PartialEq, Eq)]
pub enum Fb2Error {
    /// The document is not well-formed XML.
    Parse,
}

/// What the text of the element just started is read for.
pub enum Fb2Text {
    BookTitle,
    Lang,
    Genre,
    Annotation,
    FirstName,
    MiddleName,
    LastName,
    Publisher,
    Isbn,
}

/// What reading an FB2 document has gathered.
pub struct Fb2View {
    pub in_description: bool,
    pub in_title_info: bool,
    pub in_publish_info: bool,
    pub in_coverpage: bool,
    pub in_author: bool,
    pub title: Option<Seq<char>>,
    pub authors: Seq<Seq<char>>,
    pub description: Option<Seq<char>>,
    pub publisher: Option<Seq<char>>,
    pub language: Option<Seq<char>>,
    pub identifiers: Seq<(Seq<char>, Seq<char>)>,
    pub subjects: Seq<Seq<char>>,
    pub series: Option<Seq<char>>,
    pub series_number: Option<Seq<char>>,
    pub cover_href: Option<Seq<char>>,
    pub first_name: Seq<char>,
    pub middle_name: Seq<char>,
    pub last_name: Seq<char>,
}

/// The cover reference of an `image` tag: its first `href` or `*:href` attribute that unescapes,
/// without leading `#`.
pub open spec fn image_href(attrs: Seq<Option<(String, Option<String>)>>, k: int) -> Option<Seq<char>>
    decreases attrs.len() - k,
{
    if k < 0 || k >= attrs.len() {
        None
    } else {
        match attrs[k] {
            Some((key, Some(v))) => if key@ == "href"@ || text_ends_with(key@, ":href"@) {
                Some(trim_hashes(v@))
            } else {
                image_href(attrs, k + 1)
            },
            _ => image_href(attrs, k + 1),
        }
    }
}

/// `v` with the cover reference of an `image` tag, when it has one.
pub open spec fn with_image(v: Fb2View, attrs: Seq<Option<(String, Option<String>)>>) -> Fb2View {
    match image_href(attrs, 0) {
        Some(h) => Fb2View { cover_href: Some(h), ..v },
        None => v,
    }
}

/// The reader after one start tag, and the text to read next, if any.
pub open spec fn fb2_start(v: Fb2View, t: XmlTag) -> (Fb2View, Option<Fb2Text>) {
    let n = t.local_name@;
    if n == "description"@ {
        (Fb2View { in_description: true, ..v }, None)
    } else if n == "title-info"@ && v.in_description {
        (Fb2View { in_title_info: true, ..v }, None)
    } else if n == "publish-info"@ && v.in_description {
        (Fb2View { in_publish_info: true, ..v }, None)
    } else if n == "coverpage"@ && v.in_title_info {
        (Fb2View { in_coverpage: true, ..v }, None)
    } else if n == "author"@ && v.in_title_info {
        (
            Fb2View {
                in_author: true,
                first_name: Seq::empty(),
                middle_name: Seq::empty(),
                last_name: Seq::empty(),
                ..v
            },
            None,
        )
    } else if n == "book-title"@ && v.in_title_info {
        (v, Some(Fb2Text::BookTitle))
    } else if n == "lang"@ && v.in_title_info {
        (v, Some(Fb2Text::Lang))
    } else if n == "genre"@ && v.in_title_info {
        (v, Some(Fb2Text::Genre))
    } else if n == "annotation"@ && v.in_title_info {
        (v, Some(Fb2Text::Annotation))
    } else if n == "first-name"@ && v.in_author {
        (v, Some(Fb2Text::FirstName))
    } else if n == "middle-name"@ && v.in_author {
        (v, Some(Fb2Text::MiddleName))
    } else if n == "last-name"@ && v.in_author {
        (v, Some(Fb2Text::LastName))
    } else if n == "publisher"@ && v.in_publish_info {
        (v, Some(Fb2Text::Publisher))
    } else if n == "isbn"@ && v.in_publish_info {
        (v, Some(Fb2Text::Isbn))
    } else if n == "image"@ && v.in_coverpage {
        (with_image(v, t.attributes@), None)
    } else {
        (v, None)
    }
}

/// The reader after one empty-element tag: a `sequence` of the title info gives the series
/// and its number (the last attribute of each), an `image` of the cover page the cover.
pub open spec fn fb2_empty(v: Fb2View, t: XmlTag) -> Fb2View {
    let n = t.local_name@;
    let attrs = t.attributes@;
    if n == "sequence"@ && v.in_title_info {
        Fb2View {
            series: last_attr(attrs, 0, "name"@, v.series),
            series_number: last_attr(attrs, 0, "number"@, v.series_number),
            ..v
        }
    } else if n == "image"@ && v.in_coverpage {
        with_image(v, attrs)
    } else {
        v
    }
}

/// The non-empty name parts of an author, in order.
pub open spec fn name_parts(f: Seq<char>, m: Seq<char>, l: Seq<char>) -> Seq<Seq<char>> {
    let p1 = if f.len() > 0 {
        seq![f]
    } else {
        Seq::empty()
    };
    let p2 = if m.len() > 0 {
        p1.push(m)
    } else {
        p1
    };
    if l.len() > 0 {
        p2.push(l)
    } else {
        p2
    }
}

/// `parts` joined by single spaces.
pub open spec fn joined(parts: Seq<Seq<char>>) -> Seq<char>
    decreases parts.len(),
{
    if parts.len() == 0 {
        Seq::empty()
    } else if parts.len() == 1 {
        parts[0]
    } else {
        joined(parts.drop_last()) + seq![' '] + parts.last()
    }
}

/// The reader after one end tag: the end of an author adds its name, when it has a part.
pub open spec fn fb2_end(v: Fb2View, n: Seq<char>) -> Fb2View {
    if n == "description"@ {
        Fb2View { in_description: false, ..v }
    } else if n == "title-info"@ {
        Fb2View { in_title_info: false, ..v }
    } else if n == "publish-info"@ {
        Fb2View { in_publish_info: false, ..v }
    } else if n == "coverpage"@ {
        Fb2View { in_coverpage: false, ..v }
    } else if n == "author"@ && v.in_author {
        let parts = name_parts(v.first_name, v.middle_name, v.last_name);
        Fb2View {
            authors: if parts.len() > 0 {
                v.authors.push(joined(parts))
            } else {
                v.authors
            },
            in_author: false,
            ..v
        }
    } else {
        v
    }
}

/// The reader after the text read for `what` (`None` where reading failed).
pub open spec fn fb2_text(v: Fb2View, what: Fb2Text, text: Option<Seq<char>>) -> Fb2View {
    match text {
        None => v,
        Some(raw) => {
            let u = unescaped_or_same(raw);
            match what {
                Fb2Text::BookTitle => Fb2View { title: Some(u), ..v },
                Fb2Text::Lang => Fb2View { language: Some(u), ..v },
                Fb2Text::Genre => if u.len() > 0 {
                    Fb2View { subjects: v.subjects.push(u), ..v }
                } else {
                    v
                },
                Fb2Text::Annotation => if trim_ws(sanitized_html(raw)).len() > 0 {
                    Fb2View { description: Some(sanitized_html(raw)), ..v }
                } else {
                    v
                },
                Fb2Text::FirstName => Fb2View { first_name: u, ..v },
                Fb2Text::MiddleName => Fb2View { middle_name: u, ..v },
                Fb2Text::LastName => Fb2View { last_name: u, ..v },
                Fb2Text::Publisher => Fb2View { publisher: Some(u), ..v },
                Fb2Text::Isbn => if u.len() > 0 {
                    Fb2View { identifiers: v.identifiers.push(("isbn"@, u)), ..v }
                } else {
                    v
                },
            }
        },
    }
}

/// The metadata of a finished reading: the title (`Unknown Title` when there is none) and the
/// rest as gathered; no page count, chapters or cover data yet.
pub open spec fn fb2_info_of(b: BookInfo, v: Fb2View) -> bool {
    &&& b.title@ == match v.title {
        Some(t) => t,
        None => "Unknown Title"@,
    }
    &&& texts_of(b.authors@) == v.authors
    &&& opt_view(b.description) == v.description
    &&& opt_view(b.publisher) == v.publisher
    &&& opt_view(b.language) == v.language
    &&& identifiers_of(b.identifiers@) == v.identifiers
    &&& texts_of(b.subjects@) == v.subjects
    &&& opt_view(b.series) == v.series
    &&& opt_view(b.series_number) == v.series_number
    &&& b.pages is None
    &&& b.chapters.len() == 0
    &&& b.cover_data is None
    &&& b.cover_mime_type is None
}

/// What reading an FB2 document's metadata has gathered before the document.
pub open spec fn fb2_reader_start() -> Fb2View {
    Fb2View {
        in_description: false,
        in_title_info: false,
        in_publish_info: false,
        in_coverpage: false,
        in_author: false,
        title: None,
        authors: Seq::empty(),
        description: None,
        publisher: None,
        language: None,
        identifiers: Seq::empty(),
        subjects: Seq::empty(),
        series: None,
        series_number: None,
        cover_href: None,
        first_name: Seq::empty(),
        middle_name: Seq::empty(),
        last_name: Seq::empty(),
    }
}

/// What reading the items of an FB2 document from `i` on gathers: start tags go through
/// `fb2_start` (where it asks for the element's text, that text goes through `fb2_text` and
/// reading resumes after it), empty-element tags through `fb2_empty`, end tags through
/// `fb2_end`; an error of the document fails the reading, its end stops it.
pub open spec fn fb2_run(items: Seq<XmlItem>, i: int, v: Fb2View) -> Result<Fb2View, Fb2Error>
    decreases items.len() - i,
{
    if i < 0 || i >= items.len() {
        Ok(v)
    } else {
        let it = items[i];
        match it.event {
            XmlEvent::Start(t) => {
                let (v2, w) = fb2_start(v, t);
                match w {
                    Some(what) => {
                        let (txt, to) = item_text(it);
                        proof {
                            lemma_resume_index(items, i + 1, to);
                        }
                        fb2_run(items, resume_index(items, i + 1, to), fb2_text(v2, what, txt))
                    },
                    None => fb2_run(items, i + 1, v2),
                }
            },
            XmlEvent::Empty(t) => fb2_run(items, i + 1, fb2_empty(v, t)),
            XmlEvent::End(n) => fb2_run(items, i + 1, fb2_end(v, n@)),
            XmlEvent::Eof => Ok(v),
            XmlEvent::Error => Err(Fb2Error::Parse),
            XmlEvent::Other => fb2_run(items, i + 1, v),
        }
    }
}

/// Reading an FB2 document's metadata, one event at a time.
pub struct Fb2MetadataReader {
    pub in_description: bool,
    pub in_title_info: bool,
    pub in_publish_info: bool,
    pub in_coverpage: bool,
    pub in_author: bool,
    pub title: Option<String>,
    pub authors: Vec<String>,
    pub description: Option<String>,
    pub publisher: Option<String>,
    pub language: Option<String>,
    pub identifiers: Vec<Identifier>,
    pub subjects: Vec<String>,
    pub series: Option<String>,
    pub series_number: Option<String>,
    pub cover_href: Option<String>,
    pub first_name: String,
    pub middle_name: String,
    pub last_name: String,
}

/// The cover reference of an `image` tag (see `image_href`).
fn image_href_of(attrs: &Vec<Option<(String, Option<String>)>>) -> (r: Option<String>)
    ensures
        opt_view(r) == image_href(attrs@, 0),
{
    let mut k: usize = 0;
    while k < attrs.len()
        invariant
            k <= attrs.len(),
            image_href(attrs@, 0) == image_href(attrs@, k as int),
        decreases attrs.len() - k,
    {
        if let Some((key, Some(v))) = &attrs[k] {
            if str_eq(key.as_str(), "href") || ends_with_text(key.as_str(), ":href") {
                return Some(crate::opf::trim_hashes_text(v));
            }
        }
        k += 1;
    }
    None
}

/// `parts` joined by single spaces (see `joined`).
fn join_parts_exec(parts: &Vec<String>) -> (r: String)
    ensures
        r@ == joined(texts_of(parts@)),
{
    let ghost tp = texts_of(parts@);
    let mut out: Vec<char> = Vec::new();
    let mut i: usize = 0;
    while i < parts.len()
        invariant
            i <= parts.len(),
            tp == texts_of(parts@),
            out@ == joined(tp.take(i as int)),
        decreases parts.len() - i,
    {
        assert(tp.take(i + 1).drop_last() =~= tp.take(i as int));
        assert(tp.take(i + 1).last() == parts@[i as int]@);
        let ghost before = out@;
        if i > 0 {
            out.push(' ');
        }
        let mut p = chars_of(parts[i].as_str());
        out.append(&mut p);
        if i == 0 {
            assert(out@ =~= tp.take(1)[0]);
        } else {
            assert(out@ =~= before + seq![' '] + parts@[i as int]@);
        }
        i += 1;
    }
    assert(tp.take(parts.len() as int) =~= tp);
    string_from_chars(out.as_slice())
}

impl Fb2MetadataReader {
    /// The content of the reader.
    pub open spec fn view(&self) -> Fb2View {
        Fb2View {
            in_description: self.in_description,
            in_title_info: self.in_title_info,
            in_publish_info: self.in_publish_info,
            in_coverpage: self.in_coverpage,
            in_author: self.in_author,
            title: opt_view(self.title),
            authors: texts_of(self.authors@),
            description: opt_view(self.description),
            publisher: opt_view(self.publisher),
            language: opt_view(self.language),
            identifiers: identifiers_of(self.identifiers@),
            subjects: texts_of(self.subjects@),
            series: opt_view(self.series),
            series_number: opt_view(self.series_number),
            cover_href: opt_view(self.cover_href),
            first_name: self.first_name@,
            middle_name: self.middle_name@,
            last_name: self.last_name@,
        }
    }

    /// A reader before the document.
    pub fn new() -> (r: Self)
        ensures
            r.view() == fb2_reader_start(),
    {
        let r = Fb2MetadataReader {
            in_description: false,
            in_title_info: false,
            in_publish_info: false,
            in_coverpage: false,
            in_author: false,
            title: None,
            authors: Vec::new(),
            description: None,
            publisher: None,
            language: None,
            identifiers: Vec::new(),
            subjects: Vec::new(),
            series: None,
            series_number: None,
            cover_href: None,
            first_name: String::new(),
            middle_name: String::new(),
            last_name: String::new(),
        };
        assert(texts_of(r.authors@) =~= Seq::<Seq<char>>::empty());
        assert(identifiers_of(r.identifiers@) =~= Seq::<(Seq<char>, Seq<char>)>::empty());
        assert(texts_of(r.subjects@) =~= Seq::<Seq<char>>::empty());
        r
    }

    /// Takes a start tag (see `fb2_start`): returns the text to read next, if any.
    pub fn start(&mut self, t: &XmlTag) -> (r: Option<Fb2Text>)
        ensures
            (final(self).view(), r) == fb2_start(old(self).view(), *t),
    {
        let n = t.local_name.as_str();
        if str_eq(n, "description") {
            self.in_description = true;
            None
        } else if str_eq(n, "title-info") && self.in_description {
            self.in_title_info = true;
            None
        } else if str_eq(n, "publish-info") && self.in_description {
            self.in_publish_info = true;
            None
        } else if str_eq(n, "coverpage") && self.in_title_info {
            self.in_coverpage = true;
            None
        } else if str_eq(n, "author") && self.in_title_info {
            self.in_author = true;
            self.first_name = String::new();
            self.middle_name = String::new();
            self.last_name = String::new();
            None
        } else if str_eq(n, "book-title") && self.in_title_info {
            Some(Fb2Text::BookTitle)
        } else if str_eq(n, "lang") && self.in_title_info {
            Some(Fb2Text::Lang)
        } else if str_eq(n, "genre") && self.in_title_info {
            Some(Fb2Text::Genre)
        } else if str_eq(n, "annotation") && self.in_title_info {
            Some(Fb2Text::Annotation)
        } else if str_eq(n, "first-name") && self.in_author {
            Some(Fb2Text::FirstName)
        } else if str_eq(n, "middle-name") && self.in_author {
            Some(Fb2Text::MiddleName)
        } else if str_eq(n, "last-name") && self.in_author {
            Some(Fb2Text::LastName)
        } else if str_eq(n, "publisher") && self.in_publish_info {
            Some(Fb2Text::Publisher)
        } else if str_eq(n, "isbn") && self.in_publish_info {
            Some(Fb2Text::Isbn)
        } else if str_eq(n, "image") && self.in_coverpage {
            if let Some(h) = image_href_of(&t.attributes) {
                self.cover_href = Some(h);
            }
            None
        } else {
            None
        }
    }

    /// Takes an empty-element tag (see `fb2_empty`).
    pub fn empty(&mut self, t: &XmlTag)
        ensures
            final(self).view() == fb2_empty(old(self).view(), *t),
    {
        let n = t.local_name.as_str();
        if str_eq(n, "sequence") && self.in_title_info {
            let cur = self.series.take();
            self.series = last_attr_of(&t.attributes, "name", cur);
            let cur = self.series_number.take();
            self.series_number = last_attr_of(&t.attributes, "number", cur);
        } else if str_eq(n, "image") && self.in_coverpage {
            if let Some(h) = image_href_of(&t.attributes) {
                self.cover_href = Some(h);
            }
        }
    }

    /// Takes an end tag (see `fb2_end`).
    pub fn end(&mut self, name: &String)
        ensures
            final(self).view() == fb2_end(old(self).view(), name@),
    {
        let n = name.as_str();
        if str_eq(n, "description") {
            self.in_description = false;
        } else if str_eq(n, "title-info") {
            self.in_title_info = false;
        } else if str_eq(n, "publish-info") {
            self.in_publish_info = false;
        } else if str_eq(n, "coverpage") {
            self.in_coverpage = false;
        } else if str_eq(n, "author") && self.in_author {
            let mut parts: Vec<String> = Vec::new();
            if chars_of(self.first_name.as_str()).len() > 0 {
                parts.push(copy_string(&self.first_name));
            }
            if chars_of(self.middle_name.as_str()).len() > 0 {
                parts.push(copy_string(&self.middle_name));
            }
            if chars_of(self.last_name.as_str()).len() > 0 {
                parts.push(copy_string(&self.last_name));
            }
            assert(texts_of(parts@) =~= name_parts(
                self.first_name@,
                self.middle_name@,
                self.last_name@,
            ));
            if parts.len() > 0 {
                let ghost before = texts_of(self.authors@);
                let full = join_parts_exec(&parts);
                self.authors.push(full);
                assert(texts_of(self.authors@) =~= before.push(self.authors@.last()@));
            }
            self.in_author = false;
        }
    }

    /// Takes the text read for `what` (see `fb2_text`).
    pub fn text(&mut self, what: Fb2Text, text: Option<String>)
        ensures
            final(self).view() == fb2_text(old(self).view(), what, opt_view(text)),
    {
        let raw = match text {
            None => {
                return;
            },
            Some(raw) => raw,
        };
        match what {
            Fb2Text::BookTitle => {
                self.title = Some(unescape_or_same(raw.as_str()));
            },
            Fb2Text::Lang => {
                self.language = Some(unescape_or_same(raw.as_str()));
            },
            Fb2Text::Genre => {
                let u = unescape_or_same(raw.as_str());
                if chars_of(u.as_str()).len() > 0 {
                    let ghost before = texts_of(self.subjects@);
                    self.subjects.push(u);
                    assert(texts_of(self.subjects@) =~= before.push(self.subjects@.last()@));
                }
            },
            Fb2Text::Annotation => {
                let cleaned = sanitize_html(raw.as_str());
                if trim_chars(&chars_of(cleaned.as_str())).len() > 0 {
                    self.description = Some(cleaned);
                }
            },
            Fb2Text::FirstName => {
                self.first_name = unescape_or_same(raw.as_str());
            },
            Fb2Text::MiddleName => {
                self.middle_name = unescape_or_same(raw.as_str());
            },
            Fb2Text::LastName => {
                self.last_name = unescape_or_same(raw.as_str());
            },
            Fb2Text::Publisher => {
                self.publisher = Some(unescape_or_same(raw.as_str()));
            },
            Fb2Text::Isbn => {
                let u = unescape_or_same(raw.as_str());
                if chars_of(u.as_str()).len() > 0 {
                    proof {
                        reveal_strlit("isbn");
                    }
                    let ghost before = identifiers_of(self.identifiers@);
                    self.identifiers.push(
                        Identifier { scheme: string_from_chars(chars_of("isbn").as_slice()), value: u },
                    );
                    assert(identifiers_of(self.identifiers@) =~= before.push(
                        (self.identifiers@.last().scheme@, self.identifiers@.last().value@),
                    ));
                }
            },
        }
    }

    /// The metadata read (see `fb2_info_of`) and the cover reference.
    pub fn finish(self) -> (r: (BookInfo, Option<String>))
        ensures
            fb2_info_of(r.0, self.view()),
            opt_view(r.1) == self.view().cover_href,
    {
        proof {
            reveal_strlit("Unknown Title");
        }
        let title = match self.title {
            Some(t) => t,
            None => string_from_chars(chars_of("Unknown Title").as_slice()),
        };
        let info = BookInfo {
            title,
            authors: self.authors,
            description: self.description,
            publisher: self.publisher,
            language: self.language,
            identifiers: self.identifiers,
            subjects: self.subjects,
            series: self.series,
            series_number: self.series_number,
            pages: None,
            chapters: Vec::new(),
            cover_data: None,
            cover_mime_type: None,
        };
        (info, self.cover_href)
    }
}

impl Fb2Parser {
    /// The metadata of an FB2 document and the reference of its cover image: what
    /// `Fb2MetadataReader::finish` makes of the reading of the document's items (see `fb2_run`);
    /// an error where the document is not well-formed.
    pub fn parse_fb2_metadata(fb2_xml: &str) -> (r: Result<(BookInfo, Option<String>), Fb2Error>)
        ensures
            match (r, fb2_run(document_items(fb2_xml@), 0, fb2_reader_start())) {
                (Ok(x), Ok(v)) => fb2_info_of(x.0, v) && opt_view(x.1) == v.cover_href,
                (Err(e), Err(f)) => e == f,
                _ => false,
            },
            r matches Ok(x) ==> x.0.chapters.len() == 0 && x.0.pages is None,
    {
        let items = xml_items(fb2_xml);
        let ghost all = items@;
        let mut st = Fb2MetadataReader::new();
        let mut i: usize = 0;
        while i < items.len()
            invariant
                i <= items.len(),
                all == items@,
                all == document_items(fb2_xml@),
                fb2_run(all, 0, fb2_reader_start()) == fb2_run(all, i as int, st.view()),
            ensures
                fb2_run(all, 0, fb2_reader_start()) == Ok::<Fb2View, Fb2Error>(st.view()),
            decreases items.len() - i,
        {
            match &items[i].event {
                XmlEvent::Start(t) => {
                    match st.start(t) {
                        Some(what) => {
                            let text = match &items[i].text {
                                Some((x, _)) => crate::text::copy_opt_string(x),
                                None => None,
                            };
                            let next = resume_after_text(&items, i);
                            st.text(what, text);
                            i = next;
                        },
                        None => {
                            i += 1;
                        },
                    }
                },
                XmlEvent::Empty(t) => {
                    st.empty(t);
                    i += 1;
                },
                XmlEvent::End(name) => {
                    st.end(name);
                    i += 1;
                },
                XmlEvent::Eof => {
                    break;
                },
                XmlEvent::Error => {
                    assert(fb2_run(all, i as int, st.view()) == Err::<Fb2View, Fb2Error>(Fb2Error::Parse));
                    return Err(Fb2Error::Parse);
                },
                XmlEvent::Other => {
                    i += 1;
                },
            }
        }
        Ok(st.finish())
    }
}

} // verus!
