//! The metadata of a comic from its `ComicInfo.xml`: title, series and issue number, summary,
//! publisher, language, creators and genres, read one element at a time.
use vstd::prelude::*;
use crate::opf::{texts_of, BookInfo};
use crate::parsers::{part_views, ComicParser};
use crate::text::{chars_of, str_eq, string_from_chars, trim_chars, trim_ws};
use crate::utils::{sanitize_html, sanitized_html, unescape_or_same, unescaped_or_same};
use crate::xml::{
    document_items, item_text, lemma_resume_index, opt_view, resume_after_text, resume_index, xml_items, XmlEvent,
    XmlItem,
};

verus! {

/// The pieces of `s` between commas, as `str::split(',')` gives them (at least one).
pub open spec fn comma_pieces(s: Seq<char>) -> Seq<Seq<char>>
    decreases s.len(),
{
    if s.len() == 0 {
        seq![Seq::empty()]
    } else {
        let p = comma_pieces(s.drop_last());
        if s.last() == ',' {
            p.push(Seq::empty())
        } else {
            p.update(p.len() - 1, p.last().push(s.last()))
        }
    }
}

/// `list` with each of `pieces`, trimmed, added in order where it is non-empty and not yet in
/// the list.
pub open spec fn with_new_names(list: Seq<Seq<char>>, pieces: Seq<Seq<char>>) -> Seq<Seq<char>>
    decreases pieces.len(),
{
    if pieces.len() == 0 {
        list
    } else {
        let l = with_new_names(list, pieces.drop_last());
        let w = trim_ws(pieces.last());
        if w.len() > 0 && !l.contains(w) {
            l.push(w)
        } else {
            l
        }
    }
}

/// What reading `ComicInfo.xml` has gathered.
pub struct ComicView {
    pub title: Option<Seq<char>>,
    pub series: Option<Seq<char>>,
    pub number: Option<Seq<char>>,
    pub summary: Option<Seq<char>>,
    pub publisher: Option<Seq<char>>,
    pub language: Option<Seq<char>>,
    pub authors: Seq<Seq<char>>,
    pub subjects: Seq<Seq<char>>,
}

/// Whether an element names creators other than the writer.
pub open spec fn is_creator(local: Seq<char>) -> bool {
    local == "Penciller"@ || local == "Inker"@ || local == "Colorist"@ || local == "Letterer"@
        || local == "CoverArtist"@ || local == "Editor"@
}

/// The text `raw` of an element with local name `local` (unescaped, kept as it is where it does
/// not unescape; an empty text changes nothing): `Title`, `Series`, `Number`, `Publisher` and
/// `LanguageISO` set their field; `Summary`, sanitized and trimmed, sets the summary where it
/// is non-empty; `Writer` and the other creators add their comma-separated names to the
/// authors, and `Genre` its genres to the subjects, each name once.
pub open spec fn comic_text(v: ComicView, local: Seq<char>, raw: Seq<char>) -> ComicView {
    let t = unescaped_or_same(raw);
    if t.len() == 0 {
        v
    } else if local == "Title"@ {
        ComicView { title: Some(t), ..v }
    } else if local == "Series"@ {
        ComicView { series: Some(t), ..v }
    } else if local == "Number"@ {
        ComicView { number: Some(t), ..v }
    } else if local == "Summary"@ {
        let c = trim_ws(sanitized_html(t));
        if c.len() > 0 {
            ComicView { summary: Some(c), ..v }
        } else {
            v
        }
    } else if local == "Publisher"@ {
        ComicView { publisher: Some(t), ..v }
    } else if local == "LanguageISO"@ {
        ComicView { language: Some(t), ..v }
    } else if local == "Writer"@ || is_creator(local) {
        ComicView { authors: with_new_names(v.authors, comma_pieces(t)), ..v }
    } else if local == "Genre"@ {
        ComicView { subjects: with_new_names(v.subjects, comma_pieces(t)), ..v }
    } else {
        v
    }
}

/// What reading `ComicInfo.xml` has gathered before the document.
pub open spec fn comic_reader_start() -> ComicView {
    ComicView {
        title: None,
        series: None,
        number: None,
        summary: None,
        publisher: None,
        language: None,
        authors: Seq::empty(),
        subjects: Seq::empty(),
    }
}

/// What reading the items of `ComicInfo.xml` from `i` on gathers: the text of every start tag
/// but the root `ComicInfo` goes through `comic_text` where it could be read, and reading
/// resumes after it; the end of the document or its first error stops the reading.
pub open spec fn comic_run(items: Seq<XmlItem>, i: int, v: ComicView) -> ComicView
    decreases items.len() - i,
{
    if i < 0 || i >= items.len() {
        v
    } else {
        let it = items[i];
        match it.event {
            XmlEvent::Start(t) => if t.local_name@ == "ComicInfo"@ {
                comic_run(items, i + 1, v)
            } else {
                let (txt, to) = item_text(it);
                proof {
                    lemma_resume_index(items, i + 1, to);
                }
                comic_run(
                    items,
                    resume_index(items, i + 1, to),
                    match txt {
                        Some(raw) => comic_text(v, t.local_name@, raw),
                        None => v,
                    },
                )
            },
            XmlEvent::Eof | XmlEvent::Error => v,
            _ => comic_run(items, i + 1, v),
        }
    }
}

/// The book that the gathered metadata makes: its title is the title, else the series, else
/// `Unknown Comic`; it has no identifiers, pages, chapters or cover.
pub open spec fn comic_info_of(b: BookInfo, v: ComicView) -> bool {
    &&& b.title@ == match (v.title, v.series) {
        (Some(t), _) => t,
        (None, Some(s)) => s,
        (None, None) => "Unknown Comic"@,
    }
    &&& texts_of(b.authors@) == v.authors
    &&& opt_view(b.description) == v.summary
    &&& opt_view(b.publisher) == v.publisher
    &&& opt_view(b.language) == v.language
    &&& b.identifiers.len() == 0
    &&& texts_of(b.subjects@) == v.subjects
    &&& opt_view(b.series) == v.series
    &&& opt_view(b.series_number) == v.number
    &&& b.pages is None
    &&& b.chapters.len() == 0
    &&& b.cover_data is None
    &&& b.cover_mime_type is None
}

/// The pieces of `s` between commas (see `comma_pieces`).
pub(crate) fn split_commas(s: &Vec<char>) -> (r: Vec<Vec<char>>)
    ensures
        part_views(r@) == comma_pieces(s@),
{
    let mut done: Vec<Vec<char>> = Vec::new();
    let mut cur: Vec<char> = Vec::new();
    let mut i: usize = 0;
    assert(part_views(done@).push(cur@) =~= comma_pieces(s@.take(0)));
    while i < s.len()
        invariant
            i <= s.len(),
            part_views(done@).push(cur@) == comma_pieces(s@.take(i as int)),
        decreases s.len() - i,
    {
        assert(s@.take(i + 1).drop_last() =~= s@.take(i as int));
        assert(s@.take(i + 1).last() == s@[i as int]);
        let ghost before = part_views(done@);
        let c = s[i];
        if c == ',' {
            let piece = cur;
            cur = Vec::new();
            done.push(piece);
            assert(part_views(done@) =~= before.push(piece@));
            assert(part_views(done@).push(cur@) =~= before.push(piece@).push(Seq::empty()));
        } else {
            let ghost old_cur = cur@;
            cur.push(c);
            assert(part_views(done@).push(cur@) =~= before.push(old_cur).update(
                before.len() as int,
                before.push(old_cur).last().push(c),
            ));
        }
        i += 1;
    }
    assert(s@.take(s.len() as int) =~= s@);
    let ghost before = part_views(done@);
    done.push(cur);
    assert(part_views(done@) =~= before.push(done@.last()@));
    done
}

/// Whether `list` holds `w`.
fn holds_text(list: &Vec<String>, w: &str) -> (r: bool)
    ensures
        r == texts_of(list@).contains(w@),
{
    let mut k: usize = 0;
    while k < list.len()
        invariant
            k <= list.len(),
            forall|j: int| 0 <= j < k ==> texts_of(list@)[j] != w@,
        decreases list.len() - k,
    {
        if str_eq(list[k].as_str(), w) {
            assert(texts_of(list@)[k as int] == w@);
            return true;
        }
        k += 1;
    }
    false
}

/// Adds the comma-separated names of `text` to `list` (see `with_new_names`).
fn add_names(list: &mut Vec<String>, text: &str)
    ensures
        texts_of(final(list)@) == with_new_names(texts_of(old(list)@), comma_pieces(text@)),
{
    let pieces = split_commas(&chars_of(text));
    let ghost ps = part_views(pieces@);
    let ghost start = texts_of(list@);
    let mut i: usize = 0;
    assert(ps.take(0) =~= Seq::<Seq<char>>::empty());
    while i < pieces.len()
        invariant
            i <= pieces.len(),
            ps == part_views(pieces@),
            texts_of(list@) == with_new_names(start, ps.take(i as int)),
        decreases pieces.len() - i,
    {
        assert(ps.take(i + 1).drop_last() =~= ps.take(i as int));
        assert(ps.take(i + 1).last() == pieces@[i as int]@);
        let w = string_from_chars(trim_chars(&pieces[i]).as_slice());
        if w.as_str().unicode_len() > 0 && !holds_text(list, w.as_str()) {
            let ghost before = texts_of(list@);
            list.push(w);
            assert(texts_of(list@) =~= before.push(list@.last()@));
        }
        i += 1;
    }
    assert(ps.take(pieces.len() as int) =~= ps);
}

/// Reading `ComicInfo.xml`, one element at a time.
pub struct ComicInfoReader {
    pub title: Option<String>,
    pub series: Option<String>,
    pub number: Option<String>,
    pub summary: Option<String>,
    pub publisher: Option<String>,
    pub language: Option<String>,
    pub authors: Vec<String>,
    pub subjects: Vec<String>,
}

impl ComicInfoReader {
    /// The content of the reader.
    pub open spec fn view(&self) -> ComicView {
        ComicView {
            title: opt_view(self.title),
            series: opt_view(self.series),
            number: opt_view(self.number),
            summary: opt_view(self.summary),
            publisher: opt_view(self.publisher),
            language: opt_view(self.language),
            authors: texts_of(self.authors@),
            subjects: texts_of(self.subjects@),
        }
    }

    /// A reader before the document.
    pub fn new() -> (r: Self)
        ensures
            r.view() == comic_reader_start(),
    {
        let r = ComicInfoReader {
            title: None,
            series: None,
            number: None,
            summary: None,
            publisher: None,
            language: None,
            authors: Vec::new(),
            subjects: Vec::new(),
        };
        assert(texts_of(r.authors@) =~= Seq::<Seq<char>>::empty());
        assert(texts_of(r.subjects@) =~= Seq::<Seq<char>>::empty());
        r
    }

    /// Takes the text of an element (see `comic_text`).
    pub fn text(&mut self, local: &str, raw: &str)
        ensures
            final(self).view() == comic_text(old(self).view(), local@, raw@),
    {
        let t = unescape_or_same(raw);
        if t.as_str().unicode_len() == 0 {
            return;
        }
        if str_eq(local, "Title") {
            self.title = Some(t);
        } else if str_eq(local, "Series") {
            self.series = Some(t);
        } else if str_eq(local, "Number") {
            self.number = Some(t);
        } else if str_eq(local, "Summary") {
            let c = string_from_chars(trim_chars(&chars_of(sanitize_html(t.as_str()).as_str())).as_slice());
            if c.as_str().unicode_len() > 0 {
                self.summary = Some(c);
            }
        } else if str_eq(local, "Publisher") {
            self.publisher = Some(t);
        } else if str_eq(local, "LanguageISO") {
            self.language = Some(t);
        } else if str_eq(local, "Writer") || str_eq(local, "Penciller") || str_eq(local, "Inker")
            || str_eq(local, "Colorist") || str_eq(local, "Letterer") || str_eq(local, "CoverArtist")
            || str_eq(local, "Editor") {
            add_names(&mut self.authors, t.as_str());
        } else if str_eq(local, "Genre") {
            add_names(&mut self.subjects, t.as_str());
        }
    }

    /// The book the metadata makes (see `comic_info_of`).
    pub fn finish(self) -> (r: BookInfo)
        ensures
            comic_info_of(r, self.view()),
    {
        proof {
            reveal_strlit("Unknown Comic");
        }
        let title = match (&self.title, &self.series) {
            (Some(t), _) => crate::text::copy_string(t),
            (None, Some(s)) => crate::text::copy_string(s),
            (None, None) => string_from_chars(chars_of("Unknown Comic").as_slice()),
        };
        BookInfo {
            title,
            authors: self.authors,
            description: self.summary,
            publisher: self.publisher,
            language: self.language,
            identifiers: Vec::new(),
            subjects: self.subjects,
            series: self.series,
            series_number: self.number,
            pages: None,
            chapters: Vec::new(),
            cover_data: None,
            cover_mime_type: None,
        }
    }
}

/// Why `ComicInfo.xml` could not be read.
#[derive(Debug, Clone, Copy, PartialEq, Eq)]
pub enum ComicInfoError {
    /// The document is not well-formed XML.
    Parse,
}

impl ComicParser {
    /// The metadata of a `ComicInfo.xml` document: what `ComicInfoReader::finish` makes of the
    /// reading of its items (see `comic_run`). A malformed document ends the reading at its
    /// first error and what was read until then stands, so the result is always `Ok`.
    pub fn parse_comic_info_xml(xml: &str) -> (r: Result<BookInfo, ComicInfoError>)
        ensures
            r matches Ok(b) && comic_info_of(b, comic_run(document_items(xml@), 0, comic_reader_start())),
    {
        let items = xml_items(xml);
        let ghost all = items@;
        let mut st = ComicInfoReader::new();
        let mut i: usize = 0;
        while i < items.len()
            invariant
                i <= items.len(),
                all == items@,
                comic_run(all, 0, comic_reader_start()) == comic_run(all, i as int, st.view()),
            ensures
                comic_run(all, 0, comic_reader_start()) == st.view(),
            decreases items.len() - i,
        {
            match &items[i].event {
                XmlEvent::Start(t) => {
                    if str_eq(t.local_name.as_str(), "ComicInfo") {
                        i += 1;
                    } else {
                        let next = resume_after_text(&items, i);
                        match &items[i].text {
                            Some((Some(raw), _)) => {
                                st.text(t.local_name.as_str(), raw.as_str());
                            },
                            _ => {},
                        }
                        i = next;
                    }
                },
                XmlEvent::Eof | XmlEvent::Error => {
                    break;
                },
                _ => {
                    i += 1;
                },
            }
        }
        Ok(st.finish())
    }
}

} // verus!
