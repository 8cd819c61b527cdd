//! The chapters of an FB2 book: the titles of the sections of its main body at any depth, or,
//! where it has none, the first short paragraph of each top-level section; each with where it
//! starts within the main body.
use vstd::prelude::*;
use vstd::utf8::encode_utf8;
use crate::parsers::{plain_text, ChapterFraction, Fb2Parser};
use crate::text::str_eq;
use crate::utils::{unescape_or_same, unescaped_or_same};
use crate::xml::{
    document_items, item_text, lemma_resume_index, opt_view, resume_after_text, resume_index, xml_items, XmlEvent,
    XmlItem,
};

verus! {

/// What the text of the element just started is read for.
pub enum ChapterText {
    /// A section title, whose element ends at the given byte offset.
    Title(u64),
    /// The first paragraph of a top-level section.
    FirstParagraph,
}

/// What scanning an FB2 document for chapters has gathered.
pub struct ChapterScanView {
    pub in_body: bool,
    pub body_done: bool,
    pub body_start: u64,
    pub body_end: u64,
    pub depth: u64,
    pub titled: Seq<(u64, Seq<char>)>,
    pub fallback: Seq<(u64, Seq<char>)>,
    pub section_pos: u64,
    pub first_p: Option<Seq<char>>,
    pub awaiting_first_p: bool,
}

/// Offsets and texts of collected entries.
pub open spec fn entries_of(v: Seq<(u64, String)>) -> Seq<(u64, Seq<char>)> {
    v.map_values(|e: (u64, String)| (e.0, e.1@))
}

/// A start tag with local name `local`, after which the reader stands at `pos`: the first
/// `body` opens the main body; a `section` inside it goes one level deeper (a top-level one
/// records where it starts and waits for its first paragraph); a `title` inside a section asks
/// for its text, as does the first `p` of a top-level section that has had no title or paragraph.
pub open spec fn chapter_start(v: ChapterScanView, local: Seq<char>, pos: u64) -> (
    ChapterScanView,
    Option<ChapterText>,
) {
    if local == "body"@ && !v.in_body && !v.body_done {
        (ChapterScanView { in_body: true, body_start: pos, ..v }, None)
    } else if local == "section"@ && v.in_body {
        if v.depth + 1 == 1 {
            (
                ChapterScanView {
                    depth: (v.depth + 1) as u64,
                    section_pos: pos,
                    first_p: None,
                    awaiting_first_p: true,
                    ..v
                },
                None,
            )
        } else {
            (ChapterScanView { depth: (v.depth + 1) as u64, ..v }, None)
        }
    } else if local == "title"@ && v.in_body && v.depth >= 1 {
        (ChapterScanView { awaiting_first_p: false, ..v }, Some(ChapterText::Title(pos)))
    } else if local == "p"@ && v.in_body && v.depth == 1 && v.awaiting_first_p {
        (ChapterScanView { awaiting_first_p: false, ..v }, Some(ChapterText::FirstParagraph))
    } else {
        (v, None)
    }
}

/// The text of a title or paragraph from the raw text of its element: unescaped (kept as it is
/// where it does not unescape), then stripped of tags with its words joined by single spaces.
pub open spec fn chapter_text_of(raw: Seq<char>) -> Seq<char> {
    plain_text(unescaped_or_same(raw))
}

/// The text read for `what` (`None` where it could not be read): a non-empty title is
/// collected at its offset; a non-empty first paragraph of at most 80 bytes (UTF-8) is kept as
/// its section's fallback title.
pub open spec fn chapter_text(v: ChapterScanView, what: ChapterText, text: Option<Seq<char>>) -> ChapterScanView {
    match text {
        None => v,
        Some(raw) => {
            let t = chapter_text_of(raw);
            match what {
                ChapterText::Title(pos) => if t.len() > 0 {
                    ChapterScanView { titled: v.titled.push((pos, t)), ..v }
                } else {
                    v
                },
                ChapterText::FirstParagraph => if t.len() > 0 && encode_utf8(t).len() <= 80 {
                    ChapterScanView { first_p: Some(t), ..v }
                } else {
                    v
                },
            }
        },
    }
}

/// An end tag with local name `local`, after which the reader stands at `pos`: the end of the
/// main body closes it for good; the end of a section inside it goes one level up (saturating
/// at zero), and the end of a top-level section hands over its kept first paragraph.
pub open spec fn chapter_end(v: ChapterScanView, local: Seq<char>, pos: u64) -> ChapterScanView {
    if local == "body"@ && v.in_body {
        ChapterScanView { in_body: false, body_done: true, body_end: pos, ..v }
    } else if local == "section"@ && v.in_body {
        let d = if v.depth == 0 { 0u64 } else { (v.depth - 1) as u64 };
        match v.first_p {
            Some(t) => if v.depth == 1 {
                ChapterScanView {
                    fallback: v.fallback.push((v.section_pos, t)),
                    first_p: None,
                    depth: d,
                    ..v
                }
            } else {
                ChapterScanView { depth: d, ..v }
            },
            None => ChapterScanView { depth: d, ..v },
        }
    } else {
        v
    }
}

/// Every collected or kept title is non-empty.
pub open spec fn titles_nonempty(v: ChapterScanView) -> bool {
    &&& forall|i: int| 0 <= i < v.titled.len() ==> (#[trigger] v.titled[i]).1.len() > 0
    &&& forall|i: int| 0 <= i < v.fallback.len() ==> (#[trigger] v.fallback[i]).1.len() > 0
    &&& v.first_p matches Some(t) ==> t.len() > 0
}

proof fn lemma_steps_keep_titles(v: ChapterScanView, local: Seq<char>, pos: u64, what: ChapterText, text: Option<Seq<char>>)
    requires
        titles_nonempty(v),
    ensures
        titles_nonempty(chapter_start(v, local, pos).0),
        titles_nonempty(chapter_text(v, what, text)),
        titles_nonempty(chapter_end(v, local, pos)),
{
    let w = chapter_text(v, what, text);
    assert forall|i: int| 0 <= i < w.titled.len() implies (#[trigger] w.titled[i]).1.len() > 0 by {
        if i < v.titled.len() {
            assert(w.titled[i] == v.titled[i]);
        }
    }
    let e = chapter_end(v, local, pos);
    assert forall|i: int| 0 <= i < e.fallback.len() implies (#[trigger] e.fallback[i]).1.len() > 0 by {
        if i < v.fallback.len() {
            assert(e.fallback[i] == v.fallback[i]);
        }
    }
}

/// Bytes of the main body (zero where it ends before it starts).
pub open spec fn body_length(v: ChapterScanView) -> int {
    if v.body_end >= v.body_start {
        v.body_end - v.body_start
    } else {
        0
    }
}

/// The entries that become chapters: the titles where there are any, else the first paragraphs.
pub open spec fn chapter_entries(v: ChapterScanView) -> Seq<(u64, Seq<char>)> {
    if v.titled.len() > 0 {
        v.titled
    } else {
        v.fallback
    }
}

/// How far into the main body `pos` lies, within `0..=body_length(v)`.
pub open spec fn chapter_offset(v: ChapterScanView, pos: u64) -> int {
    let d = if pos >= v.body_start {
        pos - v.body_start
    } else {
        0
    };
    if d <= body_length(v) {
        d
    } else {
        body_length(v)
    }
}

/// The scan before the document.
pub open spec fn chapter_scan_start() -> ChapterScanView {
    ChapterScanView {
        in_body: false,
        body_done: false,
        body_start: 0,
        body_end: 0,
        depth: 0,
        titled: Seq::empty(),
        fallback: Seq::empty(),
        section_pos: 0,
        first_p: None,
        awaiting_first_p: false,
    }
}

/// The scan after the items of a document from `i` on: each start tag and end tag goes through
/// `chapter_start` and `chapter_end` with the offset after it; where `chapter_start` asks for
/// the element's text, that text goes through `chapter_text` and reading resumes after it
/// (`resume_index`); the scan stops at the end of the document or its first error.
pub open spec fn chapters_run(items: Seq<XmlItem>, i: int, v: ChapterScanView) -> ChapterScanView
    decreases items.len() - i,
{
    if i < 0 || i >= items.len() {
        v
    } else {
        let it = items[i];
        match it.event {
            XmlEvent::Start(t) => {
                let (v2, w) = chapter_start(v, t.local_name@, it.position);
                match w {
                    Some(what) => {
                        let (txt, to) = item_text(it);
                        proof {
                            lemma_resume_index(items, i + 1, to);
                        }
                        chapters_run(items, resume_index(items, i + 1, to), chapter_text(v2, what, txt))
                    },
                    None => chapters_run(items, i + 1, v2),
                }
            },
            XmlEvent::End(n) => chapters_run(items, i + 1, chapter_end(v, n@, it.position)),
            XmlEvent::Eof | XmlEvent::Error => v,
            _ => chapters_run(items, i + 1, v),
        }
    }
}

/// Whether `r` is what `finish` makes of the scan `v`.
pub open spec fn chapters_finished(r: Seq<ChapterFraction>, v: ChapterScanView) -> bool {
    &&& body_length(v) == 0 ==> r.len() == 0
    &&& body_length(v) > 0 ==> {
        &&& r.len() == chapter_entries(v).len()
        &&& forall|i: int|
            0 <= i < r.len() ==> {
                &&& (#[trigger] r[i]).title@ == chapter_entries(v)[i].1
                &&& r[i].offset == chapter_offset(v, chapter_entries(v)[i].0)
                &&& r[i].total == body_length(v)
            }
    }
}

proof fn lemma_run_keeps_titles(items: Seq<XmlItem>, i: int, v: ChapterScanView)
    requires
        titles_nonempty(v),
    ensures
        titles_nonempty(chapters_run(items, i, v)),
    decreases items.len() - i,
{
    if 0 <= i < items.len() {
        let it = items[i];
        match it.event {
            XmlEvent::Start(t) => {
                lemma_steps_keep_titles(v, t.local_name@, it.position, ChapterText::FirstParagraph, None);
                let (v2, w) = chapter_start(v, t.local_name@, it.position);
                match w {
                    Some(what) => {
                        let (txt, to) = item_text(it);
                        lemma_resume_index(items, i + 1, to);
                        lemma_steps_keep_titles(v2, t.local_name@, it.position, what, txt);
                        lemma_run_keeps_titles(items, resume_index(items, i + 1, to), chapter_text(v2, what, txt));
                    },
                    None => lemma_run_keeps_titles(items, i + 1, v2),
                }
            },
            XmlEvent::End(n) => {
                lemma_steps_keep_titles(v, n@, it.position, ChapterText::FirstParagraph, None);
                lemma_run_keeps_titles(items, i + 1, chapter_end(v, n@, it.position));
            },
            XmlEvent::Eof | XmlEvent::Error => {},
            _ => lemma_run_keeps_titles(items, i + 1, v),
        }
    }
}

/// Scanning an FB2 document for chapters, one event at a time.
pub struct Fb2ChapterReader {
    pub in_body: bool,
    pub body_done: bool,
    pub body_start: u64,
    pub body_end: u64,
    pub depth: u64,
    pub titled: Vec<(u64, String)>,
    pub fallback: Vec<(u64, String)>,
    pub section_pos: u64,
    pub first_p: Option<String>,
    pub awaiting_first_p: bool,
}

impl Fb2ChapterReader {
    /// The content of the reader.
    pub open spec fn view(&self) -> ChapterScanView {
        ChapterScanView {
            in_body: self.in_body,
            body_done: self.body_done,
            body_start: self.body_start,
            body_end: self.body_end,
            depth: self.depth,
            titled: entries_of(self.titled@),
            fallback: entries_of(self.fallback@),
            section_pos: self.section_pos,
            first_p: opt_view(self.first_p),
            awaiting_first_p: self.awaiting_first_p,
        }
    }

    /// A reader before the document.
    pub fn new() -> (r: Self)
        ensures
            r.view() == chapter_scan_start(),
    {
        let r = Fb2ChapterReader {
            in_body: false,
            body_done: false,
            body_start: 0,
            body_end: 0,
            depth: 0,
            titled: Vec::new(),
            fallback: Vec::new(),
            section_pos: 0,
            first_p: None,
            awaiting_first_p: false,
        };
        assert(entries_of(r.titled@) =~= Seq::<(u64, Seq<char>)>::empty());
        assert(entries_of(r.fallback@) =~= Seq::<(u64, Seq<char>)>::empty());
        r
    }

    /// Takes a start tag (see `chapter_start`): returns the text to read next, if any.
    pub fn start(&mut self, local: &str, pos: u64) -> (r: Option<ChapterText>)
        requires
            old(self).depth < u64::MAX,
        ensures
            (final(self).view(), r) == chapter_start(old(self).view(), local@, pos),
    {
        if str_eq(local, "body") && !self.in_body && !self.body_done {
            self.in_body = true;
            self.body_start = pos;
            None
        } else if str_eq(local, "section") && self.in_body {
            self.depth = self.depth + 1;
            if self.depth == 1 {
                self.section_pos = pos;
                self.first_p = None;
                self.awaiting_first_p = true;
            }
            None
        } else if str_eq(local, "title") && self.in_body && self.depth >= 1 {
            self.awaiting_first_p = false;
            Some(ChapterText::Title(pos))
        } else if str_eq(local, "p") && self.in_body && self.depth == 1 && self.awaiting_first_p {
            self.awaiting_first_p = false;
            Some(ChapterText::FirstParagraph)
        } else {
            None
        }
    }

    /// Takes the text read for `what` (see `chapter_text`).
    pub fn text(&mut self, what: ChapterText, text: Option<String>)
        ensures
            final(self).view() == chapter_text(old(self).view(), what, opt_view(text)),
    {
        if let Some(raw) = text {
            let t = Fb2Parser::strip_xml_tags(unescape_or_same(raw.as_str()).as_str());
            assert(t@ == chapter_text_of(raw@));
            match what {
                ChapterText::Title(pos) => {
                    if t.as_str().unicode_len() > 0 {
                        let ghost before = entries_of(self.titled@);
                        self.titled.push((pos, t));
                        assert(entries_of(self.titled@) =~= before.push((pos, self.titled@.last().1@)));
                    }
                },
                ChapterText::FirstParagraph => {
                    let n = t.as_str().as_bytes().len();
                    if t.as_str().unicode_len() > 0 && n <= 80 {
                        self.first_p = Some(t);
                    }
                },
            }
        }
    }

    /// Takes an end tag (see `chapter_end`).
    pub fn end(&mut self, local: &str, pos: u64)
        ensures
            final(self).view() == chapter_end(old(self).view(), local@, pos),
    {
        if str_eq(local, "body") && self.in_body {
            self.in_body = false;
            self.body_done = true;
            self.body_end = pos;
        } else if str_eq(local, "section") && self.in_body {
            if self.depth == 1 {
                if let Some(t) = self.first_p.take() {
                    let ghost before = entries_of(self.fallback@);
                    self.fallback.push((self.section_pos, t));
                    assert(entries_of(self.fallback@) =~= before.push(
                        (self.section_pos, self.fallback@.last().1@),
                    ));
                }
            }
            self.depth = if self.depth == 0 { 0 } else { self.depth - 1 };
        }
    }

    /// The chapters found: none where the main body has no bytes; else one for each entry of
    /// `chapter_entries`, in order, with its text, its offset into the main body
    /// (`chapter_offset`) and the body's length.
    pub fn finish(self) -> (r: Vec<ChapterFraction>)
        ensures
            chapters_finished(r@, self.view()),
    {
        let start = self.body_start;
        let total: u64 = if self.body_end >= start { self.body_end - start } else { 0 };
        let mut out: Vec<ChapterFraction> = Vec::new();
        if total == 0 {
            return out;
        }
        let entries = if self.titled.len() > 0 { self.titled } else { self.fallback };
        let ghost es = entries_of(entries@);
        assert(es == chapter_entries(self.view()));
        let mut i: usize = 0;
        while i < entries.len()
            invariant
                i <= entries.len(),
                es == entries_of(entries@),
                out.len() == i,
                total == body_length(self.view()),
                start == self.view().body_start,
                forall|k: int|
                    0 <= k < i ==> {
                        &&& (#[trigger] out@[k]).title@ == es[k].1
                        &&& out@[k].offset == chapter_offset(self.view(), es[k].0)
                        &&& out@[k].total == total
                    },
            decreases entries.len() - i,
        {
            let (pos, title) = &entries[i];
            let d: u64 = if *pos >= start { *pos - start } else { 0 };
            let offset: u64 = if d <= total { d } else { total };
            out.push(ChapterFraction { title: crate::text::copy_string(title), offset, total });
            i += 1;
        }
        out
    }
}

impl Fb2Parser {
    /// The chapters of an FB2 document: what `Fb2ChapterReader::finish` makes of the scan of
    /// the document's items (see `chapters_run`). Each chapter has a non-empty title and lies
    /// within the main body, which has bytes.
    pub fn extract_chapters(fb2_xml: &str) -> (r: Vec<ChapterFraction>)
        ensures
            chapters_finished(r@, chapters_run(document_items(fb2_xml@), 0, chapter_scan_start())),
            forall|i: int|
                0 <= i < r.len() ==> {
                    &&& (#[trigger] r@[i]).title@.len() > 0
                    &&& r@[i].total > 0
                    &&& r@[i].offset <= r@[i].total
                },
    {
        let items = xml_items(fb2_xml);
        let ghost all = items@;
        let mut st = Fb2ChapterReader::new();
        let mut i: usize = 0;
        while i < items.len()
            invariant
                i <= items.len(),
                all == items@,
                st.view().depth <= i,
                chapters_run(all, 0, chapter_scan_start()) == chapters_run(all, i as int, st.view()),
            ensures
                chapters_run(all, 0, chapter_scan_start()) == st.view(),
            decreases items.len() - i,
        {
            let pos = items[i].position;
            match &items[i].event {
                XmlEvent::Start(t) => {
                    match st.start(t.local_name.as_str(), pos) {
                        Some(what) => {
                            let text = match &items[i].text {
                                Some((x, _)) => crate::text::copy_opt_string(x),
                                None => None,
                            };
                            let next = resume_after_text(&items, i);
                            st.text(what, text);
                            i = next;
                        },
                        None => {
                            i += 1;
                        },
                    }
                },
                XmlEvent::End(name) => {
                    st.end(name.as_str(), pos);
                    i += 1;
                },
                XmlEvent::Eof | XmlEvent::Error => {
                    break;
                },
                _ => {
                    i += 1;
                },
            }
        }
        proof {
            lemma_run_keeps_titles(all, 0, chapter_scan_start());
        }
        let ghost v = st.view();
        let r = st.finish();
        assert forall|k: int| 0 <= k < r.len() implies {
            &&& (#[trigger] r@[k]).title@.len() > 0
            &&& r@[k].total > 0
            &&& r@[k].offset <= r@[k].total
        } by {
            assert(r@[k].title@ == chapter_entries(v)[k].1);
            if v.titled.len() > 0 {
                assert(v.titled[k].1.len() > 0);
            } else {
                assert(v.fallback[k].1.len() > 0);
            }
        }
        r
    }
}

} // verus!
