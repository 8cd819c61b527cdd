//! What KOReader's `metadata.*.lua` sidecar files say of a book: the table a file evaluates to,
//! read field by field into `KoReaderMetadata`.
//!
//! A field of the wrong type reads as absent. Numbers are held as the text they are written as
//! (see `LuaValue::Number`); a whole number in a `u32` field is one written with digits only.
use vstd::prelude::*;
use crate::lua_table::{int_get, int_index, str_get, str_index, Entry};
use crate::lua_value::{decimal, write_decimal, LuaKey, LuaValue};
use crate::text::{chars_of, copy_string, str_eq, string_from_chars};
use crate::time_config::{parse_unsigned_chars, parse_unsigned_text};
use crate::xml::opt_view;

verus! {

/// A book's reading status in its summary.
#[derive(Clone, Copy, Debug, PartialEq, Eq, Structural)]
pub enum BookStatus {
    Reading,
    Complete,
    Abandoned,
    Unknown,
}

/// A page where the reader starts (hidden) or ends a hidden flow.
pub struct FlowPoint {
    pub hidden: bool,
    pub page: u32,
}

/// A highlight, note or bookmark.
pub struct Annotation {
    pub chapter: Option<String>,
    pub datetime: Option<String>,
    pub datetime_updated: Option<String>,
    pub pageno: Option<u32>,
    pub pos0: Option<String>,
    pub pos1: Option<String>,
    pub text: Option<String>,
    pub note: Option<String>,
    pub color: Option<String>,
    pub drawer: Option<String>,
}

/// The document's own properties.
pub struct DocProps {
    pub authors: Option<String>,
    pub description: Option<String>,
    pub identifiers: Option<String>,
    pub keywords: Option<String>,
    pub language: Option<String>,
    pub title: Option<String>,
}

/// KOReader's statistics of the book.
pub struct Stats {
    pub authors: Option<String>,
    pub highlights: Option<u32>,
    pub language: Option<String>,
    pub notes: Option<u32>,
    pub pages: Option<u32>,
    pub series: Option<String>,
    pub title: Option<String>,
}

/// The reader's summary of the book.
pub struct Summary {
    pub modified: Option<String>,
    pub note: Option<String>,
    pub rating: Option<u32>,
    pub status: BookStatus,
}

/// The reading settings stored with the book; the font size is the text of a number.
pub struct ReaderPresentation {
    pub font_face: Option<String>,
    pub font_size_pt: Option<String>,
    pub line_spacing_percentage: Option<u32>,
    pub horizontal_margins: Option<(u32, u32)>,
    pub top_margin: Option<u32>,
    pub bottom_margin: Option<u32>,
    pub embedded_fonts: Option<bool>,
    pub hyphenation: Option<bool>,
    pub floating_punctuation: Option<bool>,
    pub word_spacing: Option<(u32, u32)>,
}

/// What a metadata file says of a book; the share finished is the text of a number.
pub struct KoReaderMetadata {
    pub annotations: Vec<Annotation>,
    pub reader_presentation: Option<ReaderPresentation>,
    pub doc_pages: Option<u32>,
    pub doc_path: Option<String>,
    pub doc_props: Option<DocProps>,
    pub handmade_flows_enabled: Option<bool>,
    pub handmade_flow_points: Vec<FlowPoint>,
    pub pagemap_use_page_labels: Option<bool>,
    pub pagemap_chars_per_synthetic_page: Option<u32>,
    pub pagemap_doc_pages: Option<u32>,
    pub pagemap_current_page_label: Option<String>,
    pub pagemap_last_page_label: Option<String>,
    pub partial_md5_checksum: Option<String>,
    pub percent_finished: Option<String>,
    pub stats: Option<Stats>,
    pub summary: Option<Summary>,
    pub text_lang: Option<String>,
}

/// Why a metadata file gives no metadata.
#[derive(Clone, Copy, Debug, PartialEq, Eq, Structural)]
pub enum LuaParseError {
    /// Lua could not evaluate the text.
    Eval,
    /// The text evaluates to something other than a table.
    NotATable,
}

/// A string value's text.
pub open spec fn text_of(v: LuaValue) -> Option<Seq<char>> {
    match v {
        LuaValue::Str(s) => Some(s@),
        _ => None,
    }
}

/// A whole number from 0 to `u32::MAX`: an integer, or a number written with digits only.
pub open spec fn u32_of(v: LuaValue) -> Option<u32> {
    match v {
        LuaValue::Integer(i) => if 0 <= i <= u32::MAX {
            Some(i as u32)
        } else {
            None
        },
        LuaValue::Number(t) => match parse_unsigned_text(t@, u32::MAX as int) {
            Some(n) => Some(n as u32),
            None => None,
        },
        _ => None,
    }
}

/// A boolean value.
pub open spec fn bool_of(v: LuaValue) -> Option<bool> {
    match v {
        LuaValue::Boolean(b) => Some(b),
        _ => None,
    }
}

/// A boolean, or a flag written as the number 0 or 1.
pub open spec fn flag_of(v: LuaValue) -> Option<bool> {
    match v {
        LuaValue::Boolean(b) => Some(b),
        LuaValue::Integer(i) => if i == 0 {
            Some(false)
        } else if i == 1 {
            Some(true)
        } else {
            None
        },
        LuaValue::Number(t) => if t@ == "0"@ {
            Some(false)
        } else if t@ == "1"@ {
            Some(true)
        } else {
            None
        },
        _ => None,
    }
}

/// The text of a number value.
pub open spec fn number_of(v: LuaValue) -> Option<Seq<char>> {
    match v {
        LuaValue::Integer(i) => Some(decimal(i as int)),
        LuaValue::Number(t) => Some(t@),
        _ => None,
    }
}

/// A table whose entries 1 and 2 are both whole numbers (see `u32_of`).
pub open spec fn pair_of(v: LuaValue) -> Option<(u32, u32)> {
    match v {
        LuaValue::Table(es) => match (u32_of(int_get(es@, 1)), u32_of(int_get(es@, 2))) {
            (Some(a), Some(b)) => Some((a, b)),
            _ => None,
        },
        _ => None,
    }
}

/// A table value's entries.
pub open spec fn table_of(v: LuaValue) -> Option<Seq<Entry>> {
    match v {
        LuaValue::Table(es) => Some(es@),
        _ => None,
    }
}

/// The tables at the integer keys `k`, `k + 1`, ... of a list, up to the first key that holds
/// no table (or past the list's length).
pub open spec fn tables_from(arr: Seq<Entry>, k: int) -> Seq<Seq<Entry>>
    decreases arr.len() + 1 - k,
{
    if k < 1 || k > arr.len() {
        Seq::empty()
    } else {
        match int_get(arr, k as i64) {
            LuaValue::Table(t) => seq![t@] + tables_from(arr, k + 1),
            _ => Seq::empty(),
        }
    }
}

/// The flow point of a table: where it names a page, whether it is hidden (absent: not) and
/// that page.
pub open spec fn flow_of(t: Seq<Entry>) -> Seq<(bool, u32)> {
    match u32_of(str_get(t, "page"@)) {
        Some(p) => seq![
            (match bool_of(str_get(t, "hidden"@)) {
                Some(h) => h,
                None => false,
            }, p),
        ],
        None => Seq::empty(),
    }
}

/// The flow points of the tables from position `i` of a list of tables, in order.
pub open spec fn flows_of(ts: Seq<Seq<Entry>>, i: int) -> Seq<(bool, u32)>
    decreases ts.len() - i,
{
    if i < 0 || i >= ts.len() {
        Seq::empty()
    } else {
        flow_of(ts[i]) + flows_of(ts, i + 1)
    }
}

/// The tables of the list under `key` (none where `key` holds no table).
pub open spec fn list_at(es: Seq<Entry>, key: Seq<char>) -> Seq<Seq<Entry>> {
    match str_get(es, key) {
        LuaValue::Table(arr) => tables_from(arr@, 1),
        _ => Seq::empty(),
    }
}

/// The text under the string key `k`.
pub open spec fn text_at(es: Seq<Entry>, k: Seq<char>) -> Option<Seq<char>> {
    text_of(str_get(es, k))
}

/// The whole number under the string key `k`.
pub open spec fn u32_at(es: Seq<Entry>, k: Seq<char>) -> Option<u32> {
    u32_of(str_get(es, k))
}

/// Whether `a` is the annotation the table `es` describes.
pub open spec fn annotation_is(a: Annotation, es: Seq<Entry>) -> bool {
    &&& opt_view(a.chapter) == text_at(es, "chapter"@)
    &&& opt_view(a.datetime) == text_at(es, "datetime"@)
    &&& opt_view(a.datetime_updated) == text_at(es, "datetime_updated"@)
    &&& a.pageno == u32_at(es, "pageno"@)
    &&& opt_view(a.pos0) == text_at(es, "pos0"@)
    &&& opt_view(a.pos1) == text_at(es, "pos1"@)
    &&& opt_view(a.text) == text_at(es, "text"@)
    &&& opt_view(a.note) == text_at(es, "note"@)
    &&& opt_view(a.color) == text_at(es, "color"@)
    &&& opt_view(a.drawer) == text_at(es, "drawer"@)
}

/// Whether `d` holds the document properties of the table `es`.
pub open spec fn doc_props_is(d: DocProps, es: Seq<Entry>) -> bool {
    &&& opt_view(d.authors) == text_at(es, "authors"@)
    &&& opt_view(d.description) == text_at(es, "description"@)
    &&& opt_view(d.identifiers) == text_at(es, "identifiers"@)
    &&& opt_view(d.keywords) == text_at(es, "keywords"@)
    &&& opt_view(d.language) == text_at(es, "language"@)
    &&& opt_view(d.title) == text_at(es, "title"@)
}

/// Whether `s` holds the statistics of the table `es`.
pub open spec fn stats_is(s: Stats, es: Seq<Entry>) -> bool {
    &&& opt_view(s.authors) == text_at(es, "authors"@)
    &&& s.highlights == u32_at(es, "highlights"@)
    &&& opt_view(s.language) == text_at(es, "language"@)
    &&& s.notes == u32_at(es, "notes"@)
    &&& s.pages == u32_at(es, "pages"@)
    &&& opt_view(s.series) == text_at(es, "series"@)
    &&& opt_view(s.title) == text_at(es, "title"@)
}

/// The status a summary's `status` text names (`Unknown` for any other text, or none).
pub open spec fn status_of(t: Option<Seq<char>>) -> BookStatus {
    match t {
        Some(s) => if s == "reading"@ {
            BookStatus::Reading
        } else if s == "complete"@ {
            BookStatus::Complete
        } else if s == "abandoned"@ {
            BookStatus::Abandoned
        } else {
            BookStatus::Unknown
        },
        None => BookStatus::Unknown,
    }
}

/// Whether `s` holds the summary of the table `es`.
pub open spec fn summary_is(s: Summary, es: Seq<Entry>) -> bool {
    &&& opt_view(s.modified) == text_at(es, "modified"@)
    &&& opt_view(s.note) == text_at(es, "note"@)
    &&& s.rating == u32_at(es, "rating"@)
    &&& s.status == status_of(text_at(es, "status"@))
}

/// Whether `p` holds the reading settings of the metadata table `es`.
pub open spec fn presentation_is(p: ReaderPresentation, es: Seq<Entry>) -> bool {
    &&& opt_view(p.font_face) == text_at(es, "font_face"@)
    &&& opt_view(p.font_size_pt) == number_of(str_get(es, "copt_font_size"@))
    &&& p.line_spacing_percentage == u32_at(es, "copt_line_spacing"@)
    &&& p.horizontal_margins == pair_of(str_get(es, "copt_h_page_margins"@))
    &&& p.top_margin == u32_at(es, "copt_t_page_margin"@)
    &&& p.bottom_margin == u32_at(es, "copt_b_page_margin"@)
    &&& p.embedded_fonts == flag_of(str_get(es, "copt_embedded_fonts"@))
    &&& p.hyphenation == flag_of(str_get(es, "hyphenation"@))
    &&& p.floating_punctuation == flag_of(str_get(es, "floating_punctuation"@))
    &&& p.word_spacing == pair_of(str_get(es, "copt_word_spacing"@))
}

/// Whether the metadata table `es` holds no reading setting.
pub open spec fn presentation_absent(es: Seq<Entry>) -> bool {
    &&& text_at(es, "font_face"@) is None
    &&& number_of(str_get(es, "copt_font_size"@)) is None
    &&& u32_at(es, "copt_line_spacing"@) is None
    &&& pair_of(str_get(es, "copt_h_page_margins"@)) is None
    &&& u32_at(es, "copt_t_page_margin"@) is None
    &&& u32_at(es, "copt_b_page_margin"@) is None
    &&& flag_of(str_get(es, "copt_embedded_fonts"@)) is None
    &&& flag_of(str_get(es, "hyphenation"@)) is None
    &&& flag_of(str_get(es, "floating_punctuation"@)) is None
    &&& pair_of(str_get(es, "copt_word_spacing"@)) is None
}

/// The view of a list of flow points.
pub open spec fn flows_view(v: Seq<FlowPoint>) -> Seq<(bool, u32)> {
    v.map_values(|f: FlowPoint| (f.hidden, f.page))
}

/// Whether `m` is what the metadata table `es` says: each field read as its type, the lists of
/// annotations and flow points read from key 1 on, and the settings kept where any is present.
pub open spec fn metadata_is(m: KoReaderMetadata, es: Seq<Entry>) -> bool {
    &&& m.annotations.len() == list_at(es, "annotations"@).len()
    &&& forall|i: int|
        0 <= i < m.annotations.len() ==> annotation_is(#[trigger] m.annotations@[i], list_at(es, "annotations"@)[i])
    &&& match m.reader_presentation {
        Some(p) => presentation_is(p, es) && !presentation_absent(es),
        None => presentation_absent(es),
    }
    &&& m.doc_pages == u32_at(es, "doc_pages"@)
    &&& opt_view(m.doc_path) == text_at(es, "doc_path"@)
    &&& match (m.doc_props, table_of(str_get(es, "doc_props"@))) {
        (Some(d), Some(t)) => doc_props_is(d, t),
        (None, None) => true,
        _ => false,
    }
    &&& m.handmade_flows_enabled == bool_of(str_get(es, "handmade_flows_enabled"@))
    &&& flows_view(m.handmade_flow_points@) == flows_of(list_at(es, "handmade_flow_points"@), 0)
    &&& m.pagemap_use_page_labels == bool_of(str_get(es, "pagemap_use_page_labels"@))
    &&& m.pagemap_chars_per_synthetic_page == u32_at(es, "pagemap_chars_per_synthetic_page"@)
    &&& m.pagemap_doc_pages == u32_at(es, "pagemap_doc_pages"@)
    &&& opt_view(m.pagemap_current_page_label) == text_at(es, "pagemap_current_page_label"@)
    &&& opt_view(m.pagemap_last_page_label) == text_at(es, "pagemap_last_page_label"@)
    &&& opt_view(m.partial_md5_checksum) == text_at(es, "partial_md5_checksum"@)
    &&& opt_view(m.percent_finished) == number_of(str_get(es, "percent_finished"@))
    &&& match (m.stats, table_of(str_get(es, "stats"@))) {
        (Some(s), Some(t)) => stats_is(s, t),
        (None, None) => true,
        _ => false,
    }
    &&& match (m.summary, table_of(str_get(es, "summary"@))) {
        (Some(s), Some(t)) => summary_is(s, t),
        (None, None) => true,
        _ => false,
    }
    &&& opt_view(m.text_lang) == text_at(es, "text_lang"@)
}

/// The value under the string key `key` (`None` for `nil`: no such entry).
fn value_at<'a>(es: &'a Vec<Entry>, key: &str) -> (r: Option<&'a LuaValue>)
    ensures
        match r {
            Some(v) => *v == str_get(es@, key@),
            None => str_get(es@, key@) == LuaValue::Nil,
        },
{
    match str_index(es, key) {
        Some(i) => Some(&es[i].1),
        None => None,
    }
}

/// The value under the integer key `n` (`None` for `nil`: no such entry).
fn value_at_index<'a>(es: &'a Vec<Entry>, n: i64) -> (r: Option<&'a LuaValue>)
    ensures
        match r {
            Some(v) => *v == int_get(es@, n),
            None => int_get(es@, n) == LuaValue::Nil,
        },
{
    match int_index(es, n) {
        Some(i) => Some(&es[i].1),
        None => None,
    }
}

/// A value that may be `nil`.
pub open spec fn or_nil(v: Option<&LuaValue>) -> LuaValue {
    match v {
        Some(x) => *x,
        None => LuaValue::Nil,
    }
}

/// A string value's text (see `text_of`).
fn text_value(v: Option<&LuaValue>) -> (r: Option<String>)
    ensures
        opt_view(r) == text_of(or_nil(v)),
{
    match v {
        Some(LuaValue::Str(s)) => Some(copy_string(s)),
        _ => None,
    }
}

/// A whole number (see `u32_of`).
fn u32_value(v: Option<&LuaValue>) -> (r: Option<u32>)
    ensures
        r == u32_of(or_nil(v)),
{
    match v {
        Some(LuaValue::Integer(i)) => if 0 <= *i && *i <= 4294967295 {
            Some(*i as u32)
        } else {
            None
        },
        Some(LuaValue::Number(t)) => {
            let cs = chars_of(t.as_str());
            assert(cs@.subrange(0, cs.len() as int) =~= t@);
            parse_unsigned_chars(&cs, 0, cs.len(), 4294967295)
        },
        _ => None,
    }
}

/// A boolean (see `bool_of`).
fn bool_value(v: Option<&LuaValue>) -> (r: Option<bool>)
    ensures
        r == bool_of(or_nil(v)),
{
    match v {
        Some(LuaValue::Boolean(b)) => Some(*b),
        _ => None,
    }
}

/// A boolean or 0/1 flag (see `flag_of`).
fn flag_value(v: Option<&LuaValue>) -> (r: Option<bool>)
    ensures
        r == flag_of(or_nil(v)),
{
    match v {
        Some(LuaValue::Boolean(b)) => Some(*b),
        Some(LuaValue::Integer(i)) => if *i == 0 {
            Some(false)
        } else if *i == 1 {
            Some(true)
        } else {
            None
        },
        Some(LuaValue::Number(t)) => if str_eq(t.as_str(), "0") {
            Some(false)
        } else if str_eq(t.as_str(), "1") {
            Some(true)
        } else {
            None
        },
        _ => None,
    }
}

/// The text of a number (see `number_of`).
fn number_value(v: Option<&LuaValue>) -> (r: Option<String>)
    ensures
        opt_view(r) == number_of(or_nil(v)),
{
    match v {
        Some(LuaValue::Integer(i)) => {
            let mut buf: Vec<char> = Vec::new();
            write_decimal(&mut buf, *i);
            assert(buf@ =~= decimal(*i as int));
            Some(string_from_chars(buf.as_slice()))
        },
        Some(LuaValue::Number(t)) => Some(copy_string(t)),
        _ => None,
    }
}

/// Two whole numbers at keys 1 and 2 (see `pair_of`).
fn pair_value(v: Option<&LuaValue>) -> (r: Option<(u32, u32)>)
    ensures
        r == pair_of(or_nil(v)),
{
    match v {
        Some(LuaValue::Table(es)) => {
            let a = u32_value(value_at_index(es, 1));
            let b = u32_value(value_at_index(es, 2));
            match (a, b) {
                (Some(x), Some(y)) => Some((x, y)),
                _ => None,
            }
        },
        _ => None,
    }
}

/// The table under `key` (see `table_of`).
fn table_at<'a>(es: &'a Vec<Entry>, key: &str) -> (r: Option<&'a Vec<Entry>>)
    ensures
        match r {
            Some(t) => table_of(str_get(es@, key@)) == Some(t@),
            None => table_of(str_get(es@, key@)) is None,
        },
{
    match value_at(es, key) {
        Some(LuaValue::Table(t)) => Some(t),
        _ => None,
    }
}

/// The views of a list of tables.
pub open spec fn tables_view(v: Seq<&Vec<Entry>>) -> Seq<Seq<Entry>> {
    v.map_values(|t: &Vec<Entry>| t@)
}

/// The tables at keys 1, 2, ... of a list (see `tables_from`).
fn table_list<'a>(arr: &'a Vec<Entry>) -> (r: Vec<&'a Vec<Entry>>)
    ensures
        tables_view(r@) == tables_from(arr@, 1),
{
    let mut out: Vec<&'a Vec<Entry>> = Vec::new();
    let mut k: usize = 1;
    loop
        invariant_except_break
            tables_view(out@) + tables_from(arr@, k as int) == tables_from(arr@, 1),
        invariant
            1 <= k <= arr.len() + 1,
        ensures
            tables_view(out@) == tables_from(arr@, 1),
        decreases arr.len() + 1 - k,
    {
        if k > arr.len() {
            assert(tables_view(out@) + tables_from(arr@, k as int) =~= tables_view(out@));
            break;
        }
        match value_at_index(arr, k as i64) {
            Some(LuaValue::Table(t)) => {
                let ghost before = tables_view(out@);
                out.push(t);
                assert(tables_view(out@) =~= before.push(t@));
                assert(tables_from(arr@, k as int) =~= seq![t@] + tables_from(arr@, k + 1));
                assert(tables_view(out@) + tables_from(arr@, k + 1) =~= before + tables_from(arr@, k as int));
                if k == arr.len() {
                    assert(tables_view(out@) + tables_from(arr@, k + 1) =~= tables_view(out@));
                    break;
                }
                k += 1;
            },
            _ => {
                assert(tables_view(out@) + tables_from(arr@, k as int) =~= tables_view(out@));
                break;
            },
        }
    }
    out
}

/// The tables of the list under `key` (see `list_at`).
fn list_tables<'a>(es: &'a Vec<Entry>, key: &str) -> (r: Vec<&'a Vec<Entry>>)
    ensures
        tables_view(r@) == list_at(es@, key@),
{
    match value_at(es, key) {
        Some(LuaValue::Table(arr)) => table_list(arr),
        _ => Vec::new(),
    }
}

/// The annotation a table describes.
fn annotation_from(t: &Vec<Entry>) -> (r: Annotation)
    ensures
        annotation_is(r, t@),
{
    Annotation {
        chapter: text_value(value_at(t, "chapter")),
        datetime: text_value(value_at(t, "datetime")),
        datetime_updated: text_value(value_at(t, "datetime_updated")),
        pageno: u32_value(value_at(t, "pageno")),
        pos0: text_value(value_at(t, "pos0")),
        pos1: text_value(value_at(t, "pos1")),
        text: text_value(value_at(t, "text")),
        note: text_value(value_at(t, "note")),
        color: text_value(value_at(t, "color")),
        drawer: text_value(value_at(t, "drawer")),
    }
}

/// The flow points of a list of tables (see `flows_of`).
fn flow_points_of(ts: &Vec<&Vec<Entry>>) -> (r: Vec<FlowPoint>)
    ensures
        flows_view(r@) == flows_of(tables_view(ts@), 0),
{
    let ghost tv = tables_view(ts@);
    let mut out: Vec<FlowPoint> = Vec::new();
    let mut i: usize = 0;
    while i < ts.len()
        invariant
            i <= ts.len(),
            tv == tables_view(ts@),
            flows_view(out@) + flows_of(tv, i as int) == flows_of(tv, 0),
        decreases ts.len() - i,
    {
        let t: &Vec<Entry> = ts[i];
        let ghost before = flows_view(out@);
        assert(tv[i as int] == t@);
        assert(flows_of(tv, i as int) == flow_of(tv[i as int]) + flows_of(tv, i + 1));
        match u32_value(value_at(t, "page")) {
            Some(page) => {
                let hidden = match bool_value(value_at(t, "hidden")) {
                    Some(h) => h,
                    None => false,
                };
                out.push(FlowPoint { hidden, page });
                assert(flows_view(out@) =~= before + flow_of(t@));
            },
            None => {
                assert(flow_of(t@) =~= Seq::<(bool, u32)>::empty());
                assert(flows_view(out@) =~= before + flow_of(t@));
            },
        }
        i += 1;
        assert(flows_view(out@) + flows_of(tv, i as int) =~= before + (flow_of(tv[i - 1]) + flows_of(tv, i as int)));
    }
    assert(flows_of(tv, i as int) =~= Seq::<(bool, u32)>::empty());
    assert(flows_view(out@) =~= flows_view(out@) + flows_of(tv, i as int));
    out
}

/// The reading settings of a metadata table, where any is present.
fn presentation_from(es: &Vec<Entry>) -> (r: Option<ReaderPresentation>)
    ensures
        match r {
            Some(p) => presentation_is(p, es@) && !presentation_absent(es@),
            None => presentation_absent(es@),
        },
{
    let p = ReaderPresentation {
        font_face: text_value(value_at(es, "font_face")),
        font_size_pt: number_value(value_at(es, "copt_font_size")),
        line_spacing_percentage: u32_value(value_at(es, "copt_line_spacing")),
        horizontal_margins: pair_value(value_at(es, "copt_h_page_margins")),
        top_margin: u32_value(value_at(es, "copt_t_page_margin")),
        bottom_margin: u32_value(value_at(es, "copt_b_page_margin")),
        embedded_fonts: flag_value(value_at(es, "copt_embedded_fonts")),
        hyphenation: flag_value(value_at(es, "hyphenation")),
        floating_punctuation: flag_value(value_at(es, "floating_punctuation")),
        word_spacing: pair_value(value_at(es, "copt_word_spacing")),
    };
    if p.font_face.is_none() && p.font_size_pt.is_none() && p.line_spacing_percentage.is_none()
        && p.horizontal_margins.is_none() && p.top_margin.is_none() && p.bottom_margin.is_none()
        && p.embedded_fonts.is_none() && p.hyphenation.is_none() && p.floating_punctuation.is_none()
        && p.word_spacing.is_none() {
        None
    } else {
        Some(p)
    }
}

/// The document properties of a table.
fn doc_props_from(t: &Vec<Entry>) -> (r: DocProps)
    ensures
        doc_props_is(r, t@),
{
    DocProps {
        authors: text_value(value_at(t, "authors")),
        description: text_value(value_at(t, "description")),
        identifiers: text_value(value_at(t, "identifiers")),
        keywords: text_value(value_at(t, "keywords")),
        language: text_value(value_at(t, "language")),
        title: text_value(value_at(t, "title")),
    }
}

/// The statistics of a table.
fn stats_from(t: &Vec<Entry>) -> (r: Stats)
    ensures
        stats_is(r, t@),
{
    Stats {
        authors: text_value(value_at(t, "authors")),
        highlights: u32_value(value_at(t, "highlights")),
        language: text_value(value_at(t, "language")),
        notes: u32_value(value_at(t, "notes")),
        pages: u32_value(value_at(t, "pages")),
        series: text_value(value_at(t, "series")),
        title: text_value(value_at(t, "title")),
    }
}

/// The summary of a table.
fn summary_from(t: &Vec<Entry>) -> (r: Summary)
    ensures
        summary_is(r, t@),
{
    let status_text = text_value(value_at(t, "status"));
    let status = match &status_text {
        Some(s) => if str_eq(s.as_str(), "reading") {
            BookStatus::Reading
        } else if str_eq(s.as_str(), "complete") {
            BookStatus::Complete
        } else if str_eq(s.as_str(), "abandoned") {
            BookStatus::Abandoned
        } else {
            BookStatus::Unknown
        },
        None => BookStatus::Unknown,
    };
    Summary {
        modified: text_value(value_at(t, "modified")),
        note: text_value(value_at(t, "note")),
        rating: u32_value(value_at(t, "rating")),
        status,
    }
}

/// What a metadata table says of a book (see `metadata_is`).
pub fn metadata_of_table(es: &Vec<Entry>) -> (r: KoReaderMetadata)
    ensures
        metadata_is(r, es@),
{
    let annotation_tables = list_tables(es, "annotations");
    let ghost at = tables_view(annotation_tables@);
    let mut annotations: Vec<Annotation> = Vec::new();
    let mut i: usize = 0;
    while i < annotation_tables.len()
        invariant
            i <= annotation_tables.len(),
            at == tables_view(annotation_tables@),
            annotations.len() == i,
            forall|j: int| 0 <= j < i ==> annotation_is(#[trigger] annotations@[j], at[j]),
        decreases annotation_tables.len() - i,
    {
        annotations.push(annotation_from(annotation_tables[i]));
        i += 1;
    }
    let flow_tables = list_tables(es, "handmade_flow_points");
    let handmade_flow_points = flow_points_of(&flow_tables);
    KoReaderMetadata {
        annotations,
        reader_presentation: presentation_from(es),
        doc_pages: u32_value(value_at(es, "doc_pages")),
        doc_path: text_value(value_at(es, "doc_path")),
        doc_props: match table_at(es, "doc_props") {
            Some(t) => Some(doc_props_from(t)),
            None => None,
        },
        handmade_flows_enabled: bool_value(value_at(es, "handmade_flows_enabled")),
        handmade_flow_points,
        pagemap_use_page_labels: bool_value(value_at(es, "pagemap_use_page_labels")),
        pagemap_chars_per_synthetic_page: u32_value(value_at(es, "pagemap_chars_per_synthetic_page")),
        pagemap_doc_pages: u32_value(value_at(es, "pagemap_doc_pages")),
        pagemap_current_page_label: text_value(value_at(es, "pagemap_current_page_label")),
        pagemap_last_page_label: text_value(value_at(es, "pagemap_last_page_label")),
        partial_md5_checksum: text_value(value_at(es, "partial_md5_checksum")),
        percent_finished: number_value(value_at(es, "percent_finished")),
        stats: match table_at(es, "stats") {
            Some(t) => Some(stats_from(t)),
            None => None,
        },
        summary: match table_at(es, "summary") {
            Some(t) => Some(summary_from(t)),
            None => None,
        },
        text_lang: text_value(value_at(es, "text_lang")),
    }
}

/// What the evaluation of a metadata file's text gives (a sandboxed Lua evaluation with a bound
/// on its steps, made around the library, since a chunk may loop forever): its table, or
/// `NotATable` where the value is not a table, or the evaluation's error.
pub fn table_from_outcome(o: Result<Option<Vec<Entry>>, LuaParseError>) -> (r: Result<Vec<Entry>, LuaParseError>)
    ensures
        match o {
            Ok(Some(t)) => r matches Ok(u) && u@ == t@,
            Ok(None) => r == Err::<Vec<Entry>, LuaParseError>(LuaParseError::NotATable),
            Err(e) => r == Err::<Vec<Entry>, LuaParseError>(e),
        },
{
    match o {
        Ok(Some(t)) => Ok(t),
        Ok(None) => Err(LuaParseError::NotATable),
        Err(e) => Err(e),
    }
}

/// Reads KOReader's `metadata.*.lua` sidecar files into `KoReaderMetadata`.
pub struct LuaParser {}

impl LuaParser {
    pub fn new() -> (r: Self) {
        LuaParser {  }
    }

    /// What a metadata file says of the book, from the outcome of evaluating its text: the
    /// table it evaluates to, read by `metadata_of_table`; `NotATable` where the value is not a
    /// table; the evaluation's error where it failed.
    pub fn parse(&self, evaluated: Result<Option<Vec<Entry>>, LuaParseError>) -> (r: Result<KoReaderMetadata, LuaParseError>)
        ensures
            match evaluated {
                Ok(Some(t)) => r matches Ok(m) && metadata_is(m, t@),
                Ok(None) => r == Err::<KoReaderMetadata, LuaParseError>(LuaParseError::NotATable),
                Err(e) => r == Err::<KoReaderMetadata, LuaParseError>(e),
            },
    {
        match table_from_outcome(evaluated) {
            Ok(t) => Ok(metadata_of_table(&t)),
            Err(e) => Err(e),
        }
    }
}

/// The summary's status text decides the status: exactly `reading` gives `Reading`, exactly
/// `complete` gives `Complete`, exactly `abandoned` gives `Abandoned`; any other text, or none,
/// gives `Unknown`.
pub proof fn lemma_status_follows_text(t: Option<Seq<char>>)
    ensures
        (status_of(t) == BookStatus::Reading) <==> t == Some(seq!['r', 'e', 'a', 'd', 'i', 'n', 'g']),
        (status_of(t) == BookStatus::Complete) <==> t == Some(seq!['c', 'o', 'm', 'p', 'l', 'e', 't', 'e']),
        (status_of(t) == BookStatus::Abandoned) <==> t == Some(
            seq!['a', 'b', 'a', 'n', 'd', 'o', 'n', 'e', 'd'],
        ),
{
    reveal_strlit("reading");
    reveal_strlit("complete");
    reveal_strlit("abandoned");
    assert("reading"@ =~= seq!['r', 'e', 'a', 'd', 'i', 'n', 'g']);
    assert("complete"@ =~= seq!['c', 'o', 'm', 'p', 'l', 'e', 't', 'e']);
    assert("abandoned"@ =~= seq!['a', 'b', 'a', 'n', 'd', 'o', 'n', 'e', 'd']);
}

} // verus!
