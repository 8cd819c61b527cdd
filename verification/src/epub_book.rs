//! An EPUB book assembled from the documents of its archive: where the package document is,
//! which other documents it names (navigation, NCX, spine, cover), and the book made of their
//! contents. Reading the archive is left to the caller, which hands over what it read.
use vstd::prelude::*;
use crate::opf::{book_info_of, identifiers_of, opf_reader_start, opf_run, texts_of, BookInfo, OpfError};
use crate::parsers::{
    fractions_view, normalized_zip_path, slashes, spine_bytes, spine_view, toc_offsets, toc_view,
    ChapterFraction, EpubParser,
};
use crate::paths::{last_sep, spec_join, trim_trailing_seps};
use crate::text::{chars_of, copy_opt_string, copy_string, string_from_chars};
use crate::xml::{
    cover_from, document_events, document_items, nav_toc_of, pair_texts, ncx_toc_of, opf_path_from, page_list_of, opf_spine_of, opt_view, string_texts, CoverPathError, OpfPathError,
};

verus! {

/// Why an EPUB's documents do not make a book.
#[derive(Debug, Clone, Copy, PartialEq, Eq)]
pub enum EpubError {
    /// `META-INF/container.xml` names no package document.
    OpfPath(OpfPathError),
    /// The package document's metadata cannot be read.
    Metadata(OpfError),
    /// The package document's cover entry cannot be read.
    CoverPath(CoverPathError),
}

/// `Path::parent` for a path whose last component is a plain name: the path without its last
/// component (the empty path for a single name, `/` for a name under the root); none for the
/// empty path and the root.
pub open spec fn path_parent(p: Seq<char>) -> Option<Seq<char>> {
    let t = trim_trailing_seps(p);
    if t.len() == 0 {
        None
    } else {
        let k = last_sep(t);
        if k < 0 {
            Some(Seq::empty())
        } else if k == 0 {
            Some("/"@)
        } else {
            Some(t.take(k))
        }
    }
}

/// The archive path of `rel`, given relative to the directory `parent` (see
/// `EpubParser::resolve_relative_path`).
pub open spec fn resolved(parent: Option<Seq<char>>, rel: Seq<char>) -> Seq<char> {
    normalized_zip_path(
        slashes(
            match parent {
                Some(p) => spec_join(p, rel),
                None => rel,
            },
        ),
    )
}

/// The directory part of a path (see `path_parent`).
pub fn parent_path(p: &str) -> (r: Option<String>)
    ensures
        opt_view(r) == path_parent(p@),
{
    let v = chars_of(p);
    let mut n: usize = v.len();
    assert(v@.take(n as int) =~= v@);
    while n > 0 && v[n - 1] == '/'
        invariant
            n <= v.len(),
            trim_trailing_seps(v@) == trim_trailing_seps(v@.take(n as int)),
        decreases n,
    {
        assert(v@.take(n as int).drop_last() =~= v@.take(n - 1));
        n -= 1;
    }
    let ghost t = v@.take(n as int);
    assert(trim_trailing_seps(t) == t);
    if n == 0 {
        return None;
    }
    let mut k: usize = n;
    assert(t.take(n as int) =~= t);
    while k > 0 && v[k - 1] != '/'
        invariant
            k <= n <= v.len(),
            t == v@.take(n as int),
            last_sep(t) == last_sep(t.take(k as int)),
        decreases k,
    {
        assert(t.take(k as int).drop_last() =~= t.take(k - 1));
        k -= 1;
    }
    if k == 0 {
        assert(t.take(0) =~= Seq::<char>::empty());
        Some(String::new())
    } else {
        assert(t.take(k as int).last() == '/');
        if k == 1 {
            proof {
                reveal_strlit("/");
            }
            Some(string_from_chars(chars_of("/").as_slice()))
        } else {
            let mut out: Vec<char> = Vec::new();
            let mut i: usize = 0;
            while i < k - 1
                invariant
                    i <= k - 1,
                    k <= v.len(),
                    out@ == v@.take(i as int),
                decreases k - 1 - i,
            {
                out.push(v[i]);
                i += 1;
                assert(out@ =~= v@.take(i as int));
            }
            assert(out@ =~= t.take(k - 1));
            Some(string_from_chars(out.as_slice()))
        }
    }
}

/// What the package document says the rest of the book is made of.
pub struct EpubPlan {
    /// The book's metadata.
    pub book_info: BookInfo,
    /// The directory of the package document.
    pub opf_parent: Option<String>,
    /// The navigation document, as the package names it and as an archive path.
    pub nav_href: Option<String>,
    pub nav_path: Option<String>,
    /// The spine documents, as the package names them and as archive paths.
    pub spine_hrefs: Vec<String>,
    pub spine_paths: Vec<String>,
    /// The NCX document, as the package names it and as an archive path.
    pub ncx_href: Option<String>,
    pub ncx_path: Option<String>,
    /// The cover image as an archive path, and its media type.
    pub cover_path: Option<String>,
    pub cover_mime_type: Option<String>,
}

/// The archive path of `rel` (see `resolved`), for a parent that may be missing.
fn resolve(parent: &Option<String>, rel: &str) -> (r: String)
    ensures
        r@ == resolved(opt_view(*parent), rel@),
{
    match parent {
        Some(p) => EpubParser::resolve_relative_path(Some(p.as_str()), rel),
        None => EpubParser::resolve_relative_path(None, rel),
    }
}

/// The archive path of an optional document.
fn resolve_opt(parent: &Option<String>, rel: &Option<String>) -> (r: Option<String>)
    ensures
        opt_view(r) == match opt_view(*rel) {
            Some(x) => Some(resolved(opt_view(*parent), x)),
            None => None,
        },
{
    match rel {
        Some(x) => Some(resolve(parent, x.as_str())),
        None => None,
    }
}

/// The views of a list of strings.
pub open spec fn strings_view(v: Seq<String>) -> Seq<Seq<char>> {
    v.map_values(|s: String| s@)
}

/// The list with each of its paths resolved against `parent`.
pub open spec fn resolved_all(parent: Option<Seq<char>>, v: Seq<Seq<char>>) -> Seq<Seq<char>> {
    v.map_values(|s: Seq<char>| resolved(parent, s))
}

impl EpubParser {
    /// The archive path of the package document: what `container.xml` names (see
    /// `find_opf_path`), normalized.
    pub fn opf_path_of(container_xml: &str) -> (r: Result<String, OpfPathError>)
        ensures
            match (r, opf_path_from(document_events(container_xml@), 0)) {
                (Ok(p), Ok(q)) => p@ == normalized_zip_path(q),
                (Err(e), Err(f)) => e == f,
                _ => false,
            },
    {
        match EpubParser::find_opf_path(container_xml) {
            Ok(p) => Ok(EpubParser::normalize_zip_path(p.as_str())),
            Err(e) => Err(e),
        }
    }

    /// What the package document at `opf_path` says of the book: its metadata (see
    /// `parse_opf_metadata`), its navigation document, spine and NCX (see `parse_opf_spine`) and
    /// its cover (see `find_cover_path`), each document also as an archive path resolved against
    /// the package document's directory.
    pub fn plan_epub(opf_path: &str, opf_xml: &str) -> (r: Result<EpubPlan, EpubError>)
        ensures
            match opf_run(document_items(opf_xml@), 0, opf_reader_start()) {
                Err(f) => r matches Err(EpubError::Metadata(e)) && e == f,
                Ok(v) => match cover_from(document_events(opf_xml@), 0, v.cover_id) {
                    Err(f) => r matches Err(EpubError::CoverPath(e)) && e == f,
                    Ok(c) => r matches Ok(p) && {
                        let parent = path_parent(opf_path@);
                        &&& book_info_of(p.book_info, v)
                        &&& p.book_info.chapters.len() == 0
                        &&& p.book_info.cover_data is None
                        &&& opt_view(p.nav_href) == v.nav_path
                        &&& (string_texts(p.spine_hrefs@), opt_view(p.ncx_href)) == opf_spine_of(
                            document_events(opf_xml@),
                        )
                        &&& opt_view(p.cover_path) == match c {
                            Some((h, _)) => Some(resolved(parent, h)),
                            None => None,
                        }
                        &&& opt_view(p.cover_mime_type) == match c {
                            Some((_, m)) => Some(m),
                            None => None,
                        }
                        &&& opt_view(p.opf_parent) == parent
                        &&& opt_view(p.nav_path) == match opt_view(p.nav_href) {
                            Some(x) => Some(resolved(parent, x)),
                            None => None,
                        }
                        &&& strings_view(p.spine_paths@) == resolved_all(parent, strings_view(p.spine_hrefs@))
                        &&& opt_view(p.ncx_path) == match opt_view(p.ncx_href) {
                            Some(x) => Some(resolved(parent, x)),
                            None => None,
                        }
                    },
                },
            },
    {
        let (book_info, cover_id, nav_href) = match EpubParser::parse_opf_metadata(opf_xml) {
            Ok(x) => x,
            Err(e) => {
                return Err(EpubError::Metadata(e));
            },
        };
        let opf_parent = parent_path(opf_path);
        let nav_path = resolve_opt(&opf_parent, &nav_href);
        let (spine_hrefs, ncx_href) = EpubParser::parse_opf_spine(opf_xml);
        let mut spine_paths: Vec<String> = Vec::new();
        let mut i: usize = 0;
        while i < spine_hrefs.len()
            invariant
                i <= spine_hrefs.len(),
                strings_view(spine_paths@) == resolved_all(
                    opt_view(opf_parent),
                    strings_view(spine_hrefs@),
                ).take(i as int),
            decreases spine_hrefs.len() - i,
        {
            let ghost before = strings_view(spine_paths@);
            spine_paths.push(resolve(&opf_parent, spine_hrefs[i].as_str()));
            assert(strings_view(spine_paths@) =~= before.push(spine_paths@.last()@));
            i += 1;
            assert(strings_view(spine_paths@) =~= resolved_all(opt_view(opf_parent), strings_view(spine_hrefs@)).take(i as int));
        }
        assert(resolved_all(opt_view(opf_parent), strings_view(spine_hrefs@)).take(spine_hrefs.len() as int)
            =~= resolved_all(opt_view(opf_parent), strings_view(spine_hrefs@)));
        let ncx_path = resolve_opt(&opf_parent, &ncx_href);
        let (cover_rel, cover_mime_type) = match EpubParser::find_cover_path(opf_xml, &cover_id) {
            Ok(x) => x,
            Err(e) => {
                return Err(EpubError::CoverPath(e));
            },
        };
        let cover_path = resolve_opt(&opf_parent, &cover_rel);
        Ok(
            EpubPlan {
                book_info,
                opf_parent,
                nav_href,
                nav_path,
                spine_hrefs,
                spine_paths,
                ncx_href,
                ncx_path,
                cover_path,
                cover_mime_type,
            },
        )
    }
}

/// The table of contents with each link taken relative to the package document's directory:
/// joined onto the directory `dir` of the document it came from, `\` read as `/`, normalized
/// (see `resolved`); kept as it is where that document has no directory.
pub open spec fn rebased(toc: Seq<(Seq<char>, Seq<char>)>, dir: Option<Seq<char>>) -> Seq<(Seq<char>, Seq<char>)> {
    match dir {
        Some(d) => toc.map_values(|e: (Seq<char>, Seq<char>)| (resolved(Some(d), e.0), e.1)),
        None => toc,
    }
}

/// The table of contents the book uses: the navigation document's, where the package names
/// one and it was read and has entries; else the NCX's, where the package names one and it was
/// read; else none.
pub open spec fn chosen_toc(
    nav_href: Option<Seq<char>>,
    nav_toc: Option<Seq<(Seq<char>, Seq<char>)>>,
    ncx_href: Option<Seq<char>>,
    ncx_toc: Option<Seq<(Seq<char>, Seq<char>)>>,
) -> Seq<(Seq<char>, Seq<char>)> {
    let from_nav = match (nav_href, nav_toc) {
        (Some(h), Some(t)) => rebased(t, path_parent(h)),
        _ => Seq::empty(),
    };
    if from_nav.len() > 0 {
        from_nav
    } else {
        match (ncx_href, ncx_toc) {
            (Some(h), Some(t)) => rebased(t, path_parent(h)),
            _ => Seq::empty(),
        }
    }
}

/// The view of an optional table of contents.
pub open spec fn opt_toc_view(t: Option<Vec<(String, String)>>) -> Option<Seq<(Seq<char>, Seq<char>)>> {
    match t {
        Some(v) => Some(toc_view(v@)),
        None => None,
    }
}

/// A table of contents taken relative to the package document (see `rebased`).
fn rebase(toc: Vec<(String, String)>, href: &String) -> (r: Vec<(String, String)>)
    ensures
        toc_view(r@) == rebased(toc_view(toc@), path_parent(href@)),
{
    let dir = parent_path(href.as_str());
    match dir {
        None => toc,
        Some(d) => {
            let ghost tv = toc_view(toc@);
            let mut out: Vec<(String, String)> = Vec::new();
            let mut i: usize = 0;
            while i < toc.len()
                invariant
                    i <= toc.len(),
                    tv == toc_view(toc@),
                    toc_view(out@) == rebased(tv, Some(d@)).take(i as int),
                decreases toc.len() - i,
            {
                let link = EpubParser::resolve_relative_path(Some(d.as_str()), toc[i].0.as_str());
                let ghost before = toc_view(out@);
                out.push((link, copy_string(&toc[i].1)));
                assert(toc_view(out@) =~= before.push((out@.last().0@, out@.last().1@)));
                i += 1;
                assert(toc_view(out@) =~= rebased(tv, Some(d@)).take(i as int));
            }
            assert(rebased(tv, Some(d@)).take(toc.len() as int) =~= rebased(tv, Some(d@)));
            out
        },
    }
}

impl EpubParser {
    /// The table of contents the book uses (see `chosen_toc`), from what was read of the
    /// navigation and NCX documents (`None` where a document was not read).
    pub fn choose_toc(
        nav_href: &Option<String>,
        nav_toc: Option<Vec<(String, String)>>,
        ncx_href: &Option<String>,
        ncx_toc: Option<Vec<(String, String)>>,
    ) -> (r: Vec<(String, String)>)
        ensures
            toc_view(r@) == chosen_toc(opt_view(*nav_href), opt_toc_view(nav_toc), opt_view(*ncx_href), opt_toc_view(ncx_toc)),
    {
        let from_nav = match (nav_href, nav_toc) {
            (Some(h), Some(t)) => rebase(t, h),
            _ => Vec::new(),
        };
        if from_nav.len() > 0 {
            return from_nav;
        }
        match (ncx_href, ncx_toc) {
            (Some(h), Some(t)) => rebase(t, h),
            _ => Vec::new(),
        }
    }
}

/// The spine documents with their sizes.
pub open spec fn spine_of(hrefs: Seq<String>, sizes: Seq<u64>) -> Seq<(Seq<char>, u64)> {
    Seq::new(hrefs.len(), |i: int| (hrefs[i]@, sizes[i]))
}

impl EpubParser {
    /// The chapters of an EPUB: none where the spine or the table of contents is empty; else
    /// each entry of `toc` whose document is in the spine, at the bytes of the spine before
    /// that document (see `map_toc_to_fractions`). `spine_sizes` holds the size of each spine
    /// document (zero where the archive has none).
    pub fn epub_chapters(spine_hrefs: &Vec<String>, spine_sizes: &Vec<u64>, toc: &Vec<(String, String)>) -> (r: Vec<ChapterFraction>)
        requires
            spine_sizes.len() == spine_hrefs.len(),
            spine_bytes(spine_of(spine_hrefs@, spine_sizes@), spine_hrefs.len() as int) <= u64::MAX,
        ensures
            ({
                let spine = spine_of(spine_hrefs@, spine_sizes@);
                let total = spine_bytes(spine, spine.len() as int);
                &&& (spine.len() == 0 || toc.len() == 0 || total == 0) ==> r.len() == 0
                &&& (spine.len() > 0 && toc.len() > 0 && total > 0) ==> fractions_view(r@) == toc_offsets(toc_view(toc@), spine)
                &&& forall|i: int| 0 <= i < r.len() ==> #[trigger] r@[i].total == total
            }),
    {
        if spine_hrefs.len() == 0 || toc.len() == 0 {
            return Vec::new();
        }
        let ghost spine = spine_of(spine_hrefs@, spine_sizes@);
        let mut map: Vec<(String, u64)> = Vec::new();
        let mut i: usize = 0;
        while i < spine_hrefs.len()
            invariant
                i <= spine_hrefs.len(),
                spine_sizes.len() == spine_hrefs.len(),
                spine == spine_of(spine_hrefs@, spine_sizes@),
                spine_view(map@) == spine.take(i as int),
            decreases spine_hrefs.len() - i,
        {
            let ghost before = spine_view(map@);
            map.push((copy_string(&spine_hrefs[i]), spine_sizes[i]));
            assert(spine_view(map@) =~= before.push((map@.last().0@, map@.last().1)));
            i += 1;
            assert(spine_view(map@) =~= spine.take(i as int));
        }
        assert(spine.take(spine_hrefs.len() as int) =~= spine);
        EpubParser::map_toc_to_fractions(toc, &map)
    }
}

/// Whether `a` and `b` have the same metadata: title, authors, description, publisher,
/// language, identifiers, subjects and series.
pub open spec fn same_metadata(a: BookInfo, b: BookInfo) -> bool {
    &&& a.title@ == b.title@
    &&& texts_of(a.authors@) == texts_of(b.authors@)
    &&& opt_view(a.description) == opt_view(b.description)
    &&& opt_view(a.publisher) == opt_view(b.publisher)
    &&& opt_view(a.language) == opt_view(b.language)
    &&& identifiers_of(a.identifiers@) == identifiers_of(b.identifiers@)
    &&& texts_of(a.subjects@) == texts_of(b.subjects@)
    &&& opt_view(a.series) == opt_view(b.series)
    &&& opt_view(a.series_number) == opt_view(b.series_number)
}

/// The bytes of an optional byte list.
pub open spec fn opt_bytes(b: Option<Vec<u8>>) -> Option<Seq<u8>> {
    match b {
        Some(v) => Some(v@),
        None => None,
    }
}

/// The table of contents read from the navigation document, where the package names one and
/// its text was read.
pub open spec fn nav_toc_input(href: Option<String>, xml: Option<String>) -> Option<Seq<(Seq<char>, Seq<char>)>> {
    match (href, xml) {
        (Some(_), Some(x)) => Some(nav_toc_of(x@)),
        _ => None,
    }
}

/// The table of contents read from the NCX document, where the package names one and its text
/// was read.
pub open spec fn ncx_toc_input(href: Option<String>, xml: Option<String>) -> Option<Seq<(Seq<char>, Seq<char>)>> {
    match (href, xml) {
        (Some(_), Some(x)) => Some(ncx_toc_of(x@)),
        _ => None,
    }
}

impl EpubParser {
    /// The book from what was read of its archive: the navigation document (`None` where the
    /// package names none or it could not be read), the sizes of the spine documents, the NCX
    /// document (likewise) and the cover image. The page count is the package's, else the
    /// navigation document's page list (see `parse_page_list`); the chapters come from the
    /// navigation document's table of contents (see `parse_nav_toc`), else the NCX's (see
    /// `parse_ncx_toc`), through `choose_toc` and `epub_chapters`.
    pub fn finish_epub(
        plan: EpubPlan,
        nav_xml: Option<String>,
        spine_sizes: &Vec<u64>,
        ncx_xml: Option<String>,
        cover_data: Option<Vec<u8>>,
    ) -> (r: BookInfo)
        requires
            spine_sizes.len() == plan.spine_hrefs.len(),
            spine_bytes(spine_of(plan.spine_hrefs@, spine_sizes@), plan.spine_hrefs.len() as int) <= u64::MAX,
        ensures
            same_metadata(r, plan.book_info),
            r.pages == match (plan.book_info.pages, plan.nav_href, nav_xml) {
                (Some(n), _, _) => Some(n),
                (None, Some(_), Some(x)) => page_list_of(x@),
                _ => None,
            },
            ({
                let toc = chosen_toc(
                    opt_view(plan.nav_href),
                    nav_toc_input(plan.nav_href, nav_xml),
                    opt_view(plan.ncx_href),
                    ncx_toc_input(plan.ncx_href, ncx_xml),
                );
                let spine = spine_of(plan.spine_hrefs@, spine_sizes@);
                let total = spine_bytes(spine, spine.len() as int);
                &&& (spine.len() == 0 || toc.len() == 0 || total == 0) ==> r.chapters.len() == 0
                &&& (spine.len() > 0 && toc.len() > 0 && total > 0) ==> fractions_view(r.chapters@)
                    == toc_offsets(toc, spine)
                &&& forall|i: int| 0 <= i < r.chapters.len() ==> #[trigger] r.chapters@[i].total == total
            }),
            opt_bytes(r.cover_data) == opt_bytes(cover_data),
            opt_view(r.cover_mime_type) == opt_view(plan.cover_mime_type),
    {
        let mut pages = plan.book_info.pages;
        if pages.is_none() && plan.nav_href.is_some() {
            if let Some(x) = &nav_xml {
                pages = EpubParser::parse_page_list(x.as_str());
            }
        }
        let nav_toc = match (&plan.nav_href, &nav_xml) {
            (Some(_), Some(x)) => Some(EpubParser::parse_nav_toc(x.as_str())),
            _ => None,
        };
        let ghost nav_spec = nav_toc_input(plan.nav_href, nav_xml);
        let ghost ncx_spec = ncx_toc_input(plan.ncx_href, ncx_xml);
        proof {
            if nav_toc is Some {
                assert(toc_view(nav_toc->0@) =~= pair_texts(nav_toc->0@));
            }
        }
        assert(opt_toc_view(nav_toc) == nav_spec);
        let from_nav = EpubParser::choose_toc(&plan.nav_href, nav_toc, &None, None);
        let toc = if from_nav.len() > 0 {
            from_nav
        } else {
            let ncx_toc = match (&plan.ncx_href, &ncx_xml) {
                (Some(_), Some(x)) => Some(EpubParser::parse_ncx_toc(x.as_str())),
                _ => None,
            };
            proof {
                if ncx_toc is Some {
                    assert(toc_view(ncx_toc->0@) =~= pair_texts(ncx_toc->0@));
                }
            }
            assert(opt_toc_view(ncx_toc) == ncx_spec);
            EpubParser::choose_toc(&None, None, &plan.ncx_href, ncx_toc)
        };
        assert(toc_view(toc@) == chosen_toc(opt_view(plan.nav_href), nav_spec, opt_view(plan.ncx_href), ncx_spec));
        let chapters = EpubParser::epub_chapters(&plan.spine_hrefs, spine_sizes, &toc);
        let cover_mime_type = plan.cover_mime_type;
        BookInfo { pages, chapters, cover_data, cover_mime_type, ..plan.book_info }
    }
}

} // verus!
