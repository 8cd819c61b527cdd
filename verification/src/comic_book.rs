//! A comic book from the member names of its CBZ archive: its page count (the images), its
//! cover (the first image by name), and its metadata (from `ComicInfo.xml`, else from its file
//! name).
use vstd::prelude::*;
use crate::comic_info::{comic_info_of, comic_reader_start, comic_run, ComicInfoError};
use crate::xml::document_items;
use crate::opf::BookInfo;
use crate::parsers::{comic_title, ends_with, ComicParser};
use crate::paths::{extension, file_name, spec_extension, spec_file_name};
use crate::text::{
    ascii_lower_char, chars_of, copy_string, less_than, lowercase, str_eq, string_from_chars, text_lt, to_lowercase,
};

verus! {

/// Whether an archive member is an image: its lower-cased name ends with `jpg`, `jpeg`, `png`,
/// `webp` or `gif`.
pub open spec fn is_image_name(name: Seq<char>) -> bool {
    let l = lowercase(name);
    ends_with(l, "jpg"@) || ends_with(l, "jpeg"@) || ends_with(l, "png"@) || ends_with(l, "webp"@)
        || ends_with(l, "gif"@)
}

/// How many of the names are images.
pub open spec fn image_count(names: Seq<String>) -> int
    decreases names.len(),
{
    if names.len() == 0 {
        0
    } else {
        image_count(names.drop_last()) + if is_image_name(names.last()@) {
            1int
        } else {
            0
        }
    }
}

/// Whether `c` is the cover among `names`: an image name that no image name sorts before.
pub open spec fn is_cover_name(names: Seq<String>, c: Seq<char>) -> bool {
    &&& exists|i: int| 0 <= i < names.len() && names[i]@ == c && is_image_name(c)
    &&& forall|i: int| 0 <= i < names.len() && is_image_name(#[trigger] names[i]@) ==> !text_lt(names[i]@, c)
}

/// Whether `s` ends with `suffix`.
fn ends_with_chars(s: &Vec<char>, suffix: &str) -> (r: bool)
    ensures
        r == ends_with(s@, suffix@),
{
    let t = chars_of(suffix);
    if s.len() < t.len() {
        return false;
    }
    let start = s.len() - t.len();
    let mut i: usize = 0;
    while i < t.len()
        invariant
            i <= t.len(),
            start + t.len() == s.len(),
            t@ == suffix@,
            forall|j: int| 0 <= j < i ==> s@[start + j] == t@[j],
        decreases t.len() - i,
    {
        if s[start + i] != t[i] {
            assert(s@.skip(start as int)[i as int] != t@[i as int]);
            return false;
        }
        i += 1;
    }
    assert(s@.skip(start as int) =~= t@);
    true
}

/// Whether an archive member is an image (see `is_image_name`).
pub fn is_image_file(name: &str) -> (r: bool)
    ensures
        r == is_image_name(name@),
{
    let l = chars_of(to_lowercase(name).as_str());
    ends_with_chars(&l, "jpg") || ends_with_chars(&l, "jpeg") || ends_with_chars(&l, "png")
        || ends_with_chars(&l, "webp") || ends_with_chars(&l, "gif")
}

impl ComicParser {
    /// How many archive members are images (see `image_count`).
    pub fn count_images(names: &Vec<String>) -> (r: usize)
        ensures
            r == image_count(names@),
    {
        let mut n: usize = 0;
        let mut i: usize = 0;
        while i < names.len()
            invariant
                i <= names.len(),
                n == image_count(names@.take(i as int)),
                n <= i,
            decreases names.len() - i,
        {
            assert(names@.take(i + 1).drop_last() =~= names@.take(i as int));
            if is_image_file(names[i].as_str()) {
                n += 1;
            }
            i += 1;
        }
        assert(names@.take(names.len() as int) =~= names@);
        n
    }

    /// The cover of a comic archive: its image member that sorts first by name (see
    /// `is_cover_name`); none where it has no image.
    pub fn cover_image_name(names: &Vec<String>) -> (r: Option<String>)
        ensures
            match r {
                Some(c) => is_cover_name(names@, c@),
                None => forall|i: int| 0 <= i < names.len() ==> !is_image_name(#[trigger] names@[i]@),
            },
    {
        let mut best: Option<usize> = None;
        let mut i: usize = 0;
        while i < names.len()
            invariant
                i <= names.len(),
                match best {
                    Some(b) => b < i && is_image_name(names@[b as int]@) && forall|j: int|
                        0 <= j < i && is_image_name(#[trigger] names@[j]@) ==> !text_lt(names@[j]@, names@[b as int]@),
                    None => forall|j: int| 0 <= j < i ==> !is_image_name(#[trigger] names@[j]@),
                },
            decreases names.len() - i,
        {
            if is_image_file(names[i].as_str()) {
                match best {
                    Some(b) => {
                        if less_than(names[i].as_str(), names[b].as_str()) {
                            proof {
                                assert forall|j: int| 0 <= j <= i && is_image_name(#[trigger] names@[j]@) implies !text_lt(
                                    names@[j]@,
                                    names@[i as int]@,
                                ) by {
                                    if j < i {
                                        if text_lt(names@[j]@, names@[i as int]@) {
                                            crate::text::lemma_text_lt_transitive(
                                                names@[j]@,
                                                names@[i as int]@,
                                                names@[b as int]@,
                                            );
                                        }
                                    } else {
                                        crate::text::lemma_text_lt_total(names@[j]@, names@[j]@);
                                    }
                                }
                            }
                            best = Some(i);
                        }
                    },
                    None => {
                        proof {
                            crate::text::lemma_text_lt_total(names@[i as int]@, names@[i as int]@);
                        }
                        best = Some(i);
                    },
                }
            }
            i += 1;
        }
        match best {
            Some(b) => Some(copy_string(&names[b])),
            None => None,
        }
    }

    /// A book known only by its file: its title from the file name (see `comic_title`), and
    /// nothing else.
    pub fn book_info_from_filename(path: &str) -> (r: BookInfo)
        ensures
            r.title@ == comic_title(path@),
            r.authors.len() == 0 && r.description is None && r.language is None && r.publisher is None,
            r.identifiers.len() == 0 && r.subjects.len() == 0 && r.series is None && r.series_number is None,
            r.pages is None && r.chapters.len() == 0 && r.cover_data is None && r.cover_mime_type is None,
    {
        BookInfo {
            title: ComicParser::title_from_filename(path),
            authors: Vec::new(),
            description: None,
            language: None,
            publisher: None,
            identifiers: Vec::new(),
            subjects: Vec::new(),
            series: None,
            series_number: None,
            pages: None,
            chapters: Vec::new(),
            cover_data: None,
            cover_mime_type: None,
        }
    }

    /// The book of a CBZ archive at `path` with members `names`: its metadata from
    /// `ComicInfo.xml` where the archive has it (`comic_info_xml`, see `parse_comic_info_xml`),
    /// else from its file name; its page count the number of images (truncated to `u32`) where
    /// there are any.
    pub fn cbz_book_info(names: &Vec<String>, comic_info_xml: Option<&str>, path: &str) -> (r: Result<BookInfo, ComicInfoError>)
        ensures
            r matches Ok(b) && {
                &&& image_count(names@) > 0 ==> b.pages == Some(image_count(names@) as u32)
                &&& image_count(names@) == 0 ==> b.pages is None
                &&& match comic_info_xml {
                    Some(x) => comic_info_of(
                        BookInfo { pages: None, ..b },
                        comic_run(document_items(x@), 0, comic_reader_start()),
                    ),
                    None => {
                        &&& b.title@ == comic_title(path@)
                        &&& b.authors.len() == 0 && b.description is None && b.language is None
                        &&& b.publisher is None && b.identifiers.len() == 0 && b.subjects.len() == 0
                        &&& b.series is None && b.series_number is None && b.chapters.len() == 0
                        &&& b.cover_data is None && b.cover_mime_type is None
                    },
                }
            },
    {
        let mut info = match comic_info_xml {
            Some(x) => match ComicParser::parse_comic_info_xml(x) {
                Ok(b) => b,
                Err(e) => {
                    return Err(e);
                },
            },
            None => ComicParser::book_info_from_filename(path),
        };
        let count = ComicParser::count_images(names);
        if count > 0 {
            info.pages = Some(count as u32);
        }
        Ok(info)
    }
}

impl ComicParser {
    /// Whether a comic file is a CBR (RAR) archive: its extension, lower-cased, is `cbr`.
    pub fn is_cbr(path: &str) -> (r: bool)
        ensures
            r == (spec_extension(path@) matches Some(e) && lowercase(e) == "cbr"@),
    {
        match extension(path) {
            Some(e) => str_eq(to_lowercase(e.as_str()).as_str(), "cbr"),
            None => false,
        }
    }
}

/// Whether two texts are equal when ASCII letters are compared without case
/// (`str::eq_ignore_ascii_case`).
pub open spec fn eq_ignore_ascii_case(a: Seq<char>, b: Seq<char>) -> bool {
    &&& a.len() == b.len()
    &&& forall|i: int| 0 <= i < a.len() ==> ascii_lower_char(#[trigger] a[i]) == ascii_lower_char(b[i])
}

/// `eq_ignore_ascii_case` on texts.
fn same_ignoring_ascii_case(a: &str, b: &str) -> (r: bool)
    ensures
        r == eq_ignore_ascii_case(a@, b@),
{
    let x = chars_of(a);
    let y = chars_of(b);
    if x.len() != y.len() {
        return false;
    }
    let mut i: usize = 0;
    while i < x.len()
        invariant
            i <= x.len(),
            x.len() == y.len(),
            x@ == a@,
            y@ == b@,
            forall|j: int| 0 <= j < i ==> ascii_lower_char(#[trigger] x@[j]) == ascii_lower_char(y@[j]),
        decreases x.len() - i,
    {
        let c = x[i];
        let d = y[i];
        let lc: u32 = if 'A' <= c && c <= 'Z' {
            (c as u32) + 32
        } else {
            c as u32
        };
        let ld: u32 = if 'A' <= d && d <= 'Z' {
            (d as u32) + 32
        } else {
            d as u32
        };
        assert(ascii_lower_char(c) as u32 == lc);
        assert(ascii_lower_char(d) as u32 == ld);
        if lc != ld {
            return false;
        }
        i += 1;
    }
    true
}

/// The base name of an archive member (`Path::file_name`), or the whole name where it has none.
pub open spec fn member_base_name(name: Seq<char>) -> Seq<char> {
    match spec_file_name(name) {
        Some(b) => b,
        None => name,
    }
}

/// Whether a RAR member is the archive's `ComicInfo.xml` (by base name, ASCII case ignored).
pub open spec fn is_comic_info_member(name: Seq<char>) -> bool {
    eq_ignore_ascii_case(member_base_name(name), "ComicInfo.xml"@)
}

/// Whether a RAR member is an image: its extension, lower-cased, is `jpg`, `jpeg`, `png`, `webp`
/// or `gif`.
pub open spec fn is_cbr_image(name: Seq<char>) -> bool {
    match spec_extension(name) {
        Some(e) => {
            let l = lowercase(e);
            l == "jpg"@ || l == "jpeg"@ || l == "png"@ || l == "webp"@ || l == "gif"@
        },
        None => false,
    }
}

/// The image members of a RAR archive, in archive order (`ComicInfo.xml` is passed over).
pub open spec fn cbr_images(names: Seq<String>) -> Seq<Seq<char>>
    decreases names.len(),
{
    if names.len() == 0 {
        Seq::empty()
    } else {
        let n = names.last()@;
        if !is_comic_info_member(n) && is_cbr_image(n) {
            cbr_images(names.drop_last()).push(n)
        } else {
            cbr_images(names.drop_last())
        }
    }
}

/// The index of the last `ComicInfo.xml` member, whose text the archive's metadata is read from.
pub open spec fn last_comic_info(names: Seq<String>) -> Option<usize>
    decreases names.len(),
{
    if names.len() == 0 {
        None
    } else if is_comic_info_member(names.last()@) {
        Some((names.len() - 1) as usize)
    } else {
        last_comic_info(names.drop_last())
    }
}

/// What a RAR archive's member names say: which member is `ComicInfo.xml`, and the images.
pub struct CbrMembers {
    pub comic_info: Option<usize>,
    pub images: Vec<String>,
}

/// The base name of a member name (see `member_base_name`).
fn base_name(name: &str) -> (r: String)
    ensures
        r@ == member_base_name(name@),
{
    match file_name(name) {
        Some(b) => b,
        None => string_from_chars(chars_of(name).as_slice()),
    }
}

/// Whether a member name is an image (see `is_cbr_image`).
fn is_cbr_image_name(name: &str) -> (r: bool)
    ensures
        r == is_cbr_image(name@),
{
    match extension(name) {
        Some(e) => {
            let l = to_lowercase(e.as_str());
            str_eq(l.as_str(), "jpg") || str_eq(l.as_str(), "jpeg") || str_eq(l.as_str(), "png")
                || str_eq(l.as_str(), "webp") || str_eq(l.as_str(), "gif")
        },
        None => false,
    }
}

impl ComicParser {
    /// The `ComicInfo.xml` member and the images of a RAR archive, from its member names in
    /// archive order (see `last_comic_info` and `cbr_images`).
    pub fn cbr_members(names: &Vec<String>) -> (r: CbrMembers)
        ensures
            r.comic_info == last_comic_info(names@),
            r.comic_info matches Some(k) ==> k < names.len(),
            r.images@.map_values(|s: String| s@) == cbr_images(names@),
    {
        let mut comic_info: Option<usize> = None;
        let mut images: Vec<String> = Vec::new();
        let mut i: usize = 0;
        while i < names.len()
            invariant
                i <= names.len(),
                comic_info == last_comic_info(names@.take(i as int)),
                comic_info matches Some(k) ==> k < i,
                images@.map_values(|s: String| s@) == cbr_images(names@.take(i as int)),
            decreases names.len() - i,
        {
            let ghost t = names@.take(i + 1);
            assert(t.drop_last() =~= names@.take(i as int));
            assert(t.last() == names@[i as int]);
            let base = base_name(names[i].as_str());
            if same_ignoring_ascii_case(base.as_str(), "ComicInfo.xml") {
                comic_info = Some(i);
            } else if is_cbr_image_name(names[i].as_str()) {
                let ghost before = images@.map_values(|s: String| s@);
                images.push(copy_string(&names[i]));
                assert(images@.map_values(|s: String| s@) =~= before.push(names@[i as int]@));
            }
            i += 1;
        }
        assert(names@.take(names.len() as int) =~= names@);
        CbrMembers { comic_info, images }
    }

    /// The book of a RAR comic archive at `path` with members `names`: its metadata from the
    /// text of its `ComicInfo.xml` where it was read (`comic_info_xml`, see
    /// `parse_comic_info_xml`), else from its file name; its page count the number of images
    /// (truncated to `u32`) where there are any.
    pub fn cbr_book_info(names: &Vec<String>, comic_info_xml: Option<&str>, path: &str) -> (r: BookInfo)
        ensures
            cbr_images(names@).len() > 0 ==> r.pages == Some(cbr_images(names@).len() as u32),
            cbr_images(names@).len() == 0 ==> r.pages is None,
            match comic_info_xml {
                Some(x) => comic_info_of(
                    BookInfo { pages: None, ..r },
                    comic_run(document_items(x@), 0, comic_reader_start()),
                ),
                None => {
                    &&& r.title@ == comic_title(path@)
                    &&& r.authors.len() == 0 && r.description is None && r.language is None
                    &&& r.publisher is None && r.identifiers.len() == 0 && r.subjects.len() == 0
                    &&& r.series is None && r.series_number is None && r.chapters.len() == 0
                    &&& r.cover_data is None && r.cover_mime_type is None
                },
            },
    {
        let mut info = match comic_info_xml {
            Some(x) => match ComicParser::parse_comic_info_xml(x) {
                Ok(b) => b,
                Err(_) => ComicParser::book_info_from_filename(path),
            },
            None => ComicParser::book_info_from_filename(path),
        };
        let members = ComicParser::cbr_members(names);
        if members.images.len() > 0 {
            info.pages = Some(members.images.len() as u32);
        }
        info
    }
}

/// The image extensions: `jpg`, `jpeg`, `png`, `webp`, `gif`.
pub open spec fn image_extensions() -> Seq<Seq<char>> {
    seq![
        seq!['j', 'p', 'g'],
        seq!['j', 'p', 'e', 'g'],
        seq!['p', 'n', 'g'],
        seq!['w', 'e', 'b', 'p'],
        seq!['g', 'i', 'f'],
    ]
}

/// A member is an image exactly when its lower-cased name ends with one of the image
/// extensions.
pub proof fn lemma_image_names_by_extension(name: Seq<char>)
    ensures
        is_image_name(name) <==> exists|k: int| 0 <= k < 5 && ends_with(lowercase(name), #[trigger] image_extensions()[k]),
{
    reveal_strlit("jpg");
    reveal_strlit("jpeg");
    reveal_strlit("png");
    reveal_strlit("webp");
    reveal_strlit("gif");
    let x = image_extensions();
    assert("jpg"@ =~= x[0]);
    assert("jpeg"@ =~= x[1]);
    assert("png"@ =~= x[2]);
    assert("webp"@ =~= x[3]);
    assert("gif"@ =~= x[4]);
    let l = lowercase(name);
    if is_image_name(name) {
        if ends_with(l, x[0]) {
        } else if ends_with(l, x[1]) {
        } else if ends_with(l, x[2]) {
        } else if ends_with(l, x[3]) {
        } else {
            assert(ends_with(l, x[4]));
        }
    }
}

} // verus!
