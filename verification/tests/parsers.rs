use koshelf::parsers::{ComicParser, EpubParser, Fb2Parser};

#[test]
fn strip_xml_tags_basic() {
    assert_eq!(Fb2Parser::strip_xml_tags("<p>Hello</p>"), "Hello");
    assert_eq!(Fb2Parser::strip_xml_tags("<p>Part <strong>One</strong></p>"), "Part One");
    assert_eq!(Fb2Parser::strip_xml_tags("<p>  spaced  out  </p>"), "spaced out");
}

#[test]
fn strip_xml_tags_joins_lines() {
    assert_eq!(Fb2Parser::strip_xml_tags("<p>a</p>\n<p>b</p>"), "a b");
    assert_eq!(Fb2Parser::strip_xml_tags(""), "");
}

#[test]
fn normalize_zip_path_applies_parent_steps() {
    assert_eq!(EpubParser::normalize_zip_path("OEBPS/../images/cover.jpg"), "images/cover.jpg");
    assert_eq!(EpubParser::normalize_zip_path("/a/./b//c"), "a/b/c");
    assert_eq!(EpubParser::normalize_zip_path("../../x"), "x");
    assert_eq!(EpubParser::normalize_zip_path(""), "");
}

#[test]
fn resolve_relative_path_joins_onto_package_dir() {
    assert_eq!(EpubParser::resolve_relative_path(Some("OEBPS"), "text/ch1.xhtml"), "OEBPS/text/ch1.xhtml");
    assert_eq!(EpubParser::resolve_relative_path(Some("OEBPS/text"), "../images/a.png"), "OEBPS/images/a.png");
    assert_eq!(EpubParser::resolve_relative_path(None, "a\\b.xhtml"), "a/b.xhtml");
}

#[test]
fn mime_types_by_extension() {
    assert_eq!(ComicParser::mime_type_from_extension("cover.JPG"), Some("image/jpeg".to_string()));
    assert_eq!(ComicParser::mime_type_from_extension("a.jpeg"), Some("image/jpeg".to_string()));
    assert_eq!(ComicParser::mime_type_from_extension("a.png"), Some("image/png".to_string()));
    assert_eq!(ComicParser::mime_type_from_extension("a.webp"), Some("image/webp".to_string()));
    assert_eq!(ComicParser::mime_type_from_extension("a.gif"), Some("image/gif".to_string()));
    assert_eq!(ComicParser::mime_type_from_extension("a.txt"), None);
}

#[test]
fn comic_title_from_file_name() {
    assert_eq!(ComicParser::title_from_filename("/comics/Issue 1.cbz"), "Issue 1");
    assert_eq!(ComicParser::title_from_filename("/comics/.hidden"), ".hidden");
    assert_eq!(ComicParser::title_from_filename("/"), "Unknown Comic");
}

#[test]
fn parsers_are_made() {
    let _ = EpubParser::new();
    let _ = ComicParser::new();
    let _ = Fb2Parser::new();
}

#[test]
fn toc_entries_map_to_byte_fractions() {
    let toc = vec![
        ("intro.xhtml".to_string(), "Intro".to_string()),
        ("ch1.xhtml#start".to_string(), "Chapter 1".to_string()),
        ("missing.xhtml".to_string(), "Missing".to_string()),
        ("ch2.xhtml".to_string(), "Chapter 2".to_string()),
    ];
    let spine = vec![
        ("intro.xhtml".to_string(), 100u64),
        ("ch1.xhtml".to_string(), 300u64),
        ("ch2.xhtml".to_string(), 600u64),
    ];
    let chapters = EpubParser::map_toc_to_fractions(&toc, &spine);
    let got: Vec<(&str, u64, u64)> =
        chapters.iter().map(|c| (c.title.as_str(), c.offset, c.total)).collect();
    assert_eq!(got, vec![("Intro", 0, 1000), ("Chapter 1", 100, 1000), ("Chapter 2", 400, 1000)]);
}

#[test]
fn toc_of_an_empty_spine_has_no_chapters() {
    let toc = vec![("a.xhtml".to_string(), "A".to_string())];
    let spine = vec![("a.xhtml".to_string(), 0u64)];
    assert!(EpubParser::map_toc_to_fractions(&toc, &spine).is_empty());
}

#[test]
fn toc_link_to_a_repeated_document_uses_its_last_entry() {
    let toc = vec![("a.xhtml".to_string(), "A".to_string())];
    let spine = vec![("a.xhtml".to_string(), 10u64), ("b.xhtml".to_string(), 5u64), ("a.xhtml".to_string(), 1u64)];
    let chapters = EpubParser::map_toc_to_fractions(&toc, &spine);
    assert_eq!(chapters.len(), 1);
    assert_eq!(chapters[0].offset, 15);
    assert_eq!(chapters[0].total, 16);
}

#[test]
fn normalized_zip_paths_never_climb() {
    assert_eq!(EpubParser::normalize_zip_path("../../etc/passwd"), "etc/passwd");
    assert_eq!(EpubParser::normalize_zip_path("/OEBPS/./text/../img.png"), "OEBPS/img.png");
    assert_eq!(EpubParser::normalize_zip_path("a//b/"), "a/b");
    assert_eq!(EpubParser::normalize_zip_path(".."), "");
}

#[test]
fn normalizing_twice_changes_nothing() {
    for p in ["OEBPS/../images/cover.jpg", "/a/./b//c", "../../x", "", "a/b/../../..", "./x/./y/"] {
        let once = EpubParser::normalize_zip_path(p);
        assert_eq!(EpubParser::normalize_zip_path(&once), once);
    }
}
