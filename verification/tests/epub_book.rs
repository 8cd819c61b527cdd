use koshelf::epub_book::{parent_path, EpubError};
use koshelf::parsers::EpubParser;

#[test]
fn parent_of_paths() {
    assert_eq!(parent_path("OEBPS/content.opf"), Some("OEBPS".to_string()));
    assert_eq!(parent_path("a/b/c.xhtml"), Some("a/b".to_string()));
    assert_eq!(parent_path("content.opf"), Some(String::new()));
    assert_eq!(parent_path("/nav.xhtml"), Some("/".to_string()));
    assert_eq!(parent_path("a/b/"), Some("a".to_string()));
    assert_eq!(parent_path(""), None);
    assert_eq!(parent_path("/"), None);
}

#[test]
fn package_path_is_normalized() {
    let xml = r#"<container><rootfiles><rootfile full-path="./OEBPS//content.opf"/></rootfiles></container>"#;
    assert_eq!(EpubParser::opf_path_of(xml).unwrap(), "OEBPS/content.opf");
    assert!(EpubParser::opf_path_of("<container/>").is_err());
}

const OPF: &str = r#"<?xml version="1.0" encoding="UTF-8"?>
<package xmlns="http://www.idpf.org/2007/opf" xmlns:dc="http://purl.org/dc/elements/1.1/" version="3.0">
  <metadata><dc:title>Book</dc:title><meta name="cover" content="img-cover"/></metadata>
  <manifest>
    <item id="ncx" href="toc.ncx" media-type="application/x-dtbncx+xml"/>
    <item id="c1" href="text/ch1.xhtml" media-type="application/xhtml+xml"/>
    <item id="c2" href="text/ch2.xhtml" media-type="application/xhtml+xml"/>
    <item id="img-cover" href="images/cover.jpg" media-type="image/jpeg"/>
    <item id="nav" href="text/nav.xhtml" media-type="application/xhtml+xml" properties="nav"/>
  </manifest>
  <spine toc="ncx"><itemref idref="c1"/><itemref idref="c2"/></spine>
</package>"#;

const NAV: &str = r#"<html xmlns:epub="http://www.idpf.org/2007/ops"><body>
  <nav epub:type="toc"><ol>
    <li><a href="ch1.xhtml">One</a></li>
    <li><a href="ch2.xhtml#x">Two</a></li>
  </ol></nav>
  <nav epub:type="page-list"><ol><li><a href="ch1.xhtml#p1">1</a></li><li><a href="ch2.xhtml#p2">2</a></li></ol></nav>
</body></html>"#;

const NCX: &str = r#"<ncx><navMap>
  <navPoint id="p1"><navLabel><text>First</text></navLabel><content src="text/ch1.xhtml"/></navPoint>
</navMap></ncx>"#;

#[test]
fn plan_names_the_other_documents() {
    let plan = EpubParser::plan_epub("OEBPS/content.opf", OPF).ok().unwrap();
    assert_eq!(plan.book_info.title, "Book");
    assert_eq!(plan.opf_parent, Some("OEBPS".to_string()));
    assert_eq!(plan.nav_href, Some("text/nav.xhtml".to_string()));
    assert_eq!(plan.nav_path, Some("OEBPS/text/nav.xhtml".to_string()));
    assert_eq!(plan.spine_paths, vec!["OEBPS/text/ch1.xhtml".to_string(), "OEBPS/text/ch2.xhtml".to_string()]);
    assert_eq!(plan.ncx_path, Some("OEBPS/toc.ncx".to_string()));
    assert_eq!(plan.cover_path, Some("OEBPS/images/cover.jpg".to_string()));
    assert_eq!(plan.cover_mime_type, Some("image/jpeg".to_string()));
    assert!(matches!(EpubParser::plan_epub("content.opf", "<package></wrong>"), Err(EpubError::Metadata(_))));
}

#[test]
fn book_from_nav_document() {
    let plan = EpubParser::plan_epub("OEBPS/content.opf", OPF).ok().unwrap();
    let book = EpubParser::finish_epub(plan, Some(NAV.to_string()), &vec![100, 300], Some(NCX.to_string()), Some(vec![1, 2, 3]));
    assert_eq!(book.title, "Book");
    assert_eq!(book.pages, Some(2));
    let chapters: Vec<(&str, u64, u64)> = book.chapters.iter().map(|c| (c.title.as_str(), c.offset, c.total)).collect();
    assert_eq!(chapters, vec![("One", 0, 400), ("Two", 100, 400)]);
    assert_eq!(book.cover_data, Some(vec![1, 2, 3]));
    assert_eq!(book.cover_mime_type, Some("image/jpeg".to_string()));
}

#[test]
fn book_falls_back_to_ncx() {
    let plan = EpubParser::plan_epub("OEBPS/content.opf", OPF).ok().unwrap();
    let book = EpubParser::finish_epub(plan, None, &vec![100, 300], Some(NCX.to_string()), None);
    assert_eq!(book.pages, None);
    let chapters: Vec<(&str, u64)> = book.chapters.iter().map(|c| (c.title.as_str(), c.offset)).collect();
    assert_eq!(chapters, vec![("First", 0)]);
    assert_eq!(book.cover_data, None);
}

#[test]
fn toc_choice_and_rebasing() {
    let nav = vec![("../a.xhtml#t".to_string(), "A".to_string())];
    let ncx = vec![("b.xhtml".to_string(), "B".to_string())];
    let toc = EpubParser::choose_toc(&Some("sub/nav.xhtml".to_string()), Some(nav), &Some("x/toc.ncx".to_string()), Some(ncx.clone()));
    assert_eq!(toc, vec![("a.xhtml#t".to_string(), "A".to_string())]);
    let toc = EpubParser::choose_toc(&Some("nav.xhtml".to_string()), Some(Vec::new()), &Some("x/toc.ncx".to_string()), Some(ncx.clone()));
    assert_eq!(toc, vec![("x/b.xhtml".to_string(), "B".to_string())]);
    let toc = EpubParser::choose_toc(&None, Some(vec![("a".to_string(), "A".to_string())]), &None, Some(ncx));
    assert!(toc.is_empty());
}

#[test]
fn chapters_need_spine_and_toc() {
    let toc = vec![("a.xhtml".to_string(), "A".to_string())];
    assert!(EpubParser::epub_chapters(&Vec::new(), &Vec::new(), &toc).is_empty());
    assert!(EpubParser::epub_chapters(&vec!["a.xhtml".to_string()], &vec![10], &Vec::new()).is_empty());
    assert!(EpubParser::epub_chapters(&vec!["a.xhtml".to_string()], &vec![0], &toc).is_empty());
    let c = EpubParser::epub_chapters(&vec!["a.xhtml".to_string()], &vec![10], &toc);
    assert_eq!((c[0].offset, c[0].total), (0, 10));
}
