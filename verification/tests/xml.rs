use koshelf::parsers::EpubParser;
use koshelf::xml::{CoverPathError, OpfPathError};

#[test]
fn container_names_the_package_document() {
    let xml = r#"<?xml version="1.0"?>
<container version="1.0" xmlns="urn:oasis:names:tc:opendocument:xmlns:container">
  <rootfiles>
    <rootfile full-path="OEBPS/content.opf" media-type="application/oebps-package+xml"/>
  </rootfiles>
</container>"#;
    assert_eq!(EpubParser::find_opf_path(xml).ok().as_deref(), Some("OEBPS/content.opf"));
}

#[test]
fn container_without_rootfile_or_broken() {
    assert!(matches!(EpubParser::find_opf_path("<container><rootfiles/></container>"), Err(OpfPathError::Missing)));
    assert!(matches!(EpubParser::find_opf_path("<container><rootfile full-path='a'></x></container>"), Ok(_)));
    assert!(matches!(EpubParser::find_opf_path("<a></b>"), Err(OpfPathError::Parse)));
    assert!(matches!(
        EpubParser::find_opf_path("<container><rootfile full-path=\"&bogus;\"/></container>"),
        Err(OpfPathError::BadAttribute)
    ));
}

const OPF: &str = r#"<?xml version="1.0" encoding="UTF-8"?>
<package xmlns="http://www.idpf.org/2007/opf" version="3.0">
  <metadata><meta name="cover" content="img-cover"/></metadata>
  <manifest>
    <item id="ncx" href="toc.ncx" media-type="application/x-dtbncx+xml"/>
    <item id="c1" href="text/ch1.xhtml" media-type="application/xhtml+xml"/>
    <item id="c2" href="text/ch2.xhtml" media-type="application/xhtml+xml"/>
    <item id="img-cover" href="images/cover.jpg" media-type="image/jpeg"/>
    <item id="nav" href="nav.xhtml" media-type="application/xhtml+xml" properties="nav"/>
  </manifest>
  <spine toc="ncx">
    <itemref idref="c1"/>
    <itemref idref="missing"/>
    <itemref idref="c2"/>
  </spine>
</package>"#;

#[test]
fn spine_lists_documents_in_reading_order() {
    let (hrefs, ncx) = EpubParser::parse_opf_spine(OPF);
    assert_eq!(hrefs, vec!["text/ch1.xhtml".to_string(), "text/ch2.xhtml".to_string()]);
    assert_eq!(ncx.as_deref(), Some("toc.ncx"));
}

#[test]
fn cover_by_metadata_id_or_properties() {
    let (href, media) = EpubParser::find_cover_path(OPF, &Some("img-cover".to_string())).ok().unwrap();
    assert_eq!(href.as_deref(), Some("images/cover.jpg"));
    assert_eq!(media.as_deref(), Some("image/jpeg"));
    let none = EpubParser::find_cover_path(OPF, &None).ok().unwrap();
    assert_eq!(none, (None, None));
    let epub3 = r#"<package><manifest>
        <item id="a" href="a.png" media-type="image/png"/>
        <item id="b" href="b.png" media-type="image/png" properties="cover-image"/>
    </manifest></package>"#;
    let (href, _) = EpubParser::find_cover_path(epub3, &None).ok().unwrap();
    assert_eq!(href.as_deref(), Some("b.png"));
    assert!(matches!(EpubParser::find_cover_path("<p></q>", &None), Err(CoverPathError::Parse)));
}

#[test]
fn page_list_counts_its_anchors() {
    let nav = r#"<html xmlns:epub="http://www.idpf.org/2007/ops"><body>
  <nav epub:type="toc"><ol><li><a href="ch1.xhtml">One</a></li></ol></nav>
  <nav epub:type="page-list"><ol>
    <li><a href="ch1.xhtml#p1">1</a></li>
    <li><a href="ch1.xhtml#p2">2</a></li>
    <li><a href="ch2.xhtml#p3">3</a></li>
  </ol></nav>
  <a href="x">outside</a>
</body></html>"#;
    assert_eq!(EpubParser::parse_page_list(nav), Some(3));
    assert_eq!(EpubParser::parse_page_list("<html><nav epub:type=\"toc\"><a href='a'>x</a></nav></html>"), None);
}

#[test]
fn nav_toc_lists_anchors_of_the_toc_nav() {
    let nav = r#"<html xmlns:epub="http://www.idpf.org/2007/ops"><body>
  <nav epub:type="toc"><h1>Contents</h1>
    <ol>
      <li><a href="ch1.xhtml">  Chapter &amp; One </a>
        <ol><li><a href="ch1.xhtml#s1">Section <b>1</b></a></li></ol>
      </li>
      <li><a href="ch2.xhtml">   </a></li>
      <li><a>No link</a></li>
    </ol>
  </nav>
  <nav epub:type="landmarks"><ol><li><a href="cover.xhtml">Cover</a></li></ol></nav>
</body></html>"#;
    let toc = EpubParser::parse_nav_toc(nav);
    let got: Vec<(&str, &str)> = toc.iter().map(|(h, t)| (h.as_str(), t.as_str())).collect();
    assert_eq!(got, vec![("ch1.xhtml", "Chapter & One"), ("ch1.xhtml#s1", "Section <b>1</b>")]);
}

#[test]
fn ncx_toc_lists_nav_points() {
    let ncx = r#"<?xml version="1.0"?>
<ncx xmlns="http://www.daisy.org/z3986/2005/ncx/">
  <navMap>
    <navPoint id="p1"><navLabel><text> Part I </text></navLabel><content src="part1.xhtml"/>
      <navPoint id="p2"><navLabel><text>Chapter 1</text></navLabel><content src="ch1.xhtml"/></navPoint>
    </navPoint>
    <navPoint id="p3"><navLabel><text></text></navLabel><content src="empty.xhtml"/></navPoint>
  </navMap>
</ncx>"#;
    let toc = EpubParser::parse_ncx_toc(ncx);
    let got: Vec<(&str, &str)> = toc.iter().map(|(h, t)| (h.as_str(), t.as_str())).collect();
    // nested nav points end first; the outer one's title was reset by the inner one
    assert_eq!(got, vec![("ch1.xhtml", "Chapter 1")]);
}

#[test]
fn malformed_toc_documents_give_what_was_read() {
    assert!(EpubParser::parse_nav_toc("<nav epub:type=\"toc\"><ol><li><a href=\"a\">A</a></li></ol></wrong>").len() <= 1);
    assert!(EpubParser::parse_ncx_toc("").is_empty());
}

const FULL_OPF: &str = r##"<?xml version="1.0" encoding="UTF-8"?>
<package xmlns="http://www.idpf.org/2007/opf" xmlns:dc="http://purl.org/dc/elements/1.1/" version="3.0">
  <metadata xmlns:opf="http://www.idpf.org/2007/opf">
    <dc:title>The &amp; Book</dc:title>
    <dc:creator>Ann Author</dc:creator>
    <dc:creator>Bob Writer</dc:creator>
    <dc:description>&lt;p&gt;A &lt;b&gt;fine&lt;/b&gt; story&lt;/p&gt;&lt;script&gt;x&lt;/script&gt;</dc:description>
    <dc:publisher>Press</dc:publisher>
    <dc:language>en</dc:language>
    <dc:identifier opf:scheme="ISBN">978-3-16</dc:identifier>
    <dc:identifier>urn:uuid:1234</dc:identifier>
    <dc:identifier>plain</dc:identifier>
    <dc:subject>Fiction</dc:subject>
    <dc:subject></dc:subject>
    <meta name="cover" content="cover-img"/>
    <meta name="calibre:series" content="Calibre Saga"/>
    <meta name="calibre:series_index" content="2"/>
    <meta property="belongs-to-collection" id="c01">Epub Saga</meta>
    <meta refines="#c01" property="group-position">3</meta>
    <meta property="schema:numberOfPages"> 321 </meta>
  </metadata>
  <manifest>
    <item id="nav" href="nav.xhtml" media-type="application/xhtml+xml" properties="nav"/>
  </manifest>
</package>"##;

#[test]
fn opf_metadata_fields() {
    let (info, cover_id, nav) = koshelf::parsers::EpubParser::parse_opf_metadata(FULL_OPF).ok().unwrap();
    assert_eq!(info.title, "The & Book");
    assert_eq!(info.authors, vec!["Ann Author".to_string(), "Bob Writer".to_string()]);
    assert_eq!(info.description.as_deref(), Some("<p>A <b>fine</b> story</p>"));
    assert_eq!(info.publisher.as_deref(), Some("Press"));
    assert_eq!(info.language.as_deref(), Some("en"));
    let ids: Vec<(&str, &str)> = info.identifiers.iter().map(|i| (i.scheme.as_str(), i.value.as_str())).collect();
    assert_eq!(ids, vec![("ISBN", "978-3-16"), ("urn", "uuid:1234"), ("unknown", "plain")]);
    assert_eq!(info.subjects, vec!["Fiction".to_string()]);
    assert_eq!(info.series.as_deref(), Some("Epub Saga"));
    assert_eq!(info.series_number.as_deref(), Some("3"));
    assert_eq!(info.pages, Some(321));
    assert_eq!(cover_id.as_deref(), Some("cover-img"));
    assert_eq!(nav.as_deref(), Some("nav.xhtml"));
    assert!(info.chapters.is_empty());
    assert!(info.cover_data.is_none());
}

#[test]
fn opf_metadata_defaults_and_calibre_series() {
    let opf = r#"<package><metadata>
        <meta name="calibre:series" content="Saga"/>
        <meta name="calibre:series_index" content="1.5"/>
      </metadata></package>"#;
    let (info, cover_id, nav) = koshelf::parsers::EpubParser::parse_opf_metadata(opf).ok().unwrap();
    assert_eq!(info.title, "Unknown Title");
    assert!(info.authors.is_empty());
    assert_eq!(info.series.as_deref(), Some("Saga"));
    assert_eq!(info.series_number.as_deref(), Some("1.5"));
    assert_eq!(info.pages, None);
    assert_eq!(cover_id, None);
    assert_eq!(nav, None);
}

#[test]
fn opf_metadata_errors() {
    assert!(matches!(
        koshelf::parsers::EpubParser::parse_opf_metadata("<package><metadata></package>"),
        Err(koshelf::opf::OpfError::Parse)
    ));
    assert!(matches!(
        koshelf::parsers::EpubParser::parse_opf_metadata("<package><metadata><meta name=\"&x;\" content=\"a\"/></metadata></package>"),
        Err(koshelf::opf::OpfError::BadAttribute)
    ));
}
