use koshelf::fb2_book::{binary_cover_of, decode_cover_text};
use koshelf::fb2_chapters::{ChapterText, Fb2ChapterReader};
use koshelf::parsers::Fb2Parser;
use koshelf::xml::XmlTag;

#[test]
fn chapters_from_title_elements() {
    let xml = r#"<?xml version="1.0"?>
<FictionBook xmlns="http://www.gribuser.ru/xml/fictionbook/2.0">
<description><title-info><book-title>Test</book-title></title-info></description>
<body>
<section><title><p>Chapter 1</p></title><p>Some content here.</p></section>
<section><title><p>Chapter 2</p></title><p>More content here.</p></section>
</body>
</FictionBook>"#;

    let chapters = Fb2Parser::extract_chapters(xml);
    assert_eq!(chapters.len(), 2);
    assert_eq!(chapters[0].title, "Chapter 1");
    assert_eq!(chapters[1].title, "Chapter 2");
    assert!(chapters[0].offset < chapters[1].offset);
    assert!(chapters[0].total > 0);
    assert!(chapters[1].offset <= chapters[1].total);
}

#[test]
fn chapters_fallback_to_first_p() {
    let xml = r#"<?xml version="1.0"?>
<FictionBook xmlns="http://www.gribuser.ru/xml/fictionbook/2.0">
<description><title-info><book-title>Test</book-title></title-info></description>
<body>
<section><p>Part One</p><p>Long content paragraph that is definitely not a title.</p></section>
<section><p>1</p><p>Another long content paragraph here.</p></section>
<section><p>2</p><p>Yet more content follows.</p></section>
</body>
</FictionBook>"#;

    let chapters = Fb2Parser::extract_chapters(xml);
    assert_eq!(chapters.len(), 3);
    assert_eq!(chapters[0].title, "Part One");
    assert_eq!(chapters[1].title, "1");
    assert_eq!(chapters[2].title, "2");
}

#[test]
fn chapters_from_nested_sections() {
    let xml = r#"<?xml version="1.0"?>
<FictionBook xmlns="http://www.gribuser.ru/xml/fictionbook/2.0">
<description><title-info><book-title>Test</book-title></title-info></description>
<body>
<section><title><p>Part One</p></title>
  <section><title><p>Chapter 1</p></title><p>Content A.</p></section>
  <section><title><p>Chapter 2</p></title><p>Content B.</p></section>
</section>
<section><title><p>Part Two</p></title>
  <section><title><p>Chapter 3</p></title><p>Content C.</p></section>
</section>
</body>
</FictionBook>"#;

    let chapters = Fb2Parser::extract_chapters(xml);
    assert_eq!(chapters.len(), 5);
    assert_eq!(chapters[0].title, "Part One");
    assert_eq!(chapters[1].title, "Chapter 1");
    assert_eq!(chapters[4].title, "Chapter 3");
}

#[test]
fn ignores_notes_body() {
    let xml = r#"<?xml version="1.0"?>
<FictionBook xmlns="http://www.gribuser.ru/xml/fictionbook/2.0">
<description><title-info><book-title>Test</book-title></title-info></description>
<body>
<section><title><p>Chapter 1</p></title><p>Content.</p></section>
</body>
<body name="notes">
<section><title><p>Note 1</p></title><p>Footnote text.</p></section>
<section><title><p>Note 2</p></title><p>More footnotes.</p></section>
</body>
</FictionBook>"#;

    let chapters = Fb2Parser::extract_chapters(xml);
    assert_eq!(chapters.len(), 1);
    assert_eq!(chapters[0].title, "Chapter 1");
}

#[test]
fn skips_sections_without_titles_when_titles_exist() {
    let xml = r#"<?xml version="1.0"?>
<FictionBook xmlns="http://www.gribuser.ru/xml/fictionbook/2.0">
<description><title-info><book-title>Test</book-title></title-info></description>
<body>
<section><p>Just an image section with no title element.</p></section>
<section><title><p>Real Chapter</p></title><p>Content.</p></section>
</body>
</FictionBook>"#;

    let chapters = Fb2Parser::extract_chapters(xml);
    assert_eq!(chapters.len(), 1);
    assert_eq!(chapters[0].title, "Real Chapter");
}

#[test]
fn chapters_need_a_main_body() {
    assert!(Fb2Parser::extract_chapters("<FictionBook><section><title>A</title></section></FictionBook>").is_empty());
    assert!(Fb2Parser::extract_chapters("").is_empty());
}

#[test]
fn chapter_offsets_are_measured_from_the_body() {
    // `<body>` ends at byte 6, the title's start tag at byte 22, and `</body>` at byte 50.
    let xml = "<body><section><title>One</title></section></body>";
    let chapters = Fb2Parser::extract_chapters(xml);
    assert_eq!(chapters.len(), 1);
    assert_eq!(chapters[0].title, "One");
    assert_eq!(chapters[0].offset, 16);
    assert_eq!(chapters[0].total, 44);
}

#[test]
fn long_first_paragraphs_are_no_titles() {
    let long = "x".repeat(81);
    let xml = format!("<body><section><p>{}</p></section><section><p>Short</p></section></body>", long);
    let chapters = Fb2Parser::extract_chapters(&xml);
    assert_eq!(chapters.len(), 1);
    assert_eq!(chapters[0].title, "Short");
}

#[test]
fn chapter_reader_steps() {
    let mut r = Fb2ChapterReader::new();
    assert!(r.start("section", 3).is_none());
    assert_eq!(r.depth, 0);
    assert!(r.start("body", 10).is_none());
    assert!(r.in_body);
    assert_eq!(r.body_start, 10);
    assert!(r.start("section", 20).is_none());
    assert_eq!(r.depth, 1);
    assert_eq!(r.section_pos, 20);
    assert!(r.awaiting_first_p);
    assert!(matches!(r.start("p", 25), Some(ChapterText::FirstParagraph)));
    r.text(ChapterText::FirstParagraph, Some("A &amp; <b>B</b>".to_string()));
    assert_eq!(r.first_p, Some("A & B".to_string()));
    assert!(matches!(r.start("title", 40), Some(ChapterText::Title(40))));
    r.text(ChapterText::Title(40), Some("  ".to_string()));
    assert!(r.titled.is_empty());
    r.end("section", 50);
    assert_eq!(r.depth, 0);
    assert_eq!(r.fallback, vec![(20, "A & B".to_string())]);
    r.end("body", 110);
    assert!(r.body_done);
    assert!(r.start("body", 120).is_none());
    assert_eq!(r.body_start, 10);
    let chapters = r.finish();
    assert_eq!(chapters.len(), 1);
    assert_eq!(chapters[0].title, "A & B");
    assert_eq!(chapters[0].offset, 10);
    assert_eq!(chapters[0].total, 100);
}

fn tag(local: &str, attrs: Vec<(&str, &str)>) -> XmlTag {
    XmlTag {
        name: local.to_string(),
        local_name: local.to_string(),
        attributes: attrs.into_iter().map(|(k, v)| Some((k.to_string(), Some(v.to_string())))).collect(),
    }
}

#[test]
fn binary_cover_matches_id() {
    let t = tag("binary", vec![("content-type", "image/png"), ("id", "cover.jpg"), ("content-type", "image/jpeg")]);
    assert_eq!(binary_cover_of(&t, "cover.jpg"), Some(Some("image/jpeg".to_string())));
    assert_eq!(binary_cover_of(&t, "other.jpg"), None);
    let t = tag("binary", vec![("id", "cover.jpg")]);
    assert_eq!(binary_cover_of(&t, "cover.jpg"), Some(None));
    let t = tag("image", vec![("id", "cover.jpg")]);
    assert_eq!(binary_cover_of(&t, "cover.jpg"), None);
}

#[test]
fn cover_text_is_decoded_without_line_breaks() {
    assert_eq!(decode_cover_text("  aGVs\r\nbG8g d29y\nbGQ=  "), Some(b"hello world".to_vec()));
    assert_eq!(decode_cover_text(""), Some(Vec::new()));
    assert_eq!(decode_cover_text("not base64!"), None);
}

const BOOK: &str = r##"<?xml version="1.0" encoding="utf-8"?>
<FictionBook xmlns="http://www.gribuser.ru/xml/fictionbook/2.0" xmlns:l="http://www.w3.org/1999/xlink">
<description>
<title-info>
<genre>sf</genre>
<genre></genre>
<author><first-name>Arkady</first-name><middle-name>N.</middle-name><last-name>Strugatsky</last-name></author>
<author><last-name>Boris</last-name></author>
<book-title>Roadside &amp; Picnic</book-title>
<annotation><p>A <b>story</b>.</p></annotation>
<lang>ru</lang>
<sequence name="Noon" number="7"/>
<coverpage><image l:href="#cover.jpg"/></coverpage>
</title-info>
<publish-info><publisher>Macmillan</publisher><isbn>978-0-02-615170-4</isbn></publish-info>
</description>
<body>
<section><title><p>One</p></title><p>Text.</p></section>
<section><title><p>Two</p></title><p>More text.</p></section>
</body>
<binary id="cover.jpg" content-type="image/jpeg">aGVsbG8=</binary>
</FictionBook>"##;

#[test]
fn fb2_metadata_is_read() {
    let (info, cover) = Fb2Parser::parse_fb2_metadata(BOOK).unwrap();
    assert_eq!(info.title, "Roadside & Picnic");
    assert_eq!(info.authors, vec!["Arkady N. Strugatsky".to_string(), "Boris".to_string()]);
    assert_eq!(info.subjects, vec!["sf".to_string()]);
    assert_eq!(info.language, Some("ru".to_string()));
    assert_eq!(info.series, Some("Noon".to_string()));
    assert_eq!(info.series_number, Some("7".to_string()));
    assert_eq!(info.publisher, Some("Macmillan".to_string()));
    assert_eq!(info.identifiers.len(), 1);
    assert_eq!(info.identifiers[0].scheme, "isbn");
    assert_eq!(info.identifiers[0].value, "978-0-02-615170-4");
    assert!(info.description.as_deref().unwrap_or("").contains("story"));
    assert_eq!(cover, Some("cover.jpg".to_string()));
    assert!(info.chapters.is_empty());
}

#[test]
fn fb2_without_title_is_unknown() {
    let (info, cover) = Fb2Parser::parse_fb2_metadata("<FictionBook><description/></FictionBook>").unwrap();
    assert_eq!(info.title, "Unknown Title");
    assert!(info.authors.is_empty());
    assert_eq!(cover, None);
}

#[test]
fn fb2_malformed_is_an_error() {
    assert!(Fb2Parser::parse_fb2_metadata("<FictionBook><description></title-info></FictionBook>").is_err());
}

#[test]
fn fb2_cover_image_is_extracted() {
    let (data, mime) = Fb2Parser::extract_cover_image(BOOK, "cover.jpg");
    assert_eq!(data, Some(b"hello".to_vec()));
    assert_eq!(mime, Some("image/jpeg".to_string()));
    assert_eq!(Fb2Parser::extract_cover_image(BOOK, "missing.jpg"), (None, None));
}

#[test]
fn fb2_book_is_parsed_whole() {
    let book = Fb2Parser::parse_fb2_xml(BOOK).unwrap();
    assert_eq!(book.title, "Roadside & Picnic");
    assert_eq!(book.chapters.len(), 2);
    assert_eq!(book.chapters[1].title, "Two");
    assert_eq!(book.cover_data, Some(b"hello".to_vec()));
    assert_eq!(book.cover_mime_type, Some("image/jpeg".to_string()));
}
