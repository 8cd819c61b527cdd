use koshelf::comic_book::is_image_file;
use koshelf::comic_info::ComicInfoReader;
use koshelf::parsers::ComicParser;

#[test]
fn comic_info_summary_is_sanitized() {
    let xml = r#"
            <ComicInfo>
                <Title>Test Comic</Title>
                <Summary><![CDATA[<p>Hello <strong>world</strong></p><script>alert('x')</script>]]></Summary>
            </ComicInfo>
        "#;

    let parsed = ComicParser::parse_comic_info_xml(xml).expect("comic info should parse");

    let description = parsed
        .description
        .expect("sanitized non-empty summary should be retained");
    assert!(description.contains("Hello"));
    assert!(description.contains("world"));
    assert!(!description.contains("<script"));
}

#[test]
fn comic_info_empty_summary_is_ignored() {
    let xml = r#"
            <ComicInfo>
                <Title>Test Comic</Title>
                <Summary>   </Summary>
            </ComicInfo>
        "#;

    let parsed = ComicParser::parse_comic_info_xml(xml).expect("comic info should parse");

    assert!(parsed.description.is_none());
}

#[test]
fn comic_info_fields_and_creators() {
    let xml = r#"<ComicInfo>
        <Series>Saga</Series>
        <Number>12</Number>
        <Publisher>Image &amp; Co</Publisher>
        <LanguageISO>en</LanguageISO>
        <Writer>Brian K. Vaughan, Fiona Staples</Writer>
        <Penciller>Fiona Staples</Penciller>
        <Letterer> Fonografiks ,, </Letterer>
        <Genre>Fantasy,Science Fiction, Fantasy</Genre>
        <Notes>ignored</Notes>
    </ComicInfo>"#;
    let b = ComicParser::parse_comic_info_xml(xml).unwrap();
    assert_eq!(b.title, "Saga");
    assert_eq!(b.series, Some("Saga".to_string()));
    assert_eq!(b.series_number, Some("12".to_string()));
    assert_eq!(b.publisher, Some("Image & Co".to_string()));
    assert_eq!(b.language, Some("en".to_string()));
    assert_eq!(b.authors, vec!["Brian K. Vaughan".to_string(), "Fiona Staples".to_string(), "Fonografiks".to_string()]);
    assert_eq!(b.subjects, vec!["Fantasy".to_string(), "Science Fiction".to_string()]);
    assert!(b.identifiers.is_empty());
    assert!(b.cover_data.is_none());
}

#[test]
fn comic_info_without_title_or_series_is_unknown() {
    let b = ComicParser::parse_comic_info_xml("<ComicInfo><Title></Title></ComicInfo>").unwrap();
    assert_eq!(b.title, "Unknown Comic");
    // Reading stops at the first error; what came before stands.
    let b = ComicParser::parse_comic_info_xml("<ComicInfo><Title>A</Title></Oops></ComicInfo>").unwrap();
    assert_eq!(b.title, "A");
}

#[test]
fn comic_info_reader_steps() {
    let mut r = ComicInfoReader::new();
    r.text("Title", "");
    assert!(r.title.is_none());
    r.text("Editor", "A, B");
    r.text("Inker", "B,C");
    assert_eq!(r.authors, vec!["A".to_string(), "B".to_string(), "C".to_string()]);
    r.text("Summary", "&lt;b&gt;bold&lt;/b&gt; ");
    assert_eq!(r.summary, Some("<b>bold</b>".to_string()));
    let b = r.finish();
    assert_eq!(b.title, "Unknown Comic");
    assert_eq!(b.description, Some("<b>bold</b>".to_string()));
}

#[test]
fn cbz_images_and_cover() {
    let names: Vec<String> = ["ComicInfo.xml", "b/002.PNG", "a/010.jpg", "notes.txt", "z.gif", "cover.jpeg.bak"]
        .iter()
        .map(|s| s.to_string())
        .collect();
    assert_eq!(ComicParser::count_images(&names), 3);
    assert_eq!(ComicParser::cover_image_name(&names), Some("a/010.jpg".to_string()));
    assert!(is_image_file("x.WEBP"));
    assert!(is_image_file("xjpg"));
    assert!(!is_image_file("x.bmp"));
    assert_eq!(ComicParser::cover_image_name(&vec!["a.txt".to_string()]), None);
}

#[test]
fn cbz_book_from_file_name_or_comic_info() {
    let names = vec!["01.jpg".to_string(), "02.jpg".to_string()];
    let b = ComicParser::cbz_book_info(&names, None, "/comics/Saga 01.cbz").unwrap();
    assert_eq!(b.title, "Saga 01");
    assert_eq!(b.pages, Some(2));
    let b = ComicParser::cbz_book_info(&Vec::new(), Some("<ComicInfo><Title>T</Title></ComicInfo>"), "/x.cbz").unwrap();
    assert_eq!(b.title, "T");
    assert_eq!(b.pages, None);
    let b = ComicParser::book_info_from_filename("/");
    assert_eq!(b.title, "Unknown Comic");
}

#[test]
fn cbr_members_find_comic_info_and_images() {
    let names: Vec<String> = vec![
        "Comic/002.JPG".to_string(),
        "Comic/comicinfo.XML".to_string(),
        "Comic/001.png".to_string(),
        "Comic/notes.txt".to_string(),
        "Comic/cover.jpeg.bak".to_string(),
    ];
    let m = ComicParser::cbr_members(&names);
    assert_eq!(m.comic_info, Some(1));
    assert_eq!(m.images, vec!["Comic/002.JPG".to_string(), "Comic/001.png".to_string()]);
}

#[test]
fn cbr_book_info_counts_images_and_reads_comic_info() {
    let names: Vec<String> = vec!["a.jpg".to_string(), "ComicInfo.xml".to_string(), "b.webp".to_string()];
    let xml = "<ComicInfo><Title>Rar Comic</Title></ComicInfo>";
    let b = ComicParser::cbr_book_info(&names, Some(xml), "/x/Some Comic.cbr");
    assert_eq!(b.title, "Rar Comic");
    assert_eq!(b.pages, Some(2));
    let f = ComicParser::cbr_book_info(&vec!["readme.txt".to_string()], None, "/x/Some Comic.cbr");
    assert_eq!(f.pages, None);
    assert!(f.authors.is_empty());
}
