use koshelf::kobo::{is_chapter_row, string_column, KoboContentRow, KoboDbParser, KoboFileHints};

fn row(content_id: &str, book_id: Option<&str>, title: &str, author: &str, encrypted: i64) -> KoboContentRow {
    KoboContentRow {
        content_id: Some(content_id.to_string()),
        book_id: book_id.map(|b| b.to_string()),
        title: Some(title.to_string()),
        attribution: Some(author.to_string()),
        is_encrypted: Some(encrypted),
    }
}

#[test]
fn parses_kobo_book_rows_and_diagnostics() {
    let rows = vec![
        row("plain-kepub", None, "Plain", "Author A", 0),
        row("encrypted-kepub", Some(""), "Encrypted", "Author B", 1),
        row("keyed-kepub", None, "Keyed", "Author C", 0),
        row("book-parent!chapter-1", Some("book-parent"), "Chapter 1", "Author D", 0),
        row("file:///mnt/onboard/.kobo/kepub/file-row", None, "File Row", "Author E", 0),
    ];
    let keys = KoboDbParser::content_key_ids(&vec!["keyed-kepub".to_string()]);
    let entries = KoboDbParser::entries_from_rows(&rows, &keys);

    assert_eq!(entries.len(), 4);

    let plain = entries.iter().find(|e| e.hints.content_id == "plain-kepub").expect("plain row");
    assert_eq!(plain.hints.title.as_deref(), Some("Plain"));
    assert_eq!(plain.hints.author.as_deref(), Some("Author A"));
    assert!(!plain.hints.is_encrypted);
    assert!(!plain.hints.has_content_keys);

    let encrypted = entries.iter().find(|e| e.hints.content_id == "encrypted-kepub").expect("encrypted row");
    assert!(encrypted.hints.is_encrypted);

    let keyed = entries.iter().find(|e| e.hints.content_id == "keyed-kepub").expect("keyed row");
    assert!(keyed.hints.has_content_keys);

    assert!(entries.iter().all(|e| e.hints.content_id != "book-parent!chapter-1"));
    assert!(entries
        .iter()
        .any(|e| e.hints.content_id == "file:///mnt/onboard/.kobo/kepub/file-row"));
}

#[test]
fn blank_columns_count_as_absent() {
    assert_eq!(string_column(&Some("   ".to_string())), None);
    assert_eq!(string_column(&Some(" x ".to_string())), Some(" x ".to_string()));
    assert_eq!(string_column(&None), None);
}

#[test]
fn chapter_rows_name_another_book() {
    assert!(is_chapter_row(&Some(" parent ".to_string()), "parent!1"));
    assert!(!is_chapter_row(&Some(" same ".to_string()), "same"));
    assert!(!is_chapter_row(&Some("  ".to_string()), "x"));
    assert!(!is_chapter_row(&None, "x"));
}

#[test]
fn rows_without_content_id_are_skipped() {
    let rows = vec![KoboContentRow {
        content_id: Some("  ".to_string()),
        book_id: None,
        title: None,
        attribution: None,
        is_encrypted: None,
    }];
    assert!(KoboDbParser::entries_from_rows(&rows, &vec![]).is_empty());
}

#[test]
fn blank_content_key_ids_are_dropped() {
    let keys = KoboDbParser::content_key_ids(&vec!["a".to_string(), " ".to_string(), "b".to_string()]);
    assert_eq!(keys, vec!["a".to_string(), "b".to_string()]);
}

#[test]
fn encryption_is_suggested_by_either_flag() {
    let h = KoboFileHints {
        content_id: "x".to_string(),
        title: None,
        author: None,
        is_encrypted: false,
        has_content_keys: true,
    };
    assert!(h.suggests_encryption());
    let none = KoboFileHints { has_content_keys: false, ..h };
    assert!(!none.suggests_encryption());
}
