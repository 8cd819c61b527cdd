use koshelf::kobo::{KoboContentEntry, KoboFileHints};
use koshelf::scanner::{
    collect_entry, filename_candidates, hex_value, is_extensionless, percent_decode, push_unique,
    KoboMatchIndex, LibraryItemFormat,
};

fn entry(content_id: &str, encrypted: bool) -> KoboContentEntry {
    KoboContentEntry {
        hints: KoboFileHints {
            content_id: content_id.to_string(),
            title: Some("Title".to_string()),
            author: Some("Author".to_string()),
            is_encrypted: encrypted,
            has_content_keys: false,
        },
    }
}

#[test]
fn hex_digits_of_both_cases() {
    assert_eq!(hex_value(b'0'), Some(0));
    assert_eq!(hex_value(b'9'), Some(9));
    assert_eq!(hex_value(b'a'), Some(10));
    assert_eq!(hex_value(b'F'), Some(15));
    assert_eq!(hex_value(b'g'), None);
}

#[test]
fn percent_decoding() {
    assert_eq!(percent_decode("file%20row"), "file row");
    assert_eq!(percent_decode("%C3%A9t%C3%A9"), "été");
    assert_eq!(percent_decode("100%"), "100%");
    assert_eq!(percent_decode("%zz"), "%zz");
    assert_eq!(percent_decode("%ff"), "\u{fffd}");
}

#[test]
fn push_unique_skips_empty_and_repeats() {
    let mut v = vec!["a".to_string()];
    push_unique(&mut v, "a".to_string());
    push_unique(&mut v, String::new());
    push_unique(&mut v, "b".to_string());
    assert_eq!(v, vec!["a".to_string(), "b".to_string()]);
}

#[test]
fn candidates_of_file_url() {
    assert_eq!(
        filename_candidates("file:///mnt/onboard/.kobo/kepub/file%20row"),
        vec![
            "file:///mnt/onboard/.kobo/kepub/file%20row".to_string(),
            "file row".to_string(),
        ]
    );
}

#[test]
fn candidates_strip_fragment_and_query() {
    assert_eq!(
        filename_candidates("  dir/book.kepub?x=1#frag "),
        vec!["dir/book.kepub".to_string(), "book.kepub".to_string()]
    );
    assert_eq!(filename_candidates("plain"), vec!["plain".to_string()]);
    assert!(filename_candidates("   ").is_empty());
}

#[test]
fn collects_extensionless_kobo_match_as_epub() {
    let index = KoboMatchIndex::from_entries(&vec![entry("matched-book", true)]);
    let item = collect_entry("/lib/.kobo/kepub/matched-book", true, Some(&index)).expect("collected");
    assert_eq!(item.path, "/lib/.kobo/kepub/matched-book");
    assert_eq!(item.format, LibraryItemFormat::Epub);
    assert!(item.kobo_hints.as_ref().unwrap().is_encrypted);
}

#[test]
fn ignores_unrelated_extensionless_file() {
    let index = KoboMatchIndex::from_entries(&vec![entry("matched-book", false)]);
    assert!(collect_entry("/lib/notes", true, Some(&index)).is_none());
}

#[test]
fn collects_regular_epub_without_kobo_db() {
    let item = collect_entry("/lib/book.epub", true, None).expect("collected");
    assert_eq!(item.path, "/lib/book.epub");
    assert!(item.kobo_hints.is_none());
}

#[test]
fn collects_fb2_zip_as_book() {
    let item = collect_entry("/lib/book.fb2.zip", true, None).expect("collected");
    assert_eq!(item.format, LibraryItemFormat::Fb2);
}

#[test]
fn matches_file_url_by_final_filename() {
    let index = KoboMatchIndex::from_entries(&vec![entry("file:///mnt/onboard/.kobo/kepub/file%20row", false)]);
    let item = collect_entry("/lib/.kobo/kepub/file row", true, Some(&index)).expect("collected");
    assert_eq!(item.path, "/lib/.kobo/kepub/file row");
}

#[test]
fn first_entry_wins_a_shared_name() {
    let index = KoboMatchIndex::from_entries(&vec![entry("dup", true), entry("dup", false)]);
    assert!(index.match_path("/x/dup").unwrap().is_encrypted);
    assert!(index.match_path("/x/other").is_none());
}

#[test]
fn formats_by_extension() {
    assert_eq!(LibraryItemFormat::from_path("/a/B.EPUB"), Some(LibraryItemFormat::Epub));
    assert_eq!(LibraryItemFormat::from_path("/a/b.mobi"), Some(LibraryItemFormat::Mobi));
    assert_eq!(LibraryItemFormat::from_path("/a/b.cbz"), Some(LibraryItemFormat::Cbz));
    assert_eq!(LibraryItemFormat::from_path("/a/b.cbr"), Some(LibraryItemFormat::Cbr));
    assert_eq!(LibraryItemFormat::from_path("/a/b.pdf"), None);
    assert_eq!(LibraryItemFormat::from_path("/a/.epub"), None);
    assert!(is_extensionless("/a/book"));
    assert!(!is_extensionless("/a/book.epub"));
    assert!(collect_entry("/a/dir.epub", false, None).is_some());
}

#[test]
fn filename_candidates_are_distinct_nonempty_and_few() {
    for id in ["file:///mnt/onboard/My%20Book.epub#frag", "  a/b.epub?x=1 ", "#only", "book.epub", "   "] {
        let c = filename_candidates(id);
        assert!(c.len() <= 3);
        assert!(c.iter().all(|s| !s.is_empty()));
        for i in 0..c.len() {
            for j in i + 1..c.len() {
                assert_ne!(c[i], c[j]);
            }
        }
        let q = id.trim().split('#').next().unwrap().split('?').next().unwrap();
        assert_eq!(c.is_empty(), q.is_empty());
        if !q.is_empty() {
            assert_eq!(c[0], q);
        }
    }
}
