use koshelf::fingerprints::{
    classify_reconcile_action, FileFingerprint, FingerprintChange, ItemFingerprints,
    ReconcileAction, ReparseScope,
};

fn fingerprint(path: &str, size_bytes: u64, modified_unix_ms: u64) -> FileFingerprint {
    FileFingerprint {
        path: path.to_string(),
        size_bytes,
        modified_unix_ms,
    }
}

fn item_fingerprints(
    book_path: &str,
    book_size_bytes: u64,
    book_modified_unix_ms: u64,
    metadata: Option<(&str, u64, u64)>,
) -> ItemFingerprints {
    ItemFingerprints {
        book_file: fingerprint(book_path, book_size_bytes, book_modified_unix_ms),
        metadata_file: metadata
            .map(|(path, size_bytes, modified_unix_ms)| fingerprint(path, size_bytes, modified_unix_ms)),
    }
}

#[test]
fn item_fingerprints_detect_change_scope() {
    let previous = item_fingerprints(
        "books/book.epub",
        100,
        1000,
        Some(("books/book.sdr/metadata.epub.lua", 20, 2000)),
    );

    let unchanged = previous.clone();
    let book_only = item_fingerprints(
        "books/book.epub",
        101,
        1000,
        Some(("books/book.sdr/metadata.epub.lua", 20, 2000)),
    );
    let metadata_only = item_fingerprints(
        "books/book.epub",
        100,
        1000,
        Some(("books/book.sdr/metadata.epub.lua", 21, 2000)),
    );
    let both_changed = item_fingerprints(
        "books/book-renamed.epub",
        101,
        1100,
        Some(("books/book-renamed.sdr/metadata.epub.lua", 21, 2100)),
    );

    assert_eq!(unchanged.change_from(&previous), FingerprintChange::Unchanged);
    assert_eq!(book_only.change_from(&previous), FingerprintChange::BookChanged);
    assert_eq!(metadata_only.change_from(&previous), FingerprintChange::MetadataChanged);
    assert_eq!(
        both_changed.change_from(&previous),
        FingerprintChange::BookAndMetadataChanged
    );
}

#[test]
fn classify_reconcile_action_maps_change_to_reparse_scope() {
    let previous = item_fingerprints(
        "books/book.epub",
        100,
        1000,
        Some(("books/book.sdr/metadata.epub.lua", 20, 2000)),
    );

    assert_eq!(classify_reconcile_action(None, Some(&previous)), ReconcileAction::Added);
    assert_eq!(classify_reconcile_action(Some(&previous), None), ReconcileAction::Removed);
    assert_eq!(
        classify_reconcile_action(Some(&previous), Some(&previous)),
        ReconcileAction::Unchanged
    );

    let book_only = item_fingerprints(
        "books/book.epub",
        101,
        1000,
        Some(("books/book.sdr/metadata.epub.lua", 20, 2000)),
    );
    assert_eq!(
        classify_reconcile_action(Some(&previous), Some(&book_only)),
        ReconcileAction::Reparse(ReparseScope::BookOnly)
    );

    let metadata_only = item_fingerprints("books/book.epub", 100, 1000, None);
    assert_eq!(
        classify_reconcile_action(Some(&previous), Some(&metadata_only)),
        ReconcileAction::Reparse(ReparseScope::MetadataOnly)
    );

    let both_changed = item_fingerprints(
        "books/book-renamed.epub",
        101,
        1100,
        Some(("books/book-renamed.sdr/metadata.epub.lua", 21, 2100)),
    );
    assert_eq!(
        classify_reconcile_action(Some(&previous), Some(&both_changed)),
        ReconcileAction::Reparse(ReparseScope::Full)
    );
}

#[test]
fn fingerprint_equality_compares_all_fields() {
    let a = fingerprint("a.epub", 1, 2);
    assert!(a == fingerprint("a.epub", 1, 2));
    assert!(a != fingerprint("b.epub", 1, 2));
    assert!(a != fingerprint("a.epub", 3, 2));
    assert!(a != fingerprint("a.epub", 1, 4));
}

#[test]
fn no_previous_and_no_current_is_unchanged() {
    assert_eq!(classify_reconcile_action(None, None), ReconcileAction::Unchanged);
    assert_eq!(FingerprintChange::Unchanged.reparse_scope(), None);
    assert_eq!(
        FingerprintChange::BookAndMetadataChanged.reparse_scope(),
        Some(ReparseScope::Full)
    );
}
