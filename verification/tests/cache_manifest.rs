use koshelf::cache_manifest::CacheManifestBuilder;

fn lookup(b: &CacheManifestBuilder, url: &str) -> Option<String> {
    b.manifest()
        .files
        .iter()
        .find(|(u, _)| u == url)
        .map(|(_, h)| h.clone())
}

#[test]
fn compute_hash_is_first_eight_hex_digits_of_md5() {
    assert_eq!(CacheManifestBuilder::compute_hash(b""), "d41d8cd9");
    assert_eq!(CacheManifestBuilder::compute_hash(b"hello"), "5d41402a");
}

#[test]
fn register_replaces_earlier_hash() {
    let mut b = CacheManifestBuilder::new("v1".to_string());
    b.register("/books/a/", b"one");
    b.register("/books/a/", b"hello");
    let m = b.manifest();
    assert_eq!(m.version, "v1");
    assert_eq!(m.files.len(), 1);
    assert_eq!(lookup(&b, "/books/a/"), Some("5d41402a".to_string()));
}

#[test]
fn register_file_maps_index_html_to_directory_url() {
    let mut b = CacheManifestBuilder::new("v".to_string());
    b.register_file("/site/books/x/index.html", "/site", b"hello");
    b.register_file("/site/assets/app.js", "/site/", b"");
    b.register_file("/elsewhere/file.txt", "/site", b"");
    assert_eq!(lookup(&b, "/books/x/"), Some("5d41402a".to_string()));
    assert_eq!(lookup(&b, "/assets/app.js"), Some("d41d8cd9".to_string()));
    assert_eq!(b.manifest().files.len(), 2);
}

#[test]
fn register_file_turns_backslashes_into_slashes() {
    let mut b = CacheManifestBuilder::new("v".to_string());
    b.register_file("/site/a\\b.css", "/site", b"");
    assert_eq!(lookup(&b, "/a/b.css"), Some("d41d8cd9".to_string()));
}
