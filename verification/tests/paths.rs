use koshelf::paths::{extension, join, strip_prefix, with_extension};

#[test]
fn extension_of_file_name() {
    assert_eq!(extension("/a/b.tar.gz"), Some("gz".to_string()));
    assert_eq!(extension("/a/.bashrc"), None);
    assert_eq!(extension("/a/b"), None);
    assert_eq!(extension("/a/b."), Some(String::new()));
}

#[test]
fn with_extension_replaces_it() {
    assert_eq!(with_extension("/a/b.txt", "md"), "/a/b.md");
    assert_eq!(with_extension("/a/b", "md"), "/a/b.md");
    assert_eq!(with_extension("/a/b.txt", ""), "/a/b");
    assert_eq!(with_extension("/", "md"), "/");
}

#[test]
fn strip_prefix_by_components() {
    assert_eq!(strip_prefix("/site/books/x", "/site"), Some("books/x".to_string()));
    assert_eq!(strip_prefix("/site/books/x", "/site/"), Some("books/x".to_string()));
    assert_eq!(strip_prefix("/sitemap", "/site"), None);
    assert_eq!(strip_prefix("/site", "/site"), Some(String::new()));
    assert_eq!(strip_prefix("/x/y", "/"), Some("x/y".to_string()));
}

#[test]
fn join_paths() {
    assert_eq!(join("/out", "books"), "/out/books");
    assert_eq!(join("/out/", "books"), "/out/books");
    assert_eq!(join("/out", "/abs"), "/abs");
}
