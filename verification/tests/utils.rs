use koshelf::utils::{generate_book_id, sanitize_html};

#[test]
fn book_id_joins_words_with_dashes() {
    assert_eq!(generate_book_id("The Great Gatsby"), "the-great-gatsby");
    assert_eq!(generate_book_id("  Hello,   World! "), "hello-world");
    assert_eq!(generate_book_id("Émile Zola: Œuvres"), "émile-zola-œuvres");
    assert_eq!(generate_book_id("!!!"), "");
}

#[test]
fn sanitize_html_keeps_formatting_only() {
    assert_eq!(sanitize_html("<p>Hi <b>there</b></p><script>alert(1)</script>"), "<p>Hi <b>there</b></p>");
    assert_eq!(sanitize_html("&lt;em&gt;escaped&lt;/em&gt;"), "<em>escaped</em>");
    assert_eq!(sanitize_html("<table><tr><td>cell</td></tr></table>"), "cell");
}

#[test]
fn sanitize_html_keeps_unresolved_escapes() {
    // a lone `&` is no escape quick-xml resolves, so the text goes to ammonia as it is
    assert_eq!(sanitize_html("a & b"), "a &amp; b");
}
