//! Text helpers for page ids and plain-text descriptions.
use vstd::prelude::*;
use crate::text::{
    ascii_lower_char, chars_of, is_ascii_text, is_whitespace_char, is_ws, lowercase, opt_text,
    string_from_chars, to_lowercase,
};

verus! {

/// Whether `char::is_alphanumeric` holds of `c` (Unicode `Alphabetic` or `Numeric`).
pub uninterp spec fn alphanumeric(c: char) -> bool;

/// Whether `c` is an ASCII letter or digit.
pub open spec fn ascii_alnum(c: char) -> bool {
    ||| 'a' <= c <= 'z'
    ||| 'A' <= c <= 'Z'
    ||| '0' <= c <= '9'
}

/// `char::is_alphanumeric`; the contract names the result, and states it for ASCII, where the
/// Unicode properties hold of the letters and digits alone.
#[verifier::external_body]
fn is_alphanumeric(c: char) -> (r: bool)
    ensures
        r == alphanumeric(c),
        (c as u32) < 128 ==> (r <==> ascii_alnum(c)),
{
    c.is_alphanumeric()
}

/// The words of `s` (its maximal runs of non-whitespace) joined by `sep`, with whether a gap
/// follows the last word: `split_whitespace` then `join`.
pub open spec fn collapse_state(s: Seq<char>, sep: char) -> (Seq<char>, bool)
    decreases s.len(),
{
    if s.len() == 0 {
        (Seq::empty(), false)
    } else {
        let (out, gap) = collapse_state(s.drop_last(), sep);
        let c = s.last();
        if is_ws(c) {
            (out, true)
        } else if gap && out.len() > 0 {
            (out.push(sep).push(c), false)
        } else {
            (out.push(c), false)
        }
    }
}

/// The words of `s` joined by `sep`.
pub open spec fn collapse_ws(s: Seq<char>, sep: char) -> Seq<char> {
    collapse_state(s, sep).0
}

/// The characters of `s` that are alphanumeric or whitespace.
pub open spec fn id_chars(s: Seq<char>) -> Seq<char> {
    s.filter(|c: char| alphanumeric(c) || is_ws(c))
}

/// The page id of a title: its alphanumeric words joined by `-`, lower-cased.
pub open spec fn book_id_of(title: Seq<char>) -> Seq<char> {
    lowercase(collapse_ws(id_chars(title), '-'))
}

/// `s`'s words joined by `sep`.
pub fn collapse_whitespace(s: &Vec<char>, sep: char) -> (r: Vec<char>)
    ensures
        r@ == collapse_ws(s@, sep),
{
    let mut out: Vec<char> = Vec::new();
    let mut gap = false;
    let mut i: usize = 0;
    while i < s.len()
        invariant
            i <= s.len(),
            (out@, gap) == collapse_state(s@.take(i as int), sep),
        decreases s.len() - i,
    {
        assert(s@.take(i + 1).drop_last() =~= s@.take(i as int));
        assert(s@.take(i + 1).last() == s@[i as int]);
        let c = s[i];
        if is_whitespace_char(c) {
            gap = true;
        } else {
            if gap && out.len() > 0 {
                out.push(sep);
            }
            out.push(c);
            gap = false;
        }
        i += 1;
    }
    assert(s@.take(s.len() as int) =~= s@);
    out
}

/// A URL-friendly id for a book title: the alphanumeric words of the title, joined by `-`,
/// lower-cased.
pub fn generate_book_id(title: &str) -> (r: String)
    ensures
        r@ == book_id_of(title@),
        is_ascii_text(title@) ==> id_shaped(r@),
{
    let chars = chars_of(title);
    let mut kept: Vec<char> = Vec::new();
    let mut i: usize = 0;
    while i < chars.len()
        invariant
            i <= chars.len(),
            kept@ == id_chars(chars@.take(i as int)),
            chars@ == title@,
            is_ascii_text(title@) ==> forall|j: int| 0 <= j < kept.len() ==> ascii_alnum(#[trigger] kept@[j])
                || (is_ws(kept@[j]) && (kept@[j] as u32) < 128),
        decreases chars.len() - i,
    {
        let ghost t = chars@.take(i + 1);
        assert(t.drop_last() =~= chars@.take(i as int));
        assert(t.last() == chars@[i as int]);
        reveal(Seq::filter);
        let c = chars[i];
        if is_alphanumeric(c) || is_whitespace_char(c) {
            kept.push(c);
        }
        i += 1;
    }
    assert(chars@.take(chars.len() as int) =~= chars@);
    let joined = collapse_whitespace(&kept, '-');
    let text = string_from_chars(joined.as_slice());
    proof {
        if is_ascii_text(title@) {
            lemma_collapse_shape(kept@);
        }
    }
    let r = to_lowercase(text.as_str());
    proof {
        if is_ascii_text(title@) {
            lemma_lower_shape(text@);
        }
    }
    r
}

/// Whether a page id has only `a`-`z`, `0`-`9` and `-`, neither starts nor ends with `-`, and
/// has no two `-` in a row.
pub open spec fn id_shaped(s: Seq<char>) -> bool {
    &&& forall|i: int| 0 <= i < s.len() ==> ('a' <= #[trigger] s[i] <= 'z' || '0' <= s[i] <= '9' || s[i] == '-')
    &&& s.len() > 0 ==> s[0] != '-' && s[s.len() - 1] != '-'
    &&& forall|i: int| 0 <= i < s.len() - 1 ==> !(#[trigger] s[i] == '-' && s[i + 1] == '-')
}

/// Whether a text has only ASCII letters, digits and `-`, neither starts nor ends with `-`, and
/// has no two `-` in a row.
pub open spec fn joined_shaped(s: Seq<char>) -> bool {
    &&& forall|i: int| 0 <= i < s.len() ==> (ascii_alnum(#[trigger] s[i]) || s[i] == '-')
    &&& s.len() > 0 ==> ascii_alnum(s[0]) && ascii_alnum(s[s.len() - 1])
    &&& forall|i: int| 0 <= i < s.len() - 1 ==> !(#[trigger] s[i] == '-' && s[i + 1] == '-')
}

/// Joining the words of a text of ASCII letters, digits and whitespace by `-` gives a text of
/// letters, digits and single inner `-`.
proof fn lemma_collapse_shape(s: Seq<char>)
    requires
        forall|j: int| 0 <= j < s.len() ==> ascii_alnum(#[trigger] s[j]) || is_ws(s[j]),
    ensures
        joined_shaped(collapse_ws(s, '-')),
    decreases s.len(),
{
    if s.len() > 0 {
        lemma_collapse_shape(s.drop_last());
        let (out, gap) = collapse_state(s.drop_last(), '-');
        let c = s.last();
        assert(ascii_alnum(c) || is_ws(c));
        if !is_ws(c) {
            let o2 = if gap && out.len() > 0 {
                out.push('-').push(c)
            } else {
                out.push(c)
            };
            assert(o2 == collapse_ws(s, '-'));
            assert forall|i: int| 0 <= i < o2.len() - 1 implies !(#[trigger] o2[i] == '-' && o2[i + 1] == '-') by {
                if i < out.len() - 1 {
                    assert(o2[i] == out[i] && o2[i + 1] == out[i + 1]);
                }
            }
            assert forall|i: int| 0 <= i < o2.len() implies (ascii_alnum(#[trigger] o2[i]) || o2[i] == '-') by {
                if i < out.len() {
                    assert(o2[i] == out[i]);
                }
            }
        }
    }
}

/// The ASCII lowercase of a text of letters, digits and single inner `-` is a page id.
proof fn lemma_lower_shape(s: Seq<char>)
    requires
        joined_shaped(s),
    ensures
        is_ascii_text(s),
        id_shaped(s.map_values(|c: char| ascii_lower_char(c))),
{
    let m = s.map_values(|c: char| ascii_lower_char(c));
    assert forall|i: int| 0 <= i < s.len() implies (#[trigger] s[i] as u32) < 128 by {
        assert(ascii_alnum(s[i]) || s[i] == '-');
    }
    assert forall|i: int| 0 <= i < m.len() implies ('a' <= #[trigger] m[i] <= 'z' || '0' <= m[i] <= '9' || m[i] == '-') by {
        assert(ascii_alnum(s[i]) || s[i] == '-');
    }
    assert forall|i: int| 0 <= i < m.len() - 1 implies !(#[trigger] m[i] == '-' && m[i + 1] == '-') by {
        assert(ascii_alnum(s[i]) || s[i] == '-');
        assert(ascii_alnum(s[i + 1]) || s[i + 1] == '-');
        assert(!(s[i] == '-' && s[i + 1] == '-'));
    }
    if m.len() > 0 {
        assert(ascii_alnum(s[0]) && ascii_alnum(s[s.len() - 1]));
    }
}


/// What `quick_xml::escape::unescape` makes of a text: the text with its entity and character
/// references replaced, or `None` where it reports an error.
pub uninterp spec fn xml_unescaped(s: Seq<char>) -> Option<Seq<char>>;

/// `quick_xml::escape::unescape`; the contract names the result, and states what its source
/// shows of a text without `&`: it comes back unchanged.
#[verifier::external_body]
pub(crate) fn xml_unescape(s: &str) -> (r: Option<String>)
    ensures
        opt_text(r) == xml_unescaped(s@),
        !s@.contains('&') ==> opt_text(r) == Some(s@),
{
    quick_xml::escape::unescape(s).ok().map(|c| c.into_owned())
}

/// What ammonia's default `Builder`, with `tags` as the allowed tags, makes of `html`.
pub uninterp spec fn html_cleaned(tags: Seq<Seq<char>>, html: Seq<char>) -> Seq<char>;

/// `ammonia::Builder::new().tags(..).clean(html)` as text; the contract names the result.
/// `script` and `style` are the builder's default `clean_content_tags`, and ammonia panics when
/// a tag is in both lists.
#[verifier::external_body]
fn clean_html(tags: &Vec<&str>, html: &str) -> (r: String)
    requires
        !tags@.map_values(|t: &str| t@).contains("script"@),
        !tags@.map_values(|t: &str| t@).contains("style"@),
    ensures
        r@ == html_cleaned(tags@.map_values(|t: &str| t@), html@),
{
    ammonia::Builder::new().tags(tags.iter().copied().collect()).clean(html).to_string()
}

/// The formatting tags kept in book descriptions.
pub open spec fn safe_tags() -> Seq<Seq<char>> {
    seq![
        "p"@, "br"@, "h1"@, "h2"@, "h3"@, "h4"@, "h5"@, "h6"@, "ul"@, "ol"@, "li"@, "strong"@,
        "em"@, "b"@, "i"@, "blockquote"@, "pre"@, "code"@, "div"@, "span"@, "a"@,
    ]
}

/// The safe tags hold neither `script` nor `style`.
proof fn lemma_safe_tags_keep_no_content_tags()
    ensures
        !safe_tags().contains("script"@),
        !safe_tags().contains("style"@),
{
    reveal_strlit("script");
    reveal_strlit("style");
    reveal_strlit("p");
    reveal_strlit("br");
    reveal_strlit("h1");
    reveal_strlit("h2");
    reveal_strlit("h3");
    reveal_strlit("h4");
    reveal_strlit("h5");
    reveal_strlit("h6");
    reveal_strlit("ul");
    reveal_strlit("ol");
    reveal_strlit("li");
    reveal_strlit("strong");
    reveal_strlit("em");
    reveal_strlit("b");
    reveal_strlit("i");
    reveal_strlit("blockquote");
    reveal_strlit("pre");
    reveal_strlit("code");
    reveal_strlit("div");
    reveal_strlit("span");
    reveal_strlit("a");
    let t = safe_tags();
    assert("script"@.len() == 6 && "style"@.len() == 5);
    assert(t.len() == 21);
    assert forall|k: int| 0 <= k < t.len() implies t[k] != "script"@ && t[k] != "style"@ by {
        if k == 0 {
            assert(t[k] == "p"@);
            assert("p"@.len() == 1);
            assert(t[k] != "script"@ && t[k] != "style"@);
        } else if k == 1 {
            assert(t[k] == "br"@);
            assert("br"@.len() == 2);
            assert(t[k] != "script"@ && t[k] != "style"@);
        } else if k == 2 {
            assert(t[k] == "h1"@);
            assert("h1"@.len() == 2);
            assert(t[k] != "script"@ && t[k] != "style"@);
        } else if k == 3 {
            assert(t[k] == "h2"@);
            assert("h2"@.len() == 2);
            assert(t[k] != "script"@ && t[k] != "style"@);
        } else if k == 4 {
            assert(t[k] == "h3"@);
            assert("h3"@.len() == 2);
            assert(t[k] != "script"@ && t[k] != "style"@);
        } else if k == 5 {
            assert(t[k] == "h4"@);
            assert("h4"@.len() == 2);
            assert(t[k] != "script"@ && t[k] != "style"@);
        } else if k == 6 {
            assert(t[k] == "h5"@);
            assert("h5"@.len() == 2);
            assert(t[k] != "script"@ && t[k] != "style"@);
        } else if k == 7 {
            assert(t[k] == "h6"@);
            assert("h6"@.len() == 2);
            assert(t[k] != "script"@ && t[k] != "style"@);
        } else if k == 8 {
            assert(t[k] == "ul"@);
            assert("ul"@.len() == 2);
            assert(t[k] != "script"@ && t[k] != "style"@);
        } else if k == 9 {
            assert(t[k] == "ol"@);
            assert("ol"@.len() == 2);
            assert(t[k] != "script"@ && t[k] != "style"@);
        } else if k == 10 {
            assert(t[k] == "li"@);
            assert("li"@.len() == 2);
            assert(t[k] != "script"@ && t[k] != "style"@);
        } else if k == 11 {
            assert(t[k] == "strong"@);
            assert("strong"@.len() == 6);
            assert("script"@[1] != "strong"@[1]);
            assert(t[k] != "script"@ && t[k] != "style"@);
        } else if k == 12 {
            assert(t[k] == "em"@);
            assert("em"@.len() == 2);
            assert(t[k] != "script"@ && t[k] != "style"@);
        } else if k == 13 {
            assert(t[k] == "b"@);
            assert("b"@.len() == 1);
            assert(t[k] != "script"@ && t[k] != "style"@);
        } else if k == 14 {
            assert(t[k] == "i"@);
            assert("i"@.len() == 1);
            assert(t[k] != "script"@ && t[k] != "style"@);
        } else if k == 15 {
            assert(t[k] == "blockquote"@);
            assert("blockquote"@.len() == 10);
            assert(t[k] != "script"@ && t[k] != "style"@);
        } else if k == 16 {
            assert(t[k] == "pre"@);
            assert("pre"@.len() == 3);
            assert(t[k] != "script"@ && t[k] != "style"@);
        } else if k == 17 {
            assert(t[k] == "code"@);
            assert("code"@.len() == 4);
            assert(t[k] != "script"@ && t[k] != "style"@);
        } else if k == 18 {
            assert(t[k] == "div"@);
            assert("div"@.len() == 3);
            assert(t[k] != "script"@ && t[k] != "style"@);
        } else if k == 19 {
            assert(t[k] == "span"@);
            assert("span"@.len() == 4);
            assert(t[k] != "script"@ && t[k] != "style"@);
        } else if k == 20 {
            assert(t[k] == "a"@);
            assert("a"@.len() == 1);
            assert(t[k] != "script"@ && t[k] != "style"@);
        } else {
            assert(false);
        }
    }
}

/// A text with its XML escapes resolved, or the text itself where they do not resolve.
pub open spec fn unescaped_or_same(s: Seq<char>) -> Seq<char> {
    match xml_unescaped(s) {
        Some(t) => t,
        None => s,
    }
}

/// HTML with its XML escapes resolved (where they resolve) and cleaned down to the safe
/// formatting tags.
pub open spec fn sanitized_html(s: Seq<char>) -> Seq<char> {
    html_cleaned(safe_tags(), unescaped_or_same(s))
}

/// A text with its XML escapes resolved, or the text itself where they do not resolve.
pub(crate) fn unescape_or_same(s: &str) -> (r: String)
    ensures
        r@ == unescaped_or_same(s@),
{
    match xml_unescape(s) {
        Some(t) => t,
        None => string_from_chars(chars_of(s).as_slice()),
    }
}

/// HTML of a book description with its XML escapes resolved (kept as they are where they do
/// not resolve) and then cleaned down to the safe formatting tags.
pub fn sanitize_html(input: &str) -> (r: String)
    ensures
        r@ == sanitized_html(input@),
{
    let decoded = match xml_unescape(input) {
        Some(t) => t,
        None => string_from_chars(chars_of(input).as_slice()),
    };
    let tags: Vec<&str> = vec![
        "p", "br", "h1", "h2", "h3", "h4", "h5", "h6", "ul", "ol", "li", "strong", "em", "b", "i",
        "blockquote", "pre", "code", "div", "span", "a",
    ];
    assert(tags@.map_values(|t: &str| t@) =~= safe_tags());
    proof {
        lemma_safe_tags_keep_no_content_tags();
    }
    clean_html(&tags, decoded.as_str())
}

} // verus!
