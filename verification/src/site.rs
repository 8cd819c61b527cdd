//! Where the generated site puts things, and the links between its pages.
use vstd::prelude::*;
use crate::cache_manifest::CacheManifestBuilder;
use crate::lua_value::{decimal, write_decimal};
use crate::paths::{join, spec_join};
use crate::stats_types::{ContentType, StatBook, StatisticsData, WeeklyStats};
use crate::stats_calc::{keyed_weeks_view, week_stats_by_start, weeks_by_start, weeks_view};
use crate::text::{
    chars_of, find_first, first_from, lemma_occurs_in_concat, lemma_occurs_then_found, occurs_at,
    replace_first, replace_first_exec, string_from_chars,
};
use vstd::string::StringSliceAdditionalSpecFns;

verus! {

/// The current local time as RFC 3339 text (`chrono::Local::now().to_rfc3339()`). Nothing is
/// stated of it: it depends on the clock and the time zone.
#[verifier::external_body]
fn local_now_rfc3339() -> (r: String) {
    chrono::Local::now().to_rfc3339()
}

/// Generates the static site into an output directory.
pub struct SiteGenerator {
    pub output_dir: String,
    pub cache_manifest: CacheManifestBuilder,
}

/// `books`.
pub open spec fn books_name() -> Seq<char> {
    seq!['b', 'o', 'o', 'k', 's']
}

/// `comics`.
pub open spec fn comics_name() -> Seq<char> {
    seq!['c', 'o', 'm', 'i', 'c', 's']
}

/// `assets`.
pub open spec fn assets_name() -> Seq<char> {
    seq!['a', 's', 's', 'e', 't', 's']
}

/// `covers`.
pub open spec fn covers_name() -> Seq<char> {
    seq!['c', 'o', 'v', 'e', 'r', 's']
}

/// `recap`.
pub open spec fn recap_name() -> Seq<char> {
    seq!['r', 'e', 'c', 'a', 'p']
}

impl SiteGenerator {
    /// A generator writing into `output_dir`, whose cache manifest is versioned with the
    /// current time.
    pub fn new(output_dir: String) -> (r: Self)
        ensures
            r.output_dir@ == output_dir@,
            r.cache_manifest@.1 == Map::<Seq<char>, Seq<char>>::empty(),
    {
        let version = local_now_rfc3339();
        SiteGenerator { output_dir, cache_manifest: CacheManifestBuilder::new(version) }
    }

    /// Directory of the book pages.
    pub fn books_dir(&self) -> (r: String)
        ensures
            r@ == spec_join(self.output_dir@, books_name()),
    {
        proof {
            reveal_strlit("books");
        }
        join(self.output_dir.as_str(), "books")
    }

    /// Directory of the comic pages.
    pub fn comics_dir(&self) -> (r: String)
        ensures
            r@ == spec_join(self.output_dir@, comics_name()),
    {
        proof {
            reveal_strlit("comics");
        }
        join(self.output_dir.as_str(), "comics")
    }

    /// Directory of the recap pages.
    pub fn recap_dir(&self) -> (r: String)
        ensures
            r@ == spec_join(self.output_dir@, recap_name()),
    {
        proof {
            reveal_strlit("recap");
        }
        join(self.output_dir.as_str(), "recap")
    }

    /// Directory of the static assets.
    pub fn assets_dir(&self) -> (r: String)
        ensures
            r@ == spec_join(self.output_dir@, assets_name()),
    {
        proof {
            reveal_strlit("assets");
        }
        join(self.output_dir.as_str(), "assets")
    }

    /// Directory of the cover images.
    pub fn covers_dir(&self) -> (r: String)
        ensures
            r@ == spec_join(spec_join(self.output_dir@, assets_name()), covers_name()),
    {
        proof {
            reveal_strlit("covers");
        }
        let a = self.assets_dir();
        join(a.as_str(), "covers")
    }

    /// Directory of the calendar page.
    pub fn calendar_dir(&self) -> (r: String)
        ensures
            r@ == spec_join(self.output_dir@, "calendar"@),
    {
        join(self.output_dir.as_str(), "calendar")
    }

    /// Directory of the statistics page.
    pub fn statistics_dir(&self) -> (r: String)
        ensures
            r@ == spec_join(self.output_dir@, "statistics"@),
    {
        join(self.output_dir.as_str(), "statistics")
    }

    /// Directory of the style sheets.
    pub fn css_dir(&self) -> (r: String)
        ensures
            r@ == spec_join(spec_join(self.output_dir@, assets_name()), "css"@),
    {
        let a = self.assets_dir();
        join(a.as_str(), "css")
    }

    /// Directory of the scripts.
    pub fn js_dir(&self) -> (r: String)
        ensures
            r@ == spec_join(spec_join(self.output_dir@, assets_name()), "js"@),
    {
        let a = self.assets_dir();
        join(a.as_str(), "js")
    }

    /// Directory of the icons.
    pub fn icons_dir(&self) -> (r: String)
        ensures
            r@ == spec_join(spec_join(self.output_dir@, assets_name()), "icons"@),
    {
        let a = self.assets_dir();
        join(a.as_str(), "icons")
    }

    /// Directory of the JSON data.
    pub fn json_dir(&self) -> (r: String)
        ensures
            r@ == spec_join(spec_join(self.output_dir@, assets_name()), "json"@),
    {
        let a = self.assets_dir();
        join(a.as_str(), "json")
    }

    /// Directory of the statistics JSON data.
    pub fn statistics_json_dir(&self) -> (r: String)
        ensures
            r@ == spec_join(
                spec_join(spec_join(self.output_dir@, assets_name()), "json"@),
                "statistics"@,
            ),
    {
        let j = self.json_dir();
        join(j.as_str(), "statistics")
    }

    /// Directory of the calendar JSON data.
    pub fn calendar_json_dir(&self) -> (r: String)
        ensures
            r@ == spec_join(
                spec_join(spec_join(self.output_dir@, assets_name()), "json"@),
                "calendar"@,
            ),
    {
        let j = self.json_dir();
        join(j.as_str(), "calendar")
    }

    /// Directory of the pages of one kind of item.
    pub fn content_dir(&self, content_type: ContentType) -> (r: String)
        ensures
            r@ == spec_join(self.output_dir@, content_slug_text(content_type)),
    {
        match content_type {
            ContentType::Book => self.books_dir(),
            ContentType::Comic => self.comics_dir(),
        }
    }

    /// URL segment of one kind of item.
    pub fn content_slug(content_type: ContentType) -> (r: &'static str)
        ensures
            r@ == content_slug_text(content_type),
    {
        proof {
            reveal_strlit("books");
            reveal_strlit("comics");
        }
        match content_type {
            ContentType::Book => "books",
            ContentType::Comic => "comics",
        }
    }

    /// Link to the recap of the latest year in which a book was completed, if any.
    pub fn recap_latest_href(stats_data: Option<&StatisticsData>) -> (r: Option<String>)
        requires
            match stats_data {
                Some(sd) => year_prefixes_sliceable(sd.books@),
                None => true,
            },
        ensures
            match stats_data {
                None => r is None,
                Some(sd) => match latest_year(sd.books@) {
                    None => r is None,
                    Some(y) => r matches Some(h) && h@ == recap_href(y),
                },
            },
    {
        let sd = match stats_data {
            Some(sd) => sd,
            None => {
                return None;
            },
        };
        let mut best: Option<i32> = None;
        let mut i: usize = 0;
        while i < sd.books.len()
            invariant
                i <= sd.books.len(),
                year_prefixes_sliceable(sd.books@),
                best == latest_year(sd.books@.take(i as int)),
            decreases sd.books.len() - i,
        {
            assert(sd.books@.take(i + 1).drop_last() =~= sd.books@.take(i as int));
            assert(sd.books@.take(i + 1).last() == sd.books@[i as int]);
            assert(entry_prefixes_sliceable(sd.books@[i as int]));
            let b = book_latest_year(&sd.books[i]);
            best = match (best, b) {
                (Some(x), Some(y)) => if y > x {
                    Some(y)
                } else {
                    Some(x)
                },
                (None, y) => y,
                (x, None) => x,
            };
            i += 1;
        }
        assert(sd.books@.take(sd.books.len() as int) =~= sd.books@);
        match best {
            None => None,
            Some(y) => {
                let mut h: Vec<char> = Vec::new();
                h.push('/');
                h.push('r');
                h.push('e');
                h.push('c');
                h.push('a');
                h.push('p');
                h.push('/');
                write_decimal(&mut h, y as i64);
                h.push('/');
                assert(h@ =~= recap_href(y));
                Some(string_from_chars(h.as_slice()))
            },
        }
    }
}

/// `books` or `comics`.
pub open spec fn content_slug_text(t: ContentType) -> Seq<char> {
    match t {
        ContentType::Book => books_name(),
        ContentType::Comic => comics_name(),
    }
}

/// `/recap/<year>/`.
pub open spec fn recap_href(y: i32) -> Seq<char> {
    seq!['/', 'r', 'e', 'c', 'a', 'p', '/'] + decimal(y as int) + seq!['/']
}

/// Value of a run of ASCII digits.
pub open spec fn digits_value(b: Seq<u8>) -> int
    decreases b.len(),
{
    if b.len() == 0 {
        0
    } else {
        digits_value(b.drop_last()) * 10 + (b.last() - 48)
    }
}

/// Whether `b` is a non-empty run of ASCII digits.
pub open spec fn all_digits(b: Seq<u8>) -> bool {
    b.len() > 0 && forall|i: int| 0 <= i < b.len() ==> 48 <= #[trigger] b[i] <= 57
}

/// What `i32::from_str` reads from the (short) text with bytes `b`: an optional sign and then
/// digits.
pub open spec fn parse_short_int(b: Seq<u8>) -> Option<int> {
    if b.len() > 0 && (b[0] == 43 || b[0] == 45) {
        if all_digits(b.skip(1)) {
            Some(
                if b[0] == 45 {
                    -digits_value(b.skip(1))
                } else {
                    digits_value(b.skip(1))
                },
            )
        } else {
            None
        }
    } else if all_digits(b) {
        Some(digits_value(b))
    } else {
        None
    }
}

/// The year of a completion's end date: its first four bytes read as a number, when it has that
/// many bytes.
pub open spec fn end_date_year(end_date: Seq<char>) -> Option<int> {
    let b = vstd::utf8::encode_utf8(end_date);
    if b.len() >= 4 {
        parse_short_int(b.take(4))
    } else {
        None
    }
}

/// The latest year among a book's completions.
pub open spec fn latest_in_entries(es: Seq<crate::stats_types::ReadCompletion>) -> Option<int>
    decreases es.len(),
{
    if es.len() == 0 {
        None
    } else {
        let a = latest_in_entries(es.drop_last());
        match end_date_year(es.last().end_date@) {
            None => a,
            Some(y) => match a {
                Some(x) => if y > x {
                    Some(y)
                } else {
                    Some(x)
                },
                None => Some(y),
            },
        }
    }
}

/// The latest completion year of a book.
pub open spec fn book_latest(b: StatBook) -> Option<int> {
    match b.completions {
        Some(c) => latest_in_entries(c.entries@),
        None => None,
    }
}

/// The latest completion year of the books.
pub open spec fn latest_year(books: Seq<StatBook>) -> Option<i32>
    decreases books.len(),
{
    if books.len() == 0 {
        None
    } else {
        let a = latest_year(books.drop_last());
        match book_latest(books.last()) {
            None => a,
            Some(y) => match a {
                Some(x) => if y > x {
                    Some(y as i32)
                } else {
                    Some(x)
                },
                None => Some(y as i32),
            },
        }
    }
}

/// Every completion end date of the book with at least four bytes has a character boundary
/// after the fourth (so that its first four bytes can be sliced).
pub open spec fn entry_prefixes_sliceable(b: StatBook) -> bool {
    match b.completions {
        Some(c) => forall|j: int|
            0 <= j < c.entries@.len() ==> {
                let bytes = vstd::utf8::encode_utf8(#[trigger] c.entries@[j].end_date@);
                bytes.len() >= 4 ==> vstd::utf8::is_char_boundary(bytes, 4)
            },
        None => true,
    }
}

/// The end dates of all the books can be sliced after their fourth byte.
pub open spec fn year_prefixes_sliceable(books: Seq<StatBook>) -> bool {
    forall|i: int| 0 <= i < books.len() ==> entry_prefixes_sliceable(#[trigger] books[i])
}

/// `10` to the power `k`.
pub open spec fn pow10(k: int) -> int
    decreases k,
{
    if k <= 0 {
        1
    } else {
        10 * pow10(k - 1)
    }
}

/// Reads a sign and digits from at most four bytes.
pub(crate) fn parse_short(b: &[u8]) -> (r: Option<i32>)
    requires
        b@.len() <= 4,
    ensures
        match parse_short_int(b@) {
            Some(v) => r == Some(v as i32) && -10000 < v < 10000,
            None => r is None,
        },
{
    let n = b.len();
    if n == 0 {
        return None;
    }
    let signed = b[0] == 43 || b[0] == 45;
    let start: usize = if signed {
        1
    } else {
        0
    };
    if start == n {
        assert(b@.skip(1).len() == 0);
        return None;
    }
    let ghost d = b@.skip(start as int);
    assert(b@.skip(0) =~= b@);
    assert(pow10(4) == 10000) by {
        reveal_with_fuel(pow10, 5);
    }
    let mut v: i32 = 0;
    let mut i = start;
    while i < n
        invariant
            start <= i <= n,
            n == b@.len(),
            n <= 4,
            d == b@.skip(start as int),
            forall|k: int| 0 <= k < i - start ==> 48 <= #[trigger] d[k] <= 57,
            v == digits_value(d.take(i - start)),
            n > 0,
            start <= 1,
            (start == 1) == (b@[0] == 43 || b@[0] == 45),
            0 <= v < pow10(i - start),
            pow10(4) == 10000,
        decreases n - i,
    {
        if b[i] < 48 || b[i] > 57 {
            assert(d[i - start] == b@[i as int]);
            assert(!all_digits(d));
            return None;
        }
        assert(d[i - start] == b@[i as int]);
        assert(d.take(i - start + 1).drop_last() =~= d.take(i - start));
        assert(i - start <= 3);
        assert(pow10(i - start) <= 1000) by {
            reveal_with_fuel(pow10, 5);
        }
        v = v * 10 + (b[i] - 48) as i32;
        i += 1;
    }
    assert(d.take(n - start) =~= d);
    assert(all_digits(d));
    assert(pow10(i - start) <= 10000) by {
        reveal_with_fuel(pow10, 5);
    }
    if start == 1 {
        if b[0] == 45 {
            Some(-v)
        } else {
            Some(v)
        }
    } else {
        assert(d =~= b@);
        Some(v)
    }
}

/// The latest completion year of a book, if any of its end dates begins with a year.
fn book_latest_year(b: &StatBook) -> (r: Option<i32>)
    requires
        entry_prefixes_sliceable(*b),
    ensures
        match book_latest(*b) {
            Some(y) => r == Some(y as i32) && i32::MIN <= y <= i32::MAX,
            None => r is None,
        },
{
    match &b.completions {
        None => None,
        Some(c) => {
            let mut best: Option<i32> = None;
            let mut j: usize = 0;
            while j < c.entries.len()
                invariant
                    j <= c.entries.len(),
                    forall|k: int|
                        0 <= k < c.entries@.len() ==> {
                            let bytes = vstd::utf8::encode_utf8(#[trigger] c.entries@[k].end_date@);
                            bytes.len() >= 4 ==> vstd::utf8::is_char_boundary(bytes, 4)
                        },
                    match latest_in_entries(c.entries@.take(j as int)) {
                        Some(y) => best == Some(y as i32) && i32::MIN <= y <= i32::MAX,
                        None => best is None,
                    },
                decreases c.entries.len() - j,
            {
                assert(c.entries@.take(j + 1).drop_last() =~= c.entries@.take(j as int));
                assert(c.entries@.take(j + 1).last() == c.entries@[j as int]);
                let date = c.entries[j].end_date.as_str();
                assert(date@ == c.entries@[j as int].end_date@);
                let ghost eb = vstd::utf8::encode_utf8(c.entries@[j as int].end_date@);
                assert(eb.len() >= 4 ==> vstd::utf8::is_char_boundary(eb, 4));
                let ghost ey = end_date_year(c.entries@[j as int].end_date@);
                let all_bytes = date.as_bytes();
                let y = if all_bytes.len() >= 4 && date.is_char_boundary(4) {
                    let (head, _) = date.split_at(4);
                    let bytes = head.as_bytes();
                    assert(bytes@ =~= eb.take(4));
                    assert(ey == parse_short_int(bytes@));
                    parse_short(bytes)
                } else {
                    assert(eb.len() < 4);
                    assert(ey is None);
                    None
                };
                assert(match end_date_year(c.entries@[j as int].end_date@) {
                    Some(v) => y == Some(v as i32) && -10000 < v < 10000,
                    None => y is None,
                });
                best = match (best, y) {
                    (Some(x), Some(v)) => if v > x {
                        Some(v)
                    } else {
                        Some(x)
                    },
                    (None, v) => v,
                    (x, None) => x,
                };
                j += 1;
            }
            assert(c.entries@.take(c.entries.len() as int) =~= c.entries@);
            best
        },
    }
}

/// Builds the data snapshot that server mode serves and static mode exports.
pub struct SnapshotBuilder {
    pub output_dir: String,
    pub is_internal_server: bool,
}

/// What content the generated site has, so that the navigation can route to it.
#[derive(Clone, Copy, Debug)]
pub struct NavContext {
    pub has_books: bool,
    pub has_comics: bool,
    /// The statistics page is the site's root page rather than `/statistics/`.
    pub stats_at_root: bool,
}

impl NavContext {
    /// Whether the interface offers a filter between books and comics: when there are both.
    pub fn show_type_filter(self) -> (r: bool)
        ensures
            r == (self.has_books && self.has_comics),
    {
        self.has_books && self.has_comics
    }
}

impl SiteGenerator {
    /// Weeks keyed by start date, the first week winning for a shared start date.
    pub fn week_stats_by_key(weeks: &Vec<WeeklyStats>) -> (r: Vec<(String, WeeklyStats)>)
        ensures
            keyed_weeks_view(r@) == weeks_by_start(weeks_view(weeks@)),
    {
        week_stats_by_start(weeks)
    }
}

impl SnapshotBuilder {
    /// Weeks keyed by start date, the first week winning for a shared start date.
    pub fn week_stats_by_key(weeks: &Vec<WeeklyStats>) -> (r: Vec<(String, WeeklyStats)>)
        ensures
            keyed_weeks_view(r@) == weeks_by_start(weeks_view(weeks@)),
    {
        week_stats_by_start(weeks)
    }
}

/// Addresses of a year's recap share images.
pub struct RecapShareAssets {
    pub story_url: String,
    pub square_url: String,
    pub banner_url: String,
}

/// `/assets/recap/<year>_share_<kind>.webp`.
pub open spec fn share_asset_url(year: i32, kind: Seq<char>) -> Seq<char> {
    "/assets/recap/"@ + decimal(year as int) + "_share_"@ + kind + ".webp"@
}

/// The address of one share image of a year.
fn share_asset(year: i32, kind: &str) -> (r: String)
    ensures
        r@ == share_asset_url(year, kind@),
{
    let mut v = chars_of("/assets/recap/");
    write_decimal(&mut v, year as i64);
    let mut mid = chars_of("_share_");
    let mut k = chars_of(kind);
    let mut ext = chars_of(".webp");
    v.append(&mut mid);
    v.append(&mut k);
    v.append(&mut ext);
    string_from_chars(v.as_slice())
}

/// The addresses of the story, square and banner share images of a year's recap.
pub fn recap_share_assets_for_year(year: i32) -> (r: RecapShareAssets)
    ensures
        r.story_url@ == share_asset_url(year, "story"@),
        r.square_url@ == share_asset_url(year, "square"@),
        r.banner_url@ == share_asset_url(year, "banner"@),
{
    RecapShareAssets {
        story_url: share_asset(year, "story"),
        square_url: share_asset(year, "square"),
        banner_url: share_asset(year, "banner"),
    }
}

/// `parts` joined by single spaces.
pub open spec fn join_words(parts: Seq<Seq<char>>) -> Seq<char>
    decreases parts.len(),
{
    if parts.len() == 0 {
        Seq::empty()
    } else if parts.len() == 1 {
        parts[0]
    } else {
        join_words(parts.drop_last()) + seq![' '] + parts.last()
    }
}

/// The non-zero parts of a positive duration: whole days, hours and minutes, each with its
/// unit; the minutes also when nothing else is shown.
pub open spec fn duration_parts(seconds: int, d: Seq<char>, h: Seq<char>, m: Seq<char>) -> Seq<
    Seq<char>,
> {
    let total_minutes = seconds / 60;
    let days = total_minutes / 1440;
    let hours = (total_minutes % 1440) / 60;
    let mins = total_minutes % 60;
    let p1 = if days > 0 {
        seq![decimal(days) + d]
    } else {
        Seq::empty()
    };
    let p2 = if hours > 0 {
        p1.push(decimal(hours) + h)
    } else {
        p1
    };
    if mins > 0 || p2.len() == 0 {
        p2.push(decimal(mins) + m)
    } else {
        p2
    }
}

/// A duration in seconds as text (e.g. `2d 5h 30m` with the units `d`, `h` and `m`):
/// `0` and the minute unit when it is not positive.
pub open spec fn duration_text(seconds: int, d: Seq<char>, h: Seq<char>, m: Seq<char>) -> Seq<
    char,
> {
    if seconds <= 0 {
        seq!['0'] + m
    } else {
        join_words(duration_parts(seconds, d, h, m))
    }
}

/// Appends a part to the words written so far.
fn push_word(out: &mut Vec<char>, parts: Ghost<Seq<Seq<char>>>, first: bool, n: i64, unit: &str)
    requires
        old(out)@ == join_words(parts@),
        first == (parts@.len() == 0),
        n >= 0,
    ensures
        final(out)@ == join_words(parts@.push(decimal(n as int) + unit@)),
{
    let ghost before = out@;
    if !first {
        out.push(' ');
    }
    write_decimal(out, n);
    let mut u = chars_of(unit);
    out.append(&mut u);
    proof {
        let q = parts@.push(decimal(n as int) + unit@);
        assert(q.drop_last() =~= parts@);
        if parts@.len() == 0 {
            assert(join_words(q) == q[0]);
            assert(out@ =~= decimal(n as int) + unit@);
        } else {
            assert(out@ =~= before + seq![' '] + (decimal(n as int) + unit@));
        }
    }
}

/// Formats a duration in seconds with the given day, hour and minute units (see
/// `duration_text`).
pub fn format_duration(seconds: i64, day_unit: &str, hour_unit: &str, minute_unit: &str) -> (r:
    String)
    ensures
        r@ == duration_text(seconds as int, day_unit@, hour_unit@, minute_unit@),
{
    if seconds <= 0 {
        let mut out = chars_of("0");
        let mut u = chars_of(minute_unit);
        out.append(&mut u);
        proof {
            reveal_strlit("0");
        }
        assert(out@ =~= seq!['0'] + minute_unit@);
        return string_from_chars(out.as_slice());
    }
    let total_minutes = seconds / 60;
    let days = total_minutes / 1440;
    let hours = (total_minutes % 1440) / 60;
    let mins = total_minutes % 60;
    let ghost parts: Seq<Seq<char>> = Seq::empty();
    let mut out: Vec<char> = Vec::new();
    let mut first = true;
    assert(out@ =~= join_words(parts));
    if days > 0 {
        push_word(&mut out, Ghost(parts), first, days, day_unit);
        first = false;
        proof {
            parts = parts.push(decimal(days as int) + day_unit@);
        }
    }
    if hours > 0 {
        push_word(&mut out, Ghost(parts), first, hours, hour_unit);
        first = false;
        proof {
            parts = parts.push(decimal(hours as int) + hour_unit@);
        }
    }
    if mins > 0 || first {
        push_word(&mut out, Ghost(parts), first, mins, minute_unit);
        proof {
            parts = parts.push(decimal(mins as int) + minute_unit@);
        }
    }
    proof {
        let dp = duration_parts(seconds as int, day_unit@, hour_unit@, minute_unit@);
        assert(parts =~= dp);
    }
    string_from_chars(out.as_slice())
}

/// The script that tells the frontend its server mode.
pub open spec fn server_mode_script(mode: Seq<char>) -> Seq<char> {
    "<script>window.__KOSHELF_SERVER_MODE = '"@ + mode + "';</script>"@
}

proof fn lemma_script_names_mode(mode: Seq<char>)
    ensures
        occurs_at(server_mode_script(mode), "__KOSHELF_SERVER_MODE"@, 15),
{
    reveal_strlit("<script>window.__KOSHELF_SERVER_MODE = '");
    reveal_strlit("__KOSHELF_SERVER_MODE");
    let a = "<script>window.__KOSHELF_SERVER_MODE = '"@;
    assert(a.subrange(15, 36) =~= "__KOSHELF_SERVER_MODE"@);
    lemma_occurs_in_concat(Seq::empty(), a, mode + "';</script>"@, "__KOSHELF_SERVER_MODE"@, 15);
    assert(Seq::<char>::empty() + a + (mode + "';</script>"@) =~= server_mode_script(mode));
}

/// The frontend's index page with the server-mode script: unchanged when it already mentions
/// `__KOSHELF_SERVER_MODE`; else the script goes right after the first `<head>`, else right
/// before the first `<body`, else in front of the page.
pub open spec fn injected_index(html: Seq<char>, mode: Seq<char>) -> Seq<char> {
    let script = server_mode_script(mode);
    if first_from(html, "__KOSHELF_SERVER_MODE"@, 0) >= 0 {
        html
    } else if first_from(html, "<head>"@, 0) >= 0 {
        replace_first(html, "<head>"@, "<head>\n        "@ + script)
    } else if first_from(html, "<body"@, 0) >= 0 {
        replace_first(html, "<body"@, script + "\n    <body"@)
    } else {
        script + "\n"@ + html
    }
}

/// Adding the server-mode script is idempotent: a page that already got it is left as it is,
/// whatever mode a second call names.
pub proof fn lemma_injection_is_idempotent(html: Seq<char>, m1: Seq<char>, m2: Seq<char>)
    ensures
        injected_index(injected_index(html, m1), m2) == injected_index(html, m1),
{
    let mk = "__KOSHELF_SERVER_MODE"@;
    let script = server_mode_script(m1);
    let r = injected_index(html, m1);
    lemma_script_names_mode(m1);
    if first_from(html, mk, 0) >= 0 {
    } else if first_from(html, "<head>"@, 0) >= 0 {
        let k = first_from(html, "<head>"@, 0);
        let p = "<head>\n        "@;
        lemma_occurs_in_concat(p, script, Seq::empty(), mk, 15);
        assert(p + script + Seq::<char>::empty() =~= p + script);
        let rest = html.skip(k + "<head>"@.len());
        lemma_occurs_in_concat(html.take(k), p + script, rest, mk, (p.len() + 15) as int);
        lemma_occurs_then_found(r, mk, 0, (html.take(k).len() + p.len() + 15) as int);
    } else if first_from(html, "<body"@, 0) >= 0 {
        let k = first_from(html, "<body"@, 0);
        let q = "\n    <body"@;
        lemma_occurs_in_concat(Seq::empty(), script, q, mk, 15);
        assert(Seq::<char>::empty() + script + q =~= script + q);
        let rest = html.skip(k + "<body"@.len());
        lemma_occurs_in_concat(html.take(k), script + q, rest, mk, 15);
        lemma_occurs_then_found(r, mk, 0, (html.take(k).len() + 15) as int);
    } else {
        lemma_occurs_in_concat(Seq::empty(), script, "\n"@ + html, mk, 15);
        assert(Seq::<char>::empty() + script + ("\n"@ + html) =~= script + "\n"@ + html);
        lemma_occurs_then_found(r, mk, 0, 15);
    }
}

impl SnapshotBuilder {
    /// The frontend's index page with the server-mode script added (see `injected_index`).
    pub fn inject_server_mode_script(index_html: &str, server_mode: &str) -> (r: String)
        ensures
            r@ == injected_index(index_html@, server_mode@),
    {
        let html = chars_of(index_html);
        let mut script = chars_of("<script>window.__KOSHELF_SERVER_MODE = '");
        let mut mode = chars_of(server_mode);
        let mut tail = chars_of("';</script>");
        script.append(&mut mode);
        script.append(&mut tail);
        let marker = chars_of("__KOSHELF_SERVER_MODE");
        if find_first(&html, &marker).is_some() {
            return string_from_chars(html.as_slice());
        }
        let head = chars_of("<head>");
        if find_first(&html, &head).is_some() {
            let mut rep = chars_of("<head>\n        ");
            let mut sc = script.clone();
            rep.append(&mut sc);
            return string_from_chars(replace_first_exec(&html, &head, &rep).as_slice());
        }
        let body = chars_of("<body");
        if find_first(&html, &body).is_some() {
            let mut rep = script.clone();
            let mut rest = chars_of("\n    <body");
            rep.append(&mut rest);
            return string_from_chars(replace_first_exec(&html, &body, &rep).as_slice());
        }
        let mut out = script;
        let mut nl = chars_of("\n");
        let mut page = html;
        out.append(&mut nl);
        out.append(&mut page);
        string_from_chars(out.as_slice())
    }

    /// A builder for the given output directory.
    pub fn new(output_dir: String, is_internal_server: bool) -> (r: Self)
        ensures
            r.output_dir@ == output_dir@,
            r.is_internal_server == is_internal_server,
    {
        SnapshotBuilder { output_dir, is_internal_server }
    }

    /// Directory of the assets: the output directory itself for the internal server, else its
    /// `assets` directory.
    pub fn assets_dir(&self) -> (r: String)
        ensures
            r@ == (if self.is_internal_server {
                self.output_dir@
            } else {
                spec_join(self.output_dir@, assets_name())
            }),
    {
        proof {
            reveal_strlit("assets");
        }
        if self.is_internal_server {
            string_from_chars(crate::text::chars_of(self.output_dir.as_str()).as_slice())
        } else {
            join(self.output_dir.as_str(), "assets")
        }
    }

    /// Directory of the cover images.
    pub fn covers_dir(&self) -> (r: String)
        ensures
            r@ == spec_join(
                if self.is_internal_server {
                    self.output_dir@
                } else {
                    spec_join(self.output_dir@, assets_name())
                },
                covers_name(),
            ),
    {
        proof {
            reveal_strlit("covers");
        }
        let a = self.assets_dir();
        join(a.as_str(), "covers")
    }

    /// Directory of the recap share images.
    pub fn recap_dir(&self) -> (r: String)
        ensures
            r@ == spec_join(
                if self.is_internal_server {
                    self.output_dir@
                } else {
                    spec_join(self.output_dir@, assets_name())
                },
                recap_name(),
            ),
    {
        proof {
            reveal_strlit("recap");
        }
        let a = self.assets_dir();
        join(a.as_str(), "recap")
    }
}

} // verus!
