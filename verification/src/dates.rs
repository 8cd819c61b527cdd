//! Calendar dates, as chrono reads and writes them.
use vstd::prelude::*;

verus! {

/// The day number (`Datelike::num_days_from_ce`) of the date that chrono reads from `s` with
/// the format `%Y-%m-%d`, or `None` when chrono reads no such date.
pub uninterp spec fn iso_date_day(s: Seq<char>) -> Option<i32>;

/// The `%Y-%m-%d` text chrono writes for the date with day number `day` (for a day number chrono
/// has no date for, that of 1970-01-01, `NaiveDate`'s default, which `day_text` falls back to).
pub uninterp spec fn iso_date_text(day: i32) -> Seq<char>;

/// Reads a date with `chrono::NaiveDate::parse_from_str(s, "%Y-%m-%d")` and gives its day number
/// together with its `%Y-%m-%d` text. The contract names both results; which texts chrono
/// accepts, and how day numbers count, is left to chrono.
#[verifier::external_body]
pub(crate) fn parse_iso_date(s: &str) -> (r: Option<(i32, String)>)
    ensures
        match iso_date_day(s@) {
            Some(d) => r matches Some(x) && x.0 == d && x.1@ == iso_date_text(d),
            None => r is None,
        },
{
    chrono::NaiveDate::parse_from_str(s, "%Y-%m-%d").ok().map(
        |d| (chrono::Datelike::num_days_from_ce(&d), d.format("%Y-%m-%d").to_string()),
    )
}

/// Today's day number in the machine's local time zone (`chrono::Local::now`). Nothing is
/// stated of the result: it depends on the clock and the time zone.
#[verifier::external_body]
pub(crate) fn today_local_day() -> (r: i32) {
    chrono::Datelike::num_days_from_ce(&chrono::Local::now().date_naive())
}

} // verus!
