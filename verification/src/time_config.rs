//! Time zone and logical day start used to map Unix timestamps to reading dates.
//!
//! The time zone is an IANA name known to chrono-tz; without one the machine's local time zone
//! is used. `day_start_minutes` shifts the day boundary (240 = 04:00, so reading at 02:00 counts
//! as the previous calendar day).
use vstd::prelude::*;
use crate::dates::iso_date_text;
use crate::text::{chars_of, copy_string, opt_text, string_from_chars, trim_chars, trim_ws};

verus! {

/// Whether chrono-tz has a time zone of exactly this name (`Tz::from_str`).
pub uninterp spec fn tz_known(name: Seq<char>) -> bool;

/// The day number (`num_days_from_ce`) of the date, in time zone `zone`, that is `shift`
/// minutes before the instant `ts`.
pub uninterp spec fn zoned_day(zone: Seq<char>, ts: i64, shift: u16) -> i32;

/// The instant `ts` in time zone `zone`, formatted `%Y-%m-%dT%H:%M:%S%:z`.
pub uninterp spec fn zoned_rfc3339(zone: Seq<char>, ts: i64) -> Seq<char>;

/// Whether chrono represents the Unix second `ts` (`DateTime::<Utc>::from_timestamp` gives a
/// value): from -262143-01-01T00:00:00Z to 262142-12-31T23:59:59Z.
pub open spec fn chrono_timestamp_ok(ts: i64) -> bool {
    -8334601228800 <= ts <= 8210266876799
}

/// The instant chrono reads a Unix second as: itself, or the epoch when chrono cannot represent it.
pub open spec fn effective_ts(ts: i64) -> i64 {
    if chrono_timestamp_ok(ts) {
        ts
    } else {
        0
    }
}

/// Whether the Unix second `t` lies at least a day inside chrono's range, so that its local time
/// in any time zone (offsets are less than a day) is one chrono represents; outside that,
/// chrono's `naive_local` panics for some offsets.
pub open spec fn chrono_inner_ts(t: int) -> bool {
    -8334601228800 + 86400 <= t <= 8210266876799 - 86400
}

/// Whether the instant `effective_ts(ts)` and the instant `shift` minutes before it both lie a
/// day inside chrono's range (see `chrono_inner_ts`).
pub open spec fn day_shift_ok(ts: i64, shift: u16) -> bool {
    chrono_inner_ts(effective_ts(ts) as int) && chrono_inner_ts(effective_ts(ts) - 60 * shift)
}

/// The day number (`num_days_from_ce`) of the date of the wall-clock second `secs` counted from
/// the epoch (1970-01-01 is day 719163).
pub open spec fn day_number_at(secs: int) -> int {
    719163 + secs / 86400
}

/// Whether `d` is the day number of the wall-clock time `secs` shifted by an offset of less
/// than a day, as any time zone's local time is.
pub open spec fn local_day_of(d: int, secs: int) -> bool {
    exists|off: int| -86400 < off < 86400 && d == #[trigger] day_number_at(secs + off)
}

/// `DateTime::<Utc>::from_timestamp(ts, 0).is_some()`.
#[verifier::external_body]
pub(crate) fn timestamp_in_range(ts: i64) -> (r: bool)
    ensures
        r == chrono_timestamp_ok(ts),
{
    chrono::DateTime::<chrono::Utc>::from_timestamp(ts, 0).is_some()
}

/// `ts`, or the epoch where chrono cannot represent it.
pub(crate) fn effective_timestamp(ts: i64) -> (r: i64)
    ensures
        r == effective_ts(ts),
        chrono_timestamp_ok(r),
{
    if timestamp_in_range(ts) {
        ts
    } else {
        0
    }
}

/// `name.parse::<chrono_tz::Tz>()` succeeds; the contract names the outcome.
#[verifier::external_body]
fn tz_exists(name: &str) -> (r: bool)
    ensures
        r == tz_known(name@),
{
    name.parse::<chrono_tz::Tz>().is_ok()
}

/// The day number of the date in time zone `zone` that is `shift` minutes before `ts`
/// (`from_utc_datetime`, `- Duration::minutes`, `num_days_from_ce`); the contract names it, and
/// states that it is the date of that instant moved by the zone's offset there, which is under
/// a day (chrono-tz offsets are `FixedOffset`s).
#[verifier::external_body]
fn zone_day(zone: &str, ts: i64, shift: u16) -> (r: i32)
    requires
        tz_known(zone@),
        chrono_inner_ts(ts as int),
        chrono_inner_ts(ts - 60 * shift),
    ensures
        r == zoned_day(zone@, ts, shift),
        local_day_of(r as int, ts - 60 * shift),
{
    let tz: chrono_tz::Tz = zone.parse().unwrap();
    let utc = chrono::DateTime::<chrono::Utc>::from_timestamp(ts, 0).unwrap();
    let zoned = chrono::TimeZone::from_utc_datetime(&tz, &utc.naive_utc());
    chrono::Datelike::num_days_from_ce(&(zoned - chrono::Duration::minutes(shift as i64)).date_naive())
}

/// The day number of the local date (machine time zone) that is `shift` minutes before `ts`.
/// Which date depends on the machine's time zone; what holds of every zone is stated: it is the
/// date of that instant moved by the zone's offset there, which chrono keeps under a day
/// (`FixedOffset`).
#[verifier::external_body]
pub(crate) fn local_day(ts: i64, shift: u16) -> (r: i32)
    requires
        chrono_inner_ts(ts as int),
        chrono_inner_ts(ts - 60 * shift),
    ensures
        local_day_of(r as int, ts - 60 * shift),
{
    let utc = chrono::DateTime::<chrono::Utc>::from_timestamp(ts, 0).unwrap();
    let local = utc.with_timezone(&chrono::Local);
    chrono::Datelike::num_days_from_ce(&(local - chrono::Duration::minutes(shift as i64)).date_naive())
}

/// The `%Y-%m-%d` text of the date with day number `day`; the contract names the result.
#[verifier::external_body]
pub(crate) fn day_text(day: i32) -> (r: String)
    ensures
        r@ == iso_date_text(day),
{
    chrono::NaiveDate::from_num_days_from_ce_opt(day).unwrap_or_default().format("%Y-%m-%d").to_string()
}

/// The current Unix timestamp (`Utc::now().timestamp()`): a second chrono represents, nothing
/// more is stated of it.
#[verifier::external_body]
fn now_timestamp() -> (r: i64)
    ensures
        chrono_timestamp_ok(r),
{
    chrono::Utc::now().timestamp()
}

/// `ts` in time zone `zone` as RFC 3339; the contract names the result.
#[verifier::external_body]
fn zone_rfc3339(zone: &str, ts: i64) -> (r: String)
    requires
        tz_known(zone@),
        chrono_timestamp_ok(ts),
    ensures
        r@ == zoned_rfc3339(zone@, ts),
{
    let tz: chrono_tz::Tz = zone.parse().unwrap();
    let utc = chrono::DateTime::<chrono::Utc>::from_timestamp(ts, 0).unwrap();
    chrono::TimeZone::from_utc_datetime(&tz, &utc.naive_utc()).format("%Y-%m-%dT%H:%M:%S%:z").to_string()
}

/// `ts` in the machine's time zone as RFC 3339. Nothing is stated of the result: it depends on
/// the machine's time zone.
#[verifier::external_body]
fn local_rfc3339(ts: i64) -> (r: String)
    requires
        chrono_timestamp_ok(ts),
{
    let utc = chrono::DateTime::<chrono::Utc>::from_timestamp(ts, 0).unwrap();
    utc.with_timezone(&chrono::Local).format("%Y-%m-%dT%H:%M:%S%:z").to_string()
}

/// Whether chrono reads a wall-clock date and time from `text` with `pattern`
/// (`NaiveDateTime::parse_from_str`).
pub uninterp spec fn naive_parses(text: Seq<char>, pattern: Seq<char>) -> bool;

/// The instants at which the wall-clock time read from `text` with `pattern` occurs in time zone
/// `zone`, earliest first, each formatted `%Y-%m-%dT%H:%M:%S%:z`: none in a gap, two in a fold.
pub uninterp spec fn zoned_wall_instants(zone: Seq<char>, text: Seq<char>, pattern: Seq<char>) -> Seq<
    Seq<char>,
>;

/// Whether `NaiveDateTime::parse_from_str(text, pattern)` succeeds; the contract names it.
#[verifier::external_body]
fn parses_naive(text: &str, pattern: &str) -> (r: bool)
    ensures
        r == naive_parses(text@, pattern@),
{
    chrono::NaiveDateTime::parse_from_str(text, pattern).is_ok()
}

/// The instants of a wall-clock time in time zone `zone` (`TimeZone::from_local_datetime`),
/// each arm of chrono's `LocalResult` turned into a list; the contract names the result.
#[verifier::external_body]
fn zone_wall_instants(zone: &str, text: &str, pattern: &str) -> (r: Vec<String>)
    requires
        tz_known(zone@),
        naive_parses(text@, pattern@),
    ensures
        r@.map_values(|t: String| t@) == zoned_wall_instants(zone@, text@, pattern@),
{
    let tz: chrono_tz::Tz = zone.parse().unwrap();
    let naive = chrono::NaiveDateTime::parse_from_str(text, pattern).unwrap();
    let f = "%Y-%m-%dT%H:%M:%S%:z";
    match chrono::TimeZone::from_local_datetime(&tz, &naive) {
        chrono::LocalResult::Single(d) => vec![d.format(f).to_string()],
        chrono::LocalResult::Ambiguous(a, b) => vec![a.format(f).to_string(), b.format(f).to_string()],
        chrono::LocalResult::None => vec![],
    }
}

/// The instants of a wall-clock time in the machine's time zone, as `zone_wall_instants`.
/// Nothing is stated of the result: it depends on the machine's time zone.
#[verifier::external_body]
fn local_wall_instants(text: &str, pattern: &str) -> (r: Vec<String>)
    requires
        naive_parses(text@, pattern@),
{
    let naive = chrono::NaiveDateTime::parse_from_str(text, pattern).unwrap();
    let f = "%Y-%m-%dT%H:%M:%S%:z";
    match chrono::TimeZone::from_local_datetime(&chrono::Local, &naive) {
        chrono::LocalResult::Single(d) => vec![d.format(f).to_string()],
        chrono::LocalResult::Ambiguous(a, b) => vec![a.format(f).to_string(), b.format(f).to_string()],
        chrono::LocalResult::None => vec![],
    }
}

/// Why a time configuration was refused.
pub enum TimeConfigError {
    /// The time zone name, unknown to chrono-tz.
    InvalidTimezone(String),
    /// The day start is not two parts around one `:`.
    InvalidDayStartFormat,
    /// The day start's hour is not a number.
    InvalidHour,
    /// The day start's minute is not a number.
    InvalidMinute,
    /// The day start lies outside 00:00 to 23:59.
    DayStartOutOfRange,
}

/// Time zone (an IANA name known to chrono-tz; `None` for the machine's) and day start.
pub struct TimeConfig {
    pub timezone: Option<String>,
    pub day_start_minutes: u16,
}

/// The digit value of `c`, for an ASCII digit.
pub open spec fn digit_of(c: char) -> int {
    (c as int) - ('0' as int)
}

/// Whether every character of `s` is an ASCII digit.
pub open spec fn all_ascii_digits(s: Seq<char>) -> bool {
    forall|i: int| 0 <= i < s.len() ==> '0' <= #[trigger] s[i] <= '9'
}

/// The value of the decimal digits `s`.
pub open spec fn digits_number(s: Seq<char>) -> int
    decreases s.len(),
{
    if s.len() == 0 {
        0
    } else {
        digits_number(s.drop_last()) * 10 + digit_of(s.last())
    }
}

/// What the `from_str` of an unsigned integer type with largest value `max` reads from `s`: an
/// optional `+` and then at least one ASCII digit, with a value of at most `max`.
pub open spec fn parse_unsigned_text(s: Seq<char>, max: int) -> Option<int> {
    let d = if s.len() > 0 && s[0] == '+' {
        s.skip(1)
    } else {
        s
    };
    if d.len() > 0 && all_ascii_digits(d) && digits_number(d) <= max {
        Some(digits_number(d))
    } else {
        None
    }
}

/// What `u16::from_str` reads from `s`.
pub open spec fn parse_u16_text(s: Seq<char>) -> Option<int> {
    parse_unsigned_text(s, u16::MAX as int)
}

/// Number of `c` in `s`.
pub open spec fn count_char(s: Seq<char>, c: char) -> int
    decreases s.len(),
{
    if s.len() == 0 {
        0
    } else {
        count_char(s.drop_last(), c) + if s.last() == c {
            1int
        } else {
            0
        }
    }
}

/// Index of the first `c` in `s` (its length when there is none).
pub open spec fn index_of(s: Seq<char>, c: char) -> int
    decreases s.len(),
{
    if s.len() == 0 {
        0
    } else if s[0] == c {
        0
    } else {
        1 + index_of(s.drop_first(), c)
    }
}

/// The minutes after midnight of a day start written `HH:MM`, or why it is refused.
pub open spec fn day_start_of(s: Seq<char>) -> Result<int, TimeConfigError> {
    if count_char(s, ':') != 1 {
        Err(TimeConfigError::InvalidDayStartFormat)
    } else {
        let k = index_of(s, ':');
        match parse_u16_text(s.take(k)) {
            None => Err(TimeConfigError::InvalidHour),
            Some(h) => match parse_u16_text(s.skip(k + 1)) {
                None => Err(TimeConfigError::InvalidMinute),
                Some(m) => if h > 23 || m > 59 {
                    Err(TimeConfigError::DayStartOutOfRange)
                } else {
                    Ok(h * 60 + m)
                },
            },
        }
    }
}

/// The text of an optional string that is not blank.
pub open spec fn nonblank(o: Option<String>) -> Option<Seq<char>> {
    match o {
        Some(t) => if trim_ws(t@).len() > 0 {
            Some(t@)
        } else {
            None
        },
        None => None,
    }
}

/// Whether the time zone, if any, is known to chrono-tz.
pub open spec fn zone_ok(tz: Option<String>) -> bool {
    match tz {
        Some(z) => tz_known(z@),
        None => true,
    }
}

proof fn lemma_digits_number_mono(s: Seq<char>, k: int)
    requires
        0 <= k <= s.len(),
        all_ascii_digits(s),
    ensures
        0 <= digits_number(s.take(k)) <= digits_number(s),
    decreases s.len(),
{
    if k < s.len() {
        assert(all_ascii_digits(s.drop_last())) by {
            assert forall|i: int| 0 <= i < s.drop_last().len() implies '0' <= #[trigger] s.drop_last()[i]
                <= '9' by {
                assert(s.drop_last()[i] == s[i]);
            }
        }
        lemma_digits_number_mono(s.drop_last(), k);
        assert(s.drop_last().take(k) =~= s.take(k));
        assert('0' <= s[s.len() - 1] <= '9');
    } else {
        assert(s.take(k) =~= s);
        lemma_digits_number_nonneg(s);
    }
}

proof fn lemma_digits_number_nonneg(s: Seq<char>)
    requires
        all_ascii_digits(s),
    ensures
        digits_number(s) >= 0,
    decreases s.len(),
{
    if s.len() > 0 {
        assert(all_ascii_digits(s.drop_last())) by {
            assert forall|i: int| 0 <= i < s.drop_last().len() implies '0' <= #[trigger] s.drop_last()[i]
                <= '9' by {
                assert(s.drop_last()[i] == s[i]);
            }
        }
        lemma_digits_number_nonneg(s.drop_last());
        assert('0' <= s[s.len() - 1] <= '9');
    }
}

/// Reads an unsigned number of at most `max` as the `from_str` of unsigned integer types does
/// (see `parse_unsigned_text`).
pub(crate) fn parse_unsigned_chars(s: &Vec<char>, from: usize, to: usize, max: u32) -> (r: Option<u32>)
    requires
        from <= to <= s.len(),
    ensures
        match parse_unsigned_text(s@.subrange(from as int, to as int), max as int) {
            Some(v) => r == Some(v as u32) && 0 <= v <= max,
            None => r is None,
        },
{
    let ghost t = s@.subrange(from as int, to as int);
    let mut start = from;
    if start < to && s[start] == '+' {
        start = start + 1;
    }
    let ghost d = s@.subrange(start as int, to as int);
    assert(d =~= if t.len() > 0 && t[0] == '+' {
        t.skip(1)
    } else {
        t
    });
    assert(parse_unsigned_text(t, max as int) == if d.len() > 0 && all_ascii_digits(d) && digits_number(d) <= max {
        Some(digits_number(d))
    } else {
        None
    });
    if start == to {
        return None;
    }
    let mut value: u64 = 0;
    let mut i = start;
    while i < to
        invariant
            start <= i <= to <= s.len(),
            d == s@.subrange(start as int, to as int),
            t == s@.subrange(from as int, to as int),
            d.len() > 0,
            parse_unsigned_text(t, max as int) == if d.len() > 0 && all_ascii_digits(d) && digits_number(d)
                <= max {
                Some(digits_number(d))
            } else {
                None
            },
            all_ascii_digits(d.take(i - start)),
            value as int == digits_number(d.take(i - start)),
            value <= max,
        decreases to - i,
    {
        let c = s[i];
        assert(d[i - start] == c);
        if c < '0' || c > '9' {
            assert(!all_ascii_digits(d));
            return None;
        }
        let ghost p = d.take(i - start);
        assert(d.take(i + 1 - start) =~= p.push(c));
        assert(d.take(i + 1 - start).drop_last() =~= p);
        let digit = (c as u64) - ('0' as u64);
        value = value * 10 + digit;
        assert(all_ascii_digits(d.take(i + 1 - start))) by {
            assert forall|k: int| 0 <= k < d.take(i + 1 - start).len() implies '0' <= #[trigger] d.take(
                i + 1 - start,
            )[k] <= '9' by {
                if k < p.len() {
                    assert(d.take(i + 1 - start)[k] == p[k]);
                }
            }
        }
        if value > max as u64 {
            proof {
                if all_ascii_digits(d) {
                    lemma_digits_number_mono(d, i + 1 - start);
                }
            }
            return None;
        }
        i += 1;
    }
    assert(d.take(to - start) =~= d);
    Some(value as u32)
}

impl TimeConfig {
    /// A configuration with the given time zone and day start.
    pub fn new(timezone: Option<String>, day_start_minutes: u16) -> (r: Self)
        ensures
            r.timezone == timezone,
            r.day_start_minutes == day_start_minutes,
    {
        TimeConfig { timezone, day_start_minutes }
    }

    /// Minutes after midnight of a day start written `HH:MM` (see `day_start_of`).
    pub fn parse_day_start_minutes(s: &str) -> (r: Result<u16, TimeConfigError>)
        ensures
            match day_start_of(s@) {
                Ok(m) => r matches Ok(x) && x == m,
                Err(e) => r matches Err(x) && x == e,
            },
    {
        let v = chars_of(s);
        let mut colons: usize = 0;
        let mut i: usize = 0;
        while i < v.len()
            invariant
                i <= v.len(),
                colons as int == count_char(v@.take(i as int), ':'),
                colons <= i,
            decreases v.len() - i,
        {
            assert(v@.take(i + 1).drop_last() =~= v@.take(i as int));
            if v[i] == ':' {
                colons += 1;
            }
            i += 1;
        }
        assert(v@.take(v.len() as int) =~= v@);
        let mut first: usize = 0;
        proof {
            lemma_index_of(v@, ':');
        }
        while first < v.len() && v[first] != ':'
            invariant
                first <= index_of(v@, ':'),
                index_of(v@, ':') <= v.len(),
                forall|k: int| 0 <= k < index_of(v@, ':') ==> v@[k] != ':',
                index_of(v@, ':') < v.len() ==> v@[index_of(v@, ':')] == ':',
            decreases v.len() - first,
        {
            first += 1;
        }
        assert(first == index_of(v@, ':'));
        if colons != 1 {
            return Err(TimeConfigError::InvalidDayStartFormat);
        }
        proof {
            lemma_one_colon_found(v@);
        }
        let hours = match parse_unsigned_chars(&v, 0, first, 65535) {
            Some(h) => h as u16,
            None => {
                assert(v@.subrange(0, first as int) =~= v@.take(first as int));
                return Err(TimeConfigError::InvalidHour);
            },
        };
        assert(v@.subrange(0, first as int) =~= v@.take(first as int));
        let minutes = match parse_unsigned_chars(&v, first + 1, v.len(), 65535) {
            Some(m) => m as u16,
            None => {
                assert(v@.subrange(first + 1, v.len() as int) =~= v@.skip(first + 1));
                return Err(TimeConfigError::InvalidMinute);
            },
        };
        assert(v@.subrange(first + 1, v.len() as int) =~= v@.skip(first + 1));
        if hours > 23 || minutes > 59 {
            return Err(TimeConfigError::DayStartOutOfRange);
        }
        Ok(hours * 60 + minutes)
    }

    /// A configuration from optional command-line texts: a time zone name (blank for the
    /// machine's) and a day start `HH:MM` (blank for midnight). An unknown time zone is refused
    /// first, then a day start that `parse_day_start_minutes` refuses.
    pub fn from_cli(timezone: &Option<String>, day_start_time: &Option<String>) -> (r: Result<
        TimeConfig,
        TimeConfigError,
    >)
        ensures
            match r {
                Ok(c) => {
                    &&& opt_text(c.timezone) == nonblank(*timezone)
                    &&& zone_ok(c.timezone)
                    &&& match day_start_time {
                        Some(d) => if trim_ws(d@).len() > 0 {
                            day_start_of(d@) == Ok::<int, TimeConfigError>(c.day_start_minutes as int)
                        } else {
                            c.day_start_minutes == 0
                        },
                        None => c.day_start_minutes == 0,
                    }
                },
                Err(TimeConfigError::InvalidTimezone(name)) => timezone matches Some(t) && name@
                    == t@ && trim_ws(t@).len() > 0 && !tz_known(t@),
                Err(e) => {
                    &&& match nonblank(*timezone) {
                        Some(t) => tz_known(t),
                        None => true,
                    }
                    &&& match nonblank(*day_start_time) {
                        Some(d) => day_start_of(d) == Err::<int, TimeConfigError>(e),
                        None => false,
                    }
                },
            },
    {
        let tz: Option<String> = match timezone {
            Some(t) => {
                if trim_chars(&chars_of(t.as_str())).len() > 0 {
                    if !tz_exists(t.as_str()) {
                        return Err(TimeConfigError::InvalidTimezone(copy_string(t)));
                    }
                    Some(copy_string(t))
                } else {
                    None
                }
            },
            None => None,
        };
        let minutes: u16 = match day_start_time {
            Some(d) => {
                if trim_chars(&chars_of(d.as_str())).len() > 0 {
                    match Self::parse_day_start_minutes(d.as_str()) {
                        Ok(m) => m,
                        Err(e) => {
                            return Err(e);
                        },
                    }
                } else {
                    0
                }
            },
            None => 0,
        };
        Ok(Self::new(tz, minutes))
    }
}

/// The wall-clock formats that `normalize_naive_datetime_to_rfc3339` tries, in order.
pub open spec fn naive_patterns() -> Seq<Seq<char>> {
    seq!["%Y-%m-%d %H:%M:%S"@, "%Y-%m-%d %H:%M"@, "%Y-%m-%dT%H:%M:%S"@, "%Y-%m-%dT%H:%M"@]
}

/// Index of the first format from `k` on that reads `text`.
pub open spec fn first_naive_pattern(text: Seq<char>, k: int) -> Option<int>
    decreases 4 - k,
{
    if k < 0 || k >= 4 {
        None
    } else if naive_parses(text, naive_patterns()[k]) {
        Some(k)
    } else {
        first_naive_pattern(text, k + 1)
    }
}

/// The first of a list of instants, if any.
pub open spec fn first_instant(v: Seq<Seq<char>>) -> Option<Seq<char>> {
    if v.len() > 0 {
        Some(v[0])
    } else {
        None
    }
}

/// The text of a refusal.
pub open spec fn error_text(e: TimeConfigError) -> Seq<char> {
    match e {
        TimeConfigError::InvalidTimezone(name) => "Invalid timezone: "@ + name@
            + ". Example: Australia/Sydney"@,
        TimeConfigError::InvalidDayStartFormat => "Invalid --day-start-time format. Use HH:MM (e.g., 03:00)"@,
        TimeConfigError::InvalidHour => "Invalid hour in --day-start-time"@,
        TimeConfigError::InvalidMinute => "Invalid minute in --day-start-time"@,
        TimeConfigError::DayStartOutOfRange => "--day-start-time must be between 00:00 and 23:59"@,
    }
}

impl TimeConfigError {
    /// The text of the refusal.
    pub fn message(&self) -> (r: String)
        ensures
            r@ == error_text(*self),
    {
        match self {
            TimeConfigError::InvalidTimezone(name) => {
                let mut v = chars_of("Invalid timezone: ");
                let mut n = chars_of(name.as_str());
                let mut tail = chars_of(". Example: Australia/Sydney");
                v.append(&mut n);
                v.append(&mut tail);
                string_from_chars(v.as_slice())
            },
            TimeConfigError::InvalidDayStartFormat => string_from_chars(
                chars_of("Invalid --day-start-time format. Use HH:MM (e.g., 03:00)").as_slice(),
            ),
            TimeConfigError::InvalidHour => string_from_chars(
                chars_of("Invalid hour in --day-start-time").as_slice(),
            ),
            TimeConfigError::InvalidMinute => string_from_chars(
                chars_of("Invalid minute in --day-start-time").as_slice(),
            ),
            TimeConfigError::DayStartOutOfRange => string_from_chars(
                chars_of("--day-start-time must be between 00:00 and 23:59").as_slice(),
            ),
        }
    }
}

/// The first instant of a list, if any: the single one, or the earliest of an ambiguous pair.
pub fn choose_local_datetime(instants: Vec<String>) -> (r: Option<String>)
    ensures
        opt_text(r) == first_instant(instants@.map_values(|t: String| t@)),
{
    let mut instants = instants;
    if instants.len() > 0 {
        let first = instants.swap_remove(0);
        Some(first)
    } else {
        None
    }
}

impl TimeConfig {
    /// Day number of the logical date of `ts`: its date in the time zone `day_start_minutes`
    /// before `ts`. A timestamp chrono cannot represent is read as the epoch.
    pub fn date_for_timestamp(&self, timestamp: i64) -> (r: i32)
        requires
            zone_ok(self.timezone),
            day_shift_ok(timestamp, self.day_start_minutes),
        ensures
            self.timezone matches Some(z) ==> r == zoned_day(
                z@,
                effective_ts(timestamp),
                self.day_start_minutes,
            ),
            local_day_of(r as int, effective_ts(timestamp) - 60 * self.day_start_minutes),
    {
        let t = effective_timestamp(timestamp);
        match &self.timezone {
            Some(z) => zone_day(z.as_str(), t, self.day_start_minutes),
            None => local_day(t, self.day_start_minutes),
        }
    }

    /// The logical date of `ts` as `%Y-%m-%d`.
    pub fn format_date(&self, timestamp: i64) -> (r: String)
        requires
            zone_ok(self.timezone),
            day_shift_ok(timestamp, self.day_start_minutes),
        ensures
            exists|d: i32|
                r@ == #[trigger] iso_date_text(d) && (self.timezone matches Some(z) ==> d == zoned_day(
                    z@,
                    effective_ts(timestamp),
                    self.day_start_minutes,
                )) && (self.timezone is None ==> local_day_of(
                    d as int,
                    effective_ts(timestamp) - 60 * self.day_start_minutes,
                )),
    {
        let d = self.date_for_timestamp(timestamp);
        day_text(d)
    }

    /// Day number of today's logical date (a clock reading within a day of the ends of chrono's
    /// range, where chrono cannot take its local date, is read as the nearest instant where it
    /// can).
    pub fn today_date(&self) -> (r: i32)
        requires
            zone_ok(self.timezone),
        ensures
            self.timezone matches Some(z) ==> exists|ts: i64|
                r == #[trigger] zoned_day(z@, ts, self.day_start_minutes),
    {
        let now = now_timestamp();
        let shift = self.day_start_minutes as i64;
        let t = if -8334601228800 + 86400 <= now - 60 * shift && now <= 8210266876799 - 86400 {
            now
        } else if now > 8210266876799 - 86400 {
            8210266876799 - 86400
        } else {
            -8334601228800 + 86400 + 60 * shift
        };
        self.date_for_timestamp(t)
    }

    /// `ts` as RFC 3339 in the time zone (the epoch where chrono cannot represent `ts`).
    pub fn format_timestamp_rfc3339(&self, timestamp: i64) -> (r: String)
        requires
            zone_ok(self.timezone),
        ensures
            self.timezone matches Some(z) ==> r@ == zoned_rfc3339(z@, effective_ts(timestamp)),
    {
        let t = effective_timestamp(timestamp);
        match &self.timezone {
            Some(z) => zone_rfc3339(z.as_str(), t),
            None => local_rfc3339(t),
        }
    }

    /// The current instant as RFC 3339 in the time zone.
    pub fn now_rfc3339(&self) -> (r: String)
        requires
            zone_ok(self.timezone),
        ensures
            self.timezone matches Some(z) ==> exists|ts: i64| r@ == #[trigger] zoned_rfc3339(z@, ts),
    {
        let now = now_timestamp();
        self.format_timestamp_rfc3339(now)
    }

    /// Index of the first wall-clock format that reads the trimmed `value`.
    pub fn parse_naive_datetime(value: &str) -> (r: Option<usize>)
        ensures
            match first_naive_pattern(trim_ws(value@), 0) {
                Some(k) => r == Some(k as usize),
                None => r is None,
            },
    {
        let text = string_from_chars(trim_chars(&chars_of(value)).as_slice());
        let patterns: Vec<&str> = vec![
            "%Y-%m-%d %H:%M:%S",
            "%Y-%m-%d %H:%M",
            "%Y-%m-%dT%H:%M:%S",
            "%Y-%m-%dT%H:%M",
        ];
        assert(patterns@.map_values(|p: &str| p@) =~= naive_patterns());
        let mut k: usize = 0;
        while k < 4
            invariant
                k <= 4,
                patterns.len() == 4,
                patterns@.map_values(|p: &str| p@) == naive_patterns(),
                text@ == trim_ws(value@),
                first_naive_pattern(text@, 0) == first_naive_pattern(text@, k as int),
            decreases 4 - k,
        {
            assert(patterns@[k as int]@ == naive_patterns()[k as int]);
            if parses_naive(text.as_str(), patterns[k]) {
                return Some(k);
            }
            k += 1;
        }
        None
    }

    /// A wall-clock date and time (one of `naive_patterns`, after trimming) as the RFC 3339
    /// instant at which it occurs in the time zone: the earliest one where the wall time occurs
    /// twice; `None` where it does not occur or does not read.
    pub fn normalize_naive_datetime_to_rfc3339(&self, value: &str) -> (r: Option<String>)
        requires
            zone_ok(self.timezone),
        ensures
            first_naive_pattern(trim_ws(value@), 0) is None ==> r is None,
            self.timezone matches Some(z) ==> match first_naive_pattern(trim_ws(value@), 0) {
                Some(k) => opt_text(r) == first_instant(
                    zoned_wall_instants(z@, trim_ws(value@), naive_patterns()[k]),
                ),
                None => r is None,
            },
    {
        let k = match Self::parse_naive_datetime(value) {
            Some(k) => k,
            None => {
                return None;
            },
        };
        let text = string_from_chars(trim_chars(&chars_of(value)).as_slice());
        let patterns: Vec<&str> = vec![
            "%Y-%m-%d %H:%M:%S",
            "%Y-%m-%d %H:%M",
            "%Y-%m-%dT%H:%M:%S",
            "%Y-%m-%dT%H:%M",
        ];
        assert(patterns@.map_values(|p: &str| p@) =~= naive_patterns());
        proof {
            lemma_first_naive_pattern(text@, 0);
        }
        assert(patterns@[k as int]@ == naive_patterns()[k as int]);
        let instants = match &self.timezone {
            Some(z) => zone_wall_instants(z.as_str(), text.as_str(), patterns[k]),
            None => local_wall_instants(text.as_str(), patterns[k]),
        };
        choose_local_datetime(instants)
    }
}

proof fn lemma_first_naive_pattern(text: Seq<char>, k: int)
    ensures
        first_naive_pattern(text, k) matches Some(j) ==> k <= j < 4 && naive_parses(
            text,
            naive_patterns()[j],
        ),
    decreases 4 - k,
{
    if 0 <= k < 4 && !naive_parses(text, naive_patterns()[k]) {
        lemma_first_naive_pattern(text, k + 1);
    }
}

proof fn lemma_index_of(s: Seq<char>, c: char)
    ensures
        0 <= index_of(s, c) <= s.len(),
        forall|k: int| 0 <= k < index_of(s, c) ==> s[k] != c,
        index_of(s, c) < s.len() ==> s[index_of(s, c)] == c,
    decreases s.len(),
{
    if s.len() > 0 && s[0] != c {
        lemma_index_of(s.drop_first(), c);
        assert forall|k: int| 0 <= k < index_of(s, c) implies s[k] != c by {
            if k > 0 {
                assert(s[k] == s.drop_first()[k - 1]);
            }
        }
    }
}

proof fn lemma_one_colon_found(s: Seq<char>)
    requires
        count_char(s, ':') == 1,
    ensures
        index_of(s, ':') < s.len(),
{
    lemma_index_of(s, ':');
    if index_of(s, ':') == s.len() {
        lemma_no_char_count(s, ':');
    }
}

proof fn lemma_no_char_count(s: Seq<char>, c: char)
    requires
        forall|k: int| 0 <= k < s.len() ==> s[k] != c,
    ensures
        count_char(s, c) == 0,
    decreases s.len(),
{
    if s.len() > 0 {
        assert forall|k: int| 0 <= k < s.drop_last().len() implies s.drop_last()[k] != c by {
            assert(s.drop_last()[k] == s[k]);
        }
        lemma_no_char_count(s.drop_last(), c);
        assert(s.last() == s[s.len() - 1]);
    }
}

} // verus!
