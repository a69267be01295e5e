//! The time localizer: parses a fixed-offset timestamp string and renders the
//! same instant as a 12-hour Eastern wall-clock display string.
//!
//! The accepted input is exactly the pattern `year-month-day hour:minute:second
//! ±HHMM`, with four year digits and two digits in every other field. The
//! output is the instant re-expressed in the America/New_York zone, rendered
//! as a zero-padded 12-hour clock with a lowercase meridiem indicator and the
//! literal suffix ` est` — the suffix does not switch to `edt` in summer; that
//! simplification is deliberate.

use vstd::prelude::*;

use crate::models::ScanError;

verus! {

/// A parsed fixed-offset timestamp, held as plain calendar fields plus the
/// offset east of UTC in minutes.
#[derive(Debug, Clone, Copy, PartialEq, Eq, Structural)]
pub struct Timestamp {
    pub year: u32,
    pub month: u32,
    pub day: u32,
    pub hour: u32,
    pub minute: u32,
    pub second: u32,
    pub offset_minutes: i32,
}

// ---------------------------------------------------------------------------
// The input grammar.
// ---------------------------------------------------------------------------

pub open spec fn is_digit(c: char) -> bool {
    '0' <= c && c <= '9'
}

/// Numeric value of a digit character.
pub open spec fn digit_val(c: char) -> int {
    c as u32 - 48
}

/// Value of the two digits at positions `i` and `i + 1`.
pub open spec fn two_digit_val(s: Seq<char>, i: int) -> int {
    10 * digit_val(s[i]) + digit_val(s[i + 1])
}

/// The shape of the fixed pattern: 25 characters, digits and separators in
/// exactly these places.
pub open spec fn ts_pattern_ok(s: Seq<char>) -> bool {
    &&& s.len() == 25
    &&& is_digit(s[0]) && is_digit(s[1]) && is_digit(s[2]) && is_digit(s[3])
    &&& s[4] == '-'
    &&& is_digit(s[5]) && is_digit(s[6])
    &&& s[7] == '-'
    &&& is_digit(s[8]) && is_digit(s[9])
    &&& s[10] == ' '
    &&& is_digit(s[11]) && is_digit(s[12])
    &&& s[13] == ':'
    &&& is_digit(s[14]) && is_digit(s[15])
    &&& s[16] == ':'
    &&& is_digit(s[17]) && is_digit(s[18])
    &&& s[19] == ' '
    &&& (s[20] == '+' || s[20] == '-')
    &&& is_digit(s[21]) && is_digit(s[22]) && is_digit(s[23]) && is_digit(s[24])
}

pub open spec fn ts_year(s: Seq<char>) -> int {
    100 * two_digit_val(s, 0) + two_digit_val(s, 2)
}

/// Minutes east of UTC encoded by the trailing `±HHMM`.
pub open spec fn ts_offset_minutes(s: Seq<char>) -> int {
    let magnitude = 60 * two_digit_val(s, 21) + two_digit_val(s, 23);
    if s[20] == '+' {
        magnitude
    } else {
        -magnitude
    }
}

/// A conforming string: the fixed shape, and every field within its calendar
/// range.
pub open spec fn ts_valid(s: Seq<char>) -> bool {
    &&& ts_pattern_ok(s)
    &&& 1 <= two_digit_val(s, 5) <= 12
    &&& 1 <= two_digit_val(s, 8) <= days_in_month(ts_year(s), two_digit_val(s, 5))
    &&& two_digit_val(s, 11) <= 23
    &&& two_digit_val(s, 14) <= 59
    &&& two_digit_val(s, 17) <= 59
    &&& two_digit_val(s, 21) <= 23
    &&& two_digit_val(s, 23) <= 59
}

/// What parsing returns: the timestamp for a conforming string, nothing
/// otherwise.
pub open spec fn parse_timestamp_spec(s: Seq<char>) -> Option<Timestamp> {
    if ts_valid(s) {
        Some(
            Timestamp {
                year: ts_year(s) as u32,
                month: two_digit_val(s, 5) as u32,
                day: two_digit_val(s, 8) as u32,
                hour: two_digit_val(s, 11) as u32,
                minute: two_digit_val(s, 14) as u32,
                second: two_digit_val(s, 17) as u32,
                offset_minutes: ts_offset_minutes(s) as i32,
            },
        )
    } else {
        None
    }
}

/// Field ranges of any timestamp that parsing can return.
pub open spec fn ts_wf(ts: Timestamp) -> bool {
    &&& ts.year <= 9999
    &&& 1 <= ts.month <= 12
    &&& 1 <= ts.day <= 31
    &&& ts.hour <= 23
    &&& ts.minute <= 59
    &&& ts.second <= 59
    &&& -1439 <= ts.offset_minutes <= 1439
}

pub proof fn lemma_parse_wf(s: Seq<char>)
    ensures
        parse_timestamp_spec(s) matches Some(ts) ==> ts_wf(ts),
{
    if ts_valid(s) {
        assert(days_in_month(ts_year(s), two_digit_val(s, 5)) <= 31);
    }
}

// ---------------------------------------------------------------------------
// The proleptic Gregorian calendar.
// ---------------------------------------------------------------------------

pub open spec fn is_leap_year(y: int) -> bool {
    y % 4 == 0 && (y % 100 != 0 || y % 400 == 0)
}

pub open spec fn days_in_year(y: int) -> int {
    if is_leap_year(y) {
        366
    } else {
        365
    }
}

pub open spec fn days_in_month(y: int, m: int) -> int {
    if m == 2 {
        if is_leap_year(y) {
            29
        } else {
            28
        }
    } else if m == 4 || m == 6 || m == 9 || m == 11 {
        30
    } else {
        31
    }
}

/// Days in all years of `[0, y)`.
pub open spec fn days_before_year(y: int) -> int
    decreases y,
{
    if y <= 0 {
        0
    } else {
        days_before_year(y - 1) + days_in_year(y - 1)
    }
}

/// Days in all months of `[1, m)` of year `y`.
pub open spec fn days_before_month(y: int, m: int) -> int
    decreases m,
{
    if m <= 1 {
        0
    } else {
        days_before_month(y, m - 1) + days_in_month(y, m - 1)
    }
}

/// Days from 1970-01-01 to the given civil date; 719528 is the day count of
/// `[0, 1970)`, so dates before the epoch come out negative.
pub open spec fn days_from_epoch(y: int, m: int, d: int) -> int {
    days_before_year(y) + days_before_month(y, m) + (d - 1) - 719528
}

/// Seconds since the Unix epoch of the instant the timestamp denotes: its
/// wall-clock seconds, shifted back by its own offset.
pub open spec fn epoch_seconds(ts: Timestamp) -> int {
    days_from_epoch(ts.year as int, ts.month as int, ts.day as int) * 86400
        + (ts.hour as int) * 3600 + (ts.minute as int) * 60 + (ts.second as int) - (
    ts.offset_minutes as int) * 60
}

pub proof fn lemma_days_before_year_bounds(y: int)
    requires
        y >= 0,
    ensures
        365 * y <= days_before_year(y) <= 366 * y,
    decreases y,
{
    if y > 0 {
        lemma_days_before_year_bounds(y - 1);
    }
}

pub proof fn lemma_days_before_month_bounds(y: int, m: int)
    requires
        m >= 1,
    ensures
        0 <= days_before_month(y, m) <= 31 * (m - 1),
    decreases m,
{
    if m > 1 {
        lemma_days_before_month_bounds(y, m - 1);
    }
}

// ---------------------------------------------------------------------------
// The fixed target zone, looked up through the outside time-zone table.
// ---------------------------------------------------------------------------

/// The UTC offset, in seconds, that the America/New_York zone observes at the
/// given instant (seconds since the Unix epoch).
pub uninterp spec fn new_york_offset(utc_seconds: int) -> int;

/// Relies on chrono's `DateTime::from_timestamp` and chrono-tz's
/// `America::New_York`: the offset the zone's rule table gives for the
/// instant. The table is compiled in, so the result is a function of the
/// instant alone, and chrono holds every offset strictly below one day. The
/// admitted range keeps the instant well inside what chrono can represent.
#[verifier::external_body]
pub fn lookup_new_york_offset(utc_seconds: i64) -> (off: i32)
    requires
        -62_300_000_000 <= utc_seconds <= 254_200_000_000,
    ensures
        off == new_york_offset(utc_seconds as int),
        -86400 < off < 86400,
{
    let utc = chrono::DateTime::from_timestamp(utc_seconds, 0).expect("instant in range");
    let eastern = utc.with_timezone(&chrono_tz::America::New_York);
    chrono::Offset::fix(eastern.offset()).local_minus_utc()
}

// ---------------------------------------------------------------------------
// Rendering.
// ---------------------------------------------------------------------------

pub open spec fn digit_char(d: int) -> char {
    if d == 0 {
        '0'
    } else if d == 1 {
        '1'
    } else if d == 2 {
        '2'
    } else if d == 3 {
        '3'
    } else if d == 4 {
        '4'
    } else if d == 5 {
        '5'
    } else if d == 6 {
        '6'
    } else if d == 7 {
        '7'
    } else if d == 8 {
        '8'
    } else {
        '9'
    }
}

/// Zero-padded rendering of a value below 100.
pub open spec fn two_digit_chars(v: int) -> Seq<char> {
    seq![digit_char(v / 10), digit_char(v % 10)]
}

/// Seconds into the local day. The added constant is a multiple of 86400
/// chosen above the magnitude of the earliest instant a conforming timestamp
/// can denote, so the remainder is taken of a nonnegative value.
pub open spec fn time_of_day(local_seconds: int) -> int {
    (local_seconds + 62_208_000_000) % 86400
}

/// The 12-hour rendering of a local wall-clock time: zero-padded hour and
/// minute, lowercase meridiem, and the fixed ` est` suffix.
pub open spec fn clock_chars(hour: int, minute: int) -> Seq<char> {
    let h12 = if hour % 12 == 0 {
        12int
    } else {
        hour % 12
    };
    two_digit_chars(h12) + seq![':'] + two_digit_chars(minute) + (if hour >= 12 {
        seq!['p']
    } else {
        seq!['a']
    }) + seq!['m', ' ', 'e', 's', 't']
}

/// The full display string of a parsed timestamp: its instant moved into the
/// New York zone, rendered as a 12-hour clock.
pub open spec fn display_time(ts: Timestamp) -> Seq<char> {
    let utc = epoch_seconds(ts);
    let local = utc + new_york_offset(utc);
    let tod = time_of_day(local);
    clock_chars(tod / 3600, (tod % 3600) / 60)
}

/// A display string always has the eleven characters of `hh:mmxm est`; in
/// particular it is never empty.
pub proof fn lemma_display_time_len(ts: Timestamp)
    ensures
        display_time(ts).len() == 11,
{
}

// ---------------------------------------------------------------------------
// Parsing, executably.
// ---------------------------------------------------------------------------

/// The terminal error for a non-conforming timestamp, carrying the text.
fn timestamp_error(s: &str) -> (e: ScanError)
    ensures
        e matches ScanError::MalformedTimestamp(_),
{
    ScanError::MalformedTimestamp(String::from_str(s))
}

/// Value of the two digits at `i`, or nothing where either is no digit.
fn two_digits_at(s: &str, i: usize) -> (r: Option<u32>)
    requires
        i + 1 < s@.len(),
        s@.len() <= usize::MAX,
    ensures
        match r {
            Some(v) => is_digit(s@[i as int]) && is_digit(s@[i as int + 1]) && v == two_digit_val(
                s@,
                i as int,
            ),
            None => !(is_digit(s@[i as int]) && is_digit(s@[i as int + 1])),
        },
{
    let c0 = s.get_char(i) as u32;
    let c1 = s.get_char(i + 1) as u32;
    if 48 <= c0 && c0 <= 57 && 48 <= c1 && c1 <= 57 {
        Some(10 * (c0 - 48) + (c1 - 48))
    } else {
        None
    }
}

fn char_at_is(s: &str, i: usize, c: char) -> (r: bool)
    requires
        i < s@.len(),
    ensures
        r == (s@[i as int] == c),
{
    s.get_char(i) == c
}

fn days_in_month_x(y: u32, m: u32) -> (r: u32)
    requires
        1 <= m <= 12,
    ensures
        r == days_in_month(y as int, m as int),
{
    if m == 2 {
        if is_leap_year_x(y) {
            29
        } else {
            28
        }
    } else if m == 4 || m == 6 || m == 9 || m == 11 {
        30
    } else {
        31
    }
}

fn is_leap_year_x(y: u32) -> (r: bool)
    ensures
        r == is_leap_year(y as int),
{
    y % 4 == 0 && (y % 100 != 0 || y % 400 == 0)
}

/// Parses the fixed pattern `year-month-day hour:minute:second ±HHMM`, and
/// nothing looser: any deviation in shape or any field out of its calendar
/// range is a terminal error.
pub fn parse_timestamp(s: &str) -> (r: Result<Timestamp, ScanError>)
    ensures
        match r {
            Ok(ts) => parse_timestamp_spec(s@) == Some(ts),
            Err(e) => parse_timestamp_spec(s@) is None && e matches ScanError::MalformedTimestamp(
                _,
            ),
        },
{
    if s.unicode_len() != 25 {
        return Err(timestamp_error(s));
    }
    let year = match two_digits_at(s, 0) {
        Some(hi) => match two_digits_at(s, 2) {
            Some(lo) => 100 * hi + lo,
            None => { return Err(timestamp_error(s)) },
        },
        None => { return Err(timestamp_error(s)) },
    };
    let month = match two_digits_at(s, 5) {
        Some(v) => v,
        None => { return Err(timestamp_error(s)) },
    };
    let day = match two_digits_at(s, 8) {
        Some(v) => v,
        None => { return Err(timestamp_error(s)) },
    };
    let hour = match two_digits_at(s, 11) {
        Some(v) => v,
        None => { return Err(timestamp_error(s)) },
    };
    let minute = match two_digits_at(s, 14) {
        Some(v) => v,
        None => { return Err(timestamp_error(s)) },
    };
    let second = match two_digits_at(s, 17) {
        Some(v) => v,
        None => { return Err(timestamp_error(s)) },
    };
    let off_hours = match two_digits_at(s, 21) {
        Some(v) => v,
        None => { return Err(timestamp_error(s)) },
    };
    let off_minutes = match two_digits_at(s, 23) {
        Some(v) => v,
        None => { return Err(timestamp_error(s)) },
    };
    if !(char_at_is(s, 4, '-') && char_at_is(s, 7, '-') && char_at_is(s, 10, ' ') && char_at_is(
        s,
        13,
        ':',
    ) && char_at_is(s, 16, ':') && char_at_is(s, 19, ' ')) {
        return Err(timestamp_error(s));
    }
    let plus = char_at_is(s, 20, '+');
    if !plus && !char_at_is(s, 20, '-') {
        return Err(timestamp_error(s));
    }
    if month < 1 || month > 12 {
        return Err(timestamp_error(s));
    }
    if day < 1 || day > days_in_month_x(year, month) {
        return Err(timestamp_error(s));
    }
    if hour > 23 || minute > 59 || second > 59 || off_hours > 23 || off_minutes > 59 {
        return Err(timestamp_error(s));
    }
    let magnitude = (60 * off_hours + off_minutes) as i32;
    let ts = Timestamp {
        year,
        month,
        day,
        hour,
        minute,
        second,
        offset_minutes: if plus {
            magnitude
        } else {
            -magnitude
        },
    };
    Ok(ts)
}

// ---------------------------------------------------------------------------
// Localizing, executably.
// ---------------------------------------------------------------------------

fn days_in_year_x(y: u32) -> (r: u32)
    ensures
        r == days_in_year(y as int),
{
    if is_leap_year_x(y) {
        366
    } else {
        365
    }
}

fn days_from_epoch_x(y: u32, m: u32, d: u32) -> (r: i64)
    requires
        y <= 9999,
        1 <= m <= 12,
        1 <= d <= 31,
    ensures
        r == days_from_epoch(y as int, m as int, d as int),
{
    let mut acc: u64 = 0;
    let mut i: u32 = 0;
    while i < y
        invariant
            i <= y,
            y <= 9999,
            acc == days_before_year(i as int),
        decreases y - i,
    {
        proof {
            lemma_days_before_year_bounds(i as int);
        }
        acc = acc + days_in_year_x(i) as u64;
        i = i + 1;
    }
    let mut mm: u32 = 1;
    while mm < m
        invariant
            1 <= mm <= m,
            m <= 12,
            y <= 9999,
            acc == days_before_year(y as int) + days_before_month(y as int, mm as int),
        decreases m - mm,
    {
        proof {
            lemma_days_before_year_bounds(y as int);
            lemma_days_before_month_bounds(y as int, mm as int);
        }
        acc = acc + days_in_month_x(y, mm) as u64;
        mm = mm + 1;
    }
    proof {
        lemma_days_before_year_bounds(y as int);
        lemma_days_before_month_bounds(y as int, m as int);
    }
    (acc as i64) + (d as i64) - 1 - 719528
}

fn digit_str(d: usize) -> (r: &'static str)
    requires
        d < 10,
    ensures
        r@ =~= seq![digit_char(d as int)],
{
    let digits = "0123456789";
    proof {
        reveal_strlit("0123456789");
        assert(digits.is_ascii());
    }
    let r = digits.substring_ascii(d, d + 1);
    proof {
        assert(r@ =~= seq![digit_char(d as int)]);
    }
    r
}

fn push_two_digits(out: &mut String, v: u64)
    requires
        v < 100,
    ensures
        final(out)@ == old(out)@ + two_digit_chars(v as int),
{
    out.append(digit_str((v / 10) as usize));
    out.append(digit_str((v % 10) as usize));
    proof {
        assert(out@ =~= old(out)@ + two_digit_chars(v as int));
    }
}

/// Converts one timestamp string into its Eastern display string.
///
/// Exactly the strings the fixed pattern admits succeed; for those the result
/// is the instant's New York wall-clock time as `hh:mmam est` or `hh:mmpm
/// est`. Every other input is a terminal `MalformedTimestamp` error.
pub fn format_time(date_str: &str) -> (r: Result<String, ScanError>)
    ensures
        match r {
            Ok(t) => parse_timestamp_spec(date_str@) matches Some(ts) && t@ == display_time(ts),
            Err(e) => parse_timestamp_spec(date_str@) is None && e
                matches ScanError::MalformedTimestamp(_),
        },
{
    let ts = match parse_timestamp(date_str) {
        Ok(t) => t,
        Err(e) => { return Err(e) },
    };
    proof {
        lemma_parse_wf(date_str@);
        lemma_days_before_year_bounds(ts.year as int);
        lemma_days_before_month_bounds(ts.year as int, ts.month as int);
    }
    let days = days_from_epoch_x(ts.year, ts.month, ts.day);
    let seconds_of_day: i64 = (ts.hour as i64) * 3600 + (ts.minute as i64) * 60 + (
    ts.second as i64);
    let utc: i64 = days * 86400 + seconds_of_day - (ts.offset_minutes as i64) * 60;
    let off = lookup_new_york_offset(utc);
    let local: i64 = utc + (off as i64);
    let shifted: u64 = (local + 62_208_000_000) as u64;
    let tod: u64 = shifted % 86400;
    let hour: u64 = tod / 3600;
    let minute: u64 = (tod % 3600) / 60;
    let h12: u64 = if hour % 12 == 0 {
        12
    } else {
        hour % 12
    };
    let mut out = String::new();
    push_two_digits(&mut out, h12);
    out.append(":");
    push_two_digits(&mut out, minute);
    if hour >= 12 {
        out.append("pm est");
    } else {
        out.append("am est");
    }
    proof {
        reveal_strlit(":");
        reveal_strlit("pm est");
        reveal_strlit("am est");
        assert(tod as int == time_of_day(local as int));
        assert(out@ =~= display_time(ts));
    }
    Ok(out)
}

} // verus!
