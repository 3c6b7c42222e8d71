//! Wall-clock date and time values, and the two calendar operations the library takes from
//! `chrono`: formatting with a `strftime` pattern and parsing with one.

use crate::text::chars_of;
use chrono::{Datelike, Timelike};
use vstd::prelude::*;

verus! {

/// A calendar date and wall-clock time with no time zone, to the second.
#[derive(Clone, Copy, PartialEq, Eq, Structural, Debug)]
pub struct DateTime {
    pub year: i32,
    pub month: u32,
    pub day: u32,
    pub hour: u32,
    pub minute: u32,
    pub second: u32,
}

/// What `chrono` writes for the date and time given by the six fields under the `strftime`
/// pattern `fmt`; `None` when the fields are no valid date and time or the pattern holds an
/// invalid specifier.
pub uninterp spec fn chrono_format(
    year: i32,
    month: u32,
    day: u32,
    hour: u32,
    minute: u32,
    second: u32,
    fmt: Seq<char>,
) -> Option<Seq<char>>;

/// What `chrono` reads from `s` under the pattern `fmt`, as
/// (year, month, day, hour, minute, second); `None` when `s` does not match.
pub uninterp spec fn chrono_parse(s: Seq<char>, fmt: Seq<char>) -> Option<(i32, u32, u32, u32, u32, u32)>;

/// What `chrono` reads from `s` as a date under the pattern `fmt`, as (year, month, day).
pub uninterp spec fn chrono_parse_date(s: Seq<char>, fmt: Seq<char>) -> Option<(i32, u32, u32)>;

/// The first and last years `chrono`'s dates reach.
pub open spec fn min_year() -> int {
    -262143
}

pub open spec fn max_year() -> int {
    262142
}

/// A leap year of the proleptic Gregorian calendar.
pub open spec fn is_leap(y: int) -> bool {
    (y % 4 == 0 && y % 100 != 0) || y % 400 == 0
}

/// How many days month `m` of year `y` has.
pub open spec fn days_in_month(y: int, m: int) -> int {
    if m == 2 {
        if is_leap(y) {
            29
        } else {
            28
        }
    } else if m == 4 || m == 6 || m == 9 || m == 11 {
        30
    } else {
        31
    }
}

/// A date `chrono` can represent.
pub open spec fn valid_date(y: int, m: int, d: int) -> bool {
    min_year() <= y <= max_year() && 1 <= m <= 12 && 1 <= d <= days_in_month(y, m)
}

/// The day after the date (year, month, day); `None` when the date is invalid or the last
/// one `chrono` can represent.
pub open spec fn chrono_next_day(year: i32, month: u32, day: u32) -> Option<(i32, u32, u32)> {
    if !valid_date(year as int, month as int, day as int) {
        None
    } else if (day as int) < days_in_month(year as int, month as int) {
        Some((year, month, (day + 1) as u32))
    } else if month < 12 {
        Some((year, (month + 1) as u32, 1u32))
    } else if (year as int) < max_year() {
        Some(((year + 1) as i32, 1u32, 1u32))
    } else {
        None
    }
}

/// The local wall-clock date and time `chrono` reads from the RFC 3339 timestamp `s`, as
/// (year, month, day, hour, minute, second); `None` when `s` is not one.
pub uninterp spec fn chrono_rfc3339(s: Seq<char>) -> Option<(i32, u32, u32, u32, u32, u32)>;

impl DateTime {
    pub open spec fn fields(self) -> (i32, u32, u32, u32, u32, u32) {
        (self.year, self.month, self.day, self.hour, self.minute, self.second)
    }

    /// The text this value formats to under `fmt`.
    pub open spec fn formatted(self, fmt: Seq<char>) -> Option<Seq<char>> {
        chrono_format(self.year, self.month, self.day, self.hour, self.minute, self.second, fmt)
    }
}

pub open spec fn from_fields(f: (i32, u32, u32, u32, u32, u32)) -> DateTime {
    DateTime { year: f.0, month: f.1, day: f.2, hour: f.3, minute: f.4, second: f.5 }
}

/// `NaiveDateTime::format(fmt)` written into a string; the date and time are built with
/// `NaiveDate::from_ymd_opt` and `and_hms_opt`. The contract names the result: nothing here
/// says what text a pattern produces.
#[verifier::external_body]
fn chrono_format_exec(dt: &DateTime, fmt: &str) -> (r: Option<String>)
    ensures
        r matches Some(s) ==> chrono_format(dt.year, dt.month, dt.day, dt.hour, dt.minute, dt.second, fmt@)
            == Some(s@),
        r is None ==> chrono_format(dt.year, dt.month, dt.day, dt.hour, dt.minute, dt.second, fmt@)
            is None,
{
    let t = chrono::NaiveDate::from_ymd_opt(dt.year, dt.month, dt.day)
        .and_then(|d| d.and_hms_opt(dt.hour, dt.minute, dt.second))?;
    let mut out = String::new();
    match t.format(fmt).write_to(&mut out) {
        Ok(()) => Some(out),
        Err(_) => None,
    }
}

/// `NaiveDateTime::parse_from_str(s, fmt)`, its fields read back with the `Datelike` and
/// `Timelike` accessors.
#[verifier::external_body]
fn chrono_parse_exec(s: &str, fmt: &str) -> (r: Option<DateTime>)
    ensures
        r matches Some(d) ==> chrono_parse(s@, fmt@) == Some(d.fields()),
        r is None ==> chrono_parse(s@, fmt@) is None,
{
    match chrono::NaiveDateTime::parse_from_str(s, fmt) {
        Ok(t) => Some(DateTime {
            year: t.year(),
            month: t.month(),
            day: t.day(),
            hour: t.hour(),
            minute: t.minute(),
            second: t.second(),
        }),
        Err(_) => None,
    }
}

/// `NaiveDate::parse_from_str(s, fmt)`, read back as (year, month, day).
#[verifier::external_body]
fn chrono_parse_date_exec(s: &str, fmt: &str) -> (r: Option<(i32, u32, u32)>)
    ensures
        r == chrono_parse_date(s@, fmt@),
{
    match chrono::NaiveDate::parse_from_str(s, fmt) {
        Ok(d) => Some((d.year(), d.month(), d.day())),
        Err(_) => None,
    }
}

/// `NaiveDate::succ_opt`, on a date built with `NaiveDate::from_ymd_opt`: the contract states
/// the proleptic Gregorian calendar over the years `chrono` represents (`MIN_YEAR` to
/// `MAX_YEAR`), where `from_ymd_opt` refuses an invalid date and `succ_opt` the last one.
#[verifier::external_body]
fn chrono_next_day_exec(year: i32, month: u32, day: u32) -> (r: Option<(i32, u32, u32)>)
    ensures
        r == chrono_next_day(year, month, day),
{
    let d = chrono::NaiveDate::from_ymd_opt(year, month, day)?.succ_opt()?;
    Some((d.year(), d.month(), d.day()))
}

/// Formats `dt` with the `strftime` pattern `fmt`, as characters.
pub fn format(dt: &DateTime, fmt: &str) -> (r: Option<Vec<char>>)
    ensures
        r matches Some(v) ==> dt.formatted(fmt@) == Some(v@),
        r is None ==> dt.formatted(fmt@) is None,
{
    match chrono_format_exec(dt, fmt) {
        Some(s) => Some(chars_of(s.as_str())),
        None => None,
    }
}

/// Reads a date and time from `s` with the pattern `fmt`.
pub fn parse(s: &str, fmt: &str) -> (r: Option<DateTime>)
    ensures
        r matches Some(d) ==> chrono_parse(s@, fmt@) == Some(d.fields()),
        r is None ==> chrono_parse(s@, fmt@) is None,
{
    chrono_parse_exec(s, fmt)
}

/// Reads a date from `s` with the pattern `fmt`, as (year, month, day).
pub fn parse_date(s: &str, fmt: &str) -> (r: Option<(i32, u32, u32)>)
    ensures
        r == chrono_parse_date(s@, fmt@),
{
    chrono_parse_date_exec(s, fmt)
}

/// The following calendar day.
pub fn next_day(year: i32, month: u32, day: u32) -> (r: Option<(i32, u32, u32)>)
    ensures
        r == chrono_next_day(year, month, day),
{
    chrono_next_day_exec(year, month, day)
}

/// `chrono::DateTime::parse_from_rfc3339(s)`, its `naive_local` date and time read back
/// with the `Datelike` and `Timelike` accessors.
#[verifier::external_body]
fn chrono_rfc3339_exec(s: &str) -> (r: Option<DateTime>)
    ensures
        r matches Some(d) ==> chrono_rfc3339(s@) == Some(d.fields()),
        r is None ==> chrono_rfc3339(s@) is None,
{
    match chrono::DateTime::parse_from_rfc3339(s) {
        Ok(t) => {
            let n = t.naive_local();
            Some(DateTime { year: n.year(), month: n.month(), day: n.day(), hour: n.hour(), minute: n.minute(), second: n.second() })
        },
        Err(_) => None,
    }
}

/// Reads an RFC 3339 timestamp, as its local date and time.
pub fn parse_rfc3339(s: &str) -> (r: Option<DateTime>)
    ensures
        r matches Some(d) ==> chrono_rfc3339(s@) == Some(d.fields()),
        r is None ==> chrono_rfc3339(s@) is None,
{
    chrono_rfc3339_exec(s)
}

} // verus!
