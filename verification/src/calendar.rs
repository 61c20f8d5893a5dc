//! Calendar days and timestamps.
//!
//! A day is held as its day number in the proleptic Gregorian calendar, counted as chrono's
//! `Datelike::num_days_from_ce` counts it (0001-01-01 is day 1). Adding `n` days to a day is
//! adding `n` to its number, and days are ordered by their numbers. Reading and writing
//! `YYYY-MM-DD` texts comes from chrono; the clock and the local time zone are read by the
//! caller, which passes today's date and local days in.
use vstd::prelude::*;

use chrono::{Datelike, NaiveDate};

verus! {

/// The smallest day number a chrono date can have (its `NaiveDate::MIN`).
pub open spec fn first_day() -> int {
    -95746129
}

/// The largest day number a chrono date can have (its `NaiveDate::MAX`).
pub open spec fn last_day() -> int {
    95745399
}

/// Whether `d` is the number of a day chrono can represent.
pub open spec fn valid_day(d: int) -> bool {
    first_day() <= d <= last_day()
}

/// An optional day number read as an optional integer.
pub open spec fn opt_day(o: Option<i32>) -> Option<int> {
    match o {
        Some(d) => Some(d as int),
        None => None,
    }
}

/// The day that `NaiveDate::parse_from_str(text, "%Y-%m-%d")` reads, if it reads one.
pub uninterp spec fn chrono_parse_ymd(text: Seq<char>) -> Option<int>;

/// The `YYYY-MM-DD` text chrono writes for day `d` (`NaiveDate`'s `Display`).
pub uninterp spec fn chrono_ymd_text(d: int) -> Seq<char>;

/// Whether `DateTime::parse_from_rfc3339` accepts `text`.
pub uninterp spec fn chrono_rfc3339_valid(text: Seq<char>) -> bool;

/// The day of the date-and-time that `NaiveDateTime::parse_from_str(text,
/// "%Y-%m-%d %H:%M:%S%.f")` reads, if it reads one.
pub uninterp spec fn chrono_parse_datetime_day(text: Seq<char>) -> Option<int>;

/// The RFC 3339 text of the UTC instant `secs` seconds after the Unix epoch, if chrono can
/// represent that instant (`DateTime::from_timestamp(secs, 0)` then `to_rfc3339`).
pub uninterp spec fn chrono_timestamp_rfc3339(secs: int) -> Option<Seq<char>>;

/// The week day of day `d`, counted from Sunday = 0. Day 1 (0001-01-01) is a Monday and the
/// week days repeat every seven days, so this is `d` modulo 7.
pub open spec fn weekday_from_sunday(d: int) -> int {
    d % 7
}

/// Reads a `YYYY-MM-DD` text with chrono's `NaiveDate::parse_from_str`.
/// The contract says that the result is the name of that reading and is a day chrono can
/// represent.
#[verifier::external_body]
pub(crate) fn parse_ymd(text: &str) -> (r: Option<i32>)
    ensures
        opt_day(r) == chrono_parse_ymd(text@),
        r matches Some(d) ==> valid_day(d as int),
{
    NaiveDate::parse_from_str(text, "%Y-%m-%d").ok().map(|date| date.num_days_from_ce())
}

/// Writes day `d` as chrono's `NaiveDate` displays it.
/// The contract names the text; `d` must be a day chrono can represent.
#[verifier::external_body]
pub(crate) fn ymd_text(d: i32) -> (r: String)
    requires
        valid_day(d as int),
    ensures
        r@ == chrono_ymd_text(d as int),
{
    NaiveDate::from_num_days_from_ce_opt(d).map(|date| date.to_string()).unwrap_or_default()
}

/// The week day of day `d`, counted from Sunday = 0 (see [`weekday_from_sunday`]).
pub fn weekday_of(d: i32) -> (r: u32)
    ensures
        r as int == weekday_from_sunday(d as int),
{
    let shifted: i64 = d as i64 + 2147483653;
    let w: i64 = shifted % 7;
    proof {
        vstd::arithmetic::div_mod::lemma_mod_multiples_vanish(306783379, d as int, 7);
    }
    w as u32
}

/// Whether `DateTime::parse_from_rfc3339` accepts `text` (chrono's parser, which reads no
/// clock and no time zone of the machine).
#[verifier::external_body]
pub(crate) fn rfc3339_valid(text: &str) -> (r: bool)
    ensures
        r == chrono_rfc3339_valid(text@),
{
    chrono::DateTime::parse_from_rfc3339(text).is_ok()
}

/// The day of a `YYYY-MM-DD HH:MM:SS` date-and-time, from chrono's `NaiveDateTime::parse_from_str`.
/// The contract names the reading.
#[verifier::external_body]
pub(crate) fn datetime_day(text: &str) -> (r: Option<i32>)
    ensures
        opt_day(r) == chrono_parse_datetime_day(text@),
        r matches Some(d) ==> valid_day(d as int),
{
    chrono::NaiveDateTime::parse_from_str(text, "%Y-%m-%d %H:%M:%S%.f")
        .ok()
        .map(|time| time.date().num_days_from_ce())
}

/// The RFC 3339 text of a Unix timestamp, from chrono's `DateTime::from_timestamp` and
/// `to_rfc3339`. The contract names the result.
#[verifier::external_body]
pub(crate) fn timestamp_rfc3339(secs: i64) -> (r: Option<String>)
    ensures
        match r {
            Some(s) => chrono_timestamp_rfc3339(secs as int) == Some(s@),
            None => chrono_timestamp_rfc3339(secs as int) is None,
        },
{
    chrono::DateTime::from_timestamp(secs, 0).map(|time| time.to_rfc3339())
}

} // verus!
