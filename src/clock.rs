//! Times of day, held as seconds since midnight.

use chrono::Timelike;
use vstd::prelude::*;

verus! {

/// Seconds in one day; every time of day is below it.
pub const SECONDS_PER_DAY: u32 = 86400;

/// The last second of the day, `23:59:59`: the boundary used when no later
/// entry of the timetable exists.
pub const END_OF_DAY: u32 = 86399;

/// What `chrono::NaiveTime::parse_from_str(s, "%R")` yields for `s`, as seconds
/// since midnight, or `None` where it refuses the text.
pub uninterp spec fn hm_parsed(s: Seq<char>) -> Option<u32>;

pub open spec fn is_digit(c: char) -> bool {
    '0' <= c && c <= '9'
}

pub open spec fn digit_value(c: char) -> int {
    (c as int) - ('0' as int)
}

/// `s` is exactly `HH:MM` with two digits each, hour below 24, minute below 60.
pub open spec fn is_hh_mm(s: Seq<char>) -> bool {
    &&& s.len() == 5
    &&& is_digit(s[0]) && is_digit(s[1]) && s[2] == ':' && is_digit(s[3]) && is_digit(s[4])
    &&& digit_value(s[0]) * 10 + digit_value(s[1]) < 24
    &&& digit_value(s[3]) * 10 + digit_value(s[4]) < 60
}

/// Seconds since midnight denoted by a text of the form `HH:MM`.
pub open spec fn hh_mm_seconds(s: Seq<char>) -> int {
    (digit_value(s[0]) * 10 + digit_value(s[1])) * 3600 + (digit_value(s[3]) * 10 + digit_value(
        s[4],
    )) * 60
}

/// Relies on `chrono::NaiveTime::parse_from_str` with the format `%R`
/// (`%H:%M`, seconds left at zero) and on `Timelike::num_seconds_from_midnight`.
/// A parsed time has an hour below 24 and a minute below 60, so it lies on a
/// minute boundary within the day; a plain `HH:MM` text parses to its value.
#[verifier::external_body]
pub(crate) fn parse_hh_mm(s: &str) -> (r: Option<u32>)
    ensures
        r == hm_parsed(s@),
        r matches Some(t) ==> t < SECONDS_PER_DAY && t % 60 == 0,
        is_hh_mm(s@) ==> r == Some(hh_mm_seconds(s@) as u32),
{
    chrono::NaiveTime::parse_from_str(s, "%R").ok().map(|t| t.num_seconds_from_midnight())
}

/// Relies on `chrono::Local::now` and `Timelike::num_seconds_from_midnight`:
/// the local wall-clock time of day in whole seconds, below one day (a leap
/// second is carried in the nanoseconds, not in the seconds).
#[verifier::external_body]
pub(crate) fn local_seconds_now() -> (r: u32)
    ensures
        r < SECONDS_PER_DAY,
{
    chrono::Local::now().time().num_seconds_from_midnight()
}

} // verus!
