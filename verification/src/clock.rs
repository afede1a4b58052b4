//! Trusted boundary to the clock and the calendar: the only calls into
//! chrono.  Calendar arithmetic (leap years, offsets) is not restated here;
//! each parse result is given a name that the resolver's contracts speak
//! of, a function of the text alone.

use vstd::prelude::*;

verus! {

/// The epoch second that `YYYY-MM-DD HH:MM:SS ±HHMM` text denotes, when
/// chrono accepts the text; a function of the text alone.
pub uninterp spec fn datetime_tz_epoch(s: Seq<char>) -> Option<i64>;

/// The epoch second that `YYYY-MM-DD HH:MM:SS` text denotes read as UTC
/// wall-clock time, when chrono accepts the text; a function of the text
/// alone.
pub uninterp spec fn datetime_utc_epoch(s: Seq<char>) -> Option<i64>;

/// Relies on chrono's `DateTime::parse_from_str` with format
/// `%Y-%m-%d %H:%M:%S %z` and on `DateTime::timestamp`: the parsed
/// instant's seconds since the Unix epoch, determined by the text alone.
#[verifier::external_body]
pub fn parse_datetime_tz(s: &str) -> (r: Option<i64>)
    ensures
        r == datetime_tz_epoch(s@),
{
    match chrono::DateTime::parse_from_str(s, "%Y-%m-%d %H:%M:%S %z") {
        Ok(dt) => Some(dt.timestamp()),
        Err(_) => None,
    }
}

/// Relies on chrono's `NaiveDateTime::parse_from_str` with format
/// `%Y-%m-%d %H:%M:%S`, on `NaiveDateTime::and_utc` and on
/// `DateTime::timestamp`: the parsed instant's seconds since the Unix
/// epoch, determined by the text alone.
#[verifier::external_body]
pub fn parse_datetime_utc(s: &str) -> (r: Option<i64>)
    ensures
        r == datetime_utc_epoch(s@),
{
    match chrono::NaiveDateTime::parse_from_str(s, "%Y-%m-%d %H:%M:%S") {
        Ok(dt) => Some(dt.and_utc().timestamp()),
        Err(_) => None,
    }
}

/// Relies on chrono's `Utc::now` and `DateTime::timestamp`: the system
/// clock's seconds since the Unix epoch.  Nothing can be promised of the
/// value; `Utc::now` panics when the system clock stands before the epoch.
#[verifier::external_body]
pub fn now_epoch() -> i64 {
    chrono::Utc::now().timestamp()
}

} // verus!
