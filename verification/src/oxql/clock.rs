//! The texts of instants, and the present one.

use vstd::prelude::*;

use crate::time::Timestamp;

verus! {

/// The instant that a text stands for as a date and a time of day, like `2024-05-17T08:30:00.25`.
pub uninterp spec fn date_time_of_text(text: Seq<char>) -> Option<Timestamp>;

/// The seconds from the epoch to the start of the day that a text stands for as a date, like
/// `2024-05-17`.
pub uninterp spec fn date_of_text(text: Seq<char>) -> Option<i64>;

/// Reads a date and a time of day with `chrono::NaiveDateTime::parse_from_str`, in the format
/// `%Y-%m-%dT%H:%M:%S%.f`, as an instant in UTC. Whether a text is one, and which, depends on the
/// text alone.
#[verifier::external_body]
pub(crate) fn parse_date_time(text: &str) -> (t: Option<Timestamp>)
    ensures
        t == date_time_of_text(text@),
{
    match chrono::NaiveDateTime::parse_from_str(text, "%Y-%m-%dT%H:%M:%S%.f") {
        Ok(t) => Some(
            Timestamp {
                secs: t.and_utc().timestamp(),
                nanos: t.and_utc().timestamp_subsec_nanos(),
            },
        ),
        Err(_) => None,
    }
}

/// Reads a date with `chrono::NaiveDate::parse_from_str`, in the format `%F`, as the start of that
/// day in UTC. Whether a text is one, and which, depends on the text alone.
#[verifier::external_body]
pub(crate) fn parse_date(text: &str) -> (t: Option<i64>)
    ensures
        t == date_of_text(text@),
{
    match chrono::NaiveDate::parse_from_str(text, "%F") {
        Ok(day) => Some(day.and_time(chrono::NaiveTime::MIN).and_utc().timestamp()),
        Err(_) => None,
    }
}

/// The present instant, from `chrono::Utc::now`. It is no leap second. Nothing more is said of it, as
/// it is the clock that decides; a clock that stands before the epoch makes the call panic.
#[verifier::external_body]
pub(crate) fn utc_now() -> (t: Timestamp)
    ensures
        t.nanos < 1_000_000_000,
{
    let now = chrono::Utc::now();
    Timestamp { secs: now.timestamp(), nanos: now.timestamp_subsec_nanos() }
}

} // verus!
