//! Time: the feed's time stamps, the wall clock, and the freshness window.

use vstd::prelude::*;
use chrono::{DateTime, LocalResult, NaiveDateTime, TimeZone, Utc};
use chrono_tz::America::Los_Angeles;

verus! {

/// The date and time that `text` gives when read by the pattern `format`, as
/// the seconds between 1970-01-01 00:00:00 and that date and time, both taken
/// on the same clock, without regard to any time zone. `None` where the text
/// does not fit the pattern or names no date and time.
pub uninterp spec fn naive_seconds(text: Seq<char>, format: Seq<char>) -> Option<i64>;

/// When the clocks of Los Angeles show a given date and time. The instants
/// are in seconds since the epoch.
#[derive(Clone, Copy, Debug, PartialEq, Eq, Structural)]
pub enum PacificTime {
    /// At this one instant.
    Single(i64),
    /// At these two instants, the earlier first: the clocks were set back
    /// and showed the time twice.
    Ambiguous(i64, i64),
    /// Never: the clocks were set forward and passed the time over.
    Missing,
    /// The date lies beyond the years that chrono can hold.
    OutOfRange,
}

/// When the clocks of Los Angeles show the date and time that lies
/// `local_seconds` after 1970-01-01 00:00:00.
pub uninterp spec fn pacific_time(local_seconds: i64) -> PacificTime;

/// Reads a date and time with chrono's `NaiveDateTime::parse_from_str`.
/// Trusted: that the result depends on the two texts alone. Nothing is
/// claimed of which texts are accepted.
#[verifier::external_body]
pub(crate) fn read_naive_seconds(text: &str, format: &str) -> (seconds: Option<i64>)
    ensures
        seconds == naive_seconds(text@, format@),
{
    match NaiveDateTime::parse_from_str(text, format) {
        Ok(naive) => Some(naive.and_utc().timestamp()),
        Err(_) => None,
    }
}

/// Places a date and time on the clocks of Los Angeles with chrono's
/// `TimeZone::from_local_datetime`, on the zone `America/Los_Angeles` of
/// chrono-tz, and hands back each of its answers as it is. Trusted: that the
/// result depends on the argument alone, the zone's rules being part of the
/// crate.
#[verifier::external_body]
pub(crate) fn resolve_pacific(local_seconds: i64) -> (time: PacificTime)
    ensures
        time == pacific_time(local_seconds),
{
    match DateTime::from_timestamp(local_seconds, 0) {
        Some(local) => match Los_Angeles.from_local_datetime(&local.naive_utc()) {
            LocalResult::Single(at) => PacificTime::Single(at.timestamp()),
            LocalResult::Ambiguous(first, second) => PacificTime::Ambiguous(
                first.timestamp(),
                second.timestamp(),
            ),
            LocalResult::None => PacificTime::Missing,
        },
        None => PacificTime::OutOfRange,
    }
}

/// The wall clock, in whole seconds since the epoch, from chrono's
/// `Utc::now`. Nothing is known of the result. The clock must not stand
/// before 1970, or chrono gives up.
#[verifier::external_body]
pub(crate) fn wall_clock() -> (now: i64) {
    Utc::now().timestamp()
}

/// How far two instants lie apart, in seconds.
pub open spec fn distance(a: int, b: int) -> nat {
    if a >= b {
        (a - b) as nat
    } else {
        (b - a) as nat
    }
}

/// When the clocks of Los Angeles show what a time stamp of the feed says: a
/// date and time in the form `YYYY-MM-DD HH:MM:SS`. `None` where the stamp
/// has not that form.
pub open spec fn pacific_time_of(stamp: Seq<char>) -> Option<PacificTime> {
    match naive_seconds(stamp, "%Y-%m-%d %H:%M:%S"@) {
        Some(local) => Some(pacific_time(local)),
        None => None,
    }
}

/// The instant that a time on the clocks names, where it names exactly one.
/// A time that the clocks showed twice, or never, names none.
pub open spec fn single_instant_of(time: PacificTime) -> Option<i64> {
    match time {
        PacificTime::Single(at) => Some(at),
        PacificTime::Ambiguous(_, _) => None,
        PacificTime::Missing => None,
        PacificTime::OutOfRange => None,
    }
}

/// The instant that a time stamp of the feed names, where it names exactly
/// one.
pub open spec fn instant_of(stamp: Seq<char>) -> Option<i64> {
    match pacific_time_of(stamp) {
        Some(time) => single_instant_of(time),
        None => None,
    }
}

/// Whether something updated at `updated_at` is fresh at `now`: it has a time
/// of update, and that time lies no more than `window` seconds from `now`, on
/// either side.
pub open spec fn fresh_at(updated_at: Option<i64>, now: i64, window: u64) -> bool {
    match updated_at {
        Some(at) => distance(now as int, at as int) <= window,
        None => false,
    }
}

/// When the clocks of Los Angeles show what a time stamp of the feed says.
pub fn pacific_time_from_stamp(stamp: &str) -> (time: Option<PacificTime>)
    ensures
        time == pacific_time_of(stamp@),
{
    match read_naive_seconds(stamp, "%Y-%m-%d %H:%M:%S") {
        Some(local) => Some(resolve_pacific(local)),
        None => None,
    }
}

/// The instant that a time on the clocks names, where it names exactly one.
pub fn single_instant(time: PacificTime) -> (instant: Option<i64>)
    ensures
        instant == single_instant_of(time),
{
    match time {
        PacificTime::Single(at) => Some(at),
        PacificTime::Ambiguous(_, _) => None,
        PacificTime::Missing => None,
        PacificTime::OutOfRange => None,
    }
}

/// The instant that a time stamp of the feed names, where it names exactly
/// one.
pub fn instant_from_stamp(stamp: &str) -> (instant: Option<i64>)
    ensures
        instant == instant_of(stamp@),
{
    match pacific_time_from_stamp(stamp) {
        Some(time) => single_instant(time),
        None => None,
    }
}

/// Whether something updated at `updated_at` is fresh at `now`, given a
/// window of `window` seconds. The ends of the window belong to it.
pub fn within_window(updated_at: Option<i64>, now: i64, window: u64) -> (fresh: bool)
    ensures
        fresh == fresh_at(updated_at, now, window),
{
    match updated_at {
        Some(at) => {
            let gap: i128 = if now >= at {
                now as i128 - at as i128
            } else {
                at as i128 - now as i128
            };
            gap <= window as i128
        },
        None => false,
    }
}

/// The window is closed: a distance of exactly `window` seconds is fresh, one
/// second more is not.
pub proof fn lemma_window_is_closed(at: i64, now: i64, window: u64)
    ensures
        distance(now as int, at as int) == window ==> fresh_at(Some(at), now, window),
        distance(now as int, at as int) == window + 1 ==> !fresh_at(Some(at), now, window),
        !fresh_at(None, now, window),
{
}

} // verus!
