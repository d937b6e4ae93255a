//! How long jobs and steps took.
use vstd::prelude::*;

verus! {

/// The seconds since 1970 of a time in the form of RFC 3339: what the `timestamp` of the time gives
/// that `DateTime::parse_from_rfc3339` reads. `None` if it reads none.
pub uninterp spec fn seconds_of(text: Seq<char>) -> Option<i64>;

/// `DateTime::parse_from_rfc3339`, and the `timestamp` of the time that it reads. The seconds depend
/// on the text alone. A year has four digits there, so the seconds are few.
#[verifier::external_body]
fn parse_seconds(text: &str) -> (seconds: Option<i64>)
    ensures
        seconds == seconds_of(text@),
        seconds matches Some(n) ==> -1_000_000_000_000 <= n <= 1_000_000_000_000,
{
    chrono::DateTime::parse_from_rfc3339(text).ok().map(|time| time.timestamp())
}

/// The time from `start` to `end`, whichever comes first, if both are known.
pub open spec fn span(start: Option<i64>, end: Option<i64>) -> Option<int> {
    match (start, end) {
        (Some(s), Some(e)) => Some(
            if e >= s {
                e - s
            } else {
                s - e
            },
        ),
        _ => None,
    }
}

/// The seconds of an optional time.
pub open spec fn seconds_at(time: Option<Seq<char>>) -> Option<i64> {
    match time {
        Some(text) => seconds_of(text),
        None => None,
    }
}

/// The duration between two optional times.
pub open spec fn duration_of(
    started_at: Option<Seq<char>>,
    completed_at: Option<Seq<char>>,
) -> Option<i64> {
    match span(seconds_at(started_at), seconds_at(completed_at)) {
        Some(seconds) => Some(seconds as i64),
        None => None,
    }
}

/// The time from `start` to `end`, whichever comes first.
pub fn seconds_between(start: Option<i64>, end: Option<i64>) -> (duration: Option<i64>)
    requires
        span(start, end) matches Some(seconds) ==> seconds <= i64::MAX,
    ensures
        match span(start, end) {
            Some(seconds) => duration matches Some(found) && found == seconds,
            None => duration is None,
        },
{
    match (start, end) {
        (Some(s), Some(e)) => Some(
            if e >= s {
                e - s
            } else {
                s - e
            },
        ),
        _ => None,
    }
}

/// How long something took that started and ended at these times.
pub fn compute_duration(started_at: &Option<String>, completed_at: &Option<String>) -> (duration:
    Option<i64>)
    ensures
        duration == duration_of(started_at.deep_view(), completed_at.deep_view()),
        match span(seconds_at(started_at.deep_view()), seconds_at(completed_at.deep_view())) {
            Some(seconds) => duration matches Some(found) && found == seconds,
            None => duration is None,
        },
        duration matches Some(seconds) ==> 0 <= seconds <= 2_000_000_000_000,
{
    let start = match started_at {
        Some(text) => parse_seconds(text.as_str()),
        None => None,
    };
    let end = match completed_at {
        Some(text) => parse_seconds(text.as_str()),
        None => None,
    };
    seconds_between(start, end)
}

/// It does not matter which of two times is the earlier one.
pub proof fn law_duration_is_symmetric(a: Option<Seq<char>>, b: Option<Seq<char>>)
    ensures
        duration_of(a, b) == duration_of(b, a),
{
}

/// Whether `duration` is the distance in seconds between two times: known exactly if both times can
/// be read, and the same whichever comes first.
pub open spec fn is_distance(
    start: Option<Seq<char>>,
    end: Option<Seq<char>>,
    duration: Option<i64>,
) -> bool {
    if start is Some && end is Some && seconds_of(start->0) is Some && seconds_of(end->0) is Some {
        let s = seconds_of(start->0)->0 as int;
        let e = seconds_of(end->0)->0 as int;
        &&& duration is Some
        &&& -i64::MAX <= e - s <= i64::MAX ==> duration->0 == e - s || duration->0 == s - e
        &&& -i64::MAX <= e - s <= i64::MAX ==> duration->0 >= 0
    } else {
        duration is None
    }
}

/// A duration is the distance between two times.
pub proof fn law_duration_is_the_distance(a: Option<Seq<char>>, b: Option<Seq<char>>)
    ensures
        is_distance(a, b, duration_of(a, b)),
{
}

} // verus!
