//! Points in time, as the daemon writes them, and the whole seconds between them.

use crate::api::Timestamp;
use vstd::prelude::*;
use vstd::string::*;

verus! {

/// What an RFC 3339 text says: seconds since 1970-01-01T00:00:00Z, and the nanoseconds
/// within the second, which are 1,000,000,000 or more in a leap second.
pub uninterp spec fn instant(s: Seq<char>) -> Option<(i64, u32)>;

/// `chrono::DateTime::parse_from_rfc3339` reads a text as a point in time; its `timestamp`
/// and `timestamp_subsec_nanos` are the seconds and nanoseconds of that point. Which texts
/// it reads is left to it.
#[verifier::external_body]
fn rfc3339(s: &str) -> (r: Option<(i64, u32)>)
    ensures
        r == instant(s@),
{
    match chrono::DateTime::parse_from_rfc3339(s) {
        Ok(t) => Some((t.timestamp(), t.timestamp_subsec_nanos())),
        Err(_) => None,
    }
}

/// The point in time that a text says.
pub open spec fn time_of(s: Seq<char>) -> Option<Timestamp> {
    match instant(s) {
        Some((secs, nanos)) => Some(Timestamp { secs, nanos }),
        None => None,
    }
}

/// The point in time that an optional text says.
pub open spec fn opt_time_of(s: Option<Seq<char>>) -> Option<Timestamp> {
    match s {
        Some(t) => time_of(t),
        None => None,
    }
}

/// The point in time that a text says, where it says one.
pub fn parse_time(s: &str) -> (r: Option<Timestamp>)
    ensures
        r == time_of(s@),
{
    match rfc3339(s) {
        Some((secs, nanos)) => Some(Timestamp { secs, nanos }),
        None => None,
    }
}

/// The seconds of a point in time since the midnight before it.
pub open spec fn second_of_day(t: Timestamp) -> int {
    t.secs as int % 86400
}

/// The point lies in a leap second.
pub open spec fn in_leap_second(t: Timestamp) -> bool {
    t.nanos >= 1_000_000_000
}

/// The nanoseconds from `then` to `now`. A leap second that lies between them is counted.
pub open spec fn nanos_between(now: Timestamp, then: Timestamp) -> int {
    let leap: int = if second_of_day(now) > second_of_day(then) && in_leap_second(then) {
        1
    } else if second_of_day(now) < second_of_day(then) && in_leap_second(now) {
        -1
    } else {
        0
    };
    (now.secs - then.secs + leap) * 1_000_000_000 + (now.nanos - then.nanos)
}

/// The whole seconds from `then` to `now`, negative where `then` comes later.
pub open spec fn seconds_between(now: Timestamp, then: Timestamp) -> int {
    let n = nanos_between(now, then);
    if n >= 0 {
        n / 1_000_000_000
    } else {
        -((-n) / 1_000_000_000)
    }
}

/// The second of the day of a point in time.
fn day_second(t: Timestamp) -> (r: i64)
    ensures
        r == second_of_day(t),
{
    let m: i64 = t.secs % 86400;
    if m < 0 {
        m + 86400
    } else {
        m
    }
}

/// The whole seconds from `then` to `now`, negative where `then` comes later.
pub fn elapsed_seconds(now: Timestamp, then: Timestamp) -> (r: i128)
    ensures
        r == seconds_between(now, then),
{
    let a: i64 = day_second(now);
    let b: i64 = day_second(then);
    let leap: i128 = if a > b && then.nanos >= 1_000_000_000 {
        1
    } else if a < b && now.nanos >= 1_000_000_000 {
        -1
    } else {
        0
    };
    let n: i128 = (now.secs as i128 - then.secs as i128 + leap) * 1_000_000_000 + (now.nanos as i128
        - then.nanos as i128);
    if n >= 0 {
        n / 1_000_000_000
    } else {
        -((-n) / 1_000_000_000)
    }
}

/// Time that passes is counted: from a point to one that lies a whole number of seconds
/// later, with no leap second at either end, it is that number.
pub proof fn law_seconds_add_up(then: Timestamp, later: Timestamp)
    requires
        !in_leap_second(then),
        !in_leap_second(later),
        then.nanos == later.nanos,
    ensures
        seconds_between(later, then) == later.secs - then.secs,
        seconds_between(then, later) == then.secs - later.secs,
{
}

/// The seconds between two points without leap seconds are those that have passed in full,
/// whichever of the points comes first: a second that has only begun does not count.
pub proof fn law_whole_seconds_are_counted(now: Timestamp, then: Timestamp)
    requires
        now.nanos < 1_000_000_000,
        then.nanos < 1_000_000_000,
    ensures
        ({
            let passed = (now.secs - then.secs) * 1_000_000_000 + (now.nanos - then.nanos);
            let r = seconds_between(now, then);
            &&& passed >= 0 ==> r * 1_000_000_000 <= passed < (r + 1) * 1_000_000_000
            &&& passed <= 0 ==> (r - 1) * 1_000_000_000 < passed <= r * 1_000_000_000
            &&& seconds_between(then, now) == -r
        }),
{
}

/// A text that says a point in time says it as the seconds and nanoseconds that it was read
/// as, and what says none gives none.
pub proof fn law_times_are_what_is_read(s: Seq<char>)
    ensures
        instant(s) matches Some((secs, nanos)) ==> (time_of(s) matches Some(t) && t.secs == secs
            && t.nanos == nanos),
        instant(s) is None ==> time_of(s) is None,
        opt_time_of(Some(s)) == time_of(s),
        opt_time_of(None) is None,
{
}

} // verus!
