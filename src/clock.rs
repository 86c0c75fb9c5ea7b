use vstd::prelude::*;

verus! {

/// Milliseconds in one hour.
pub const MILLIS_PER_HOUR: i64 = 3_600_000;

/// How long an unanswered handshake stays live: 24 hours, in milliseconds.
pub const EXPIRY_WINDOW_MILLIS: i64 = 24 * MILLIS_PER_HOUR;

/// Relies on `chrono::Utc::now` and `DateTime::timestamp_millis`: the current
/// wall-clock time in milliseconds since the Unix epoch. `Utc::now` panics on a
/// system time before the epoch, so what it returns is never negative.
#[verifier::external_body]
pub(crate) fn wall_clock_millis() -> (r: i64)
    ensures
        r >= 0,
{
    chrono::Utc::now().timestamp_millis()
}

/// The timestamp a store issues at wall-clock time `now` when the last one it
/// issued was `last`: the clock is held back from running backwards.
pub open spec fn next_stamp(last: i64, now: i64) -> i64 {
    if now < last {
        last
    } else {
        now
    }
}

/// Computes `next_stamp(last, now)`.
pub fn stamp(last: i64, now: i64) -> (r: i64)
    ensures
        r == next_stamp(last, now),
        r >= last,
        r >= now,
{
    if now < last {
        last
    } else {
        now
    }
}

} // verus!
