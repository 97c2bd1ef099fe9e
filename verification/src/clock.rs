//! The system clock.
use vstd::prelude::*;

verus! {

/// A point in time.
#[verifier::external_type_specification]
#[verifier::external_body]
pub struct ExSystemTime(std::time::SystemTime);

/// That one point in time is before another.
#[verifier::external_type_specification]
#[verifier::external_body]
pub struct ExSystemTimeError(std::time::SystemTimeError);

/// Calls `std::time::SystemTime::now`. Nothing is claimed of the time.
#[verifier::external_body]
fn now() -> (time: std::time::SystemTime) {
    std::time::SystemTime::now()
}

/// Calls `std::time::SystemTime::duration_since` with the Unix epoch. Nothing is
/// claimed of the span.
#[verifier::external_body]
fn since_epoch(time: std::time::SystemTime) -> (span: Result<
    std::time::Duration,
    std::time::SystemTimeError,
>) {
    time.duration_since(std::time::UNIX_EPOCH)
}

/// Calls `std::time::Duration::as_secs`. Nothing is claimed of the number.
#[verifier::external_body]
fn whole_seconds(span: std::time::Duration) -> (seconds: u64) {
    span.as_secs()
}

/// The number of seconds that a clock shows which stands at `since_epoch` whole
/// seconds after the Unix epoch, or before it.
pub fn unix_seconds(since_epoch: Option<u64>) -> (seconds: u64)
    ensures
        seconds == (match since_epoch {
            Some(span) => span,
            None => 0u64,
        }),
{
    match since_epoch {
        Some(span) => span,
        None => 0,
    }
}

/// The time in seconds since the Unix epoch. What it is depends on the clock
/// alone.
pub fn now_unix() -> (seconds: u64) {
    match since_epoch(now()) {
        Ok(span) => unix_seconds(Some(whole_seconds(span))),
        Err(_) => unix_seconds(None),
    }
}

/// The span from `fetched_at_unix` to `now_unix`, and zero if the clock has moved
/// backwards.
pub open spec fn age(now_unix: u64, fetched_at_unix: u64) -> u64 {
    if now_unix > fetched_at_unix {
        (now_unix - fetched_at_unix) as u64
    } else {
        0
    }
}

/// Seconds from `fetched_at_unix` to `now_unix`, saturating at zero if the clock
/// has moved backwards in between.
pub fn age_at(now_unix: u64, fetched_at_unix: u64) -> (seconds: u64)
    ensures
        seconds == age(now_unix, fetched_at_unix),
{
    if now_unix > fetched_at_unix {
        now_unix - fetched_at_unix
    } else {
        0
    }
}

/// Seconds since `fetched_at_unix`. Whatever the clock shows, the age is that of
/// some time.
pub fn age_seconds(fetched_at_unix: u64) -> (seconds: u64)
    ensures
        exists|now: u64| seconds == #[trigger] age(now, fetched_at_unix),
{
    age_at(now_unix(), fetched_at_unix)
}

} // verus!
