//! The wall clock.

use std::time::{Duration, SystemTime, SystemTimeError};

use vstd::prelude::*;

verus! {

/// `std::time::SystemTime`, a reading of the clock.
#[verifier::external_type_specification]
#[verifier::external_body]
pub struct ExSystemTime(SystemTime);

/// `std::time::SystemTimeError`, for a clock that is set before the epoch.
#[verifier::external_type_specification]
#[verifier::external_body]
pub struct ExSystemTimeError(SystemTimeError);

/// Where a reading of the clock stands: nanoseconds after the epoch, negative
/// for one before it.
pub uninterp spec fn reading(time: SystemTime) -> int;

/// How long a `Duration` is, in nanoseconds.
pub uninterp spec fn span(duration: Duration) -> nat;

/// `SystemTime::now`. Nothing is claimed of the time.
pub assume_specification[ SystemTime::now ]() -> SystemTime;

/// `std::time::UNIX_EPOCH`. Taken on trust: readings are counted from it.
#[verifier::external_body]
fn unix_epoch() -> (epoch: SystemTime)
    ensures
        reading(epoch) == 0,
{
    std::time::UNIX_EPOCH
}

/// `SystemTime::duration_since`. Taken on trust: it succeeds unless `earlier`
/// is later than `time`, with the time from one to the other.
pub assume_specification[ SystemTime::duration_since ](
    time: &SystemTime,
    earlier: SystemTime,
) -> (elapsed: Result<Duration, SystemTimeError>)
    ensures
        elapsed is Ok <==> reading(earlier) <= reading(*time),
        elapsed matches Ok(duration) ==> span(duration) == reading(*time) - reading(earlier),
;

/// `Duration::as_secs`. Taken on trust: the whole seconds of the duration.
pub assume_specification[ Duration::as_secs ](duration: &Duration) -> (seconds: u64)
    ensures
        seconds == span(*duration) / 1_000_000_000,
;

/// `Duration::as_millis`. Taken on trust: the whole milliseconds of the
/// duration.
pub assume_specification[ Duration::as_millis ](duration: &Duration) -> (millis: u128)
    ensures
        millis == span(*duration) / 1_000_000,
;

/// The whole seconds in `nanos`, zero where it is negative.
pub open spec fn whole_seconds(nanos: int) -> int {
    if nanos < 0 {
        0
    } else {
        nanos / 1_000_000_000
    }
}

/// The whole milliseconds in `nanos`, zero where it is negative.
pub open spec fn whole_millis(nanos: int) -> int {
    if nanos < 0 {
        0
    } else {
        nanos / 1_000_000
    }
}

/// Whole seconds from the epoch to `now`, zero for a clock that is set before
/// it.
pub fn seconds_at(now: SystemTime) -> (seconds: u64)
    ensures
        seconds == whole_seconds(reading(now)),
        reading(now) < 0 ==> seconds == 0,
        reading(now) >= 0 ==> seconds * 1_000_000_000 <= reading(now) < (seconds + 1)
            * 1_000_000_000,
{
    match now.duration_since(unix_epoch()) {
        Ok(elapsed) => elapsed.as_secs(),
        Err(_) => 0,
    }
}

/// Whole milliseconds from the epoch to `now`, zero for a clock that is set
/// before it. The count is cut to its lower bits where it does not fit.
pub fn millis_at(now: SystemTime) -> (millis: u64)
    ensures
        millis == whole_millis(reading(now)) as u64,
        reading(now) < 0 ==> millis == 0,
        0 <= reading(now) < 1_000_000 * u64::MAX ==> millis * 1_000_000 <= reading(now) < (millis
            + 1) * 1_000_000,
{
    match now.duration_since(unix_epoch()) {
        Ok(elapsed) => #[verifier::truncate] (elapsed.as_millis() as u64),
        Err(_) => 0,
    }
}

/// Whole seconds since the epoch, by the clock as it reads now.
pub(crate) fn unix_seconds() -> (seconds: u64)
    ensures
        exists|now: SystemTime| seconds == whole_seconds(#[trigger] reading(now)),
{
    let now = SystemTime::now();
    let seconds = seconds_at(now);
    assert(seconds == whole_seconds(reading(now)));
    seconds
}

/// Whole milliseconds since the epoch, by the clock as it reads now.
pub(crate) fn unix_millis() -> (millis: u64)
    ensures
        exists|now: SystemTime| millis == whole_millis(#[trigger] reading(now)) as u64,
{
    let now = SystemTime::now();
    let millis = millis_at(now);
    assert(millis == whole_millis(reading(now)) as u64);
    millis
}

/// A reading lies within the second and the millisecond that are counted for
/// it; one before the epoch is counted as the epoch.
pub proof fn readings_are_counted_in_whole_units(nanos: int)
    ensures
        nanos >= 0 ==> whole_seconds(nanos) * 1_000_000_000 <= nanos < (whole_seconds(nanos) + 1)
            * 1_000_000_000,
        nanos >= 0 ==> whole_millis(nanos) * 1_000_000 <= nanos < (whole_millis(nanos) + 1)
            * 1_000_000,
        nanos < 0 ==> whole_seconds(nanos) == 0 && whole_millis(nanos) == 0,
{
}

} // verus!
