//! Contracts for `std::time`: durations, the monotonic clock and the system clock.

use std::time::{Duration, Instant, SystemTime, SystemTimeError};
use vstd::prelude::*;

verus! {

/// The length of a `Duration` in nanoseconds, as `Duration::as_nanos` gives it.
pub uninterp spec fn duration_nanos(d: Duration) -> u128;

/// `Duration::as_nanos` is the whole length of the duration in nanoseconds.
pub assume_specification [std::time::Duration::as_nanos] (d: &Duration) -> (n: u128)
    ensures
        n == duration_nanos(*d),
;

/// `Duration::as_micros` is the number of whole microseconds in the duration.
pub assume_specification [std::time::Duration::as_micros] (d: &Duration) -> (n: u128)
    ensures
        n == duration_nanos(*d) / 1_000,
;

/// `Duration::as_millis` is the number of whole milliseconds in the duration.
pub assume_specification [std::time::Duration::as_millis] (d: &Duration) -> (n: u128)
    ensures
        n == duration_nanos(*d) / 1_000_000,
;

/// `Duration::as_secs` is the number of whole seconds in the duration.
pub assume_specification [std::time::Duration::as_secs] (d: &Duration) -> (n: u64)
    ensures
        n == duration_nanos(*d) / 1_000_000_000,
;

/// `Duration::from_millis` makes a duration of that many milliseconds.
pub assume_specification [std::time::Duration::from_millis] (millis: u64) -> (d: Duration)
    ensures
        duration_nanos(d) == millis * 1_000_000,
;

/// `Duration::from_secs` makes a duration of that many seconds.
pub assume_specification [std::time::Duration::from_secs] (secs: u64) -> (d: Duration)
    ensures
        duration_nanos(d) == secs * 1_000_000_000,
;

/// `std::time::Instant`, a reading of the monotonic clock.
#[verifier::external_type_specification]
#[verifier::external_body]
pub struct ExInstant(std::time::Instant);

/// Where a reading of the monotonic clock lies, in nanoseconds after a point that
/// is the same for all readings of a process.
pub uninterp spec fn instant_nanos(i: Instant) -> int;

/// `Instant::now` reads the monotonic clock. Nothing is stated of the reading.
pub assume_specification [std::time::Instant::now] () -> (i: Instant);

/// `Instant::duration_since` is the time from `earlier` to the reading, and zero
/// where `earlier` is the later of the two.
pub assume_specification [std::time::Instant::duration_since] (i: &Instant, earlier: Instant) -> (d: Duration)
    ensures
        duration_nanos(d) == elapsed_nanos(instant_nanos(earlier), instant_nanos(*i)),
;

/// The time from one reading to another, and zero where the second is the earlier.
pub open spec fn elapsed_nanos(from: int, to: int) -> int {
    if to >= from {
        to - from
    } else {
        0
    }
}

/// `std::time::SystemTime`, a reading of the system clock.
#[verifier::external_type_specification]
#[verifier::external_body]
pub struct ExSystemTime(std::time::SystemTime);

/// `std::time::SystemTimeError`, the error of `SystemTime::duration_since`.
#[verifier::external_type_specification]
#[verifier::external_body]
pub struct ExSystemTimeError(std::time::SystemTimeError);

/// Where a reading of the system clock lies, in nanoseconds after the UNIX epoch.
pub uninterp spec fn system_time_nanos(t: SystemTime) -> int;

/// `SystemTime::now` reads the system clock. Nothing is stated of the reading.
pub assume_specification [std::time::SystemTime::now] () -> (t: SystemTime);

/// `SystemTime::duration_since` is the time from `earlier` to the reading, and an
/// error where `earlier` is the later of the two.
pub assume_specification [std::time::SystemTime::duration_since] (
    t: &SystemTime,
    earlier: SystemTime,
) -> (r: std::result::Result<Duration, SystemTimeError>)
    ensures
        r is Ok <==> system_time_nanos(*t) >= system_time_nanos(earlier),
        r matches Ok(d) ==> duration_nanos(d) == system_time_nanos(*t) - system_time_nanos(earlier),
;

/// `std::time::UNIX_EPOCH` is the epoch of the system clock.
#[verifier::external_body]
pub(crate) fn unix_epoch() -> (t: SystemTime)
    ensures
        system_time_nanos(t) == 0,
{
    std::time::UNIX_EPOCH
}

/// The text of a duration of so many nanoseconds, as `Duration`'s `Debug` writes it.
pub uninterp spec fn duration_debug(nanos: u128) -> Seq<char>;

/// `Duration`'s `Debug` writes the duration as a decimal number with a unit. The
/// text is a function of the duration alone; how it is written is not stated.
#[verifier::external_body]
pub(crate) fn duration_text(d: &Duration) -> (s: String)
    ensures
        s@ == duration_debug(duration_nanos(*d)),
{
    format!("{:?}", d)
}

}
