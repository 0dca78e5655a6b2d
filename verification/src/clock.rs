//! The real clock, read in the host's own unit: ticks of 100 nanoseconds
//! since 1601-01-01 00:00 UTC.

use crate::policy::wrap_ticks;
use std::time::{Duration, SystemTime, SystemTimeError};
use vstd::prelude::*;

verus! {

/// The seconds from 1601-01-01 to 1970-01-01, the epoch of `SystemTime`.
pub const EPOCH_OFFSET_SECS: u64 = 11_644_473_600;

/// The nanoseconds in one tick.
pub const NANOS_PER_TICK: u128 = 100;

/// `std::time::SystemTime`, an instant of the system clock. Nothing is known
/// of what a value holds.
#[verifier::external_type_specification]
#[verifier::external_body]
pub struct ExSystemTime(SystemTime);

/// `std::time::SystemTimeError`, the failure of `SystemTime::duration_since`.
/// Nothing is known of what a value holds.
#[verifier::external_type_specification]
#[verifier::external_body]
pub struct ExSystemTimeError(SystemTimeError);

/// `SystemTime::now` reads the system clock. Nothing is claimed of the
/// reading.
pub assume_specification[ SystemTime::now ]() -> (now: SystemTime);

/// `SystemTime::checked_sub` steps back from an instant by a duration, or
/// gives `None` where the platform cannot hold the instant that results.
/// Nothing is claimed of which it is.
pub assume_specification[ SystemTime::checked_sub ](
    instant: &SystemTime,
    duration: Duration,
) -> (earlier: Option<SystemTime>);

/// `SystemTime::duration_since` measures the time from `earlier` to an
/// instant, or fails where `earlier` is the later of the two. Nothing is
/// claimed of which it is.
pub assume_specification[ SystemTime::duration_since ](
    instant: &SystemTime,
    earlier: SystemTime,
) -> (elapsed: Result<Duration, SystemTimeError>);

/// `Duration::from_secs` makes a duration of whole seconds. `Duration` is
/// opaque here, so nothing is claimed of the result.
pub assume_specification[ Duration::from_secs ](secs: u64) -> (duration: Duration);

/// `Duration::as_nanos` gives a duration's length in nanoseconds. `Duration`
/// is opaque here, so nothing is claimed of the result.
pub assume_specification[ Duration::as_nanos ](duration: &Duration) -> (nanos: u128);

/// The constant `UNIX_EPOCH` of `std::time`: 1970-01-01 00:00 UTC. Nothing
/// is claimed of the value.
#[verifier::external_body]
fn unix_epoch() -> (epoch: SystemTime) {
    std::time::UNIX_EPOCH
}

/// The tick count of an instant that lies `nanos` nanoseconds after
/// 1601-01-01: whole ticks, counted modulo 2^64.
pub open spec fn ticks_of_nanos(nanos: u128) -> u64 {
    wrap_ticks(nanos as int / 100)
}

/// Turns nanoseconds since 1601-01-01 into ticks. A started tick does not
/// count, and the count wraps modulo 2^64.
pub fn nanos_to_ticks(nanos: u128) -> (ticks: u64)
    ensures
        ticks == ticks_of_nanos(nanos),
{
    let whole = nanos / NANOS_PER_TICK;
    let ticks = #[verifier::truncate]
    (whole as u64);
    assert(ticks == whole % 0x1_0000_0000_0000_0000) by (bit_vector)
        requires
            ticks == whole as u64,
    ;
    ticks
}

/// The real clock's reading in ticks since 1601-01-01, or `None` where the
/// platform cannot tell how long ago that was: it cannot hold so early an
/// instant, or the clock reads an earlier one.
pub fn get_real_time_stamp() -> (stamp: Option<u64>) {
    let offset = Duration::from_secs(EPOCH_OFFSET_SECS);
    let unix = unix_epoch();
    let epoch = match unix.checked_sub(offset) {
        Some(epoch) => epoch,
        None => {
            return None;
        },
    };
    let now = SystemTime::now();
    match now.duration_since(epoch) {
        Ok(elapsed) => Some(nanos_to_ticks(elapsed.as_nanos())),
        Err(_) => None,
    }
}

} // verus!
