//! The wall clock, read as nanoseconds since the Unix epoch.

use std::time::Duration;
use std::time::SystemTime;
use std::time::UNIX_EPOCH;
use vstd::prelude::*;

verus! {

/// `std::time::SystemTime`, a reading of the system clock. It is carried from
/// one call to the next and never looked into.
#[verifier::external_type_specification]
#[verifier::external_body]
pub struct ExSystemTime(std::time::SystemTime);

/// Reads the system clock with `SystemTime::now`. The reading depends on the
/// machine and the moment, so nothing is claimed of it.
#[verifier::external_body]
fn system_now() -> (t: SystemTime) {
    SystemTime::now()
}

/// Measures `t` from the Unix epoch with `SystemTime::duration_since`;
/// `None` where `t` lies before the epoch. A `SystemTime` is opaque here, so
/// nothing is claimed of the distance.
#[verifier::external_body]
fn since_epoch(t: &SystemTime) -> (distance: Option<Duration>) {
    t.duration_since(UNIX_EPOCH).ok()
}

/// Counts the nanoseconds of `distance` with `Duration::as_nanos`. A
/// `Duration` is opaque here, so nothing is claimed of the number.
#[verifier::external_body]
fn whole_nanos(distance: &Duration) -> (nanos: u128) {
    distance.as_nanos()
}

/// The current time in nanoseconds since the Unix epoch. A clock that is set
/// before the epoch reads as the epoch itself.
pub(crate) fn timestamp_now() -> u128 {
    let t = system_now();
    let reading = match since_epoch(&t) {
        Some(distance) => Some(whole_nanos(&distance)),
        None => None,
    };
    timestamp_of(reading)
}

/// The timestamp that a clock reading stands for: its distance from the Unix
/// epoch, and the epoch itself for a reading that lies before it.
pub open spec fn timestamp_of_reading(reading: Option<u128>) -> u128 {
    match reading {
        Some(nanos) => nanos,
        None => 0,
    }
}

/// Turns a clock reading, measured from the Unix epoch, into a timestamp.
pub fn timestamp_of(reading: Option<u128>) -> (timestamp: u128)
    ensures
        timestamp == timestamp_of_reading(reading),
{
    match reading {
        Some(nanos) => nanos,
        None => 0,
    }
}

} // verus!
