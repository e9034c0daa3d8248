use std::time::{Duration, SystemTime, SystemTimeError, UNIX_EPOCH};
use vstd::prelude::*;

verus! {

#[verifier::external_type_specification]
#[verifier::external_body]
pub struct ExSystemTime(SystemTime);

#[verifier::external_type_specification]
#[verifier::external_body]
pub struct ExSystemTimeError(SystemTimeError);

/// `SystemTime::now`: what the system clock reads. Nothing is promised about it.
#[verifier::external_body]
fn system_time_now() -> (now: SystemTime) {
    SystemTime::now()
}

/// `SystemTime::duration_since`, counted from the Unix epoch: how long after the
/// epoch `t` is, or an error where `t` is earlier than the epoch. Nothing is
/// promised about which.
#[verifier::external_body]
fn since_epoch(t: &SystemTime) -> (d: Result<Duration, SystemTimeError>) {
    t.duration_since(UNIX_EPOCH)
}

/// `Duration::as_nanos`: the duration in whole nanoseconds.
#[verifier::external_body]
fn duration_nanos(d: &Duration) -> (n: u128) {
    d.as_nanos()
}

/// What the system clock reads, in nanoseconds since the Unix epoch; nothing where
/// it reads earlier than the epoch.
pub(crate) fn unix_nanos() -> (now: Option<u128>) {
    match since_epoch(&system_time_now()) {
        Ok(d) => Some(duration_nanos(&d)),
        Err(_) => None,
    }
}

/// The clock reading as a time: the reading itself, and the epoch where the clock
/// read earlier than the epoch and so gave no reading.
pub open spec fn reading_or_epoch(reading: Option<u128>) -> u128 {
    match reading {
        Some(t) => t,
        None => 0,
    }
}

/// The time that a clock reading stands for, in nanoseconds since the epoch.
pub fn nanos_or_epoch(reading: Option<u128>) -> (now: u128)
    ensures
        now == reading_or_epoch(reading),
{
    match reading {
        Some(t) => t,
        None => 0,
    }
}

} // verus!
