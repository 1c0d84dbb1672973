//! The store's clock.

use std::time::Duration;
use std::time::SystemTime;
use vstd::prelude::*;

verus! {

/// `std::time::SystemTime`: an instant on the system clock, carried from one
/// call to the next and never looked into.
#[verifier::external_type_specification]
#[verifier::external_body]
pub struct ExSystemTime(SystemTime);

/// `SystemTime::now`: the instant that the system clock shows. Nothing is
/// claimed of it.
pub assume_specification[ SystemTime::now ]() -> (now: SystemTime);

/// `Duration::as_millis`: the whole milliseconds in `elapsed`. A `Duration`
/// is a number of whole seconds that fits a `u64` and a part of a second, so
/// it holds less than `u64::MAX + 1` seconds. No more is claimed of the
/// number.
pub assume_specification[ Duration::as_millis ](elapsed: &Duration) -> (millis: u128)
    ensures
        millis <= u64::MAX * 1000 + 999,
;

/// `SystemTime::duration_since`, from the Unix epoch to `instant`: the time
/// between the two, or nothing where `instant` lies before the epoch. Nothing
/// is claimed of which it is.
#[verifier::external_body]
fn since_epoch(instant: &SystemTime) -> (elapsed: Option<Duration>) {
    instant.duration_since(SystemTime::UNIX_EPOCH).ok()
}

/// The milliseconds that have passed since the Unix epoch, as the system
/// clock has it. A clock that is set before the epoch reads as the epoch
/// itself. Whatever the clock shows, the reading is within what a span of
/// time can measure: under `u64::MAX + 1` seconds.
pub fn time_now() -> (now: u128)
    ensures
        now <= u64::MAX * 1000 + 999,
{
    let instant = SystemTime::now();
    let elapsed = match since_epoch(&instant) {
        Some(elapsed) => Some(elapsed.as_millis()),
        None => None,
    };
    clock_reading(elapsed)
}

/// What the clock reads where `elapsed` milliseconds lie between the Unix
/// epoch and now: that number. Where the clock is set before the epoch there
/// is no such time, and it reads 0, the epoch itself.
pub open spec fn reading(elapsed: Option<u128>) -> u128 {
    match elapsed {
        Some(millis) => millis,
        None => 0,
    }
}

/// The clock's reading for the time since the Unix epoch that the system
/// gave.
pub fn clock_reading(elapsed: Option<u128>) -> (now: u128)
    ensures
        now == reading(elapsed),
{
    match elapsed {
        Some(millis) => millis,
        None => 0,
    }
}

} // verus!
