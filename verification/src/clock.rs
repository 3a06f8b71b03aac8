//! The two clocks the cache reads: the wall clock that stamps entries and a
//! monotonic one that times lookups.

use vstd::prelude::*;
use std::time::Instant;
use core::time::Duration;

verus! {

/// `std::time::Instant`, of which nothing is visible here.
#[verifier::external_type_specification]
#[verifier::external_body]
pub struct ExInstant(Instant);

/// `std::time::Instant::now`: some instant; nothing is claimed of it.
pub assume_specification[ Instant::now ]() -> Instant
;

/// `std::time::Instant::elapsed`: some duration; nothing is claimed of it.
pub assume_specification[ Instant::elapsed ](start: &Instant) -> Duration
;

/// `core::time::Duration::as_micros`: some number; nothing is claimed of it.
pub assume_specification[ Duration::as_micros ](duration: &Duration) -> u128
;

/// The wall clock: `std::time::SystemTime::now`, made a date by chrono's
/// `DateTime::<Utc>::from` and read with `DateTime::timestamp_millis`, which
/// is below zero for a clock that stands before the epoch. Nothing is claimed
/// of the value: the clock may stand still or run backwards between readings.
#[verifier::external_body]
pub(crate) fn current_time_millis() -> i64 {
    chrono::DateTime::<chrono::Utc>::from(std::time::SystemTime::now()).timestamp_millis()
}

/// The microseconds that passed since `start`, as far as a `u64` holds them.
pub fn elapsed_micros(start: &Instant) -> u64 {
    let micros: u128 = start.elapsed().as_micros();
    micros_within_u64(micros)
}

/// A number of microseconds as far as a `u64` holds it: the number itself,
/// or the greatest `u64` where it is greater.
pub fn micros_within_u64(micros: u128) -> (held: u64)
    ensures
        held == if micros <= u64::MAX {
            micros as u64
        } else {
            u64::MAX
        },
{
    if micros > 0xffff_ffff_ffff_ffff {
        u64::MAX
    } else {
        micros as u64
    }
}

} // verus!
