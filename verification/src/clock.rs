//! The monotonic clock of the standard library, as far as the governor reads it.
//!
//! Nothing is claimed of what the clock returns: the code that reads it is
//! proved for every value.

use vstd::prelude::*;
use std::time::{Duration, Instant};

verus! {

/// `std::time::Instant`, a point on the monotonic clock. Its inside is not
/// looked at.
#[verifier::external_type_specification]
#[verifier::external_body]
pub struct ExInstant(std::time::Instant);

/// `Instant::now` reads the clock. Nothing is claimed of the instant returned.
pub assume_specification[ std::time::Instant::now ]() -> (instant: Instant);

/// `Instant::elapsed` gives the time that has passed since the instant was
/// taken. Nothing is claimed of the duration returned.
pub assume_specification[ std::time::Instant::elapsed ](instant: &Instant) -> (passed: Duration);

/// `Duration::as_millis` gives the whole milliseconds of a duration. Nothing
/// is claimed of the number returned.
pub assume_specification[ std::time::Duration::as_millis ](duration: &Duration) -> (millis: u128);

/// Whole milliseconds that have passed since `origin` was taken, capped at
/// `u64::MAX`.
pub fn millis_since(origin: &Instant) -> (millis: u64) {
    let passed = origin.elapsed();
    cap_millis(passed.as_millis())
}

/// `millis`, or `u64::MAX` where it is larger than that.
pub open spec fn capped_millis(millis: u128) -> u64 {
    if millis > u64::MAX {
        u64::MAX
    } else {
        millis as u64
    }
}

/// A count of milliseconds as the governor keeps it: as it is where it fits,
/// and the largest time otherwise.
pub fn cap_millis(millis: u128) -> (capped: u64)
    ensures
        capped == capped_millis(millis),
{
    if millis > 0xffff_ffff_ffff_ffffu128 {
        u64::MAX
    } else {
        millis as u64
    }
}

} // verus!
