//! The monotonic clock behind the search deadline.

use vstd::prelude::*;
use std::time::{Duration, Instant};

verus! {

#[verifier::external_type_specification]
#[verifier::external_body]
pub struct ExInstant(Instant);

/// Relies on `std::time::Instant::now`: a reading of the monotonic clock.
/// Nothing is known of it.
#[verifier::external_body]
pub fn now() -> Instant {
    Instant::now()
}

/// Relies on `std::time::Instant::elapsed`: the time passed since `start`.
/// Nothing is known of it.
#[verifier::external_body]
pub fn elapsed(start: &Instant) -> Duration {
    start.elapsed()
}

/// Relies on `Duration`'s `>=`: whether `a` is at least `b`. Nothing is
/// assumed of the answer.
#[verifier::external_body]
pub fn at_least(a: &Duration, b: &Duration) -> bool {
    a >= b
}

} // verus!
