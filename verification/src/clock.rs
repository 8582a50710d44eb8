//! Elapsed time, read from the system's monotonic clock.
use vstd::prelude::*;

use std::time::{Duration, Instant};

verus! {

#[verifier::external_type_specification]
#[verifier::external_body]
pub struct ExInstant(Instant);

/// `Instant::now`: the current reading of the monotonic clock; nothing is
/// said of its value.
#[verifier::external_body]
pub(crate) fn clock_now() -> Instant {
    Instant::now()
}

/// `Instant::elapsed`: the time since `start`; nothing is said of its
/// value.
#[verifier::external_body]
fn elapsed(start: &Instant) -> Duration {
    start.elapsed()
}

/// `Duration::as_millis`: whole milliseconds of a duration; nothing is
/// said of its value.
#[verifier::external_body]
fn whole_millis(d: &Duration) -> u128 {
    d.as_millis()
}

/// Milliseconds since `start`, capped at the largest `u64`.
pub(crate) fn millis_since(start: &Instant) -> u64 {
    let d = elapsed(start);
    let ms = whole_millis(&d);
    if ms > u64::MAX as u128 {
        u64::MAX
    } else {
        ms as u64
    }
}

} // verus!
