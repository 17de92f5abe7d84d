use std::time::{Duration, Instant};
use vstd::prelude::*;

verus! {

#[verifier::external_type_specification]
#[verifier::external_body]
pub struct ExInstant(Instant);

/// Relies on `Instant::now`: a reading of the monotonic clock.
#[verifier::external_body]
pub(crate) fn clock_start() -> (r: Instant) {
    Instant::now()
}

/// Relies on `Instant::elapsed`: the time passed since `origin` was read.
#[verifier::external_body]
pub(crate) fn elapsed_since(origin: &Instant) -> (r: Duration) {
    origin.elapsed()
}

/// Relies on `Duration::as_nanos`: the whole duration in nanoseconds.
#[verifier::external_body]
pub(crate) fn duration_nanos(d: &Duration) -> (r: u128) {
    d.as_nanos()
}

} // verus!
