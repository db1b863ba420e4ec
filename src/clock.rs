//! Wall-clock readings for the solver's deadline.
use vstd::prelude::*;

use std::time::{Duration, Instant};

verus! {

#[verifier::external_type_specification]
#[verifier::external_body]
pub struct ExInstant(Instant);

/// Relies on std's `Instant::now`: the current instant.
#[verifier::external_body]
pub(crate) fn now() -> (r: Instant) {
    Instant::now()
}

/// Relies on std's `Instant::elapsed`: the time passed since `start`.
/// Nothing is known of the value.
#[verifier::external_body]
pub(crate) fn elapsed(start: &Instant) -> (r: Duration) {
    start.elapsed()
}

/// Relies on std's `Duration::as_millis`: the duration in whole
/// milliseconds. Nothing is known of the value.
#[verifier::external_body]
pub(crate) fn millis(d: &Duration) -> (r: u128) {
    d.as_millis()
}

} // verus!
