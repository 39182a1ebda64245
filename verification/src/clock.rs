//! Elapsed time, measured but never relied upon.

use std::time::Instant;
use vstd::prelude::*;

verus! {

/// `std::time::Instant`: a point in time.
#[verifier::external_type_specification]
#[verifier::external_body]
pub struct ExInstant(std::time::Instant);

/// `std::time::Instant::now`. Nothing is claimed of the result.
#[verifier::external_body]
pub(crate) fn now() -> (r: Instant) {
    Instant::now()
}

/// `std::time::Instant::elapsed` in milliseconds. Nothing is claimed of the
/// result.
#[verifier::external_body]
pub(crate) fn elapsed_millis(started: &Instant) -> (r: u64) {
    u64::try_from(started.elapsed().as_millis()).unwrap_or(u64::MAX)
}

} // verus!
