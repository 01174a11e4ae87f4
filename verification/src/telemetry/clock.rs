//! Monotonic clock readings used to time sends.

use vstd::prelude::*;

verus! {

#[verifier::external_type_specification]
#[verifier::external_body]
pub struct ExInstant(std::time::Instant);

/// Calls `std::time::Instant::now`.  The reading depends on the machine's
/// clock, so nothing is stated of it.
#[verifier::external_body]
pub(crate) fn instant_now() -> (r: std::time::Instant) {
    std::time::Instant::now()
}

/// Calls `std::time::Instant::elapsed`.  The duration depends on the clock,
/// so nothing is stated of it.
#[verifier::external_body]
pub(crate) fn instant_elapsed(start: &std::time::Instant) -> (r: core::time::Duration) {
    start.elapsed()
}

/// Calls `core::time::Duration::as_nanos`.  A `Duration` is opaque here, so
/// nothing is stated of the number of nanoseconds it holds.
#[verifier::external_body]
pub(crate) fn duration_as_nanos(d: &core::time::Duration) -> (r: u128) {
    d.as_nanos()
}

} // verus!
