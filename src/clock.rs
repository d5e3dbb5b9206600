//! The monotonic clock that bars read, behind the few std calls it needs.
use std::time::{Duration, Instant};
use vstd::prelude::*;

verus! {

#[verifier::external_type_specification]
#[verifier::external_body]
pub struct ExInstant(Instant);

/// Relies on std's `Instant::now`: a reading of the monotonic clock, kept
/// as the origin that later readings are measured from.
#[verifier::external_body]
pub(crate) fn clock_origin() -> Instant {
    Instant::now()
}

/// Relies on std's `Instant::elapsed`: the nanoseconds since `origin`,
/// saturated at `u64::MAX`. Nothing is promised of the value, which depends
/// on when the call is made.
#[verifier::external_body]
pub(crate) fn nanos_since(origin: &Instant) -> u64 {
    u64::try_from(origin.elapsed().as_nanos()).unwrap_or(u64::MAX)
}

/// Relies on std's `Duration::as_nanos`: the length of `d` in nanoseconds,
/// saturated at `u64::MAX`. `Duration` is opaque here, so nothing is stated
/// of the value.
#[verifier::external_body]
pub(crate) fn duration_nanos(d: &Duration) -> u64 {
    u64::try_from(d.as_nanos()).unwrap_or(u64::MAX)
}

} // verus!
