//! A wall-clock reading, taken on trust from std.
//!
//! The exchange messages embed how long a computation took.  A clock value
//! depends on when the call happens, so the trusted items below promise
//! nothing of what they return; every function that consumes a duration
//! takes it as a plain argument and is verified for all of its values.

use vstd::prelude::*;

verus! {

/// `std::time::Instant`, declared so that instants can pass through
/// verified code; Verus sees nothing inside a value of it.
#[verifier::external_type_specification]
#[verifier::external_body]
pub struct ExInstant(std::time::Instant);

/// Relies on `std::time::Instant::now`: a reading of the monotonic clock.
/// When the call happens decides the value, so nothing is promised of it.
#[verifier::external_body]
pub(crate) fn clock_now() -> std::time::Instant {
    std::time::Instant::now()
}

/// Relies on `std::time::Instant::elapsed`: the time since the earlier
/// reading, converted to whole microseconds and capped at `u64::MAX`.  The
/// value depends on when the call happens, so nothing is promised of it.
#[verifier::external_body]
pub(crate) fn micros_since(start: &std::time::Instant) -> u64 {
    u64::try_from(start.elapsed().as_micros()).unwrap_or(u64::MAX)
}

} // verus!
