//! The clocks: the monotonic clock's instants and their durations, and the
//! wall clock in seconds since 1970. What they read is never claimed.

use vstd::prelude::*;
use std::time::{Duration, Instant};

verus! {

#[verifier::external_type_specification]
#[verifier::external_body]
pub struct ExInstant(std::time::Instant);

/// Calls `Instant::now`; nothing is claimed of the time it gives.
#[verifier::external_body]
pub(crate) fn instant_now() -> Instant {
    Instant::now()
}

/// Calls `Instant::duration_since`; nothing is claimed of the result.
#[verifier::external_body]
pub(crate) fn duration_since(now: &Instant, earlier: &Instant) -> Duration {
    now.duration_since(*earlier)
}

/// Calls `Duration::as_secs`; nothing is claimed of the result.
#[verifier::external_body]
pub(crate) fn duration_secs(d: &Duration) -> u64 {
    d.as_secs()
}

/// Calls `Duration::as_nanos`; nothing is claimed of the result.
#[verifier::external_body]
pub(crate) fn duration_nanos(d: &Duration) -> u128 {
    d.as_nanos()
}

/// Compares two durations with `>`; nothing is claimed of the result.
#[verifier::external_body]
pub(crate) fn duration_exceeds(a: &Duration, b: &Duration) -> bool {
    *a > *b
}

/// Calls `Duration::from_secs`; nothing is claimed of the result.
#[verifier::external_body]
pub(crate) fn duration_from_secs(secs: u64) -> Duration {
    Duration::from_secs(secs)
}

/// Calls `SystemTime::now().duration_since(UNIX_EPOCH)` and `as_secs`: the
/// whole seconds since 1970, None where the clock is set before it. Nothing
/// is claimed of the time it gives.
#[verifier::external_body]
pub(crate) fn unix_now() -> Option<u64> {
    std::time::SystemTime::now().duration_since(std::time::UNIX_EPOCH).ok().map(|d| d.as_secs())
}

} // verus!
