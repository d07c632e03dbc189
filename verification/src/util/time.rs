//! The clocks of the host.

use std::time::{SystemTime, UNIX_EPOCH};
use tokio::time::Instant;
use vstd::prelude::*;

verus! {

/// A point of tokio's monotonic clock; nothing of it is visible here.
#[verifier::external_type_specification]
#[verifier::external_body]
pub struct ExInstant(Instant);

/// Calls `SystemTime::now` and `SystemTime::duration_since` the Unix
/// epoch. Trusted, and nothing is claimed of the result: the time since
/// the epoch in microseconds, and `None` where the wall clock stands before
/// the epoch.
#[verifier::external_body]
fn since_epoch_us() -> Option<u128> {
    SystemTime::now().duration_since(UNIX_EPOCH).ok().map(|since| since.as_micros())
}

/// Get the current system timestamp, in microseconds since the Unix epoch:
/// what the wall clock says, and zero where it stands before the epoch.
pub fn get_timestamp() -> u128 {
    match since_epoch_us() {
        Some(timestamp) => timestamp,
        None => 0,
    }
}

/// Calls `tokio::time::Instant::now`. Trusted, and nothing is claimed of
/// the result.
#[verifier::external_body]
pub(crate) fn monotonic_now() -> Instant {
    Instant::now()
}

/// Calls `tokio::time::Instant::duration_since`, which yields zero when
/// `earlier` is the later of the two. Trusted, and nothing is claimed of the
/// result, here in nanoseconds.
#[verifier::external_body]
pub(crate) fn nanos_between(earlier: &Instant, later: &Instant) -> u128 {
    later.duration_since(*earlier).as_nanos()
}

} // verus!
