//! Reading the wall clock.

use vstd::prelude::*;

use std::time::{Instant, SystemTime, UNIX_EPOCH};

verus! {

/// Seconds since the Unix epoch, by `std::time::SystemTime::now`, converted to whole
/// seconds (zero if the clock reads before the epoch). Nothing is claimed of the value:
/// it is whatever the clock says when called.
#[verifier::external_body]
pub(crate) fn now_unix_sec() -> (r: u64) {
    SystemTime::now().duration_since(UNIX_EPOCH).unwrap_or_default().as_secs()
}

/// Milliseconds since the Unix epoch, by `std::time::SystemTime::now`, converted to
/// whole milliseconds (zero before the epoch, saturating past `u64::MAX`). Nothing is
/// claimed of the value: it is whatever the clock says when called.
#[verifier::external_body]
pub(crate) fn now_unix_millis() -> (r: u64) {
    u64::try_from(SystemTime::now().duration_since(UNIX_EPOCH).unwrap_or_default().as_millis())
        .unwrap_or(u64::MAX)
}

#[verifier::external_type_specification]
#[verifier::external_body]
pub struct ExInstant(Instant);

/// A reading of the monotonic clock, by `std::time::Instant::now`. Nothing is claimed
/// of it; it is only carried and later measured from.
#[verifier::external_body]
fn monotonic_now() -> (r: Instant) {
    Instant::now()
}

/// Whole milliseconds elapsed on the monotonic clock since `origin`, by
/// `std::time::Instant::elapsed` (saturating past `u64::MAX`). Nothing is claimed of the
/// value: it is whatever the clock says when called.
#[verifier::external_body]
fn millis_since(origin: &Instant) -> (r: u64) {
    u64::try_from(origin.elapsed().as_millis()).unwrap_or(u64::MAX)
}

/// A clock that never runs backwards: it reads the value it was started at, advanced by
/// the milliseconds elapsed since on the monotonic clock.
pub struct MonotonicClock {
    base: u64,
    origin: Instant,
}

impl MonotonicClock {
    /// A clock that reads `base` now.
    pub fn starting_at(base: u64) -> (r: Self) {
        MonotonicClock { base, origin: monotonic_now() }
    }

    /// The clock's current reading, in milliseconds (saturating at `u64::MAX`).
    pub fn now_millis(&self) -> (r: u64) {
        self.base.saturating_add(millis_since(&self.origin))
    }
}

} // verus!
