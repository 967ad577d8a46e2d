//! The time source that stamps arrivals: the machine's monotonic clock, or a
//! simulated clock that only moves when a test moves it.

use std::time::{Duration, Instant};
use vstd::prelude::*;

verus! {

/// A point in time on the machine's monotonic clock.
#[verifier::external_type_specification]
#[verifier::external_body]
pub struct ExInstant(Instant);

/// Calls `std::time::Instant::now`. Nothing is claimed of the result.
#[verifier::external_body]
fn instant_now() -> Instant {
    Instant::now()
}

/// Calls `std::time::Instant::elapsed`. Nothing is claimed of the result.
#[verifier::external_body]
fn instant_elapsed(origin: &Instant) -> Duration {
    origin.elapsed()
}

/// Calls `std::time::Duration::as_millis`. Nothing is claimed of the result.
#[verifier::external_body]
fn duration_millis(duration: &Duration) -> u128 {
    duration.as_millis()
}

/// Calls `fake_clock::FakeClock::time`, which reads the calling thread's
/// simulated time in milliseconds. Nothing is claimed of the result.
#[verifier::external_body]
fn simulated_millis() -> u64 {
    fake_clock::FakeClock::time()
}

/// The timestamp for a time of `millis` milliseconds: `millis` itself, or
/// `u64::MAX` where that does not fit.
pub open spec fn saturated(millis: u128) -> u64 {
    if millis > u64::MAX {
        u64::MAX
    } else {
        millis as u64
    }
}

/// The timestamp for a time of `millis` milliseconds.
fn saturate(millis: u128) -> (time: u64)
    ensures
        time == saturated(millis),
{
    if millis > u64::MAX as u128 {
        u64::MAX
    } else {
        millis as u64
    }
}

/// A source of timestamps, in milliseconds.
pub struct Clock {
    origin: Option<Instant>,
}

impl Clock {
    /// Whether this is the simulated clock.
    pub closed spec fn is_simulated(self) -> bool {
        self.origin.is_none()
    }

    /// The machine's monotonic clock, counting from now.
    pub fn monotonic() -> (clock: Clock)
        ensures
            !clock.is_simulated(),
    {
        Clock { origin: Some(instant_now()) }
    }

    /// The calling thread's simulated clock.
    pub fn simulated() -> (clock: Clock)
        ensures
            clock.is_simulated(),
    {
        Clock { origin: None }
    }

    /// The current time in milliseconds: since this clock was made, for the
    /// monotonic clock, and as the simulated clock shows it otherwise. A time
    /// that does not fit comes out as `u64::MAX`.
    pub(crate) fn now(&self) -> u64 {
        match &self.origin {
            Some(origin) => {
                let elapsed = instant_elapsed(origin);
                saturate(duration_millis(&elapsed))
            },
            None => simulated_millis(),
        }
    }
}

} // verus!
