//! The clock that a circuit breaker reads: nanoseconds since it was started.
use std::time::{Duration, Instant};
use vstd::prelude::*;

verus! {

/// `std::time::Instant`, a reading of the monotonic clock of the machine.
/// Nothing of what it holds is visible here.
#[verifier::external_type_specification]
#[verifier::external_body]
pub struct ExInstant(Instant);

/// `Instant::now` reads the machine's clock. What it returns depends on when
/// it is called, so nothing is claimed of it.
pub assume_specification[ std::time::Instant::now ]() -> (instant: Instant)
;

/// `Instant::elapsed` gives the time that has passed since the reading was
/// taken. It depends on when it is called, so nothing is claimed of it.
pub assume_specification[ std::time::Instant::elapsed ](instant: &Instant) -> (duration: Duration)
;

/// `Duration::as_nanos` gives the length of a duration in nanoseconds. A
/// duration is opaque here, so nothing is claimed of the number.
pub assume_specification[ std::time::Duration::as_nanos ](duration: &Duration) -> (nanos: u128)
;

/// A clock that counts nanoseconds from the moment it was started.
#[derive(Debug, Clone, Copy, PartialEq)]
pub struct Clock {
    origin: Instant,
}

impl Clock {
    /// Starts a clock: its time is zero now.
    pub fn start() -> (clock: Self) {
        Self { origin: Instant::now() }
    }

    /// The nanoseconds that have passed since the clock was started.
    pub fn now(&self) -> (nanos: u128) {
        self.origin.elapsed().as_nanos()
    }
}

} // verus!
