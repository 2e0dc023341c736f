//! A monotonic clock that counts microseconds from the moment it was made.

use vstd::prelude::*;

verus! {

#[verifier::external_type_specification]
#[verifier::external_body]
pub struct ExInstant(std::time::Instant);

/// `std::time::Instant::now`: the current instant, of which nothing is known.
pub assume_specification[ std::time::Instant::now ]() -> (now: std::time::Instant)
;

/// `std::time::Instant::elapsed`: the time since an instant, of which nothing
/// is known.
pub assume_specification[ std::time::Instant::elapsed ](origin: &std::time::Instant) -> (elapsed:
    std::time::Duration)
;

/// `std::time::Duration::as_micros`: a duration in whole microseconds, of
/// which nothing is known.
pub assume_specification[ std::time::Duration::as_micros ](duration: &std::time::Duration) -> (micros:
    u128)
;

/// A count of microseconds as a 64-bit number: the count itself, or the
/// largest 64-bit number where it does not fit.
pub open spec fn clamped(micros: u128) -> u64 {
    if micros > u64::MAX {
        u64::MAX
    } else {
        micros as u64
    }
}

/// Brings a count of microseconds into 64 bits: a count that does not fit
/// becomes the largest 64-bit number.
pub fn clamp_micros(micros: u128) -> (time: u64)
    ensures
        time == clamped(micros),
{
    if micros > 0xffff_ffff_ffff_ffff {
        0xffff_ffff_ffff_ffff
    } else {
        micros as u64
    }
}

/// A source of timestamps for the report store and the engine.
pub struct Clock {
    origin: std::time::Instant,
}

impl Clock {
    /// A clock that starts now.
    pub fn new() -> Clock {
        Clock { origin: std::time::Instant::now() }
    }

    /// The microseconds since the clock was made, at most `u64::MAX`.
    pub fn now(&self) -> u64 {
        let micros: u128 = self.origin.elapsed().as_micros();
        clamp_micros(micros)
    }
}

} // verus!
