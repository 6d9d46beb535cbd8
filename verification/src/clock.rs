//! A monotonic clock read in whole nanoseconds.

use vstd::prelude::*;

verus! {

/// `std::time::Instant`, carried through as is.
#[verifier::external_type_specification]
#[verifier::external_body]
pub struct ExInstant(std::time::Instant);

/// `core::time::Duration::as_nanos`: the whole duration in nanoseconds.
/// Nothing is claimed of the number.
pub assume_specification[ core::time::Duration::as_nanos ](duration: &core::time::Duration) -> (nanos: u128);

/// Nanoseconds in one second.
pub const NANOS_PER_SEC: u64 = 1_000_000_000;

/// Nanoseconds in one millisecond.
pub const NANOS_PER_MILLI: u64 = 1_000_000;

/// Time from `then` to `now`; zero where `then` is the later one.
pub open spec fn elapsed(now: u64, then: u64) -> u64 {
    if now >= then {
        (now - then) as u64
    } else {
        0
    }
}

/// Time from `then` to `now`; zero where `then` is the later one.
pub fn elapsed_between(now: u64, then: u64) -> (d: u64)
    ensures
        d == elapsed(now, then),
{
    if now >= then {
        now - then
    } else {
        0
    }
}

/// Calls `std::time::Instant::now`. Nothing is claimed of the instant.
#[verifier::external_body]
fn instant_now() -> (now: std::time::Instant) {
    std::time::Instant::now()
}

/// Calls `std::time::Instant::elapsed`: the time since `origin`. Nothing is
/// claimed of the duration.
#[verifier::external_body]
fn instant_elapsed(origin: &std::time::Instant) -> (since: core::time::Duration) {
    origin.elapsed()
}

/// A count of nanoseconds as a `u64`: the count itself, or the largest
/// number where it does not fit.
pub open spec fn saturated(nanos: u128) -> u64 {
    if nanos > u64::MAX {
        u64::MAX
    } else {
        nanos as u64
    }
}

/// A count of nanoseconds as a `u64`: the count itself, or the largest
/// number where it does not fit.
pub fn saturate(nanos: u128) -> (fitted: u64)
    ensures
        fitted == saturated(nanos),
{
    if nanos > 0xFFFF_FFFF_FFFF_FFFF {
        u64::MAX
    } else {
        nanos as u64
    }
}

/// Counts nanoseconds from the moment it was started.
pub struct Clock {
    origin: std::time::Instant,
}

impl Clock {
    /// A clock that starts now.
    pub fn start() -> (clock: Clock) {
        Clock { origin: instant_now() }
    }

    /// Nanoseconds since the clock was started; the largest number once they
    /// no longer fit.
    pub fn now(&self) -> (nanos: u64) {
        saturate(instant_elapsed(&self.origin).as_nanos())
    }
}

} // verus!
