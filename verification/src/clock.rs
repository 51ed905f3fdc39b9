//! Monotonic time, read in whole nanoseconds since a clock was started.

use vstd::prelude::*;

verus! {

/// `std::time::Instant`: a point on the monotonic clock, opaque to proofs.
#[verifier::external_type_specification]
#[verifier::external_body]
pub struct ExInstant(std::time::Instant);

/// `Instant::now` reads the monotonic clock. Nothing is claimed of the
/// instant it returns.
pub assume_specification[ std::time::Instant::now ]() -> (t: std::time::Instant);

/// `Instant::elapsed` measures the time since the instant was taken. Nothing
/// is claimed of the duration it returns.
pub assume_specification[ std::time::Instant::elapsed ](t: &std::time::Instant) -> (d:
    core::time::Duration);

/// `Duration::as_nanos` gives a duration in whole nanoseconds. Nothing is
/// claimed of the number it returns.
pub assume_specification[ core::time::Duration::as_nanos ](d: &core::time::Duration) -> (n: u128);

/// Nanoseconds in one millisecond.
pub const NANOS_PER_MILLI: u64 = 1_000_000;

/// Time that passed from `since` to `now`; zero when `now` is the earlier.
pub open spec fn elapsed(now: u64, since: u64) -> nat {
    if now >= since {
        (now - since) as nat
    } else {
        0
    }
}

/// Whether more than `millis` milliseconds passed from `since` to `now`.
pub fn longer_than(now: u64, since: u64, millis: u64) -> (r: bool)
    ensures
        r == (elapsed(now, since) > millis * NANOS_PER_MILLI),
{
    let passed: u64 = now.saturating_sub(since);
    let bound: u128 = (millis as u128) * 1_000_000;
    (passed as u128) > bound
}

/// Whether at least `millis` milliseconds passed from `since` to `now`.
pub fn at_least(now: u64, since: u64, millis: u64) -> (r: bool)
    ensures
        r == (elapsed(now, since) >= millis * NANOS_PER_MILLI),
{
    let passed: u64 = now.saturating_sub(since);
    let bound: u128 = (millis as u128) * 1_000_000;
    (passed as u128) >= bound
}

/// A stopwatch on the monotonic clock.
pub struct MonotonicClock {
    epoch: std::time::Instant,
}

impl MonotonicClock {
    /// Starts a stopwatch at the current instant.
    pub fn start() -> (clock: Self) {
        MonotonicClock { epoch: std::time::Instant::now() }
    }

    /// Nanoseconds since the stopwatch was started, at most `u64::MAX`.
    /// The reading depends on the machine's clock, so nothing is promised
    /// of it; callers hand it to functions that are specified for every
    /// reading.
    pub fn now(&self) -> (nanos: u64) {
        saturate_nanos(self.epoch.elapsed().as_nanos())
    }
}

/// A count of nanoseconds in 64 bits: the count itself, or `u64::MAX`
/// where it does not fit.
pub fn saturate_nanos(wide: u128) -> (nanos: u64)
    ensures
        nanos == if wide > u64::MAX {
            u64::MAX as int
        } else {
            wide as int
        },
{
    if wide > (u64::MAX as u128) {
        u64::MAX
    } else {
        wide as u64
    }
}

} // verus!
