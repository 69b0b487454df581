//! Monotonic time for the engines that age their state.
//!
//! The engines keep the instant they were created and measure time as milliseconds since
//! then; every decision that depends on time is made by a function that takes those
//! milliseconds as an argument.
use vstd::prelude::*;

verus! {

#[verifier::external_type_specification]
#[verifier::external_body]
pub struct ExInstant(std::time::Instant);

/// Calls `Instant::now`: the current instant of the monotonic clock.
#[verifier::external_body]
pub(crate) fn instant_now() -> std::time::Instant {
    std::time::Instant::now()
}

/// Calls `Instant::elapsed`: whole milliseconds since `origin` (truncated to 64 bits).
/// Nothing is promised of the value: it is what the clock says.
#[verifier::external_body]
pub(crate) fn millis_since(origin: &std::time::Instant) -> u64 {
    origin.elapsed().as_millis() as u64
}

/// Calls `Instant::elapsed`: whole seconds since `instant`. Nothing is promised of the
/// value: it is what the clock says.
#[verifier::external_body]
pub(crate) fn secs_since(instant: &std::time::Instant) -> u64 {
    instant.elapsed().as_secs()
}

/// Calls `Instant::elapsed`: whole nanoseconds since `origin` (truncated to 64 bits).
/// Nothing is promised of the value: it is what the clock says.
#[verifier::external_body]
pub(crate) fn nanos_since(origin: &std::time::Instant) -> u64 {
    origin.elapsed().as_nanos() as u64
}

/// The total number of nanoseconds a duration holds (`Duration::as_nanos`).
pub uninterp spec fn duration_total_nanos(d: core::time::Duration) -> nat;

/// Calls `Duration::as_nanos`: the length of `d` in nanoseconds, truncated to 64 bits.
#[verifier::external_body]
pub(crate) fn duration_nanos(d: core::time::Duration) -> (r: u64)
    ensures
        r as int == duration_total_nanos(d) % 0x1_0000_0000_0000_0000,
{
    d.as_nanos() as u64
}

/// `Duration::from_secs`: a duration of `secs` whole seconds, that is `secs` times 10^9
/// nanoseconds.
pub assume_specification[ core::time::Duration::from_secs ](secs: u64) -> (r: core::time::Duration)
    ensures
        duration_total_nanos(r) == secs * 1_000_000_000,
;

/// `Instant` is `Copy`: its clone is the same instant.
pub assume_specification[ <std::time::Instant as Clone>::clone ](i: &std::time::Instant) -> (r: std::time::Instant)
    ensures
        r == *i,
;

/// How long ago `t` was at time `now`; zero if `t` is not in the past.
pub open spec fn age(now: u64, t: u64) -> int {
    if now >= t { now - t } else { 0 }
}

/// Computes `age(now, t)`.
pub(crate) fn age_ms(now: u64, t: u64) -> (r: u64)
    ensures
        r == age(now, t),
{
    if now >= t { now - t } else { 0 }
}

} // verus!
