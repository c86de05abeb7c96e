//! The monotonic clock and durations. Readings of the clock depend on the
//! time of the call, so nothing is promised of them.
use vstd::prelude::*;
use std::time::{Duration, Instant};

verus! {

#[verifier::external_type_specification]
#[verifier::external_body]
pub struct ExInstant(Instant);

/// `Instant::now()`: the clock's current reading.
#[verifier::external_body]
pub(crate) fn instant_now() -> (t: Instant) {
    Instant::now()
}

/// `Instant::elapsed`: the time passed on the clock since `since`.
#[verifier::external_body]
pub(crate) fn elapsed_since(since: &Instant) -> (d: Duration) {
    since.elapsed()
}

/// Whether one duration is at least another (`Duration`'s `>=`).
pub uninterp spec fn duration_at_least(a: Duration, b: Duration) -> bool;

/// The duration of `ms` milliseconds (`Duration::from_millis`).
pub uninterp spec fn millis_duration(ms: u64) -> Duration;

/// The duration of `secs` seconds (`Duration::from_secs`).
pub uninterp spec fn secs_duration(secs: u64) -> Duration;

/// `a >= b` on durations (`PartialOrd::ge`); the answer depends on the two
/// durations alone.
#[verifier::external_body]
pub(crate) fn duration_ge(a: &Duration, b: &Duration) -> (r: bool)
    ensures
        r == duration_at_least(*a, *b),
{
    *a >= *b
}

/// `Duration::from_millis(ms)`, which never panics; its value depends on
/// `ms` alone.
#[verifier::external_body]
pub(crate) fn duration_from_millis(ms: u64) -> (d: Duration)
    ensures
        d == millis_duration(ms),
{
    Duration::from_millis(ms)
}

/// `Duration::from_secs(secs)`, which never panics; its value depends on
/// `secs` alone.
#[verifier::external_body]
pub(crate) fn duration_from_secs(secs: u64) -> (d: Duration)
    ensures
        d == secs_duration(secs),
{
    Duration::from_secs(secs)
}

} // verus!
