use vstd::prelude::*;
use std::time::{Duration, Instant};

verus! {

#[verifier::external_type_specification]
#[verifier::external_body]
pub struct ExInstant(Instant);

/// Calls `std::time::Instant::now`: the current reading of the monotonic clock. Nothing is
/// claimed of the reading; callers are verified for every value.
#[verifier::external_body]
pub fn clock_now() -> (r: Instant) {
    Instant::now()
}

/// What `Instant::duration_since` gives for `end.duration_since(start)`: the time from
/// `start` to `end`, zero when `end` is earlier. It depends on the two readings alone.
pub uninterp spec fn gap_of(start: Instant, end: Instant) -> Duration;

/// What `Duration::as_nanos` gives: the whole nanoseconds of a duration.
pub uninterp spec fn nanos_of(d: Duration) -> u128;

/// Calls `Instant::duration_since`: its result is named `gap_of` of the two readings.
#[verifier::external_body]
fn duration_between(start: &Instant, end: &Instant) -> (r: Duration)
    ensures
        r == gap_of(*start, *end),
{
    end.duration_since(*start)
}

/// Calls `Duration::as_nanos`: its result is named `nanos_of` of the duration.
#[verifier::external_body]
fn duration_nanos(d: &Duration) -> (r: u128)
    ensures
        r == nanos_of(*d),
{
    d.as_nanos()
}

/// The nanoseconds from `start` to `end`, saturated to the largest `u64`.
pub open spec fn spec_nanos_between(start: Instant, end: Instant) -> u64 {
    let n = nanos_of(gap_of(start, end));
    if n > 0xffff_ffff_ffff_ffffu128 {
        0xffff_ffff_ffff_ffffu64
    } else {
        n as u64
    }
}

/// The nanoseconds from `start` to `end` (zero when `end` is earlier), saturated to the
/// largest `u64`.
pub fn nanos_between(start: &Instant, end: &Instant) -> (r: u64)
    ensures
        r == spec_nanos_between(*start, *end),
{
    let n = duration_nanos(&duration_between(start, end));
    if n > 0xffff_ffff_ffff_ffffu128 {
        0xffff_ffff_ffff_ffffu64
    } else {
        n as u64
    }
}

} // verus!
