//! The wall clock.
use vstd::prelude::*;
use core::time::Duration;
use std::time::SystemTime;
use crate::source::bgp_cache::spec_duration_nanos;

verus! {

/// A reading of the system clock.
#[verifier::external_type_specification]
#[verifier::external_body]
pub struct ExSystemTime(SystemTime);

/// Calls `SystemTime::now`. Nothing is claimed of the reading: it depends
/// on the machine's clock.
#[verifier::external_body]
fn system_now() -> SystemTime {
    SystemTime::now()
}

/// Calls `SystemTime::duration_since` with `UNIX_EPOCH`: the time since the
/// epoch, or `None` for a reading before it. Nothing is claimed of the
/// duration: the reading it comes from is the machine's.
#[verifier::external_body]
fn since_epoch(t: SystemTime) -> Option<Duration> {
    t.duration_since(std::time::UNIX_EPOCH).ok()
}

/// Calls `Duration::as_secs`. Claimed: the whole seconds of the duration,
/// that is its nanoseconds (as `as_nanos` reports them) divided by 10^9
/// and rounded down, as std documents.
#[verifier::external_body]
fn duration_secs(d: Duration) -> (s: u64)
    ensures
        s == spec_duration_nanos(d) / 1_000_000_000,
{
    d.as_secs()
}

/// Seconds since the Unix epoch by the system clock, or 0 when the clock
/// reads before the epoch.
pub(crate) fn unix_now() -> u64 {
    match since_epoch(system_now()) {
        Some(d) => duration_secs(d),
        None => 0,
    }
}

} // verus!
