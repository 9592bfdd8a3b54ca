//! A cache file of BGP data with a maximum age.
use vstd::prelude::*;
use core::time::Duration;
use crate::text::string_of;

verus! {

/// The default maximum age: thirty minutes, in seconds.
pub const DEFAULT_CACHE_MAX_AGE_SECS: u64 = 1800;

/// What `Duration::from_secs` returns for a number of seconds.
pub uninterp spec fn spec_duration_from_secs(secs: u64) -> Duration;

/// What `Duration::as_nanos` returns for a duration.
pub uninterp spec fn spec_duration_nanos(d: Duration) -> u128;

/// Calls `Duration::from_secs`. Claimed: the result is the named duration
/// of the seconds, and it holds that many whole seconds, so as many
/// nanoseconds as `as_nanos` reports as the seconds times 10^9 (std
/// documents `from_secs` as the duration of that many whole seconds and
/// `as_nanos` as the total number of nanoseconds).
#[verifier::external_body]
fn duration_from_secs(secs: u64) -> (d: Duration)
    ensures
        d == spec_duration_from_secs(secs),
        spec_duration_nanos(d) == secs as int * 1_000_000_000,
{
    Duration::from_secs(secs)
}

/// Calls `Duration::as_nanos`. Claimed: the result is the named number of
/// nanoseconds of the duration.
#[verifier::external_body]
fn duration_nanos(d: Duration) -> (n: u128)
    ensures
        n == spec_duration_nanos(d),
{
    d.as_nanos()
}

/// The path of the cache file and the age up to which it is fresh.
#[derive(Debug)]
pub struct BgpCache {
    path: String,
    max_age: Duration,
}

impl BgpCache {
    pub closed spec fn spec_path(&self) -> Seq<char> {
        self.path@
    }

    pub closed spec fn spec_max_age(&self) -> Duration {
        self.max_age
    }

    /// A cache at `path` that stays fresh for thirty minutes.
    pub fn new(path: &str) -> (r: BgpCache)
        ensures
            r.spec_path() == path@,
            r.spec_max_age() == spec_duration_from_secs(DEFAULT_CACHE_MAX_AGE_SECS),
            spec_duration_nanos(r.spec_max_age()) == 30 * 60 * 1_000_000_000,
    {
        BgpCache { path: string_of(path), max_age: duration_from_secs(DEFAULT_CACHE_MAX_AGE_SECS) }
    }

    pub fn with_max_age(path: &str, max_age: Duration) -> (r: BgpCache)
        ensures
            r.spec_path() == path@,
            r.spec_max_age() == max_age,
    {
        BgpCache { path: string_of(path), max_age }
    }

    pub fn path(&self) -> (r: &str)
        ensures
            r@ == self.spec_path(),
    {
        self.path.as_str()
    }

    pub fn max_age(&self) -> (r: Duration)
        ensures
            r == self.spec_max_age(),
    {
        self.max_age
    }

    /// Whether a cache file `age_nanos` old is still fresh: its age is
    /// below the maximum age.
    pub fn is_fresh_at(&self, age_nanos: u128) -> (b: bool)
        ensures
            b == (age_nanos < spec_duration_nanos(self.spec_max_age())),
    {
        is_fresh_age(age_nanos, duration_nanos(self.max_age))
    }
}

/// A cache file is fresh while its age is below the maximum age.
pub fn is_fresh_age(age_nanos: u128, max_age_nanos: u128) -> (b: bool)
    ensures
        b == (age_nanos < max_age_nanos),
{
    age_nanos < max_age_nanos
}

} // verus!
