//! A named file cache whose entries expire.
use vstd::prelude::*;
use core::time::Duration;
use crate::text::string_of;

verus! {

/// Seven days, in seconds.
pub const CACHE_TTL_SECS: u64 = 604800;

/// A cache entry: its name under the cache directory and how long it stays
/// valid.
pub struct Cache {
    name: String,
    expire_time: Duration,
}

impl Cache {
    pub closed spec fn spec_name(&self) -> Seq<char> {
        self.name@
    }

    pub closed spec fn spec_expire_time(&self) -> Duration {
        self.expire_time
    }

    pub fn new(name: &str, expire_time: Duration) -> (r: Cache)
        ensures
            r.spec_name() == name@,
            r.spec_expire_time() == expire_time,
    {
        Cache { name: string_of(name), expire_time }
    }

    pub fn name(&self) -> (r: &str)
        ensures
            r@ == self.spec_name(),
    {
        self.name.as_str()
    }

    pub fn expire_time(&self) -> (r: Duration)
        ensures
            r == self.spec_expire_time(),
    {
        self.expire_time
    }
}

/// An entry is stale once its age reaches the expiry time; an age that
/// cannot be read (a clock running backwards) counts as stale.
pub fn cache_is_stale(elapsed_nanos: Option<u128>, expire_nanos: u128) -> (b: bool)
    ensures
        b == match elapsed_nanos {
            Some(e) => e >= expire_nanos,
            None => true,
        },
{
    match elapsed_nanos {
        Some(e) => e >= expire_nanos,
        None => true,
    }
}

} // verus!
