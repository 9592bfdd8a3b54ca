//! DNS resolution snapshots and resolution errors.
use vstd::prelude::*;
use crate::clock::unix_now;
use crate::domain::policy::{normalize_domain, normalize_spec};
use crate::net::IpAddress;

verus! {

/// A DNS resolution snapshot. `resolved_at` and `expires_at` are Unix
/// seconds; `generation` ties the answer to the request that asked for it.
#[derive(Clone, Debug, PartialEq, Eq)]
pub struct DomainRecord {
    pub domain: String,
    pub a: Vec<IpAddress>,
    pub aaaa: Vec<IpAddress>,
    pub ttl: u64,
    pub resolved_at: u64,
    pub expires_at: u64,
    pub resolver: String,
    pub generation: u64,
}

/// The value of a resolution snapshot.
pub struct RecordView {
    pub domain: Seq<char>,
    pub a: Seq<IpAddress>,
    pub aaaa: Seq<IpAddress>,
    pub ttl: u64,
    pub resolved_at: u64,
    pub expires_at: u64,
    pub resolver: Seq<char>,
    pub generation: u64,
}

impl View for DomainRecord {
    type V = RecordView;

    open spec fn view(&self) -> RecordView {
        RecordView {
            domain: self.domain@,
            a: self.a@,
            aaaa: self.aaaa@,
            ttl: self.ttl,
            resolved_at: self.resolved_at,
            expires_at: self.expires_at,
            resolver: self.resolver@,
            generation: self.generation,
        }
    }
}

/// `resolved_at + ttl`, saturating at `u64::MAX`.
pub open spec fn expiry(resolved_at: u64, ttl: u64) -> u64 {
    if resolved_at + ttl > u64::MAX {
        u64::MAX
    } else {
        (resolved_at + ttl) as u64
    }
}

/// The record is expired at `now` or later (expiry is inclusive).
pub open spec fn record_expired_at(record: RecordView, now: u64) -> bool {
    now >= record.expires_at
}

/// The A answers followed by the AAAA answers.
pub open spec fn record_ips(record: RecordView) -> Seq<IpAddress> {
    record.a + record.aaaa
}

/// A copy of a vector of addresses.
pub fn copy_addresses(v: &Vec<IpAddress>) -> (r: Vec<IpAddress>)
    ensures
        r@ == v@,
{
    let mut r: Vec<IpAddress> = Vec::new();
    let mut i: usize = 0;
    while i < v.len()
        invariant
            i <= v.len(),
            r@ == v@.take(i as int),
        decreases v.len() - i,
    {
        r.push(v[i]);
        i += 1;
        assert(r@ =~= v@.take(i as int));
    }
    assert(v@.take(v@.len() as int) =~= v@);
    r
}

impl DomainRecord {
    /// A snapshot with the domain normalized and `expires_at` computed.
    pub fn new(
        domain: &str,
        a: Vec<IpAddress>,
        aaaa: Vec<IpAddress>,
        ttl: u64,
        resolved_at: u64,
        resolver: &str,
        generation: u64,
    ) -> (r: DomainRecord)
        ensures
            r.domain@ == normalize_spec(domain@),
            r.a@ == a@,
            r.aaaa@ == aaaa@,
            r.ttl == ttl,
            r.resolved_at == resolved_at,
            r.expires_at == expiry(resolved_at, ttl),
            r.resolver@ == resolver@,
            r.generation == generation,
    {
        DomainRecord {
            domain: normalize_domain(domain),
            a,
            aaaa,
            ttl,
            resolved_at,
            expires_at: resolved_at.saturating_add(ttl),
            resolver: String::from_str(resolver),
            generation,
        }
    }

    /// A snapshot resolved now by the wall clock.
    pub fn from_now(
        domain: &str,
        a: Vec<IpAddress>,
        aaaa: Vec<IpAddress>,
        ttl: u64,
        resolver: &str,
        generation: u64,
    ) -> (r: DomainRecord)
        ensures
            r.domain@ == normalize_spec(domain@),
            r.a@ == a@,
            r.aaaa@ == aaaa@,
            r.ttl == ttl,
            r.expires_at == expiry(r.resolved_at, ttl),
            r.resolver@ == resolver@,
            r.generation == generation,
    {
        DomainRecord::new(domain, a, aaaa, ttl, unix_now(), resolver, generation)
    }

    /// All answers: A records first, then AAAA records.
    pub fn all_ips(&self) -> (r: Vec<IpAddress>)
        ensures
            r@ == record_ips(self@),
    {
        let mut r = copy_addresses(&self.a);
        let mut i: usize = 0;
        while i < self.aaaa.len()
            invariant
                i <= self.aaaa.len(),
                r@ == self.a@ + self.aaaa@.take(i as int),
            decreases self.aaaa.len() - i,
        {
            r.push(self.aaaa[i]);
            i += 1;
            assert(r@ =~= self.a@ + self.aaaa@.take(i as int));
        }
        assert(self.aaaa@.take(self.aaaa@.len() as int) =~= self.aaaa@);
        r
    }

    pub fn is_expired_at(&self, now: u64) -> (b: bool)
        ensures
            b == record_expired_at(self@, now),
    {
        now >= self.expires_at
    }

    /// Whether the record has expired by the wall clock: the answer of
    /// `is_expired_at` for the clock's reading, whatever that reading was.
    pub fn is_expired(&self) -> (b: bool)
        ensures
            exists|now: u64| b == #[trigger] record_expired_at(self@, now),
    {
        let now = unix_now();
        let b = self.is_expired_at(now);
        assert(b == record_expired_at(self@, now));
        b
    }

    /// Whether the record holds no answer at all.
    pub fn is_empty(&self) -> (b: bool)
        ensures
            b == (self.a@.len() == 0 && self.aaaa@.len() == 0),
    {
        self.a.len() == 0 && self.aaaa.len() == 0
    }

    /// A copy of the record.
    pub fn duplicate(&self) -> (r: DomainRecord)
        ensures
            r@ == self@,
    {
        let r = DomainRecord {
            domain: self.domain.clone(),
            a: copy_addresses(&self.a),
            aaaa: copy_addresses(&self.aaaa),
            ttl: self.ttl,
            resolved_at: self.resolved_at,
            expires_at: self.expires_at,
            resolver: self.resolver.clone(),
            generation: self.generation,
        };
        assert(r.a@ == self.a@);
        assert(r.aaaa@ == self.aaaa@);
        r
    }
}

/// Why a resolution failed.
#[derive(Clone, Debug, PartialEq, Eq)]
pub enum ResolveError {
    /// The name does not exist.
    NxDomain,
    /// The resolver reported a server-side failure.
    ServFail,
    /// The lookup exceeded its deadline.
    Timeout,
    /// The lookup was cancelled.
    Cancelled,
    /// Any other transport, protocol or configuration error.
    Other(String),
}

/// The text of a resolution error.
pub open spec fn resolve_error_text(e: ResolveError) -> Seq<char> {
    match e {
        ResolveError::NxDomain => "NXDOMAIN"@,
        ResolveError::ServFail => "SERVFAIL"@,
        ResolveError::Timeout => "DNS resolution timed out"@,
        ResolveError::Cancelled => "DNS resolution cancelled"@,
        ResolveError::Other(m) => m@,
    }
}

impl ResolveError {
    /// The error's message.
    pub fn message(&self) -> (s: String)
        ensures
            s@ == resolve_error_text(*self),
    {
        match self {
            ResolveError::NxDomain => String::from_str("NXDOMAIN"),
            ResolveError::ServFail => String::from_str("SERVFAIL"),
            ResolveError::Timeout => String::from_str("DNS resolution timed out"),
            ResolveError::Cancelled => String::from_str("DNS resolution cancelled"),
            ResolveError::Other(m) => m.clone(),
        }
    }
}

} // verus!
