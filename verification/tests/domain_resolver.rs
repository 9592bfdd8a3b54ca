use chnroutes::domain::resolver::{DomainRecord, ResolveError};
use chnroutes::net::IpAddress;

fn ip(value: &str) -> IpAddress {
    IpAddress::parse(value).unwrap()
}

#[test]
fn record_normalizes_domain_and_calculates_expiry() {
    let record = DomainRecord::new(" WWW.Example.COM. ", vec![ip("1.2.3.4")], vec![ip("2001:db8::1")], 300, 1_000, "system", 7);

    assert_eq!(record.domain, "www.example.com");
    assert_eq!(record.ttl, 300);
    assert_eq!(record.resolved_at, 1_000);
    assert_eq!(record.expires_at, 1_300);
    assert_eq!(record.generation, 7);
    assert_eq!(record.resolver, "system");
}

#[test]
fn all_ips_contains_both_address_families() {
    let record = DomainRecord::new("example.com", vec![ip("1.2.3.4")], vec![ip("2001:db8::1")], 60, 100, "system", 1);

    let ips: Vec<_> = record.all_ips();
    assert_eq!(ips, vec![ip("1.2.3.4"), ip("2001:db8::1")]);
}

#[test]
fn resolver_expiry_is_inclusive() {
    let record = DomainRecord::new("example.com", vec![], vec![], 60, 100, "system", 1);

    assert!(!record.is_expired_at(159));
    assert!(record.is_expired_at(160));
}

#[test]
fn empty_record_is_detectable() {
    let record = DomainRecord::new("example.com", vec![], vec![], 60, 100, "system", 1);

    assert!(record.is_empty());
}

#[test]
fn resolve_error_has_distinct_dns_states() {
    assert_ne!(ResolveError::NxDomain, ResolveError::ServFail);
    assert_ne!(ResolveError::ServFail, ResolveError::Timeout);
    assert_ne!(ResolveError::Timeout, ResolveError::Cancelled);
}

#[test]
fn expiry_saturates_at_the_largest_time() {
    let record = DomainRecord::new("example.com", vec![], vec![], u64::MAX, 10, "system", 1);
    assert_eq!(record.expires_at, u64::MAX);
}

#[test]
fn resolve_error_messages() {
    assert_eq!(ResolveError::NxDomain.message(), "NXDOMAIN");
    assert_eq!(ResolveError::ServFail.message(), "SERVFAIL");
    assert_eq!(ResolveError::Timeout.message(), "DNS resolution timed out");
    assert_eq!(ResolveError::Cancelled.message(), "DNS resolution cancelled");
    assert_eq!(ResolveError::Other("boom".into()).message(), "boom");
}

#[test]
fn record_expiring_at_epoch_is_expired_by_the_clock() {
    let past = DomainRecord::new("example.com", vec![ip("1.2.3.4")], vec![], 0, 0, "system", 1);
    let future = DomainRecord::new("example.com", vec![ip("1.2.3.4")], vec![], u64::MAX, 1, "system", 1);

    assert!(past.is_expired());
    assert!(!future.is_expired());
}
