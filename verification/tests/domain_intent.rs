use chnroutes::domain::intent::{RouteIntent, RouteIntentAction, RouteIntentOwner};
use chnroutes::domain::policy::DomainPolicyAction;
use chnroutes::net::{IpAddress, IpNetwork};

fn ip(value: &str) -> IpAddress {
    IpAddress::parse(value).unwrap()
}

#[test]
fn ipv4_domain_answer_becomes_host_route() {
    let intent = RouteIntent::from_ip(
        ip("1.2.3.4"),
        RouteIntentAction::Direct,
        RouteIntentOwner::Domain("example.com".into()),
        7,
        1_300,
    );

    assert_eq!(intent.destination.to_text(), "1.2.3.4/32");
    assert_eq!(intent.generation, 7);
    assert_eq!(intent.expires_at, 1_300);
}

#[test]
fn ipv6_domain_answer_becomes_host_route() {
    let intent = RouteIntent::from_ip(
        ip("2001:db8::1"),
        RouteIntentAction::Proxy,
        RouteIntentOwner::Domain("example.com".into()),
        8,
        2_000,
    );

    assert_eq!(intent.destination.to_text(), "2001:db8::1/128");
    assert_eq!(intent.action, RouteIntentAction::Proxy);
}

#[test]
fn owner_participates_in_identity() {
    let a = RouteIntent::from_ip(ip("1.2.3.4"), RouteIntentAction::Direct, RouteIntentOwner::Domain("a.example".into()), 1, 100);
    let b = RouteIntent::from_ip(ip("1.2.3.4"), RouteIntentAction::Direct, RouteIntentOwner::Domain("b.example".into()), 1, 100);

    assert_ne!(a, b);
}

#[test]
fn intent_expiry_is_inclusive() {
    let intent = RouteIntent::new(
        IpNetwork::parse("1.2.3.4/32").unwrap(),
        RouteIntentAction::Direct,
        RouteIntentOwner::Domain("example.com".into()),
        1,
        100,
    );

    assert!(!intent.is_expired_at(99));
    assert!(intent.is_expired_at(100));
}

#[test]
fn policy_action_conversion_is_explicit() {
    assert_eq!(RouteIntentAction::from_policy(DomainPolicyAction::Direct), Some(RouteIntentAction::Direct));
    assert_eq!(RouteIntentAction::from_policy(DomainPolicyAction::Proxy), Some(RouteIntentAction::Proxy));
    assert_eq!(RouteIntentAction::from_policy(DomainPolicyAction::Auto), Some(RouteIntentAction::Auto));
    assert_eq!(RouteIntentAction::from_policy(DomainPolicyAction::Block), Some(RouteIntentAction::Block));
}

#[test]
fn no_override_creates_no_intent_action() {
    assert_eq!(RouteIntentAction::from_policy(DomainPolicyAction::NoOverride), None);
}

#[test]
fn intent_expiring_at_epoch_is_expired_by_the_clock() {
    let past = RouteIntent::new(
        IpNetwork::parse("1.2.3.4/32").unwrap(),
        RouteIntentAction::Direct,
        RouteIntentOwner::Domain("example.com".into()),
        1,
        0,
    );
    let future = RouteIntent::new(
        IpNetwork::parse("1.2.3.4/32").unwrap(),
        RouteIntentAction::Direct,
        RouteIntentOwner::Domain("example.com".into()),
        1,
        u64::MAX,
    );

    assert!(past.is_expired());
    assert!(!future.is_expired());
}
