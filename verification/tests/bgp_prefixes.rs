use std::collections::HashMap;

use chnroutes::error::Error;
use chnroutes::net::{IpAddress, IpNetwork};
use chnroutes::source::bgp::{parse_bgp_prefix, BgpPrefix, BgpRoute};
use chnroutes::source::bgp_asn::BgpAsnRecord;
use chnroutes::source::bgp_lookup::{lookup_asn, lookup_prefix, route_contains_ip};
use chnroutes::source::bgp_pipeline::build_evidence;

fn net(text: &str) -> IpNetwork {
    IpNetwork::parse(text).unwrap()
}

#[test]
fn test_parse_bgp_prefix() {
    let prefix = parse_bgp_prefix("1.0.1.0/24 | AS4134").unwrap();

    assert_eq!(prefix.prefix, net("1.0.1.0/24"));
    assert_eq!(prefix.asn, 4134);
}

#[test]
fn test_parse_lowercase_asn() {
    let prefix = parse_bgp_prefix("1.0.2.0/23 | as9808").unwrap();

    assert_eq!(prefix.asn, 9808);
}

#[test]
fn test_invalid_prefix() {
    assert!(parse_bgp_prefix("invalid | AS4134").is_err());
}

#[test]
fn test_invalid_asn() {
    assert!(parse_bgp_prefix("1.0.1.0/24 | invalid").is_err());
}

#[test]
fn test_missing_fields() {
    assert!(parse_bgp_prefix("1.0.1.0/24").is_err());
}

#[test]
fn bgp_prefix_errors_are_invalid_target() {
    assert_eq!(parse_bgp_prefix("1.0.1.0/33 | AS1"), Err(Error::InvalidTarget));
    assert_eq!(parse_bgp_prefix("2400:da00::/32|AS1|extra").unwrap().prefix, net("2400:da00::/32"));
}

#[test]
fn test_prefix_contains_ip() {
    let prefix = BgpPrefix::new(net("1.0.1.0/24"), 4134);

    assert!(prefix.contains(IpAddress::parse("1.0.1.1").unwrap()));
    assert!(!prefix.contains(IpAddress::parse("1.0.2.1").unwrap()));
}

fn route() -> BgpRoute {
    BgpRoute::new(net("1.0.1.0/24"), 4134)
}

fn record() -> BgpAsnRecord {
    BgpAsnRecord {
        asn: "AS4134".to_string(),
        name: "China Telecom".to_string(),
        class: "Eyeball".to_string(),
    }
}

#[test]
fn test_lookup_asn() {
    let mut index = HashMap::new();
    index.insert(4134, record());

    let result = lookup_asn(&route(), &index).unwrap();

    assert_eq!(result.asn, "AS4134");
    assert_eq!(result.name, "China Telecom");
}

#[test]
fn test_lookup_missing_asn() {
    let index = HashMap::new();

    assert!(lookup_asn(&route(), &index).is_none());
}

#[test]
fn test_lookup_prefix() {
    let prefix = lookup_prefix(&route());

    assert_eq!(prefix.asn, 4134);
    assert_eq!(prefix.prefix, net("1.0.1.0/24"));
}

#[test]
fn test_route_contains_ip() {
    let route = route();

    assert!(route_contains_ip(&route, IpAddress::parse("1.0.1.1").unwrap()));
    assert!(!route_contains_ip(&route, IpAddress::parse("1.0.2.1").unwrap()));
}

#[test]
fn test_build_evidence() {
    let mut index = HashMap::new();
    index.insert(4134, record());

    let evidence = build_evidence(&route(), &index).unwrap();

    assert_eq!(evidence.asn, 4134);
    assert_eq!(evidence.asn_name.as_deref(), Some("China Telecom"));
    assert_eq!(evidence.asn_class.as_deref(), Some("Eyeball"));
    assert_eq!(evidence.source.as_deref(), Some("bgp"));
    assert!(evidence.country.is_none());
}

#[test]
fn test_missing_asn_returns_none() {
    let index = HashMap::new();

    assert!(build_evidence(&route(), &index).is_none());
}
