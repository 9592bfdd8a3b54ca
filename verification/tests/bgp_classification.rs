use chnroutes::source::bgp_asn::BgpAsnRecord;
use chnroutes::source::bgp_decision::{classify_bgp_network, BgpNetworkType};
use chnroutes::source::bgp_evidence::{merge_asn_evidence, BgpAsnEvidence};
use chnroutes::source::bgp_route::{decide_bgp_route, BgpRouteDecision};
use chnroutes::source::bgp_whois::BgpAsnWhois;

fn evidence(country: &str, class: &str) -> BgpAsnEvidence {
    BgpAsnEvidence {
        asn: 4134,
        name: "test".to_string(),
        network_class: class.to_string(),
        country: country.to_string(),
        registry: "APNIC".to_string(),
    }
}

#[test]
fn test_cn_isp() {
    assert_eq!(classify_bgp_network(&evidence("CN", "Eyeball")), BgpNetworkType::MainlandIsp);
}

#[test]
fn test_cn_hosting() {
    assert_eq!(classify_bgp_network(&evidence("CN", "Hosting")), BgpNetworkType::MainlandHosting);
}

#[test]
fn test_hk() {
    assert_eq!(classify_bgp_network(&evidence("HK", "Eyeball")), BgpNetworkType::HongKong);
}

#[test]
fn test_overseas() {
    assert_eq!(classify_bgp_network(&evidence("US", "Hosting")), BgpNetworkType::Overseas);
}

#[test]
fn test_unknown() {
    assert_eq!(classify_bgp_network(&evidence("CN", "Unknown")), BgpNetworkType::Unknown);
}

#[test]
fn classification_ignores_case_and_finds_words_inside_the_class() {
    assert_eq!(classify_bgp_network(&evidence("cn", "Cable/DSL/ISP")), BgpNetworkType::MainlandIsp);
    assert_eq!(classify_bgp_network(&evidence("hk", "Hosting")), BgpNetworkType::HongKong);
    assert_eq!(classify_bgp_network(&evidence("Cn", "Content-HOSTING")), BgpNetworkType::MainlandHosting);
    assert_eq!(classify_bgp_network(&evidence("CN", "broadband access")), BgpNetworkType::MainlandIsp);
    assert_eq!(classify_bgp_network(&evidence("", "Eyeball")), BgpNetworkType::Overseas);
    assert_eq!(BgpNetworkType::MainlandHosting.as_str(), "mainland-hosting");
    assert_eq!(BgpNetworkType::HongKong.as_str(), "hong-kong");
}

#[test]
fn test_mainland_isp_is_direct() {
    assert_eq!(decide_bgp_route(BgpNetworkType::MainlandIsp), BgpRouteDecision::Direct);
}

#[test]
fn test_mainland_hosting_is_unknown() {
    assert_eq!(decide_bgp_route(BgpNetworkType::MainlandHosting), BgpRouteDecision::Unknown);
}

#[test]
fn test_hong_kong_is_unknown() {
    assert_eq!(decide_bgp_route(BgpNetworkType::HongKong), BgpRouteDecision::Unknown);
}

#[test]
fn test_overseas_is_proxy() {
    assert_eq!(decide_bgp_route(BgpNetworkType::Overseas), BgpRouteDecision::Proxy);
}

#[test]
fn test_unknown_is_unknown() {
    assert_eq!(decide_bgp_route(BgpNetworkType::Unknown), BgpRouteDecision::Unknown);
}

#[test]
fn route_decision_names() {
    assert_eq!(BgpRouteDecision::Direct.as_str(), "direct");
    assert_eq!(BgpRouteDecision::Proxy.as_str(), "proxy");
    assert_eq!(BgpRouteDecision::Unknown.as_str(), "unknown");
}

#[test]
fn test_merge_asn_evidence() {
    let asn = BgpAsnRecord {
        asn: "AS4134".to_string(),
        name: "China Telecom".to_string(),
        class: "Eyeball".to_string(),
    };
    let whois = BgpAsnWhois {
        asn: 4134,
        country: "CN".to_string(),
        registry: "APNIC".to_string(),
        name: "CHINANET".to_string(),
    };

    let evidence = merge_asn_evidence(&asn, &whois);

    assert_eq!(evidence.asn, 4134);
    assert_eq!(evidence.country, "CN");
    assert!(evidence.is_cn_country());
    assert!(evidence.is_known());
}

#[test]
fn evidence_country_checks() {
    let hk = evidence("hk", "");
    assert!(hk.is_hk_country());
    assert!(!hk.is_cn_country());
    assert!(!hk.is_known());
}
