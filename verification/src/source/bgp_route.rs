//! The routing decision for a classified BGP network.
use vstd::prelude::*;
use crate::source::bgp_decision::{lemma_classification_follows_evidence, spec_classify_bgp_network, BgpNetworkType};
use crate::text::{contains_seq, lower_seq, upper_seq};

verus! {

/// Where traffic to a network goes.
#[derive(Clone, Copy, Debug, PartialEq, Eq, Structural)]
pub enum BgpRouteDecision {
    Direct,
    Proxy,
    Unknown,
}

impl BgpRouteDecision {
    /// The decision's name.
    pub fn as_str(&self) -> (r: &'static str)
        ensures
            r@ == match *self {
                BgpRouteDecision::Direct => "direct"@,
                BgpRouteDecision::Proxy => "proxy"@,
                BgpRouteDecision::Unknown => "unknown"@,
            },
    {
        match self {
            BgpRouteDecision::Direct => "direct",
            BgpRouteDecision::Proxy => "proxy",
            BgpRouteDecision::Unknown => "unknown",
        }
    }
}

/// Mainland ISPs go direct, overseas networks through the proxy; hosting,
/// Hong Kong and unknown networks are left undecided.
pub open spec fn spec_decide_bgp_route(network_type: BgpNetworkType) -> BgpRouteDecision {
    match network_type {
        BgpNetworkType::MainlandIsp => BgpRouteDecision::Direct,
        BgpNetworkType::Overseas => BgpRouteDecision::Proxy,
        _ => BgpRouteDecision::Unknown,
    }
}

pub fn decide_bgp_route(network_type: BgpNetworkType) -> (r: BgpRouteDecision)
    ensures
        r == spec_decide_bgp_route(network_type),
{
    match network_type {
        BgpNetworkType::MainlandIsp => BgpRouteDecision::Direct,
        BgpNetworkType::MainlandHosting => BgpRouteDecision::Unknown,
        BgpNetworkType::HongKong => BgpRouteDecision::Unknown,
        BgpNetworkType::Overseas => BgpRouteDecision::Proxy,
        BgpNetworkType::Unknown => BgpRouteDecision::Unknown,
    }
}

/// Traffic to a network goes direct exactly when its evidence shows a
/// mainland (`CN`) network whose lower-cased class mentions `eyeball`,
/// `isp` or `access` and not `hosting`, and through the proxy exactly when
/// its country is neither `CN` nor `HK`; everything else stays undecided.
pub proof fn lemma_route_follows_evidence(country: Seq<char>, class: Seq<char>)
    ensures
        (spec_decide_bgp_route(spec_classify_bgp_network(country, class)) == BgpRouteDecision::Direct)
            <==> (upper_seq(country) == "CN"@ && !contains_seq(lower_seq(class), "hosting"@)
            && (contains_seq(lower_seq(class), "eyeball"@) || contains_seq(lower_seq(class), "isp"@)
            || contains_seq(lower_seq(class), "access"@))),
        (spec_decide_bgp_route(spec_classify_bgp_network(country, class)) == BgpRouteDecision::Proxy)
            <==> (upper_seq(country) != "HK"@ && upper_seq(country) != "CN"@),
{
    lemma_classification_follows_evidence(country, class);
}

} // verus!
