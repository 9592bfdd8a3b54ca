//! Looking up a route's ASN record and prefix.
use vstd::prelude::*;
use std::collections::HashMap;
use crate::net::IpAddress;
use crate::source::bgp::{BgpPrefix, BgpRoute};
use crate::source::bgp_asn::BgpAsnRecord;

verus! {

/// The record of the route's origin ASN, if the index has one.
pub fn lookup_asn<'a>(route: &BgpRoute, asn_index: &'a HashMap<u32, BgpAsnRecord>) -> (r: Option<&'a BgpAsnRecord>)
    ensures
        match r {
            Some(record) => asn_index@.contains_key(route.asn) && *record == asn_index@[route.asn],
            None => !asn_index@.contains_key(route.asn),
        },
{
    broadcast use vstd::std_specs::hash::group_hash_axioms;
    asn_index.get(&route.asn)
}

/// The route as a prefix of its origin ASN.
pub fn lookup_prefix(route: &BgpRoute) -> (r: BgpPrefix)
    ensures
        r == (BgpPrefix { prefix: route.network, asn: route.asn }),
{
    BgpPrefix::new(route.network, route.asn)
}

/// Whether the route's network contains the address.
pub fn route_contains_ip(route: &BgpRoute, ip: IpAddress) -> (b: bool)
    requires
        route.network.wf(),
    ensures
        b == route.network.spec_contains(ip),
{
    route.network.contains(ip)
}

} // verus!
