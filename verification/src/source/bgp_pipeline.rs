//! From a BGP route and the ASN index to the evidence on its origin.
use vstd::prelude::*;
use std::collections::HashMap;
use crate::source::bgp::BgpRoute;
use crate::source::bgp_asn::BgpAsnRecord;
use crate::source::bgp_evidence::BgpEvidence;
use crate::text::string_of;

verus! {

/// The evidence on the route's origin: its number, and the name and class
/// of its ASN record, from the source `bgp`; `None` when the index has no
/// record of the ASN.
pub fn build_evidence(route: &BgpRoute, asn_index: &HashMap<u32, BgpAsnRecord>) -> (r: Option<BgpEvidence>)
    ensures
        match r {
            Some(e) => asn_index@.contains_key(route.asn) && e.asn == route.asn
                && e.asn_name == Some(asn_index@[route.asn].name)
                && e.asn_class == Some(asn_index@[route.asn].class)
                && e.network_type is None && e.country is None && e.registry is None
                && (e.source matches Some(s) && s@ == "bgp"@),
            None => !asn_index@.contains_key(route.asn),
        },
{
    broadcast use vstd::std_specs::hash::group_hash_axioms;
    let record = match asn_index.get(&route.asn) {
        Some(record) => record,
        None => return None,
    };
    Some(BgpEvidence {
        asn: route.asn,
        asn_name: Some(record.name.clone()),
        asn_class: Some(record.class.clone()),
        network_type: None,
        country: None,
        registry: None,
        source: Some(string_of("bgp")),
    })
}

} // verus!
