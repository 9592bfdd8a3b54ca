//! A fixed classification of a few origin ASNs.
use vstd::prelude::*;

verus! {

/// Where an origin network sits, for the routing decision.
#[derive(Clone, Copy, Debug, PartialEq, Eq, Structural)]
pub enum NetworkClass {
    CnMainlandCloud,
    CnMainlandIsp,
    HongKong,
    Overseas,
    Unknown,
}

impl NetworkClass {
    /// Mainland China, cloud or ISP.
    pub open spec fn spec_is_cn_mainland(self) -> bool {
        self is CnMainlandCloud || self is CnMainlandIsp
    }

    pub fn is_cn_mainland(self) -> (b: bool)
        ensures
            b == self.spec_is_cn_mainland(),
    {
        match self {
            NetworkClass::CnMainlandCloud | NetworkClass::CnMainlandIsp => true,
            _ => false,
        }
    }

    /// Traffic goes direct exactly to mainland China networks.
    pub fn is_direct(self) -> (b: bool)
        ensures
            b == self.spec_is_cn_mainland(),
    {
        self.is_cn_mainland()
    }
}

/// The class of the known origin ASNs; every other ASN is `Unknown`.
pub open spec fn spec_classify_origin_asn(asn: u32) -> NetworkClass {
    if asn == 37963 {
        NetworkClass::CnMainlandCloud
    } else if asn == 9808 {
        NetworkClass::CnMainlandIsp
    } else if asn == 135097 {
        NetworkClass::Overseas
    } else {
        NetworkClass::Unknown
    }
}

pub fn classify_origin_asn(asn: u32) -> (r: NetworkClass)
    ensures
        r == spec_classify_origin_asn(asn),
{
    match asn {
        37963 => NetworkClass::CnMainlandCloud,
        9808 => NetworkClass::CnMainlandIsp,
        135097 => NetworkClass::Overseas,
        _ => NetworkClass::Unknown,
    }
}

} // verus!
