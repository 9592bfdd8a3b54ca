//! What is known of an ASN: its name and class from the ASN list, its
//! country and registry from whois.
use vstd::prelude::*;
use crate::source::bgp_asn::BgpAsnRecord;
use crate::source::bgp_decision::BgpNetworkType;
use crate::source::bgp_whois::BgpAsnWhois;
use crate::text::{chars_eq, eq_ignore_case, lower_chars, str_chars};

verus! {

#[derive(Clone, Debug, PartialEq, Eq)]
pub struct BgpAsnEvidence {
    pub asn: u32,
    pub name: String,
    pub network_class: String,
    pub country: String,
    pub registry: String,
}

/// What is known of a route's origin, each piece where a source gave it.
#[derive(Clone, Debug, PartialEq, Eq)]
pub struct BgpEvidence {
    pub asn: u32,
    pub asn_name: Option<String>,
    pub asn_class: Option<String>,
    pub network_type: Option<BgpNetworkType>,
    pub country: Option<String>,
    pub registry: Option<String>,
    pub source: Option<String>,
}

/// `a.eq_ignore_ascii_case(b)`.
pub fn eq_ignore_ascii_case(a: &str, b: &str) -> (r: bool)
    ensures
        r == eq_ignore_case(a@, b@),
{
    let la = lower_chars(&str_chars(a));
    let lb = lower_chars(&str_chars(b));
    chars_eq(&la, &lb)
}

impl BgpAsnEvidence {
    /// The country is `CN`, in any case.
    pub fn is_cn_country(&self) -> (b: bool)
        ensures
            b == eq_ignore_case(self.country@, "CN"@),
    {
        eq_ignore_ascii_case(self.country.as_str(), "CN")
    }

    /// The country is `HK`, in any case.
    pub fn is_hk_country(&self) -> (b: bool)
        ensures
            b == eq_ignore_case(self.country@, "HK"@),
    {
        eq_ignore_ascii_case(self.country.as_str(), "HK")
    }

    /// Both the country and the network class are known.
    pub fn is_known(&self) -> (b: bool)
        ensures
            b == (self.country@.len() > 0 && self.network_class@.len() > 0),
    {
        !self.country.as_str().is_empty() && !self.network_class.as_str().is_empty()
    }
}

/// The evidence of an ASN record and its whois entry: the number, country
/// and registry from whois, the name and class from the record.
pub fn merge_asn_evidence(asn_record: &BgpAsnRecord, whois: &BgpAsnWhois) -> (r: BgpAsnEvidence)
    ensures
        r == (BgpAsnEvidence {
            asn: whois.asn,
            name: asn_record.name,
            network_class: asn_record.class,
            country: whois.country,
            registry: whois.registry,
        }),
{
    BgpAsnEvidence {
        asn: whois.asn,
        name: asn_record.name.clone(),
        network_class: asn_record.class.clone(),
        country: whois.country.clone(),
        registry: whois.registry.clone(),
    }
}

} // verus!
