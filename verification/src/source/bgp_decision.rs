//! Classification of a network from its ASN evidence.
use vstd::prelude::*;
use crate::source::bgp_evidence::BgpAsnEvidence;
use crate::text::{chars_contains, chars_eq_str, contains_seq, lower_chars, lower_seq, str_chars, upper_chars, upper_seq};

verus! {

/// The kind of network an ASN belongs to.
#[derive(Clone, Copy, Debug, PartialEq, Eq, Structural)]
pub enum BgpNetworkType {
    MainlandIsp,
    MainlandHosting,
    HongKong,
    Overseas,
    Unknown,
}

impl BgpNetworkType {
    /// The type's name.
    pub fn as_str(&self) -> (r: &'static str)
        ensures
            r@ == match *self {
                BgpNetworkType::MainlandIsp => "mainland-isp"@,
                BgpNetworkType::MainlandHosting => "mainland-hosting"@,
                BgpNetworkType::HongKong => "hong-kong"@,
                BgpNetworkType::Overseas => "overseas"@,
                BgpNetworkType::Unknown => "unknown"@,
            },
    {
        match self {
            BgpNetworkType::MainlandIsp => "mainland-isp",
            BgpNetworkType::MainlandHosting => "mainland-hosting",
            BgpNetworkType::HongKong => "hong-kong",
            BgpNetworkType::Overseas => "overseas",
            BgpNetworkType::Unknown => "unknown",
        }
    }
}

/// The classification: by the country (case-insensitive) first, `HK` is
/// Hong Kong and anything but `CN` overseas; a mainland network is hosting
/// when its class mentions `hosting`, an ISP when it mentions `eyeball`,
/// `isp` or `access` (case-insensitive), and unknown otherwise.
pub open spec fn spec_classify_bgp_network(country: Seq<char>, class: Seq<char>) -> BgpNetworkType {
    let c = upper_seq(country);
    let k = lower_seq(class);
    if c == "HK"@ {
        BgpNetworkType::HongKong
    } else if c != "CN"@ {
        BgpNetworkType::Overseas
    } else if contains_seq(k, "hosting"@) {
        BgpNetworkType::MainlandHosting
    } else if contains_seq(k, "eyeball"@) || contains_seq(k, "isp"@) || contains_seq(k, "access"@) {
        BgpNetworkType::MainlandIsp
    } else {
        BgpNetworkType::Unknown
    }
}

/// What each classification means of the evidence: Hong Kong exactly for
/// the country `HK`; overseas exactly for a country other than `HK` and
/// `CN`; for `CN`, hosting exactly when the lower-cased class mentions
/// `hosting`, a mainland ISP exactly when it mentions `eyeball`, `isp` or
/// `access` but not `hosting`, and unknown exactly when it mentions none of
/// the four (a class such as `NSP` or `Content` stays unknown).
pub proof fn lemma_classification_follows_evidence(country: Seq<char>, class: Seq<char>)
    ensures
        (spec_classify_bgp_network(country, class) == BgpNetworkType::HongKong) <==> upper_seq(country) == "HK"@,
        (spec_classify_bgp_network(country, class) == BgpNetworkType::Overseas)
            <==> (upper_seq(country) != "HK"@ && upper_seq(country) != "CN"@),
        (spec_classify_bgp_network(country, class) == BgpNetworkType::MainlandHosting)
            <==> (upper_seq(country) == "CN"@ && contains_seq(lower_seq(class), "hosting"@)),
        (spec_classify_bgp_network(country, class) == BgpNetworkType::MainlandIsp) <==> (upper_seq(country) == "CN"@
            && !contains_seq(lower_seq(class), "hosting"@) && (contains_seq(lower_seq(class), "eyeball"@)
            || contains_seq(lower_seq(class), "isp"@) || contains_seq(lower_seq(class), "access"@))),
        (spec_classify_bgp_network(country, class) == BgpNetworkType::Unknown) <==> (upper_seq(country) == "CN"@
            && !contains_seq(lower_seq(class), "hosting"@) && !contains_seq(lower_seq(class), "eyeball"@)
            && !contains_seq(lower_seq(class), "isp"@) && !contains_seq(lower_seq(class), "access"@)),
{
    reveal_strlit("HK");
    reveal_strlit("CN");
    assert("CN"@[0] != "HK"@[0]);
    assert("CN"@ != "HK"@);
}

pub fn classify_bgp_network(evidence: &BgpAsnEvidence) -> (r: BgpNetworkType)
    ensures
        r == spec_classify_bgp_network(evidence.country@, evidence.network_class@),
{
    let country = upper_chars(&str_chars(evidence.country.as_str()));
    let class = lower_chars(&str_chars(evidence.network_class.as_str()));
    if chars_eq_str(&country, "HK") {
        return BgpNetworkType::HongKong;
    }
    if !chars_eq_str(&country, "CN") {
        return BgpNetworkType::Overseas;
    }
    if chars_contains(&class, &str_chars("hosting")) {
        return BgpNetworkType::MainlandHosting;
    }
    if chars_contains(&class, &str_chars("eyeball")) || chars_contains(&class, &str_chars("isp"))
        || chars_contains(&class, &str_chars("access")) {
        return BgpNetworkType::MainlandIsp;
    }
    BgpNetworkType::Unknown
}

} // verus!
