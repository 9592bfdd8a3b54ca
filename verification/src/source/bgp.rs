//! BGP prefixes and routes: a network and its origin ASN.
use vstd::prelude::*;
use crate::error::Error;
use crate::net::{spec_parse_ip_net, IpAddress, IpNetwork};
use crate::source::bgp_asn::spec_asn_number;
use crate::text::{split_seq, split_trimmed, trim_all};

verus! {

/// A prefix announced by an origin ASN.
#[derive(Clone, Debug, PartialEq, Eq)]
pub struct BgpPrefix {
    pub prefix: IpNetwork,
    pub asn: u32,
}

impl BgpPrefix {
    pub fn new(prefix: IpNetwork, asn: u32) -> (r: BgpPrefix)
        ensures
            r == (BgpPrefix { prefix, asn }),
    {
        BgpPrefix { prefix, asn }
    }

    /// Whether the prefix contains the address.
    pub fn contains(&self, ip: IpAddress) -> (b: bool)
        requires
            self.prefix.wf(),
        ensures
            b == self.prefix.spec_contains(ip),
    {
        self.prefix.contains(ip)
    }
}

/// A route seen in the BGP table: a network and its origin ASN.
#[derive(Clone, Debug, PartialEq, Eq)]
pub struct BgpRoute {
    pub network: IpNetwork,
    pub asn: u32,
}

impl BgpRoute {
    pub fn new(network: IpNetwork, asn: u32) -> (r: BgpRoute)
        ensures
            r == (BgpRoute { network, asn }),
    {
        BgpRoute { network, asn }
    }
}

/// The prefix of a `prefix | AS<digits>` line: the fields between `|`,
/// trimmed, at least two; the first a network as `ipnet` parses it, the
/// second an ASN with an `AS` or `as` prefix. Any other line is refused.
pub open spec fn spec_parse_bgp_prefix(line: Seq<char>) -> Option<BgpPrefix> {
    let f = trim_all(split_seq(line, '|'));
    if f.len() < 2 {
        None
    } else {
        match spec_parse_ip_net(f[0]) {
            None => None,
            Some(prefix) => match spec_asn_number(f[1]) {
                None => None,
                Some(asn) => Some(BgpPrefix { prefix, asn }),
            },
        }
    }
}

pub fn parse_bgp_prefix(line: &str) -> (r: Result<BgpPrefix, Error>)
    ensures
        match spec_parse_bgp_prefix(line@) {
            Some(p) => r == Ok::<BgpPrefix, Error>(p),
            None => r == Err::<BgpPrefix, Error>(Error::InvalidTarget),
        },
        r matches Ok(p) ==> p.prefix.wf(),
{
    let fields = split_trimmed(line, '|');
    let ghost f = trim_all(split_seq(line@, '|'));
    if fields.len() < 2 {
        return Err(Error::InvalidTarget);
    }
    assert(fields@[0]@ == f[0]);
    assert(fields@[1]@ == f[1]);
    let text = crate::text::vec_to_string(&fields[0]);
    let prefix = match IpNetwork::parse(text.as_str()) {
        Some(p) => p,
        None => return Err(Error::InvalidTarget),
    };
    let asn = match crate::source::bgp_asn::asn_number_of(&fields[1]) {
        Some(a) => a,
        None => return Err(Error::InvalidTarget),
    };
    Ok(BgpPrefix::new(prefix, asn))
}

} // verus!
