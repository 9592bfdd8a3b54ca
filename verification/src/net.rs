//! IP addresses and networks as plain integers.
//!
//! The parsing and printing of addresses follow `std::net` and the `ipnet`
//! crate; both are reached through the trusted items at the end of this file.
use vstd::prelude::*;
use vstd::arithmetic::power2::pow2;

verus! {

/// An IPv4 or IPv6 address, as its big-endian integer value.
#[derive(Clone, Copy, Debug, PartialEq, Eq, Hash, Structural)]
pub enum IpAddress {
    V4(u32),
    V6(u128),
}

/// An IP network: an address and a prefix length (`ipnet::IpNet`).
///
/// As in `ipnet`, the address may carry host bits; they take part in
/// equality but not in containment.
#[allow(inconsistent_fields)]
#[derive(Clone, Copy, Debug, PartialEq, Eq, Hash, Structural)]
pub enum IpNetwork {
    V4 { addr: u32, prefix: u8 },
    V6 { addr: u128, prefix: u8 },
}

/// The number of address bits of a family.
pub open spec fn family_bits(net: IpNetwork) -> nat {
    match net {
        IpNetwork::V4 { .. } => 32,
        IpNetwork::V6 { .. } => 128,
    }
}

impl IpAddress {
    pub open spec fn value(self) -> nat {
        match self {
            IpAddress::V4(a) => a as nat,
            IpAddress::V6(a) => a as nat,
        }
    }

    pub open spec fn is_v4(self) -> bool {
        self is V4
    }

    /// Whether this is `0.0.0.0` or `::` (`IpAddr::is_unspecified`).
    pub open spec fn spec_is_unspecified(self) -> bool {
        self.value() == 0
    }

    /// `IpAddr::is_unspecified`.
    pub fn is_unspecified(&self) -> (b: bool)
        ensures
            b == self.spec_is_unspecified(),
    {
        match self {
            IpAddress::V4(a) => *a == 0,
            IpAddress::V6(a) => *a == 0,
        }
    }
}

impl IpNetwork {
    /// A prefix length no larger than the family's width.
    pub open spec fn wf(self) -> bool {
        match self {
            IpNetwork::V4 { prefix, .. } => prefix <= 32,
            IpNetwork::V6 { prefix, .. } => prefix <= 128,
        }
    }

    pub open spec fn spec_prefix(self) -> u8 {
        match self {
            IpNetwork::V4 { prefix, .. } => prefix,
            IpNetwork::V6 { prefix, .. } => prefix,
        }
    }

    pub open spec fn spec_addr(self) -> IpAddress {
        match self {
            IpNetwork::V4 { addr, .. } => IpAddress::V4(addr),
            IpNetwork::V6 { addr, .. } => IpAddress::V6(addr),
        }
    }

    pub open spec fn is_v4(self) -> bool {
        self is V4
    }

    /// The size of the address block: 2 to the number of host bits.
    pub open spec fn block(self) -> nat {
        pow2((family_bits(self) - self.spec_prefix()) as nat)
    }

    /// `ip` lies in this network: same family, and the same block of
    /// `2^(host bits)` addresses as the network's address.
    pub open spec fn spec_contains(self, ip: IpAddress) -> bool {
        &&& self.spec_addr().is_v4() == ip.is_v4()
        &&& ip.value() / self.block() == self.spec_addr().value() / self.block()
    }

    /// `IpNet::new`: `None` when the prefix is longer than the family allows.
    pub fn new(ip: IpAddress, prefix: u8) -> (r: Option<IpNetwork>)
        ensures
            r == spec_new_network(ip, prefix),
    {
        match ip {
            IpAddress::V4(a) => if prefix <= 32 {
                Some(IpNetwork::V4 { addr: a, prefix })
            } else {
                None
            },
            IpAddress::V6(a) => if prefix <= 128 {
                Some(IpNetwork::V6 { addr: a, prefix })
            } else {
                None
            },
        }
    }

    /// Whether the prefix length fits the family.
    pub fn is_well_formed(&self) -> (b: bool)
        ensures
            b == self.wf(),
    {
        match self {
            IpNetwork::V4 { prefix, .. } => *prefix <= 32,
            IpNetwork::V6 { prefix, .. } => *prefix <= 128,
        }
    }

    /// The host network of an address: `/32` or `/128`.
    pub open spec fn host_spec(ip: IpAddress) -> IpNetwork {
        match ip {
            IpAddress::V4(a) => IpNetwork::V4 { addr: a, prefix: 32 },
            IpAddress::V6(a) => IpNetwork::V6 { addr: a, prefix: 128 },
        }
    }

    /// The host network of an address: `/32` or `/128`.
    pub fn host(ip: IpAddress) -> (r: IpNetwork)
        ensures
            r == IpNetwork::host_spec(ip),
            r.wf(),
    {
        match ip {
            IpAddress::V4(a) => IpNetwork::V4 { addr: a, prefix: 32 },
            IpAddress::V6(a) => IpNetwork::V6 { addr: a, prefix: 128 },
        }
    }

    pub fn addr(&self) -> (r: IpAddress)
        ensures
            r == self.spec_addr(),
    {
        match self {
            IpNetwork::V4 { addr, .. } => IpAddress::V4(*addr),
            IpNetwork::V6 { addr, .. } => IpAddress::V6(*addr),
        }
    }

    pub fn prefix_len(&self) -> (r: u8)
        ensures
            r == self.spec_prefix(),
    {
        match self {
            IpNetwork::V4 { prefix, .. } => *prefix,
            IpNetwork::V6 { prefix, .. } => *prefix,
        }
    }

    /// `IpNet::contains` for an address.
    pub fn contains(&self, ip: IpAddress) -> (b: bool)
        requires
            self.wf(),
        ensures
            b == self.spec_contains(ip),
    {
        match (*self, ip) {
            (IpNetwork::V4 { addr, prefix }, IpAddress::V4(x)) => {
                if prefix == 0 {
                    proof {
                        vstd::arithmetic::power2::lemma2_to64();
                        assert(x as nat / pow2(32) == 0) by (nonlinear_arith)
                            requires
                                pow2(32) == 0x1_0000_0000,
                        ;
                        assert(addr as nat / pow2(32) == 0) by (nonlinear_arith)
                            requires
                                pow2(32) == 0x1_0000_0000,
                        ;
                    }
                    true
                } else {
                    let hb: u32 = 32 - prefix as u32;
                    proof {
                        vstd::bits::lemma_u32_shr_is_div(x, hb);
                        vstd::bits::lemma_u32_shr_is_div(addr, hb);
                    }
                    (x >> hb) == (addr >> hb)
                }
            },
            (IpNetwork::V6 { addr, prefix }, IpAddress::V6(x)) => {
                if prefix == 0 {
                    proof {
                        vstd::arithmetic::power2::lemma2_to64();
                        vstd::arithmetic::power2::lemma_pow2_adds(64, 64);
                        assert(pow2(128) == pow2(64) * pow2(64));
                        assert(x as nat / pow2(128) == 0) by (nonlinear_arith)
                            requires
                                pow2(64) == 0x1_0000_0000_0000_0000,
                                pow2(128) == pow2(64) * pow2(64),
                                x < 0x1_0000_0000_0000_0000_0000_0000_0000_0000,
                        ;
                        assert(addr as nat / pow2(128) == 0) by (nonlinear_arith)
                            requires
                                pow2(64) == 0x1_0000_0000_0000_0000,
                                pow2(128) == pow2(64) * pow2(64),
                                addr < 0x1_0000_0000_0000_0000_0000_0000_0000_0000,
                        ;
                    }
                    true
                } else {
                    let hb: u128 = 128 - prefix as u128;
                    proof {
                        vstd::bits::lemma_u128_shr_is_div(x, hb);
                        vstd::bits::lemma_u128_shr_is_div(addr, hb);
                    }
                    (x >> hb) == (addr >> hb)
                }
            },
            _ => false,
        }
    }

    /// Parses a network as `ipnet::IpNet` does (`"1.0.1.0/24"`, `"2400:da00::/32"`).
    pub fn parse(s: &str) -> (r: Option<IpNetwork>)
        ensures
            r == spec_parse_ip_net(s@),
            r matches Some(n) ==> n.wf(),
    {
        parse_ip_net(s)
    }

    /// The text of the network as `ipnet` prints it (`"1.2.3.4/32"`).
    pub fn to_text(&self) -> (s: String)
        requires
            self.wf(),
        ensures
            s@ == spec_ip_net_text(*self),
            spec_parse_ip_net(s@) == Some(*self),
    {
        ip_net_text(self)
    }
}

/// What `IpNet::new` returns for an address and a prefix length.
pub open spec fn spec_new_network(ip: IpAddress, prefix: u8) -> Option<IpNetwork> {
    match ip {
        IpAddress::V4(a) => if prefix <= 32 {
            Some(IpNetwork::V4 { addr: a, prefix })
        } else {
            None
        },
        IpAddress::V6(a) => if prefix <= 128 {
            Some(IpNetwork::V6 { addr: a, prefix })
        } else {
            None
        },
    }
}

/// What `<ipnet::IpNet as FromStr>::from_str` gives for a text.
pub uninterp spec fn spec_parse_ip_net(s: Seq<char>) -> Option<IpNetwork>;

/// The text that `<ipnet::IpNet as Display>::fmt` writes for a network.
pub uninterp spec fn spec_ip_net_text(net: IpNetwork) -> Seq<char>;

/// Calls `<ipnet::IpNet as FromStr>::from_str` and converts the network.
/// Claimed: the result is the named parse result of the text, and a parsed
/// network has a prefix within its family's width (the parser builds it with
/// `Ipv4Net::new`/`Ipv6Net::new` after reading at most 32 or 128).
#[verifier::external_body]
fn parse_ip_net(s: &str) -> (r: Option<IpNetwork>)
    ensures
        r == spec_parse_ip_net(s@),
        r matches Some(n) ==> n.wf(),
{
    match s.parse::<ipnet::IpNet>() {
        Ok(ipnet::IpNet::V4(n)) => Some(IpNetwork::V4 { addr: u32::from(n.addr()), prefix: n.prefix_len() }),
        Ok(ipnet::IpNet::V6(n)) => Some(IpNetwork::V6 { addr: u128::from(n.addr()), prefix: n.prefix_len() }),
        Err(_) => None,
    }
}

/// Calls `<ipnet::IpNet as Display>::fmt` through `to_string`. Claimed: the
/// text is the named display text of the network, and `ipnet`'s parser
/// reads it back as the same network (the text is the address as `std`
/// prints it, `/`, and the prefix length in decimal, which the parser takes
/// in the same form).
#[verifier::external_body]
fn ip_net_text(net: &IpNetwork) -> (s: String)
    requires
        net.wf(),
    ensures
        s@ == spec_ip_net_text(*net),
        spec_parse_ip_net(s@) == Some(*net),
{
    match *net {
        IpNetwork::V4 { addr, prefix } => ipnet::Ipv4Net::new(addr.into(), prefix).unwrap().to_string(),
        IpNetwork::V6 { addr, prefix } => ipnet::Ipv6Net::new(addr.into(), prefix).unwrap().to_string(),
    }
}


/// What `<std::net::IpAddr as FromStr>::from_str` gives for a text.
pub uninterp spec fn spec_parse_ip_address(s: Seq<char>) -> Option<IpAddress>;

/// Calls `<IpAddr as FromStr>::from_str` (the type lives in `core::net`)
/// and converts the address. Claimed: the result is the named parse result
/// of the text.
#[verifier::external_body]
fn parse_ip_address(s: &str) -> (r: Option<IpAddress>)
    ensures
        r == spec_parse_ip_address(s@),
{
    match s.parse::<core::net::IpAddr>() {
        Ok(core::net::IpAddr::V4(a)) => Some(IpAddress::V4(u32::from(a))),
        Ok(core::net::IpAddr::V6(a)) => Some(IpAddress::V6(u128::from(a))),
        Err(_) => None,
    }
}

impl IpAddress {
    /// Parses an IPv4 or IPv6 address as `std::net::IpAddr` does.
    pub fn parse(s: &str) -> (r: Option<IpAddress>)
        ensures
            r == spec_parse_ip_address(s@),
    {
        parse_ip_address(s)
    }
}


/// The text that `<std::net::IpAddr as Display>::fmt` writes for an address.
pub uninterp spec fn spec_ip_address_text(ip: IpAddress) -> Seq<char>;

/// Calls `<IpAddr as Display>::fmt` (the address types live in
/// `core::net`) through `to_string`. Claimed: the text is the named display
/// text of the address.
#[verifier::external_body]
fn ip_address_text(ip: &IpAddress) -> (s: String)
    ensures
        s@ == spec_ip_address_text(*ip),
{
    match *ip {
        IpAddress::V4(a) => core::net::IpAddr::V4(core::net::Ipv4Addr::from(a)).to_string(),
        IpAddress::V6(a) => core::net::IpAddr::V6(core::net::Ipv6Addr::from(a)).to_string(),
    }
}

impl IpAddress {
    /// The address as `std` prints it (`"1.2.3.4"`, `"2001:db8::1"`).
    pub fn to_text(&self) -> (s: String)
        ensures
            s@ == spec_ip_address_text(*self),
    {
        ip_address_text(self)
    }
}

} // verus!
