//! APNIC delegated statistics: `apnic|CN|ipv4|<address>|<count>|...` lines.
use vstd::prelude::*;
use vstd::arithmetic::power2::pow2;
use vstd::utf8::{decode_utf8, valid_utf8};
use crate::error::Error;
use crate::net::{spec_new_network, spec_parse_ip_address, IpAddress, IpNetwork};
use crate::text::{
    lines_chars, lines_seq, parse_unsigned, parse_unsigned_chars, split_chars, split_seq, str_chars, vec_to_string,
    views, chars_eq_str,
};

verus! {

/// The exponent `k < 32` with `2^k == count`, if there is one.
pub open spec fn host_bits_of(count: nat) -> Option<nat> {
    if exists|k: nat| k < 32 && pow2(k) == count {
        Some(choose|k: nat| k < 32 && pow2(k) == count)
    } else {
        None
    }
}

/// An IPv4 record: an address and a count of addresses that is a power of
/// two; the network has `32 - log2(count)` prefix bits.
pub open spec fn spec_parse_ipv4_record(address: Seq<char>, count: Seq<char>) -> Option<IpNetwork> {
    match spec_parse_ip_address(address) {
        None => None,
        Some(ip) => match parse_unsigned(count, 0xffff_ffff) {
            None => None,
            Some(c) => match host_bits_of(c) {
                None => None,
                Some(k) => spec_new_network(ip, (32 - k) as u8),
            },
        },
    }
}

/// An IPv6 record: an address and a prefix length of at most 128.
pub open spec fn spec_parse_ipv6_record(address: Seq<char>, prefix: Seq<char>) -> Option<IpNetwork> {
    match spec_parse_ip_address(address) {
        None => None,
        Some(ip) => match parse_unsigned(prefix, 0xff) {
            None => None,
            Some(p) => if p > 128 {
                None
            } else {
                spec_new_network(ip, p as u8)
            },
        },
    }
}

/// An IPv4 allocation of `2^k` addresses (`k < 32`) at an IPv4 address is
/// read as that address with prefix `32 - k`; a count that is no such power
/// of two gives nothing.
pub proof fn lemma_ipv4_record_prefix_from_count(address: Seq<char>, count: Seq<char>, k: nat)
    requires
        k < 32,
    ensures
        match (spec_parse_ip_address(address), parse_unsigned(count, 0xffff_ffff)) {
            (Some(IpAddress::V4(a)), Some(c)) => c == pow2(k)
                ==> spec_parse_ipv4_record(address, count) == Some(IpNetwork::V4 { addr: a, prefix: (32 - k) as u8 }),
            _ => true,
        },
        parse_unsigned(count, 0xffff_ffff) matches Some(c) ==> ((forall|j: nat| j < 32 ==> pow2(j) != c)
            ==> spec_parse_ipv4_record(address, count) is None),
{
    if parse_unsigned(count, 0xffff_ffff) is Some && parse_unsigned(count, 0xffff_ffff)->0 == pow2(k) {
        let c = pow2(k);
        assert(exists|j: nat| j < 32 && pow2(j) == c);
        let j = choose|j: nat| j < 32 && pow2(j) == c;
        if j < k {
            vstd::arithmetic::power2::lemma_pow2_strictly_increases(j, k);
        } else if k < j {
            vstd::arithmetic::power2::lemma_pow2_strictly_increases(k, j);
        }
        assert(host_bits_of(c) == Some(k));
    }
}

/// An IPv6 allocation keeps the prefix length written in it: an IPv6
/// address with a decimal prefix of at most 128 is read as that address
/// with that prefix, however short the prefix; a prefix over 128 gives
/// nothing; and any network read carries exactly the prefix written.
pub proof fn lemma_ipv6_record_keeps_its_prefix(address: Seq<char>, prefix: Seq<char>)
    ensures
        match (spec_parse_ip_address(address), parse_unsigned(prefix, 0xff)) {
            (Some(IpAddress::V6(a)), Some(p)) => p <= 128
                ==> spec_parse_ipv6_record(address, prefix) == Some(IpNetwork::V6 { addr: a, prefix: p as u8 }),
            _ => true,
        },
        parse_unsigned(prefix, 0xff) matches Some(p) ==> (p > 128 ==> spec_parse_ipv6_record(address, prefix) is None),
        match spec_parse_ipv6_record(address, prefix) {
            Some(IpNetwork::V6 { addr, prefix: q }) => parse_unsigned(prefix, 0xff) == Some(q as nat)
                && spec_parse_ip_address(address) == Some(IpAddress::V6(addr)),
            Some(IpNetwork::V4 { addr, prefix: q }) => parse_unsigned(prefix, 0xff) == Some(q as nat)
                && spec_parse_ip_address(address) == Some(IpAddress::V4(addr)),
            None => true,
        },
{
}

/// The network of a record line: at least five `|`-separated fields, the
/// registry `apnic`, the country `CN`, and an `ipv4` or `ipv6` record.
pub open spec fn spec_parse_record(line: Seq<char>) -> Option<IpNetwork> {
    let f = split_seq(line, '|');
    if f.len() < 5 {
        None
    } else if f[0] != "apnic"@ || f[1] != "CN"@ {
        None
    } else if f[2] == "ipv4"@ {
        spec_parse_ipv4_record(f[3], f[4])
    } else if f[2] == "ipv6"@ {
        spec_parse_ipv6_record(f[3], f[4])
    } else {
        None
    }
}

pub open spec fn apnic_record_fn() -> spec_fn(Seq<char>) -> Option<IpNetwork> {
    |line: Seq<char>| spec_parse_record(line)
}

/// The CN networks of an APNIC text, in order.
pub open spec fn spec_apnic_networks(content: Seq<char>) -> Seq<IpNetwork> {
    lines_seq(content).filter_map(apnic_record_fn())
}

/// The exponent of a power of two below `2^32`.
fn host_bits(count: u32) -> (r: Option<u8>)
    ensures
        match host_bits_of(count as nat) {
            Some(k) => r == Some(k as u8) && k < 32,
            None => r is None,
        },
{
    proof {
        vstd::arithmetic::power2::lemma2_to64();
    }
    let mut k: u8 = 0;
    let mut p: u32 = 1;
    while k < 32
        invariant
            k <= 32,
            k < 32 ==> p == pow2(k as nat),
            forall|j: nat| j < k ==> pow2(j) != count,
            pow2(30) == 0x4000_0000,
            pow2(31) == 0x8000_0000,
        decreases 32 - k,
    {
        if p == count {
            proof {
                assert(exists|j: nat| j < 32 && pow2(j) == count) by {
                    assert(k < 32 && pow2(k as nat) == count);
                }
                let c = choose|j: nat| j < 32 && pow2(j) == count;
                if c != k as nat {
                    if c < k as nat {
                        vstd::arithmetic::power2::lemma_pow2_strictly_increases(c, k as nat);
                    } else {
                        vstd::arithmetic::power2::lemma_pow2_strictly_increases(k as nat, c);
                    }
                }
            }
            return Some(k);
        }
        if k < 31 {
            proof {
                if k < 30 {
                    vstd::arithmetic::power2::lemma_pow2_strictly_increases(k as nat, 30);
                }
                vstd::arithmetic::power2::lemma_pow2_unfold((k + 1) as nat);
            }
            p = p * 2;
        }
        k += 1;
    }
    None
}

/// `parse_ipv4_record` on the address and count texts.
pub fn parse_ipv4_record(address: &str, count: &str) -> (r: Option<IpNetwork>)
    ensures
        r == spec_parse_ipv4_record(address@, count@),
        r matches Some(n) ==> n.wf(),
{
    let ip = match IpAddress::parse(address) {
        Some(ip) => ip,
        None => return None,
    };
    let c = match parse_unsigned_chars(&str_chars(count), 0xffff_ffff) {
        Some(c) => c as u32,
        None => return None,
    };
    match host_bits(c) {
        Some(k) => IpNetwork::new(ip, 32 - k),
        None => None,
    }
}

/// `parse_ipv6_record` on the address and prefix-length texts.
pub fn parse_ipv6_record(address: &str, prefix: &str) -> (r: Option<IpNetwork>)
    ensures
        r == spec_parse_ipv6_record(address@, prefix@),
        r matches Some(n) ==> n.wf(),
{
    let ip = match IpAddress::parse(address) {
        Some(ip) => ip,
        None => return None,
    };
    let p = match parse_unsigned_chars(&str_chars(prefix), 0xff) {
        Some(p) => p as u8,
        None => return None,
    };
    if p > 128 {
        return None;
    }
    IpNetwork::new(ip, p)
}

/// The network of one record line.
pub fn parse_record(line: &Vec<char>) -> (r: Option<IpNetwork>)
    ensures
        r == spec_parse_record(line@),
        r matches Some(n) ==> n.wf(),
{
    let fields = split_chars(line, '|');
    let ghost f = split_seq(line@, '|');
    if fields.len() < 5 {
        return None;
    }
    assert(fields@[0]@ == f[0]);
    assert(fields@[1]@ == f[1]);
    assert(fields@[2]@ == f[2]);
    assert(fields@[3]@ == f[3]);
    assert(fields@[4]@ == f[4]);
    if !chars_eq_str(&fields[0], "apnic") || !chars_eq_str(&fields[1], "CN") {
        return None;
    }
    let address = vec_to_string(&fields[3]);
    let amount = vec_to_string(&fields[4]);
    if chars_eq_str(&fields[2], "ipv4") {
        parse_ipv4_record(address.as_str(), amount.as_str())
    } else if chars_eq_str(&fields[2], "ipv6") {
        parse_ipv6_record(address.as_str(), amount.as_str())
    } else {
        None
    }
}

/// The CN IPv4 and IPv6 networks of an APNIC text, in order; malformed
/// records are skipped.
pub fn parse_ip_data(content: &str) -> (r: Vec<IpNetwork>)
    ensures
        r@ == spec_apnic_networks(content@),
        forall|k: int| 0 <= k < r@.len() ==> (#[trigger] r@[k]).wf(),
{
    let lines = lines_chars(&str_chars(content));
    let ghost ls = lines_seq(content@);
    let mut r: Vec<IpNetwork> = Vec::new();
    let mut i: usize = 0;
    assert(ls.take(0) =~= Seq::<Seq<char>>::empty());
    while i < lines.len()
        invariant
            i <= lines@.len(),
            views(lines@) == ls,
            r@ == ls.take(i as int).filter_map(apnic_record_fn()),
            forall|k: int| 0 <= k < r@.len() ==> (#[trigger] r@[k]).wf(),
        decreases lines.len() - i,
    {
        proof {
            ls.lemma_filter_map_take_succ(apnic_record_fn(), i as int);
        }
        assert(lines@[i as int]@ == ls[i as int]);
        if let Some(n) = parse_record(&lines[i]) {
            r.push(n);
        }
        assert(r@ =~= ls.take(i + 1).filter_map(apnic_record_fn()));
        i += 1;
    }
    assert(ls.take(ls.len() as int) =~= ls);
    r
}


/// What `zstd::stream::decode_all` returns for compressed bytes: the
/// decompressed bytes, or `None` for its error.
pub uninterp spec fn spec_zstd_decode_all(compressed: Seq<u8>) -> Option<Seq<u8>>;

/// Calls `zstd::stream::decode_all` on the bytes. Claimed: an `Ok` result is
/// the named decompression of the bytes and an error comes exactly when the
/// name is `None`; the error's message is the decoder's and is not stated.
#[verifier::external_body]
fn zstd_decode_all(compressed: &[u8]) -> (r: Result<Vec<u8>, String>)
    ensures
        match r {
            Ok(bytes) => spec_zstd_decode_all(compressed@) == Some(bytes@),
            Err(_) => spec_zstd_decode_all(compressed@) is None,
        },
{
    match zstd::stream::decode_all(compressed) {
        Ok(bytes) => Ok(bytes),
        Err(error) => Err(error.to_string()),
    }
}

/// Calls `String::from_utf8`. Claimed, as its documentation says: it
/// succeeds exactly on valid UTF-8 and then holds the decoded characters;
/// the error's message is not stated.
#[verifier::external_body]
fn utf8_text(bytes: Vec<u8>) -> (r: Result<String, String>)
    ensures
        match r {
            Ok(text) => valid_utf8(bytes@) && text@ == decode_utf8(bytes@),
            Err(_) => !valid_utf8(bytes@),
        },
{
    match String::from_utf8(bytes) {
        Ok(text) => Ok(text),
        Err(error) => Err(error.to_string()),
    }
}

/// The CN networks of a zstd-compressed APNIC text: a decoding failure is an
/// `IOError`, text that is not UTF-8 a `Utf8Error`.
pub fn parse_snapshot(compressed: &[u8]) -> (r: Result<Vec<IpNetwork>, Error>)
    ensures
        match spec_zstd_decode_all(compressed@) {
            None => r matches Err(Error::IOError(_)),
            Some(bytes) => if valid_utf8(bytes) {
                r matches Ok(v) && v@ == spec_apnic_networks(decode_utf8(bytes))
            } else {
                r matches Err(Error::Utf8Error(_))
            },
        },
{
    let bytes = match zstd_decode_all(compressed) {
        Ok(bytes) => bytes,
        Err(message) => return Err(Error::IOError(message)),
    };
    let text = match utf8_text(bytes) {
        Ok(text) => text,
        Err(message) => return Err(Error::Utf8Error(message)),
    };
    Ok(parse_ip_data(text.as_str()))
}

} // verus!
