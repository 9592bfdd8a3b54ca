//! Lines of the ASN whois table: `asn | .. | .. | country | registry | date | name`.
use vstd::prelude::*;
use crate::error::Error;
use crate::source::bgp_evidence::eq_ignore_ascii_case;
use crate::text::{
    eq_ignore_case, join_from, parse_unsigned, parse_unsigned_chars, join_seq, split_seq, split_trimmed,
    str_chars, trim, trim_all, trim_chars, vec_to_string, views,
};

verus! {

/// The whois entry of an ASN.
#[derive(Clone, Debug, PartialEq, Eq)]
pub struct BgpAsnWhois {
    pub asn: u32,
    pub country: String,
    pub registry: String,
    pub name: String,
}

/// The entry of a whois line: the fields between `|`, trimmed; at least
/// seven of them; the first an unsigned 32-bit number; the fourth the
/// country, the fifth the registry, and the rest joined with ` | ` the name;
/// none of these three empty. Any other line is an `InvalidTarget`.
pub open spec fn spec_parse_asn_whois_line(line: Seq<char>) -> Option<(u32, Seq<char>, Seq<char>, Seq<char>)> {
    let f = trim_all(split_seq(line, '|'));
    if f.len() < 7 {
        None
    } else {
        match parse_unsigned(f[0], 0xffff_ffff) {
            None => None,
            Some(asn) => {
                let name = join_seq(f.subrange(6, f.len() as int), " | "@);
                if f[3].len() == 0 || f[4].len() == 0 || name.len() == 0 {
                    None
                } else {
                    Some((asn as u32, f[3], f[4], name))
                }
            },
        }
    }
}

pub fn parse_asn_whois_line(line: &str) -> (r: Result<BgpAsnWhois, Error>)
    ensures
        match spec_parse_asn_whois_line(line@) {
            Some((asn, country, registry, name)) => r matches Ok(w) && w.asn == asn && w.country@ == country
                && w.registry@ == registry && w.name@ == name,
            None => r == Err::<BgpAsnWhois, Error>(Error::InvalidTarget),
        },
{
    let fields = split_trimmed(line, '|');
    let ghost f = trim_all(split_seq(line@, '|'));
    if fields.len() < 7 {
        return Err(Error::InvalidTarget);
    }
    assert(fields@[0]@ == f[0]);
    let asn = match parse_unsigned_chars(&fields[0], 0xffff_ffff) {
        Some(n) => n as u32,
        None => return Err(Error::InvalidTarget),
    };
    let sep = str_chars(" | ");
    let name = join_from(&fields, 6, &sep);
    assert(views(fields@).subrange(6, fields@.len() as int) == f.subrange(6, f.len() as int));
    assert(fields@[3]@ == f[3]);
    assert(fields@[4]@ == f[4]);
    if fields[3].len() == 0 || fields[4].len() == 0 || name.len() == 0 {
        return Err(Error::InvalidTarget);
    }
    Ok(BgpAsnWhois {
        asn,
        country: vec_to_string(&fields[3]),
        registry: vec_to_string(&fields[4]),
        name: vec_to_string(&name),
    })
}

/// The country code is `CN`, ignoring surrounding whitespace and case.
pub fn is_mainland_china_country_code(country: &str) -> (b: bool)
    ensures
        b == eq_ignore_case(trim(country@), "CN"@),
{
    let t = trim_chars(&str_chars(country));
    let s = vec_to_string(&t);
    eq_ignore_ascii_case(s.as_str(), "CN")
}

/// The country code is `HK`, ignoring surrounding whitespace and case.
pub fn is_hong_kong_country_code(country: &str) -> (b: bool)
    ensures
        b == eq_ignore_case(trim(country@), "HK"@),
{
    let t = trim_chars(&str_chars(country));
    let s = vec_to_string(&t);
    eq_ignore_ascii_case(s.as_str(), "HK")
}

} // verus!
