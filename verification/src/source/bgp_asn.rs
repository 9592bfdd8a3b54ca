//! The ASN list: records keyed by their number.
use vstd::prelude::*;
use std::collections::HashMap;
use crate::source::bgp_evidence::{merge_asn_evidence, BgpAsnEvidence};
use crate::source::bgp_whois::BgpAsnWhois;
use crate::text::{copy_range, parse_unsigned, parse_unsigned_chars, starts_with, str_chars};

verus! {

/// One entry of the ASN list.
#[derive(Clone, Debug, PartialEq, Eq)]
pub struct BgpAsnRecord {
    pub asn: String,
    pub name: String,
    pub class: String,
}

/// The number of an `AS<digits>` or `as<digits>` text.
pub open spec fn spec_asn_number(asn: Seq<char>) -> Option<u32> {
    if starts_with(asn, "AS"@) || starts_with(asn, "as"@) {
        match parse_unsigned(asn.skip(2), 0xffff_ffff) {
            Some(n) => Some(n as u32),
            None => None,
        }
    } else {
        None
    }
}

/// The number of an `AS<digits>` or `as<digits>` text.
pub fn asn_number_of(v: &Vec<char>) -> (r: Option<u32>)
    ensures
        r == spec_asn_number(v@),
{
    proof {
        reveal_strlit("AS");
        reveal_strlit("as");
        assert("AS"@ =~= seq!['A', 'S']);
        assert("as"@ =~= seq!['a', 's']);
    }
    if v.len() >= 2 && ((v[0] == 'A' && v[1] == 'S') || (v[0] == 'a' && v[1] == 's')) {
        assert(v@.subrange(0, 2) =~= seq![v@[0], v@[1]]);
        let rest = copy_range(v, 2, v.len());
        assert(rest@ =~= v@.skip(2));
        match parse_unsigned_chars(&rest, 0xffff_ffff) {
            Some(n) => Some(n as u32),
            None => None,
        }
    } else {
        proof {
            if v@.len() >= 2 {
                assert(v@.subrange(0, 2)[0] == v@[0]);
                assert(v@.subrange(0, 2)[1] == v@[1]);
                assert(v@.subrange(0, 2) != "AS"@);
                assert(v@.subrange(0, 2) != "as"@);
            }
        }
        None
    }
}

impl BgpAsnRecord {
    pub fn asn_number(&self) -> (r: Option<u32>)
        ensures
            r == spec_asn_number(self.asn@),
    {
        asn_number_of(&str_chars(self.asn.as_str()))
    }

    /// A copy of the record.
    pub fn duplicate(&self) -> (r: BgpAsnRecord)
        ensures
            r == *self,
    {
        BgpAsnRecord { asn: self.asn.clone(), name: self.name.clone(), class: self.class.clone() }
    }
}

/// The index of the records by number: records without a number are left
/// out, and of two records with one number the later wins.
pub open spec fn asn_index(records: Seq<BgpAsnRecord>) -> Map<u32, BgpAsnRecord>
    decreases records.len(),
{
    if records.len() == 0 {
        Map::empty()
    } else {
        let m = asn_index(records.drop_last());
        match spec_asn_number(records.last().asn@) {
            Some(n) => m.insert(n, records.last()),
            None => m,
        }
    }
}

pub fn build_asn_index(records: &[BgpAsnRecord]) -> (r: HashMap<u32, BgpAsnRecord>)
    ensures
        r@ == asn_index(records@),
{
    broadcast use vstd::std_specs::hash::group_hash_axioms;
    let mut index: HashMap<u32, BgpAsnRecord> = HashMap::new();
    let mut i: usize = 0;
    while i < records.len()
        invariant
            i <= records@.len(),
            index@ == asn_index(records@.take(i as int)),
        decreases records.len() - i,
    {
        assert(records@.take(i + 1).drop_last() =~= records@.take(i as int));
        assert(records@.take(i + 1).last() == records@[i as int]);
        if let Some(asn) = records[i].asn_number() {
            index.insert(asn, records[i].duplicate());
        }
        i += 1;
    }
    assert(records@.take(records@.len() as int) =~= records@);
    index
}

/// The evidence of a record and its whois entry.
pub fn merge_with_whois(record: &BgpAsnRecord, whois: &BgpAsnWhois) -> (r: BgpAsnEvidence)
    ensures
        r == (BgpAsnEvidence {
            asn: whois.asn,
            name: record.name,
            network_class: record.class,
            country: whois.country,
            registry: whois.registry,
        }),
{
    merge_asn_evidence(record, whois)
}

} // verus!
