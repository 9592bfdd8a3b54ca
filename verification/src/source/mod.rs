//! The sources of the China route list and the BGP data used to classify
//! networks.
use vstd::prelude::*;
use crate::text::{concat_chars, lower_chars, lower_seq, str_chars, vec_to_string};

pub mod apnic;
pub mod bgp;
pub mod bgp_asn;
pub mod bgp_cache;
pub mod bgp_decision;
pub mod bgp_evidence;
pub mod bgp_lookup;
pub mod bgp_pipeline;
pub mod bgp_route;
pub mod bgp_whois;
pub mod chnroutes2;
pub mod classifier;

verus! {

/// Where the China route list comes from.
#[derive(Clone, Copy, Debug, Default, PartialEq, Eq, Structural)]
pub enum Source {
    /// APNIC delegated address data.
    #[default]
    Apnic,
    /// Sukka's optimized China IPv4 CIDR list.
    Chnroutes2,
}

/// The source a name denotes, ignoring ASCII case.
pub open spec fn spec_source_named(value: Seq<char>) -> Option<Source> {
    if lower_seq(value) == "apnic"@ {
        Some(Source::Apnic)
    } else if lower_seq(value) == "chnroutes2"@ {
        Some(Source::Chnroutes2)
    } else {
        None
    }
}

/// The message for a name that denotes no source.
pub open spec fn unknown_source_message(value: Seq<char>) -> Seq<char> {
    "unknown source '"@ + value + "', supported sources: apnic, chnroutes2"@
}

/// The stable name of a source.
pub open spec fn spec_source_name(source: Source) -> Seq<char> {
    match source {
        Source::Apnic => "apnic"@,
        Source::Chnroutes2 => "chnroutes2"@,
    }
}

impl Source {
    /// The source named `value` (in any ASCII case), or the message that
    /// lists the supported names.
    pub fn parse_name(value: &str) -> (r: Result<Source, String>)
        ensures
            match spec_source_named(value@) {
                Some(s) => r == Ok::<Source, String>(s),
                None => r matches Err(m) && m@ == unknown_source_message(value@),
            },
    {
        let lower = lower_chars(&str_chars(value));
        if crate::text::chars_eq_str(&lower, "apnic") {
            Ok(Source::Apnic)
        } else if crate::text::chars_eq_str(&lower, "chnroutes2") {
            Ok(Source::Chnroutes2)
        } else {
            let head = concat_chars(&str_chars("unknown source '"), &str_chars(value));
            let all = concat_chars(&head, &str_chars("', supported sources: apnic, chnroutes2"));
            Err(vec_to_string(&all))
        }
    }

    /// The name used on the command line.
    pub fn as_str(&self) -> (r: &'static str)
        ensures
            r@ == spec_source_name(*self),
    {
        match self {
            Source::Apnic => "apnic",
            Source::Chnroutes2 => "chnroutes2",
        }
    }
}

/// Every source is found again under its own name.
pub proof fn lemma_source_name_round_trip(source: Source)
    ensures
        spec_source_named(spec_source_name(source)) == Some(source),
{
    reveal_strlit("apnic");
    reveal_strlit("chnroutes2");
    match source {
        Source::Apnic => {
            assert(lower_seq("apnic"@) =~= "apnic"@);
        },
        Source::Chnroutes2 => {
            assert(lower_seq("chnroutes2"@) =~= "chnroutes2"@);
            assert(lower_seq("chnroutes2"@) != "apnic"@);
        },
    }
}

impl std::str::FromStr for Source {
    type Err = String;

    fn from_str(value: &str) -> (r: Result<Source, String>)
        ensures
            match spec_source_named(value@) {
                Some(s) => r == Ok::<Source, String>(s),
                None => r matches Err(m) && m@ == unknown_source_message(value@),
            },
    {
        Source::parse_name(value)
    }
}

} // verus!
