//! The chnroutes2 list: one IPv4 CIDR per line, `#` comments.
use vstd::prelude::*;
use crate::net::{spec_parse_ip_net, IpNetwork};
use crate::text::{lines_chars, lines_seq, str_chars, trim, trim_chars, vec_to_string, views};

verus! {

/// The network of a CIDR text, when `ipnet` parses it as an IPv4 network.
pub open spec fn spec_parse_cidr(line: Seq<char>) -> Option<IpNetwork> {
    match spec_parse_ip_net(line) {
        Some(n) => if n is V4 {
            Some(n)
        } else {
            None
        },
        None => None,
    }
}

/// The network of a line: trimmed, neither empty nor a comment, an IPv4 CIDR.
pub open spec fn chnroutes2_line(line: Seq<char>) -> Option<IpNetwork> {
    let t = trim(line);
    if t.len() == 0 || t[0] == '#' {
        None
    } else {
        spec_parse_cidr(t)
    }
}

pub open spec fn chnroutes2_line_fn() -> spec_fn(Seq<char>) -> Option<IpNetwork> {
    |line: Seq<char>| chnroutes2_line(line)
}

/// The networks of a chnroutes2 text, in order.
pub open spec fn spec_chnroutes2_networks(content: Seq<char>) -> Seq<IpNetwork> {
    lines_seq(content).filter_map(chnroutes2_line_fn())
}

/// Parses one CIDR; IPv6 networks and anything else are `None`.
pub fn parse_cidr(line: &str) -> (r: Option<IpNetwork>)
    ensures
        r == spec_parse_cidr(line@),
        r matches Some(n) ==> n.wf(),
{
    match IpNetwork::parse(line) {
        Some(n) => match n {
            IpNetwork::V4 { .. } => Some(n),
            IpNetwork::V6 { .. } => None,
        },
        None => None,
    }
}

/// The IPv4 networks of a chnroutes2 text; blank lines and lines starting
/// with `#` are skipped, as are lines that are no IPv4 CIDR.
pub fn parse_ip_data(content: &str) -> (r: Vec<IpNetwork>)
    ensures
        r@ == spec_chnroutes2_networks(content@),
        forall|k: int| 0 <= k < r@.len() ==> (#[trigger] r@[k]).wf(),
{
    let lines = lines_chars(&str_chars(content));
    let ghost ls = lines_seq(content@);
    let mut r: Vec<IpNetwork> = Vec::new();
    let mut i: usize = 0;
    assert(ls.take(0) =~= Seq::<Seq<char>>::empty());
    while i < lines.len()
        invariant
            i <= lines@.len(),
            views(lines@) == ls,
            r@ == ls.take(i as int).filter_map(chnroutes2_line_fn()),
            forall|k: int| 0 <= k < r@.len() ==> (#[trigger] r@[k]).wf(),
        decreases lines.len() - i,
    {
        proof {
            ls.lemma_filter_map_take_succ(chnroutes2_line_fn(), i as int);
        }
        assert(lines@[i as int]@ == ls[i as int]);
        let t = trim_chars(&lines[i]);
        if t.len() > 0 && t[0] != '#' {
            let text = vec_to_string(&t);
            if let Some(n) = parse_cidr(text.as_str()) {
                r.push(n);
            }
        }
        assert(r@ =~= ls.take(i + 1).filter_map(chnroutes2_line_fn()));
        i += 1;
    }
    assert(ls.take(ls.len() as int) =~= ls);
    r
}

} // verus!
