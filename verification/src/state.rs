//! The saved record of the routes a run installed.
use vstd::prelude::*;
use crate::clock::unix_now;
use crate::net::{spec_ip_net_text, IpNetwork};
use crate::restore::route_texts;
use crate::update::distinct_networks;

verus! {

/// The name of the state file, next to the executable.
pub const STATE_FILE: &'static str = "chnroutes-state.json";

/// The source, the interface and the routes (as network texts) that were
/// installed, and when (Unix seconds).
#[derive(Clone, Debug, PartialEq, Eq)]
pub struct State {
    pub source: String,
    pub interface_index: u32,
    pub routes: Vec<String>,
    pub updated_at: u64,
}

impl State {
    /// A state stamped with the current time; the time is whatever the
    /// clock reads (0 before the epoch).
    pub fn new(source: String, interface_index: u32, routes: Vec<String>) -> (r: State)
        ensures
            r.source == source,
            r.interface_index == interface_index,
            r.routes == routes,
    {
        State::at(source, interface_index, routes, unix_now())
    }

    /// A state stamped with `updated_at`.
    pub fn at(source: String, interface_index: u32, routes: Vec<String>, updated_at: u64) -> (r: State)
        ensures
            r == (State { source, interface_index, routes, updated_at }),
    {
        State { source, interface_index, routes, updated_at }
    }

    /// The state after a refresh to `new_routes`, stamped with
    /// `updated_at`: the source and interface are kept, and the routes are
    /// the texts of the distinct new networks, each once.
    pub fn refreshed_at(source: String, interface_index: u32, new_routes: &[IpNetwork], updated_at: u64) -> (r: State)
        requires
            forall|k: int| 0 <= k < new_routes@.len() ==> (#[trigger] new_routes@[k]).wf(),
        ensures
            r.source == source,
            r.interface_index == interface_index,
            r.updated_at == updated_at,
            texts_of_distinct(r.routes@, new_routes@),
    {
        let distinct = distinct_networks(new_routes);
        assert forall|k: int| 0 <= k < distinct@.len() implies (#[trigger] distinct@[k]).wf() by {
            assert(distinct@.to_set().contains(distinct@[k]));
            assert(new_routes@.to_set().contains(distinct@[k]));
            let i = choose|i: int| 0 <= i < new_routes@.len() && new_routes@[i] == distinct@[k];
        }
        let routes = route_texts(&distinct);
        assert(routes@.len() == distinct@.len() && forall|k: int| 0 <= k < distinct@.len() ==> (#[trigger] routes@[k])@ == spec_ip_net_text(distinct@[k]));
        State::at(source, interface_index, routes, updated_at)
    }

    /// The state after a refresh to `new_routes`, stamped with the current
    /// time: as `refreshed_at` for whatever the clock reads.
    pub fn refreshed(source: String, interface_index: u32, new_routes: &[IpNetwork]) -> (r: State)
        requires
            forall|k: int| 0 <= k < new_routes@.len() ==> (#[trigger] new_routes@[k]).wf(),
        ensures
            r.source == source,
            r.interface_index == interface_index,
            texts_of_distinct(r.routes@, new_routes@),
    {
        State::refreshed_at(source, interface_index, new_routes, unix_now())
    }
}

/// `texts` are the texts of the distinct networks of `routes`, each once,
/// in some order.
pub open spec fn texts_of_distinct(texts: Seq<String>, routes: Seq<IpNetwork>) -> bool {
    exists|d: Seq<IpNetwork>|
        d.no_duplicates() && d.to_set() == routes.to_set() && d.len() == texts.len()
            && forall|k: int| 0 <= k < d.len() ==> (#[trigger] texts[k])@ == spec_ip_net_text(d[k])
}

} // verus!
