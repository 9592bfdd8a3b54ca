//! The route table side: gateway and interface choice, route keys, and the
//! tallies of adding and removing routes.
//!
//! The system's routes are read and written by the caller; this module
//! decides on plain values.
use vstd::prelude::*;
use vstd::arithmetic::power2::pow2;
use crate::error::RouteOpError;
use crate::net::{IpAddress, IpNetwork};
use crate::text::{concat_chars, decimal_string, decimal_text, str_chars, string_of, vec_to_string};

verus! {

/// The best route towards a probe address: its interface and next hop.
#[derive(Clone, Copy, Debug, PartialEq, Eq, Structural)]
pub struct BestRouteInfo {
    pub interface_index: u32,
    pub next_hop: u32,
}

/// A route of the system table, as the route handle lists it.
#[derive(Clone, Copy, Debug, PartialEq, Eq, Structural)]
pub struct SystemRoute {
    pub destination: IpAddress,
    pub prefix: u8,
    pub ifindex: Option<u32>,
    pub gateway: Option<IpAddress>,
}

/// The identity of an IPv4 route: network address, prefix, interface and
/// gateway.
#[derive(Clone, Copy, Debug, PartialEq, Eq, Hash, Structural)]
pub struct RouteKey {
    pub destination: u32,
    pub prefix: u8,
    pub ifindex: u32,
    pub gateway: u32,
}

/// The tally of adding routes, and the routes now in place.
#[derive(Debug, Default)]
pub struct RouteResult {
    pub added: usize,
    pub already_exists: usize,
    pub failed: usize,
    pub success_routes: Vec<IpNetwork>,
}

/// The tally of removing routes.
#[derive(Clone, Copy, Debug, Default, PartialEq, Eq, Structural)]
pub struct RemoveResult {
    pub removed: usize,
    pub not_found: usize,
    pub failed: usize,
}

/// The gateway a route offers as a default route: a route to the
/// unspecified address with an IPv4 gateway that is itself specified.
pub open spec fn default_gateway_of(route: SystemRoute) -> Option<u32> {
    if route.destination.spec_is_unspecified() {
        match route.gateway {
            Some(IpAddress::V4(g)) => if g != 0 {
                Some(g)
            } else {
                None
            },
            _ => None,
        }
    } else {
        None
    }
}

/// The gateway of the first route that offers one.
pub fn find_gateway_in_routes(routes: &[SystemRoute]) -> (r: Option<u32>)
    ensures
        match r {
            Some(g) => exists|i: int| 0 <= i < routes@.len() && default_gateway_of(routes@[i]) == Some(g)
                && forall|k: int| 0 <= k < i ==> default_gateway_of(#[trigger] routes@[k]) is None,
            None => forall|k: int| 0 <= k < routes@.len() ==> default_gateway_of(#[trigger] routes@[k]) is None,
        },
{
    let mut i: usize = 0;
    while i < routes.len()
        invariant
            i <= routes@.len(),
            forall|k: int| 0 <= k < i ==> default_gateway_of(#[trigger] routes@[k]) is None,
        decreases routes.len() - i,
    {
        let route = routes[i];
        if route.destination.is_unspecified() {
            if let Some(IpAddress::V4(g)) = route.gateway {
                if g != 0 {
                    assert(default_gateway_of(routes@[i as int]) == Some(g));
                    return Some(g);
                }
            }
        }
        i += 1;
    }
    None
}

/// The gateway to route through, or `NoGatewayError` when no route offers one.
pub fn resolve_gateway(system_routes: &[SystemRoute]) -> (r: Result<u32, RouteOpError>)
    ensures
        match r {
            Ok(g) => exists|i: int| 0 <= i < system_routes@.len() && default_gateway_of(system_routes@[i]) == Some(g)
                && forall|k: int| 0 <= k < i ==> default_gateway_of(#[trigger] system_routes@[k]) is None,
            Err(e) => e == RouteOpError::NoGatewayError
                && forall|k: int| 0 <= k < system_routes@.len() ==> default_gateway_of(#[trigger] system_routes@[k]) is None,
        },
{
    match find_gateway_in_routes(system_routes) {
        Some(g) => Ok(g),
        None => Err(RouteOpError::NoGatewayError),
    }
}

/// The network address of an IPv4 network: its address with the host bits
/// cleared.
pub open spec fn v4_network_address(addr: u32, prefix: u8) -> u32 {
    ((addr as nat / pow2((32 - prefix) as nat)) * pow2((32 - prefix) as nat)) as u32
}

/// The network address and prefix of an IPv4 route; IPv6 has none.
pub open spec fn spec_route_destination_key(route: IpNetwork) -> Option<(u32, u8)> {
    match route {
        IpNetwork::V4 { addr, prefix } => Some((v4_network_address(addr, prefix), prefix)),
        IpNetwork::V6 { .. } => None,
    }
}

/// Clears the host bits of an IPv4 address.
fn clear_host_bits(addr: u32, prefix: u8) -> (r: u32)
    requires
        prefix <= 32,
    ensures
        r == v4_network_address(addr, prefix),
        r as nat == (addr as nat / pow2((32 - prefix) as nat)) * pow2((32 - prefix) as nat),
{
    let hb: u32 = 32 - prefix as u32;
    let ghost b = pow2(hb as nat);
    proof {
        vstd::arithmetic::power2::lemma_pow2_pos(hb as nat);
        vstd::arithmetic::div_mod::lemma_fundamental_div_mod(addr as int, b as int);
        assert((addr as nat / b) * b <= addr) by (nonlinear_arith)
            requires
                addr as int == b * (addr as int / b as int) + (addr as int % b as int),
                addr as int % b as int >= 0,
                b > 0,
        ;
    }
    if hb == 32 {
        proof {
            vstd::arithmetic::power2::lemma2_to64();
            assert(addr as nat / b == 0) by (nonlinear_arith)
                requires
                    b == 0x1_0000_0000,
                    addr < 0x1_0000_0000,
            ;
        }
        0
    } else {
        let q = addr >> hb;
        proof {
            vstd::bits::lemma_u32_shr_is_div(addr, hb);
            vstd::bits::lemma_u32_shl_is_mul(q, hb);
        }
        q << hb
    }
}

/// The network address and prefix of an IPv4 route (`Ipv4Net::network`).
pub fn route_destination_key(route: &IpNetwork) -> (r: Option<(u32, u8)>)
    requires
        route.wf(),
    ensures
        r == spec_route_destination_key(*route),
{
    match *route {
        IpNetwork::V4 { addr, prefix } => Some((clear_host_bits(addr, prefix), prefix)),
        IpNetwork::V6 { .. } => None,
    }
}

/// The key of a route added through `ifindex` and `gateway`.
pub open spec fn spec_route_key(route: IpNetwork, ifindex: u32, gateway: u32) -> Option<RouteKey> {
    match spec_route_destination_key(route) {
        Some((destination, prefix)) => Some(RouteKey { destination, prefix, ifindex, gateway }),
        None => None,
    }
}

pub fn route_key(route: &IpNetwork, ifindex: u32, gateway: u32) -> (r: Option<RouteKey>)
    requires
        route.wf(),
    ensures
        r == spec_route_key(*route, ifindex, gateway),
{
    match route_destination_key(route) {
        Some((destination, prefix)) => Some(RouteKey { destination, prefix, ifindex, gateway }),
        None => None,
    }
}

/// The key of a system route, when it is IPv4 with an interface and an
/// IPv4 gateway.
pub open spec fn existing_key(route: SystemRoute) -> Option<RouteKey> {
    match (route.destination, route.ifindex, route.gateway) {
        (IpAddress::V4(destination), Some(ifindex), Some(IpAddress::V4(gateway))) => Some(
            RouteKey { destination, prefix: route.prefix, ifindex, gateway },
        ),
        _ => None,
    }
}

pub open spec fn existing_key_fn() -> spec_fn(SystemRoute) -> Option<RouteKey> {
    |route: SystemRoute| existing_key(route)
}

/// The keys of the IPv4 routes already in the system table, in order.
pub fn parse_existing_ipv4_routes(system_routes: &[SystemRoute]) -> (r: Vec<RouteKey>)
    ensures
        r@ == system_routes@.filter_map(existing_key_fn()),
{
    let ghost s = system_routes@;
    let mut r: Vec<RouteKey> = Vec::new();
    let mut i: usize = 0;
    assert(s.take(0) =~= Seq::<SystemRoute>::empty());
    while i < system_routes.len()
        invariant
            i <= s.len(),
            s == system_routes@,
            r@ == s.take(i as int).filter_map(existing_key_fn()),
        decreases system_routes.len() - i,
    {
        proof {
            s.lemma_filter_map_take_succ(existing_key_fn(), i as int);
        }
        let route = system_routes[i];
        match (route.destination, route.ifindex, route.gateway) {
            (IpAddress::V4(destination), Some(ifindex), Some(IpAddress::V4(gateway))) => {
                r.push(RouteKey { destination, prefix: route.prefix, ifindex, gateway });
            },
            _ => {},
        }
        assert(r@ =~= s.take(i + 1).filter_map(existing_key_fn()));
        i += 1;
    }
    assert(s.take(s.len() as int) =~= s);
    r
}

/// What to do with one route to add.
#[derive(Clone, Copy, Debug, PartialEq, Eq, Structural)]
pub enum RouteAddStep {
    /// The route has no IPv4 key: it fails.
    Invalid,
    /// A route with the same key is in the table already.
    Existing,
    /// The route is to be added under this key.
    Add(RouteKey),
}

/// The step for `route`: invalid without an IPv4 key, existing when its
/// key is among `existing`, else to be added.
pub fn plan_route_add(route: &IpNetwork, ifindex: u32, gateway: u32, existing: &[RouteKey]) -> (r: RouteAddStep)
    requires
        route.wf(),
    ensures
        r == match spec_route_key(*route, ifindex, gateway) {
            None => RouteAddStep::Invalid,
            Some(key) => if existing@.contains(key) {
                RouteAddStep::Existing
            } else {
                RouteAddStep::Add(key)
            },
        },
{
    let key = match route_key(route, ifindex, gateway) {
        Some(key) => key,
        None => return RouteAddStep::Invalid,
    };
    let mut i: usize = 0;
    while i < existing.len()
        invariant
            i <= existing@.len(),
            spec_route_key(*route, ifindex, gateway) == Some(key),
            forall|k: int| 0 <= k < i ==> existing@[k] != key,
        decreases existing.len() - i,
    {
        if existing[i] == key {
            assert(existing@[i as int] == key);
            assert(existing@.contains(key));
            return RouteAddStep::Existing;
        }
        i += 1;
    }
    RouteAddStep::Add(key)
}

/// How adding one route ended.
#[derive(Clone, Copy, Debug, PartialEq, Eq, Structural)]
pub enum AddOutcome {
    Added,
    AlreadyExists,
    Failed,
}

impl RouteResult {
    pub fn new() -> (r: RouteResult)
        ensures
            r.added == 0 && r.already_exists == 0 && r.failed == 0,
            r.success_routes@ == Seq::<IpNetwork>::empty(),
    {
        RouteResult { added: 0, already_exists: 0, failed: 0, success_routes: Vec::new() }
    }

    /// Counts one route; an added or existing route is in place.
    pub fn record(&mut self, route: IpNetwork, outcome: AddOutcome)
        requires
            old(self).added < usize::MAX,
            old(self).already_exists < usize::MAX,
            old(self).failed < usize::MAX,
        ensures
            final(self).added == old(self).added + (if outcome == AddOutcome::Added { 1int } else { 0 }),
            final(self).already_exists == old(self).already_exists + (if outcome == AddOutcome::AlreadyExists { 1int } else { 0 }),
            final(self).failed == old(self).failed + (if outcome == AddOutcome::Failed { 1int } else { 0 }),
            final(self).success_routes@ == if outcome == AddOutcome::Failed {
                old(self).success_routes@
            } else {
                old(self).success_routes@.push(route)
            },
    {
        match outcome {
            AddOutcome::Added => {
                self.added = self.added + 1;
                self.success_routes.push(route);
            },
            AddOutcome::AlreadyExists => {
                self.already_exists = self.already_exists + 1;
                self.success_routes.push(route);
            },
            AddOutcome::Failed => {
                self.failed = self.failed + 1;
            },
        }
    }
}

/// How often `x` occurs in `s`.
pub open spec fn occurrences<T>(s: Seq<T>, x: T) -> nat
    decreases s.len(),
{
    if s.len() == 0 {
        0
    } else {
        occurrences(s.drop_last(), x) + if s.last() == x { 1nat } else { 0nat }
    }
}

/// The routes whose outcome (at the same position) is not a failure, in
/// order: the routes in place after adding.
pub open spec fn placed_routes(routes: Seq<IpNetwork>, outcomes: Seq<AddOutcome>) -> Seq<IpNetwork>
    decreases routes.len(),
{
    if routes.len() == 0 || outcomes.len() == 0 {
        Seq::empty()
    } else {
        let p = placed_routes(routes.drop_last(), outcomes.drop_last());
        if outcomes.last() != AddOutcome::Failed {
            p.push(routes.last())
        } else {
            p
        }
    }
}

impl RouteResult {
    /// The tally of adding `routes`, route `i` having ended as
    /// `outcomes[i]`: each outcome counted, every route counted once, and
    /// the routes in place kept in input order.
    pub fn tally(routes: &[IpNetwork], outcomes: &[AddOutcome]) -> (r: RouteResult)
        requires
            routes@.len() == outcomes@.len(),
        ensures
            r.added == occurrences(outcomes@, AddOutcome::Added),
            r.already_exists == occurrences(outcomes@, AddOutcome::AlreadyExists),
            r.failed == occurrences(outcomes@, AddOutcome::Failed),
            r.added + r.already_exists + r.failed == routes@.len(),
            r.success_routes@ == placed_routes(routes@, outcomes@),
    {
        let mut r = RouteResult::new();
        let mut i: usize = 0;
        while i < routes.len()
            invariant
                i <= routes@.len(),
                routes@.len() == outcomes@.len(),
                r.added == occurrences(outcomes@.take(i as int), AddOutcome::Added),
                r.already_exists == occurrences(outcomes@.take(i as int), AddOutcome::AlreadyExists),
                r.failed == occurrences(outcomes@.take(i as int), AddOutcome::Failed),
                r.added + r.already_exists + r.failed == i,
                r.success_routes@ == placed_routes(routes@.take(i as int), outcomes@.take(i as int)),
            decreases routes.len() - i,
        {
            proof {
                assert(outcomes@.take(i + 1).drop_last() =~= outcomes@.take(i as int));
                assert(routes@.take(i + 1).drop_last() =~= routes@.take(i as int));
                assert(outcomes@.take(i + 1).last() == outcomes@[i as int]);
                assert(routes@.take(i + 1).last() == routes@[i as int]);
            }
            r.record(routes[i], outcomes[i]);
            i += 1;
        }
        proof {
            assert(outcomes@.take(i as int) =~= outcomes@);
            assert(routes@.take(i as int) =~= routes@);
        }
        r
    }
}

/// How removing one route ended.
#[derive(Clone, Copy, Debug, PartialEq, Eq, Structural)]
pub enum RemoveOutcome {
    Removed,
    NotFound,
    Failed,
}

impl RemoveResult {
    pub fn new() -> (r: RemoveResult)
        ensures
            r == (RemoveResult { removed: 0, not_found: 0, failed: 0 }),
    {
        RemoveResult { removed: 0, not_found: 0, failed: 0 }
    }

    pub fn record(&mut self, outcome: RemoveOutcome)
        requires
            old(self).removed < usize::MAX,
            old(self).not_found < usize::MAX,
            old(self).failed < usize::MAX,
        ensures
            final(self).removed == old(self).removed + (if outcome == RemoveOutcome::Removed { 1int } else { 0 }),
            final(self).not_found == old(self).not_found + (if outcome == RemoveOutcome::NotFound { 1int } else { 0 }),
            final(self).failed == old(self).failed + (if outcome == RemoveOutcome::Failed { 1int } else { 0 }),
    {
        match outcome {
            RemoveOutcome::Removed => self.removed = self.removed + 1,
            RemoveOutcome::NotFound => self.not_found = self.not_found + 1,
            RemoveOutcome::Failed => self.failed = self.failed + 1,
        }
    }
}

impl RemoveResult {
    /// The tally of removing routes, one outcome per route: each outcome
    /// counted, every route counted once.
    pub fn tally(outcomes: &[RemoveOutcome]) -> (r: RemoveResult)
        ensures
            r.removed == occurrences(outcomes@, RemoveOutcome::Removed),
            r.not_found == occurrences(outcomes@, RemoveOutcome::NotFound),
            r.failed == occurrences(outcomes@, RemoveOutcome::Failed),
            r.removed + r.not_found + r.failed == outcomes@.len(),
    {
        let mut r = RemoveResult::new();
        let mut i: usize = 0;
        while i < outcomes.len()
            invariant
                i <= outcomes@.len(),
                r.removed == occurrences(outcomes@.take(i as int), RemoveOutcome::Removed),
                r.not_found == occurrences(outcomes@.take(i as int), RemoveOutcome::NotFound),
                r.failed == occurrences(outcomes@.take(i as int), RemoveOutcome::Failed),
                r.removed + r.not_found + r.failed == i,
            decreases outcomes.len() - i,
        {
            proof {
                assert(outcomes@.take(i + 1).drop_last() =~= outcomes@.take(i as int));
                assert(outcomes@.take(i + 1).last() == outcomes@[i as int]);
            }
            r.record(outcomes[i]);
            i += 1;
        }
        proof {
            assert(outcomes@.take(i as int) =~= outcomes@);
        }
        r
    }
}

/// How removing one route ended, given what the route table said: `None`
/// when no delete was tried because the route is not IPv4 (a failure),
/// `Some(true)` when the delete went through, `Some(false)` when it was
/// refused, which counts as the route not being there.
pub fn remove_outcome_of(deleted: Option<bool>) -> (r: RemoveOutcome)
    ensures
        r == match deleted {
            None => RemoveOutcome::Failed,
            Some(true) => RemoveOutcome::Removed,
            Some(false) => RemoveOutcome::NotFound,
        },
{
    match deleted {
        None => RemoveOutcome::Failed,
        Some(true) => RemoveOutcome::Removed,
        Some(false) => RemoveOutcome::NotFound,
    }
}

/// Calls `netdev::get_default_interface` and takes the interface's index,
/// or passes its error message on. Nothing is claimed of the result: it
/// depends on the machine's network configuration.
#[verifier::external_body]
fn default_interface_index() -> Result<u32, String> {
    match netdev::get_default_interface() {
        Ok(interface) => Ok(interface.index),
        Err(message) => Err(message),
    }
}

/// An interface index as reported; index 0 means no default interface.
pub fn check_interface_index(reported: Result<u32, String>) -> (r: Result<u32, String>)
    ensures
        match reported {
            Ok(i) => if i == 0 {
                r matches Err(m) && m@ == "Default Interface not found"@
            } else {
                r == Ok::<u32, String>(i)
            },
            Err(m) => r == Err::<u32, String>(m),
        },
{
    match reported {
        Ok(i) => if i == 0 {
            Err(string_of("Default Interface not found"))
        } else {
            Ok(i)
        },
        Err(m) => Err(m),
    }
}

/// The index of the default network interface; never 0.
pub fn interface_index() -> (r: Result<u32, String>)
    ensures
        r matches Ok(i) ==> i != 0,
{
    check_interface_index(default_interface_index())
}


/// Heartbeats to the service manager are due once a second has passed.
pub fn heartbeat_due(since_last_ms: u128) -> (b: bool)
    ensures
        b == (since_last_ms >= 1000),
{
    since_last_ms >= 1000
}

/// The network is ready when the probe found a route through an interface.
pub fn ready_route(probe: Result<BestRouteInfo, String>) -> (r: Option<BestRouteInfo>)
    ensures
        r == match probe {
            Ok(info) => if info.interface_index > 0 {
                Some(info)
            } else {
                None
            },
            Err(_) => None,
        },
{
    match probe {
        Ok(info) => if info.interface_index > 0 {
            Some(info)
        } else {
            None
        },
        Err(_) => None,
    }
}

/// What waiting for the network does next.
#[derive(Clone, Debug, PartialEq, Eq)]
pub enum WaitStep {
    /// Probe for a route, after a heartbeat when `heartbeat` holds.
    Probe { heartbeat: bool },
    /// The time is up: fail with this message.
    TimedOut(String),
}

/// The next step of waiting for the network, `elapsed_nanos` after the
/// start with a limit of `timeout_nanos`, `since_heartbeat_ms` after the
/// last heartbeat. Probing goes on while the elapsed time is below the
/// limit, so a zero limit times out at once, without a probe.
pub fn network_wait_step(elapsed_nanos: u128, timeout_nanos: u128, since_heartbeat_ms: u128) -> (r: WaitStep)
    requires
        timeout_nanos / 1_000_000_000 <= u64::MAX,
    ensures
        if elapsed_nanos < timeout_nanos {
            r == WaitStep::Probe { heartbeat: since_heartbeat_ms >= 1000 }
        } else {
            r matches WaitStep::TimedOut(m) && m@ == "Network not ready within "@
                + decimal_text((timeout_nanos / 1_000_000_000) as nat) + " seconds timeout"@
        },
{
    if elapsed_nanos < timeout_nanos {
        WaitStep::Probe { heartbeat: heartbeat_due(since_heartbeat_ms) }
    } else {
        let secs: u64 = (timeout_nanos / 1_000_000_000) as u64;
        WaitStep::TimedOut(network_timeout_message(secs))
    }
}

/// The message when the network did not become ready in time.
pub fn network_timeout_message(timeout_secs: u64) -> (r: String)
    ensures
        r@ == "Network not ready within "@ + decimal_text(timeout_secs as nat) + " seconds timeout"@,
{
    let head = concat_chars(&str_chars("Network not ready within "), &str_chars(decimal_string(timeout_secs).as_str()));
    let all = concat_chars(&head, &str_chars(" seconds timeout"));
    vec_to_string(&all)
}

} // verus!
