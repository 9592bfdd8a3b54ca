//! Installing, restoring and removing the saved routes: the decisions
//! between the route table operations.
use vstd::prelude::*;
use crate::error::{Error, RouteOpError};
use crate::net::{spec_ip_net_text, spec_parse_ip_net, IpNetwork};
use crate::route_op::RouteResult;
use crate::text::{concat_chars, decimal_string, decimal_text, str_chars, vec_to_string};

verus! {

/// The texts of saved routes.
pub open spec fn string_texts(v: Seq<String>) -> Seq<Seq<char>> {
    Seq::new(v.len(), |i: int| v[i]@)
}

pub open spec fn parse_net_fn() -> spec_fn(Seq<char>) -> Option<IpNetwork> {
    |s: Seq<char>| spec_parse_ip_net(s)
}

/// The saved routes that parse as networks, in order.
pub fn parse_saved_routes(routes: &[String]) -> (r: Vec<IpNetwork>)
    ensures
        r@ == string_texts(routes@).filter_map(parse_net_fn()),
        forall|k: int| 0 <= k < r@.len() ==> (#[trigger] r@[k]).wf(),
{
    let ghost s = string_texts(routes@);
    let mut r: Vec<IpNetwork> = Vec::new();
    let mut i: usize = 0;
    assert(s.take(0) =~= Seq::<Seq<char>>::empty());
    while i < routes.len()
        invariant
            i <= routes@.len(),
            s == string_texts(routes@),
            r@ == s.take(i as int).filter_map(parse_net_fn()),
            forall|k: int| 0 <= k < r@.len() ==> (#[trigger] r@[k]).wf(),
        decreases routes.len() - i,
    {
        proof {
            s.lemma_filter_map_take_succ(parse_net_fn(), i as int);
        }
        assert(s[i as int] == routes@[i as int]@);
        if let Some(n) = IpNetwork::parse(routes[i].as_str()) {
            r.push(n);
        }
        assert(r@ =~= s.take(i + 1).filter_map(parse_net_fn()));
        i += 1;
    }
    assert(s.take(s.len() as int) =~= s);
    r
}

/// The texts of routes, to be saved.
pub fn route_texts(routes: &[IpNetwork]) -> (r: Vec<String>)
    requires
        forall|k: int| 0 <= k < routes@.len() ==> (#[trigger] routes@[k]).wf(),
    ensures
        r@.len() == routes@.len(),
        forall|k: int| 0 <= k < r@.len() ==> (#[trigger] r@[k])@ == spec_ip_net_text(routes@[k]),
        forall|k: int| 0 <= k < r@.len() ==> spec_parse_ip_net((#[trigger] r@[k])@) == Some(routes@[k]),
{
    let mut r: Vec<String> = Vec::new();
    let mut i: usize = 0;
    while i < routes.len()
        invariant
            i <= routes@.len(),
            forall|k: int| 0 <= k < routes@.len() ==> (#[trigger] routes@[k]).wf(),
            r@.len() == i,
            forall|k: int| 0 <= k < i ==> (#[trigger] r@[k])@ == spec_ip_net_text(routes@[k]),
            forall|k: int| 0 <= k < i ==> spec_parse_ip_net((#[trigger] r@[k])@) == Some(routes@[k]),
        decreases routes.len() - i,
    {
        assert(routes@[i as int].wf());
        r.push(routes[i].to_text());
        i += 1;
    }
    r
}

/// Saved routes come back as they were: texts that parse to the routes, one
/// for one, parse back to exactly those routes, in order.
pub proof fn lemma_saved_routes_round_trip(routes: Seq<IpNetwork>, saved: Seq<String>)
    requires
        saved.len() == routes.len(),
        forall|k: int| 0 <= k < saved.len() ==> spec_parse_ip_net((#[trigger] saved[k])@) == Some(routes[k]),
    ensures
        string_texts(saved).filter_map(parse_net_fn()) == routes,
    decreases saved.len(),
{
    let t = string_texts(saved);
    if saved.len() > 0 {
        let n = saved.len() - 1;
        lemma_saved_routes_round_trip(routes.drop_last(), saved.drop_last());
        assert(string_texts(saved.drop_last()) =~= t.drop_last());
        assert(t.last() == saved[n]@);
        assert(t.filter_map(parse_net_fn()) =~= routes.drop_last() + seq![routes[n]]);
        assert(routes.drop_last() + seq![routes[n]] =~= routes);
    } else {
        assert(t.filter_map(parse_net_fn()) =~= Seq::<IpNetwork>::empty());
    }
}

/// The text `prefix`, the number `n` in decimal, then `suffix`.
fn with_number(prefix: &str, n: u64, suffix: &str) -> (r: Vec<char>)
    ensures
        r@ == prefix@ + decimal_text(n as nat) + suffix@,
{
    let a = concat_chars(&str_chars(prefix), &str_chars(decimal_string(n).as_str()));
    concat_chars(&a, &str_chars(suffix))
}

/// The message when routes could not be restored.
pub open spec fn restore_failed_message(failed: nat, total: nat) -> Seq<char> {
    "Failed to restore "@ + decimal_text(failed) + " of "@ + decimal_text(total) + " routes"@
}

/// The message when fewer routes are in place than were saved.
pub open spec fn restore_incomplete_message(done: nat, total: nat) -> Seq<char> {
    "Route restore incomplete: "@ + decimal_text(done) + " successful out of "@ + decimal_text(total)
}

/// The verdict on restoring `total` saved routes: failures are an error;
/// so is a count of added and existing routes other than `total`.
pub fn check_restore_result(result: &RouteResult, total: usize) -> (r: Result<(), Error>)
    requires
        result.added + result.already_exists <= usize::MAX,
    ensures
        if result.failed > 0 {
            r matches Err(Error::RouteOpError(RouteOpError::OpError(m)))
                && m@ == restore_failed_message(result.failed as nat, total as nat)
        } else if result.added + result.already_exists != total {
            r matches Err(Error::RouteOpError(RouteOpError::OpError(m)))
                && m@ == restore_incomplete_message((result.added + result.already_exists) as nat, total as nat)
        } else {
            r is Ok
        },
{
    if result.failed > 0 {
        let head = with_number("Failed to restore ", result.failed as u64, " of ");
        let tail = concat_chars(&str_chars(decimal_string(total as u64).as_str()), &str_chars(" routes"));
        let all = concat_chars(&head, &tail);
        assert(all@ =~= restore_failed_message(result.failed as nat, total as nat));
        return Err(Error::RouteOpError(RouteOpError::OpError(vec_to_string(&all))));
    }
    let done = result.added + result.already_exists;
    if done != total {
        let head = with_number("Route restore incomplete: ", done as u64, " successful out of ");
        let all = concat_chars(&head, &str_chars(decimal_string(total as u64).as_str()));
        assert(all@ =~= restore_incomplete_message(done as nat, total as nat));
        return Err(Error::RouteOpError(RouteOpError::OpError(vec_to_string(&all))));
    }
    Ok(())
}

/// How many times automatic restore tries.
pub const MAX_RESTORE_ATTEMPTS: u32 = 6;

/// The attempt of automatic restore under way and the wait that follows it
/// when it fails.
#[derive(Clone, Copy, Debug, PartialEq, Eq, Structural)]
pub struct RestoreRetry {
    pub attempt: u32,
    pub delay_secs: u64,
}

impl RestoreRetry {
    /// Attempts run from 1 to 6, and the wait after attempt `n` is `10 n`
    /// seconds.
    pub open spec fn wf(self) -> bool {
        1 <= self.attempt <= MAX_RESTORE_ATTEMPTS && self.delay_secs == 10 * self.attempt
    }

    /// The first attempt, followed by a wait of ten seconds.
    pub fn first() -> (r: RestoreRetry)
        ensures
            r == (RestoreRetry { attempt: 1, delay_secs: 10 }),
            r.wf(),
    {
        RestoreRetry { attempt: 1, delay_secs: 10 }
    }

    /// After a failed attempt: the next attempt, to be made after waiting
    /// `self.delay_secs` seconds, or `None` once the last attempt failed.
    pub fn after_failure(&self) -> (r: Option<RestoreRetry>)
        requires
            self.wf(),
        ensures
            self.attempt < MAX_RESTORE_ATTEMPTS ==> r == Some(RestoreRetry {
                attempt: (self.attempt + 1) as u32,
                delay_secs: (self.delay_secs + 10) as u64,
            }),
            self.attempt >= MAX_RESTORE_ATTEMPTS ==> r is None,
            r matches Some(n) ==> n.wf(),
    {
        if self.attempt < MAX_RESTORE_ATTEMPTS {
            Some(RestoreRetry { attempt: self.attempt + 1, delay_secs: self.delay_secs + 10 })
        } else {
            None
        }
    }
}

} // verus!
