//! Reconciliation: from desired intents and applied intents to a plan.
use vstd::prelude::*;
use crate::domain::backend::{backend_error_text, RouteBackendError};
use crate::domain::intent::{
    intent_expired_at, intent_views, IntentView, RouteIntent, RouteIntentAction, RouteIntentOwner,
};
use crate::net::{spec_ip_net_text, spec_parse_ip_net, IpNetwork};
use crate::text::{
    chars_eq, chars_lt, concat_chars, lemma_seq_lt_irreflexive, lemma_seq_lt_total, lemma_seq_lt_transitive, seq_lt, str_chars, vec_to_string,
};

verus! {

/// The intents to remove and to apply.
#[derive(Clone, Debug, Default, PartialEq, Eq)]
pub struct ReconcilePlan {
    pub remove: Vec<RouteIntent>,
    pub apply: Vec<RouteIntent>,
}

/// Why reconciliation failed.
#[derive(Clone, Debug, PartialEq, Eq)]
pub enum ReconcileError {
    /// Two live intents want different actions for one destination.
    ConflictingActions {
        destination: IpNetwork,
        first: RouteIntentAction,
        second: RouteIntentAction,
    },
    Backend(RouteBackendError),
}

impl From<RouteBackendError> for ReconcileError {
    fn from(error: RouteBackendError) -> (r: ReconcileError) {
        ReconcileError::Backend(error)
    }
}

impl vstd::std_specs::convert::FromSpecImpl<RouteBackendError> for ReconcileError {
    open spec fn obeys_from_spec() -> bool {
        true
    }

    open spec fn from_spec(v: RouteBackendError) -> ReconcileError {
        ReconcileError::Backend(v)
    }
}

/// `x` counts at `now`: it has not expired by then, or no time is given
/// (every intent counts, as when taking the keys of all applied intents).
pub open spec fn live_at(x: IntentView, now: Option<u64>) -> bool {
    match now {
        Some(t) => !intent_expired_at(x, t),
        None => true,
    }
}

/// The intents of `s` that count at `now` for destination `d`, in order.
pub open spec fn group(s: Seq<IntentView>, d: IpNetwork, now: Option<u64>) -> Seq<IntentView>
    decreases s.len(),
{
    if s.len() == 0 {
        Seq::empty()
    } else {
        let g = group(s.drop_last(), d, now);
        if live_at(s.last(), now) && s.last().destination == d {
            g.push(s.last())
        } else {
            g
        }
    }
}

/// Folds one more intent for the same destination into `acc`: the larger
/// generation, the later expiry, and the owner whose domain sorts first.
pub open spec fn combine(acc: IntentView, x: IntentView) -> IntentView {
    IntentView {
        generation: if x.generation > acc.generation { x.generation } else { acc.generation },
        expires_at: if x.expires_at > acc.expires_at { x.expires_at } else { acc.expires_at },
        owner: if seq_lt(x.owner, acc.owner) { x.owner } else { acc.owner },
        ..acc
    }
}

/// The intents of a group folded into one, from the first.
pub open spec fn merged(g: Seq<IntentView>) -> IntentView
    decreases g.len(),
{
    if g.len() <= 1 {
        g[0]
    } else {
        combine(merged(g.drop_last()), g.last())
    }
}

/// Among the first `j` intents, live intents for one destination agree
/// on the action.
pub open spec fn consistent_upto(s: Seq<IntentView>, now: Option<u64>, j: int) -> bool {
    forall|a: int, b: int|
        0 <= a < b < j && live_at(s[a], now) && live_at(s[b], now)
            && s[a].destination == s[b].destination ==> #[trigger] s[a].action == #[trigger] s[b].action
}

/// Intent `j` is the first live intent whose action differs from that of
/// an earlier live intent `i` for the same destination.
pub open spec fn first_conflict(s: Seq<IntentView>, now: Option<u64>, j: int, i: int) -> bool {
    &&& 0 <= i < j < s.len()
    &&& live_at(s[i], now)
    &&& live_at(s[j], now)
    &&& s[i].destination == s[j].destination
    &&& s[i].action != s[j].action
    &&& consistent_upto(s, now, j)
}

/// The name of an action.
pub open spec fn action_name(a: RouteIntentAction) -> Seq<char> {
    match a {
        RouteIntentAction::Direct => "direct"@,
        RouteIntentAction::Proxy => "proxy"@,
        RouteIntentAction::Auto => "auto"@,
        RouteIntentAction::Block => "block"@,
    }
}

/// `x` sorts before `y`: by the destination's text, then the action name.
pub open spec fn key_lt(x: IntentView, y: IntentView) -> bool {
    ||| seq_lt(spec_ip_net_text(x.destination), spec_ip_net_text(y.destination))
    ||| spec_ip_net_text(x.destination) == spec_ip_net_text(y.destination) && seq_lt(
        action_name(x.action),
        action_name(y.action),
    )
}

pub open spec fn sorted_by_key(v: Seq<IntentView>) -> bool {
    forall|a: int, b: int| 0 <= a < b < v.len() ==> !key_lt(#[trigger] v[b], #[trigger] v[a])
}

/// The effective intents of `s` at `now`: one per live destination, the
/// group of its live intents merged, sorted by destination text and action.
pub open spec fn is_effective(s: Seq<IntentView>, now: Option<u64>, v: Seq<IntentView>) -> bool {
    &&& consistent_upto(s, now, s.len() as int)
    &&& forall|k: int| 0 <= k < v.len() ==> group(s, #[trigger] v[k].destination, now).len() > 0
        && v[k] == merged(group(s, v[k].destination, now))
    &&& forall|i: int| 0 <= i < s.len() && live_at(#[trigger] s[i], now) ==> exists|k: int| 0 <= k < v.len() && v[k].destination == s[i].destination
    &&& forall|a: int, b: int| 0 <= a < b < v.len() ==> #[trigger] v[a].destination != #[trigger] v[b].destination
    &&& sorted_by_key(v)
}

/// The destinations' texts strictly increase along `v`.
pub open spec fn texts_increase(v: Seq<IntentView>) -> bool {
    forall|a: int, b: int| 0 <= a < b < v.len() ==> seq_lt(
        spec_ip_net_text(#[trigger] v[a].destination),
        spec_ip_net_text(#[trigger] v[b].destination),
    )
}

/// What `effective_intents` yields for `s` at `now`.
pub open spec fn effective_result(s: Seq<IntentView>, now: Option<u64>, r: Result<Seq<IntentView>, ReconcileError>) -> bool {
    match r {
        Ok(v) => is_effective(s, now, v) && texts_increase(v),
        Err(ReconcileError::ConflictingActions { destination, first, second }) => exists|j: int, i: int|
            first_conflict(s, now, j, i) && destination == s[j].destination && first == s[i].action
                && second == s[j].action,
        Err(ReconcileError::Backend(_)) => false,
    }
}

proof fn lemma_key_lt_irreflexive(x: IntentView)
    ensures
        !key_lt(x, x),
{
    lemma_seq_lt_irreflexive(spec_ip_net_text(x.destination));
    lemma_seq_lt_irreflexive(action_name(x.action));
}

proof fn lemma_key_lt_transitive(x: IntentView, y: IntentView, z: IntentView)
    requires
        key_lt(x, y),
        key_lt(y, z),
    ensures
        key_lt(x, z),
{
    let tx = spec_ip_net_text(x.destination);
    let ty = spec_ip_net_text(y.destination);
    let tz = spec_ip_net_text(z.destination);
    if seq_lt(tx, ty) && seq_lt(ty, tz) {
        lemma_seq_lt_transitive(tx, ty, tz);
    }
    if tx == ty && ty == tz {
        lemma_seq_lt_irreflexive(tx);
        lemma_seq_lt_transitive(action_name(x.action), action_name(y.action), action_name(z.action));
    }
}

/// One more intent of `s` extends the group of its destination, if it is live.
proof fn lemma_group_step(s: Seq<IntentView>, d: IpNetwork, now: Option<u64>, i: int)
    requires
        0 <= i < s.len(),
    ensures
        group(s.take(i + 1), d, now) == (if live_at(s[i], now) && s[i].destination == d {
            group(s.take(i), d, now).push(s[i])
        } else {
            group(s.take(i), d, now)
        }),
{
    let t = s.take(i + 1);
    assert(t.drop_last() =~= s.take(i));
    assert(t.last() == s[i]);
}

/// A non-empty group has a live intent of its destination behind it.
proof fn lemma_group_witness(s: Seq<IntentView>, d: IpNetwork, now: Option<u64>)
    requires
        group(s, d, now).len() > 0,
    ensures
        exists|w: int| 0 <= w < s.len() && live_at(s[w], now) && s[w].destination == d,
    decreases s.len(),
{
    let n = s.len() - 1;
    if live_at(s[n], now) && s[n].destination == d {
        assert(0 <= n < s.len() && live_at(s[n], now) && s[n].destination == d);
    } else {
        lemma_group_witness(s.drop_last(), d, now);
        let w = choose|w: int| 0 <= w < s.drop_last().len() && live_at(s.drop_last()[w], now) && s.drop_last()[w].destination == d;
        assert(s.drop_last()[w] == s[w]);
    }
}

/// What the fold over the first `i` intents of `s` has built in `v`: the
/// merged group of every live destination seen so far, once each, sorted.
spec fn fold_inv(s: Seq<IntentView>, now: Option<u64>, i: int, v: Seq<IntentView>) -> bool {
    &&& 0 <= i <= s.len()
    &&& consistent_upto(s, now, i)
    &&& forall|k: int| 0 <= k < v.len() ==> group(s.take(i), (#[trigger] v[k]).destination, now).len() > 0
        && v[k] == merged(group(s.take(i), v[k].destination, now))
    &&& forall|k: int, w: int| 0 <= k < v.len() && 0 <= w < i && live_at(#[trigger] s[w], now)
        && s[w].destination == (#[trigger] v[k]).destination ==> s[w].action == v[k].action
    &&& forall|w: int| 0 <= w < i && live_at(#[trigger] s[w], now) ==> exists|k: int| 0 <= k < v.len()
        && v[k].destination == s[w].destination
    &&& forall|a: int, b: int| 0 <= a < b < v.len() ==> (#[trigger] v[a]).destination != (#[trigger] v[b]).destination
    &&& sorted_by_key(v)
}

proof fn lemma_fold_start(s: Seq<IntentView>, now: Option<u64>)
    ensures
        fold_inv(s, now, 0, Seq::empty()),
{
}

/// An expired intent changes nothing.
proof fn lemma_fold_expired(s: Seq<IntentView>, now: Option<u64>, i: int, v: Seq<IntentView>)
    requires
        fold_inv(s, now, i, v),
        i < s.len(),
        !live_at(s[i], now),
    ensures
        fold_inv(s, now, i + 1, v),
{
    assert forall|k: int| 0 <= k < v.len() implies group(s.take(i + 1), (#[trigger] v[k]).destination, now)
        == group(s.take(i), v[k].destination, now) by {
        lemma_group_step(s, v[k].destination, now, i);
    }
}

/// A live intent whose destination is at `p` with another action is the
/// first conflict.
proof fn lemma_fold_conflict(s: Seq<IntentView>, now: Option<u64>, i: int, v: Seq<IntentView>, p: int)
    requires
        fold_inv(s, now, i, v),
        i < s.len(),
        live_at(s[i], now),
        0 <= p < v.len(),
        v[p].destination == s[i].destination,
        v[p].action != s[i].action,
    ensures
        exists|w: int| first_conflict(s, now, i, w) && s[w].action == v[p].action,
{
    assert(v[p] == v[p]);
    lemma_group_witness(s.take(i), v[p].destination, now);
    let w = choose|w: int| 0 <= w < s.take(i).len() && live_at(s.take(i)[w], now)
        && s.take(i)[w].destination == v[p].destination;
    assert(s.take(i)[w] == s[w]);
    assert(s[w].action == v[p].action);
    assert(first_conflict(s, now, i, w));
}

/// A live intent whose destination and action are at `p` folds into it.
proof fn lemma_fold_merge(s: Seq<IntentView>, now: Option<u64>, i: int, v: Seq<IntentView>, p: int)
    requires
        fold_inv(s, now, i, v),
        i < s.len(),
        live_at(s[i], now),
        0 <= p < v.len(),
        v[p].destination == s[i].destination,
        v[p].action == s[i].action,
    ensures
        fold_inv(s, now, i + 1, v.update(p, combine(v[p], s[i]))),
{
    let x = s[i];
    let nv = v.update(p, combine(v[p], x));
    assert forall|a: int, b: int| 0 <= a < b < i + 1 && live_at(s[a], now) && live_at(s[b], now)
        && s[a].destination == s[b].destination implies #[trigger] s[a].action == #[trigger] s[b].action by {
        if b == i {
            let k = choose|k: int| 0 <= k < v.len() && v[k].destination == s[a].destination;
            if k != p {
                if k < p {
                    assert(v[k].destination != v[p].destination);
                } else {
                    assert(v[p].destination != v[k].destination);
                }
            }
            assert(v[p] == v[p]);
            assert(s[a].action == v[p].action);
        }
    }
    assert forall|k: int| 0 <= k < nv.len() implies group(s.take(i + 1), (#[trigger] nv[k]).destination, now).len() > 0
        && nv[k] == merged(group(s.take(i + 1), nv[k].destination, now)) by {
        lemma_group_step(s, nv[k].destination, now, i);
        if k == p {
            let g = group(s.take(i), x.destination, now);
            assert(v[p] == v[p]);
            assert(g.push(x).drop_last() =~= g);
        } else {
            assert(nv[k] == v[k]);
            if k < p {
                assert(v[k].destination != v[p].destination);
            } else {
                assert(v[p].destination != v[k].destination);
            }
        }
    }
    assert forall|k: int, w: int| 0 <= k < nv.len() && 0 <= w < i + 1 && live_at(#[trigger] s[w], now)
        && s[w].destination == (#[trigger] nv[k]).destination implies s[w].action == nv[k].action by {
        assert(v[k] == v[k]);
        if w == i && k != p {
            if k < p {
                assert(v[k].destination != v[p].destination);
            } else {
                assert(v[p].destination != v[k].destination);
            }
        }
    }
    assert forall|w: int| 0 <= w < i + 1 && live_at(#[trigger] s[w], now) implies exists|k: int| 0 <= k < nv.len()
        && nv[k].destination == s[w].destination by {
        if w < i {
            let k = choose|k: int| 0 <= k < v.len() && v[k].destination == s[w].destination;
            assert(nv[k].destination == v[k].destination);
        } else {
            assert(nv[p].destination == s[w].destination);
        }
    }
    assert forall|a: int, b: int| 0 <= a < b < nv.len() implies (#[trigger] nv[a]).destination != (#[trigger] nv[b]).destination by {
        assert(v[a].destination != v[b].destination);
    }
    assert forall|a: int, b: int| 0 <= a < b < nv.len() implies !key_lt(#[trigger] nv[b], #[trigger] nv[a]) by {
        assert(!key_lt(v[b], v[a]));
    }
}

/// A live intent for a destination not yet seen goes in at `q`, the first
/// place whose key is greater.
proof fn lemma_fold_insert(s: Seq<IntentView>, now: Option<u64>, i: int, v: Seq<IntentView>, q: int)
    requires
        fold_inv(s, now, i, v),
        i < s.len(),
        live_at(s[i], now),
        forall|k: int| 0 <= k < v.len() ==> (#[trigger] v[k]).destination != s[i].destination,
        0 <= q <= v.len(),
        forall|k: int| 0 <= k < q ==> !key_lt(s[i], #[trigger] v[k]),
        q < v.len() ==> key_lt(s[i], v[q]),
    ensures
        fold_inv(s, now, i + 1, v.insert(q, s[i])),
{
    let x = s[i];
    let nv = v.insert(q, x);
    v.insert_ensures(q, x);
    assert forall|k: int| 0 <= k < nv.len() && k != q implies #[trigger] nv[k] == v[if k < q { k } else { k - 1 }] by {
        if k > q {
            assert(nv[(k - 1) + 1] == v[k - 1]);
        }
    }
    assert forall|a: int, b: int| 0 <= a < b < i + 1 && live_at(s[a], now) && live_at(s[b], now)
        && s[a].destination == s[b].destination implies #[trigger] s[a].action == #[trigger] s[b].action by {
        if b == i {
            let k = choose|k: int| 0 <= k < v.len() && v[k].destination == s[a].destination;
            assert(v[k].destination != x.destination);
        }
    }
    assert(group(s.take(i), x.destination, now).len() == 0) by {
        if group(s.take(i), x.destination, now).len() > 0 {
            lemma_group_witness(s.take(i), x.destination, now);
            let w = choose|w: int| 0 <= w < s.take(i).len() && live_at(s.take(i)[w], now)
                && s.take(i)[w].destination == x.destination;
            assert(s.take(i)[w] == s[w]);
            let k = choose|k: int| 0 <= k < v.len() && v[k].destination == s[w].destination;
            assert(v[k].destination != x.destination);
        }
    }
    assert forall|k: int| 0 <= k < nv.len() implies group(s.take(i + 1), (#[trigger] nv[k]).destination, now).len() > 0
        && nv[k] == merged(group(s.take(i + 1), nv[k].destination, now)) by {
        lemma_group_step(s, nv[k].destination, now, i);
        if k == q {
            assert(group(s.take(i + 1), x.destination, now) =~= seq![x]);
        } else {
            let k0 = if k < q { k } else { k - 1 };
            assert(nv[k] == v[k0]);
            assert(v[k0].destination != x.destination);
        }
    }
    assert forall|k: int, w: int| 0 <= k < nv.len() && 0 <= w < i + 1 && live_at(#[trigger] s[w], now)
        && s[w].destination == (#[trigger] nv[k]).destination implies s[w].action == nv[k].action by {
        if k == q {
            if w < i {
                let k0 = choose|k0: int| 0 <= k0 < v.len() && v[k0].destination == s[w].destination;
                assert(v[k0].destination != x.destination);
            }
        } else {
            let k0 = if k < q { k } else { k - 1 };
            assert(nv[k] == v[k0]);
            assert(v[k0].destination != x.destination);
        }
    }
    assert forall|w: int| 0 <= w < i + 1 && live_at(#[trigger] s[w], now) implies exists|k: int| 0 <= k < nv.len()
        && nv[k].destination == s[w].destination by {
        if w < i {
            let k0 = choose|k: int| 0 <= k < v.len() && v[k].destination == s[w].destination;
            let k = if k0 < q { k0 } else { k0 + 1 };
            assert(nv[k] == v[k0]);
        } else {
            assert(nv[q].destination == s[w].destination);
        }
    }
    assert forall|a: int, b: int| 0 <= a < b < nv.len() implies (#[trigger] nv[a]).destination != (#[trigger] nv[b]).destination by {
        let a0 = if a < q { a } else { a - 1 };
        let b0 = if b < q { b } else { b - 1 };
        if a == q {
            assert(nv[b] == v[b0]);
            assert(v[b0].destination != x.destination);
        } else if b == q {
            assert(nv[a] == v[a0]);
            assert(v[a0].destination != x.destination);
        } else {
            assert(nv[a] == v[a0]);
            assert(nv[b] == v[b0]);
        }
    }
    assert forall|a: int, b: int| 0 <= a < b < nv.len() implies !key_lt(#[trigger] nv[b], #[trigger] nv[a]) by {
        let a0 = if a < q { a } else { a - 1 };
        let b0 = if b < q { b } else { b - 1 };
        if a == q {
            assert(nv[b] == v[b0]);
            assert(key_lt(x, v[q]));
            if b0 > q {
                assert(!key_lt(v[b0], v[q]));
            }
            if key_lt(v[b0], x) {
                lemma_key_lt_transitive(v[b0], x, v[q]);
                if b0 == q {
                    lemma_key_lt_irreflexive(v[q]);
                }
            }
        } else if b == q {
            assert(nv[a] == v[a0]);
            assert(!key_lt(x, v[a0]));
        } else {
            assert(nv[a] == v[a0]);
            assert(nv[b] == v[b0]);
        }
    }
}

/// The fold over all of `s` gives its effective intents.
proof fn lemma_fold_done(s: Seq<IntentView>, now: Option<u64>, v: Seq<IntentView>)
    requires
        fold_inv(s, now, s.len() as int, v),
    ensures
        is_effective(s, now, v),
{
    assert(s.take(s.len() as int) =~= s);
}

/// The name of an action (`"direct"`, `"proxy"`, `"auto"`, `"block"`).
pub fn action_key(action: RouteIntentAction) -> (r: &'static str)
    ensures
        r@ == action_name(action),
{
    match action {
        RouteIntentAction::Direct => "direct",
        RouteIntentAction::Proxy => "proxy",
        RouteIntentAction::Auto => "auto",
        RouteIntentAction::Block => "block",
    }
}

/// The domain of an owner.
pub fn owner_key(owner: &RouteIntentOwner) -> (r: String)
    ensures
        r@ == owner@,
{
    match owner {
        RouteIntentOwner::Domain(domain) => domain.clone(),
    }
}

/// Whether `x` sorts before `y`, given their destinations' texts.
fn key_lt_exec(x: &RouteIntent, tx: &Vec<char>, y: &RouteIntent, ty: &Vec<char>) -> (r: bool)
    requires
        tx@ == spec_ip_net_text(x.destination),
        ty@ == spec_ip_net_text(y.destination),
    ensures
        r == key_lt(x@, y@),
{
    if chars_lt(tx, ty) {
        return true;
    }
    chars_eq(tx, ty) && chars_lt(&str_chars(action_key(x.action)), &str_chars(action_key(y.action)))
}

/// All destinations are well-formed networks.
pub open spec fn all_wf(s: Seq<RouteIntent>) -> bool {
    forall|k: int| 0 <= k < s.len() ==> (#[trigger] s[k]).destination.wf()
}

/// The index of the first intent of `v` for `destination`, or `v.len()`.
fn position_of_destination(v: &Vec<RouteIntent>, destination: IpNetwork) -> (p: usize)
    ensures
        p <= v@.len(),
        forall|k: int| 0 <= k < p ==> (#[trigger] v@[k]).destination != destination,
        p < v@.len() ==> v@[p as int].destination == destination,
{
    let mut p: usize = 0;
    while p < v.len()
        invariant
            p <= v@.len(),
            forall|k: int| 0 <= k < p ==> (#[trigger] v@[k]).destination != destination,
        decreases v.len() - p,
    {
        if v[p].destination == destination {
            return p;
        }
        p += 1;
    }
    p
}

/// The first index of `v` whose key is greater than that of `x`, or `v.len()`.
fn insertion_index(x: &RouteIntent, tx: &Vec<char>, v: &Vec<RouteIntent>, texts: &Vec<Vec<char>>) -> (q: usize)
    requires
        tx@ == spec_ip_net_text(x.destination),
        texts@.len() == v@.len(),
        forall|k: int| 0 <= k < v@.len() ==> (#[trigger] texts@[k])@ == spec_ip_net_text(v@[k].destination),
    ensures
        q <= v@.len(),
        forall|k: int| 0 <= k < q ==> !key_lt(x@, #[trigger] intent_views(v@)[k]),
        q < v@.len() ==> key_lt(x@, intent_views(v@)[q as int]),
{
    let mut q: usize = 0;
    while q < v.len()
        invariant
            q <= v@.len(),
            texts@.len() == v@.len(),
            forall|k: int| 0 <= k < v@.len() ==> (#[trigger] texts@[k])@ == spec_ip_net_text(v@[k].destination),
            tx@ == spec_ip_net_text(x.destination),
            forall|k: int| 0 <= k < q ==> !key_lt(x@, #[trigger] intent_views(v@)[k]),
        decreases v.len() - q,
    {
        assert(texts@[q as int]@ == spec_ip_net_text(v@[q as int].destination));
        if key_lt_exec(x, tx, &v[q], &texts[q]) {
            return q;
        }
        q += 1;
    }
    q
}

/// Whether `x` counts at `now`.
fn is_live(x: &RouteIntent, now: Option<u64>) -> (b: bool)
    ensures
        b == live_at(x@, now),
{
    match now {
        Some(t) => !x.is_expired_at(t),
        None => true,
    }
}

/// The live intents of `desired` merged per destination, or the first
/// conflict between live intents for one destination.
pub fn effective_intents(desired: &[RouteIntent], now: u64) -> (r: Result<Vec<RouteIntent>, ReconcileError>)
    requires
        all_wf(desired@),
    ensures
        effective_result(intent_views(desired@), Some(now), match r {
            Ok(v) => Ok(intent_views(v@)),
            Err(e) => Err(e),
        }),
        r matches Ok(v) ==> all_wf(v@),
{
    effective_intents_at(desired, Some(now))
}

/// The intents of `desired` that count at `now`, merged per destination,
/// or the first conflict between them.
fn effective_intents_at(desired: &[RouteIntent], now: Option<u64>) -> (r: Result<Vec<RouteIntent>, ReconcileError>)
    requires
        all_wf(desired@),
    ensures
        effective_result(intent_views(desired@), now, match r {
            Ok(v) => Ok(intent_views(v@)),
            Err(e) => Err(e),
        }),
        r matches Ok(v) ==> all_wf(v@),
{
    let ghost s = intent_views(desired@);
    let mut result: Vec<RouteIntent> = Vec::new();
    let mut texts: Vec<Vec<char>> = Vec::new();
    let mut i: usize = 0;
    proof {
        lemma_fold_start(s, now);
        assert(intent_views(result@) =~= Seq::<IntentView>::empty());
    }
    while i < desired.len()
        invariant
            i <= desired@.len(),
            s == intent_views(desired@),
            all_wf(desired@),
            all_wf(result@),
            texts@.len() == result@.len(),
            forall|k: int| 0 <= k < result@.len() ==> (#[trigger] texts@[k])@ == spec_ip_net_text(result@[k].destination),
            forall|k: int| 0 <= k < result@.len() ==> spec_parse_ip_net(spec_ip_net_text((#[trigger] result@[k]).destination))
                == Some(result@[k].destination),
            fold_inv(s, now, i as int, intent_views(result@)),
        decreases desired.len() - i,
    {
        let x = &desired[i];
        let ghost v = intent_views(result@);
        assert(s[i as int] == x@);
        if !is_live(x, now) {
            proof {
                lemma_fold_expired(s, now, i as int, v);
            }
            i += 1;
            continue;
        }
        let p = position_of_destination(&result, x.destination);
        if p < result.len() {
            let cur = &result[p];
            assert(v[p as int] == cur@);
            if cur.action != x.action {
                proof {
                    lemma_fold_conflict(s, now, i as int, v, p as int);
                    let w = choose|w: int| first_conflict(s, now, i as int, w) && s[w].action == v[p as int].action;
                    assert(first_conflict(s, now, i as int, w));
                }
                return Err(ReconcileError::ConflictingActions {
                    destination: x.destination,
                    first: cur.action,
                    second: x.action,
                });
            }
            let ox = str_chars(owner_key(&x.owner).as_str());
            let oc = str_chars(owner_key(&cur.owner).as_str());
            let owner = if chars_lt(&ox, &oc) { x.owner.duplicate() } else { cur.owner.duplicate() };
            let next = RouteIntent {
                destination: cur.destination,
                action: cur.action,
                owner,
                generation: if x.generation > cur.generation { x.generation } else { cur.generation },
                expires_at: if x.expires_at > cur.expires_at { x.expires_at } else { cur.expires_at },
            };
            assert(next@ == combine(v[p as int], x@));
            let ghost old_result = result@;
            result.set(p, next);
            proof {
                lemma_fold_merge(s, now, i as int, v, p as int);
                assert(intent_views(result@) =~= v.update(p as int, combine(v[p as int], x@)));
                assert forall|k: int| 0 <= k < result@.len() implies (#[trigger] result@[k]).destination.wf() by {
                    assert(result@[k].destination == old_result[k].destination);
                }
                assert forall|k: int| 0 <= k < result@.len() implies (#[trigger] texts@[k])@ == spec_ip_net_text(result@[k].destination) by {
                    assert(result@[k].destination == old_result[k].destination);
                }
                assert forall|k: int| 0 <= k < result@.len() implies spec_parse_ip_net(spec_ip_net_text((#[trigger] result@[k]).destination))
                    == Some(result@[k].destination) by {
                    assert(result@[k].destination == old_result[k].destination);
                }
            }
        } else {
            let tx = str_chars(x.destination.to_text().as_str());
            let q = insertion_index(x, &tx, &result, &texts);
            let ghost old_result = result@;
            let copy = x.duplicate();
            result.insert(q, copy);
            texts.insert(q, tx);
            proof {
                assert forall|k: int| 0 <= k < v.len() implies (#[trigger] v[k]).destination != s[i as int].destination by {
                    assert(old_result[k].destination != x.destination);
                }
                lemma_fold_insert(s, now, i as int, v, q as int);
                old_result.insert_ensures(q as int, copy);
                v.insert_ensures(q as int, x@);
                assert(intent_views(result@) =~= v.insert(q as int, x@)) by {
                    assert forall|k: int| 0 <= k < result@.len() implies #[trigger] intent_views(result@)[k] == v.insert(q as int, x@)[k] by {
                        if k > q {
                            assert(result@[(k - 1) + 1] == old_result[k - 1]);
                            assert(v.insert(q as int, x@)[(k - 1) + 1] == v[k - 1]);
                        }
                    }
                }
                assert forall|k: int| 0 <= k < result@.len() implies (#[trigger] texts@[k])@ == spec_ip_net_text(result@[k].destination) by {
                    if k < q {
                        assert(result@[k] == old_result[k]);
                    } else if k > q {
                        assert(result@[(k - 1) + 1] == old_result[k - 1]);
                    }
                }
                assert forall|k: int| 0 <= k < result@.len() implies (#[trigger] result@[k]).destination.wf() by {
                    if k < q {
                        assert(result@[k] == old_result[k]);
                    } else if k > q {
                        assert(result@[(k - 1) + 1] == old_result[k - 1]);
                    }
                }
                assert forall|k: int| 0 <= k < result@.len() implies spec_parse_ip_net(spec_ip_net_text((#[trigger] result@[k]).destination))
                    == Some(result@[k].destination) by {
                    if k < q {
                        assert(result@[k] == old_result[k]);
                    } else if k > q {
                        assert(result@[(k - 1) + 1] == old_result[k - 1]);
                    }
                }
            }
        }
        i += 1;
    }
    proof {
        lemma_fold_done(s, now, intent_views(result@));
        lemma_texts_increase(intent_views(result@), s, now);
    }
    Ok(result)
}


/// Effective intents whose texts read back as their destinations have
/// strictly increasing texts: distinct destinations have distinct texts.
proof fn lemma_texts_increase(v: Seq<IntentView>, s: Seq<IntentView>, now: Option<u64>)
    requires
        is_effective(s, now, v),
        forall|k: int| 0 <= k < v.len() ==> spec_parse_ip_net(spec_ip_net_text((#[trigger] v[k]).destination))
            == Some(v[k].destination),
    ensures
        texts_increase(v),
{
    assert forall|a: int, b: int| 0 <= a < b < v.len() implies seq_lt(
        spec_ip_net_text(#[trigger] v[a].destination),
        spec_ip_net_text(#[trigger] v[b].destination),
    ) by {
        let ta = spec_ip_net_text(v[a].destination);
        let tb = spec_ip_net_text(v[b].destination);
        assert(v[a].destination != v[b].destination);
        assert(spec_parse_ip_net(ta) == Some(v[a].destination));
        assert(spec_parse_ip_net(tb) == Some(v[b].destination));
        assert(ta != tb);
        assert(!key_lt(v[b], v[a]));
        lemma_seq_lt_total(ta, tb);
    }
}

/// The key of an intent: its destination and its action.
pub open spec fn key_of(x: IntentView) -> (IpNetwork, RouteIntentAction) {
    (x.destination, x.action)
}

/// The keys of the intents of `v`.
pub open spec fn key_set(v: Seq<IntentView>) -> Set<(IpNetwork, RouteIntentAction)> {
    Set::new(|k: (IpNetwork, RouteIntentAction)| exists|i: int| 0 <= i < v.len() && key_of(v[i]) == k)
}

/// The keys of the live intents of `s` at `now`.
pub open spec fn live_keys(s: Seq<IntentView>, now: Option<u64>) -> Set<(IpNetwork, RouteIntentAction)> {
    Set::new(|k: (IpNetwork, RouteIntentAction)| exists|i: int| 0 <= i < s.len() && live_at(s[i], now) && key_of(s[i]) == k)
}

/// Some intent of `v` has the key of `x`.
pub open spec fn has_key(v: Seq<IntentView>, x: IntentView) -> bool {
    exists|k: int| 0 <= k < v.len() && key_of(v[k]) == key_of(x)
}

/// Whether an intent's key is absent from `b`.
pub open spec fn key_absent(b: Seq<IntentView>) -> spec_fn(IntentView) -> bool {
    |x: IntentView| !has_key(b, x)
}

/// The intents of `a`, in order, whose key is not in `b`.
pub open spec fn minus_keys(a: Seq<IntentView>, b: Seq<IntentView>) -> Seq<IntentView> {
    a.filter(key_absent(b))
}

/// The intents of `s` expired at `now`, each key once (the first intent
/// with that key).
pub open spec fn expired_once(s: Seq<IntentView>, now: u64) -> Seq<IntentView>
    decreases s.len(),
{
    if s.len() == 0 {
        Seq::empty()
    } else {
        let e = expired_once(s.drop_last(), now);
        if intent_expired_at(s.last(), now) && !has_key(e, s.last()) {
            e.push(s.last())
        } else {
            e
        }
    }
}

/// The keys of the intents of `s` expired at `now`.
pub open spec fn expired_keys(s: Seq<IntentView>, now: u64) -> Set<(IpNetwork, RouteIntentAction)> {
    Set::new(|k: (IpNetwork, RouteIntentAction)| exists|i: int| 0 <= i < s.len() && intent_expired_at(s[i], now) && key_of(s[i]) == k)
}

/// No two intents of `v` share a key.
pub open spec fn keys_unique(v: Seq<IntentView>) -> bool {
    forall|a: int, b: int| 0 <= a < b < v.len() ==> key_of(#[trigger] v[a]) != key_of(#[trigger] v[b])
}

/// The intents a plan removes, given the effective desired intents `dv` and
/// the effective applied intents `av` at `now`: the live applied intents
/// whose key is not desired, then the expired applied intents (each key
/// once) whose key is neither desired nor among the live applied ones.
pub open spec fn plan_remove(applied: Seq<IntentView>, now: u64, dv: Seq<IntentView>, av: Seq<IntentView>) -> Seq<IntentView> {
    minus_keys(av, dv) + minus_keys(minus_keys(expired_once(applied, now), dv), av)
}

/// What `build_plan` yields at `now`: the error of the first side whose
/// intents live at `now` conflict, else, from the effective desired and the
/// effective applied intents at `now`, the applied intents whose key is not
/// desired, expired ones included (to remove), and the desired intents whose
/// key is not live among the applied ones (to apply).
pub open spec fn plan_result(
    desired: Seq<IntentView>,
    applied: Seq<IntentView>,
    now: u64,
    r: Result<(Seq<IntentView>, Seq<IntentView>), ReconcileError>,
) -> bool {
    match r {
        Ok((remove, apply)) => exists|dv: Seq<IntentView>, av: Seq<IntentView>|
            is_effective(desired, Some(now), dv) && is_effective(applied, Some(now), av)
                && remove == plan_remove(applied, now, dv, av) && apply == minus_keys(dv, av),
        Err(e) => if !consistent_upto(desired, Some(now), desired.len() as int) {
            effective_result(desired, Some(now), Err(e))
        } else {
            !consistent_upto(applied, Some(now), applied.len() as int) && effective_result(applied, Some(now), Err(e))
        },
    }
}

/// The first element of a non-empty group is a live intent of `s` for `d`.
proof fn lemma_group_first(s: Seq<IntentView>, d: IpNetwork, now: Option<u64>)
    requires
        group(s, d, now).len() > 0,
    ensures
        exists|w: int| 0 <= w < s.len() && live_at(s[w], now) && s[w].destination == d
            && s[w] == group(s, d, now)[0],
    decreases s.len(),
{
    let n = s.len() - 1;
    let g0 = group(s.drop_last(), d, now);
    if g0.len() > 0 {
        lemma_group_first(s.drop_last(), d, now);
        let w = choose|w: int| 0 <= w < s.drop_last().len() && live_at(s.drop_last()[w], now)
            && s.drop_last()[w].destination == d && s.drop_last()[w] == g0[0];
        assert(s.drop_last()[w] == s[w]);
        assert(group(s, d, now)[0] == g0[0]);
    } else {
        assert(group(s, d, now)[0] == s[n]);
    }
}

/// A merged group keeps the destination and action of its first intent and
/// expires no earlier.
proof fn lemma_merged_first(g: Seq<IntentView>)
    requires
        g.len() > 0,
    ensures
        merged(g).destination == g[0].destination,
        merged(g).action == g[0].action,
        merged(g).expires_at >= g[0].expires_at,
    decreases g.len(),
{
    if g.len() > 1 {
        lemma_merged_first(g.drop_last());
    }
}

/// A live intent of `s` behind the effective intent at `k`.
spec fn entry_source(s: Seq<IntentView>, now: Option<u64>, v: Seq<IntentView>, k: int) -> int {
    choose|w: int| 0 <= w < s.len() && live_at(s[w], now) && key_of(s[w]) == key_of(v[k])
        && s[w].expires_at <= v[k].expires_at
}

proof fn lemma_entry_source(s: Seq<IntentView>, now: Option<u64>, v: Seq<IntentView>, k: int)
    requires
        is_effective(s, now, v),
        0 <= k < v.len(),
    ensures
        0 <= entry_source(s, now, v, k) < s.len(),
        live_at(s[entry_source(s, now, v, k)], now),
        key_of(s[entry_source(s, now, v, k)]) == key_of(v[k]),
        s[entry_source(s, now, v, k)].expires_at <= v[k].expires_at,
{
    let g = group(s, v[k].destination, now);
    assert(g.len() > 0 && v[k] == merged(g));
    lemma_group_first(s, v[k].destination, now);
    lemma_merged_first(g);
    let w = choose|w: int| 0 <= w < s.len() && live_at(s[w], now) && s[w].destination == v[k].destination
        && s[w] == g[0];
    assert(key_of(s[w]) == key_of(v[k]));
}

/// The keys of the effective intents are the keys of the live intents, and
/// every effective intent is live.
pub proof fn lemma_effective_keys(s: Seq<IntentView>, now: Option<u64>, v: Seq<IntentView>)
    requires
        is_effective(s, now, v),
    ensures
        key_set(v) == live_keys(s, now),
        forall|k: int| 0 <= k < v.len() ==> live_at(#[trigger] v[k], now),
{
    assert forall|k: int| 0 <= k < v.len() implies live_at(#[trigger] v[k], now) by {
        lemma_entry_source(s, now, v, k);
    }
    assert forall|key: (IpNetwork, RouteIntentAction)| key_set(v).contains(key) implies live_keys(s, now).contains(key) by {
        let k = choose|k: int| 0 <= k < v.len() && key_of(v[k]) == key;
        lemma_entry_source(s, now, v, k);
        let w = entry_source(s, now, v, k);
        assert(0 <= w < s.len() && live_at(s[w], now) && key_of(s[w]) == key);
    }
    assert forall|key: (IpNetwork, RouteIntentAction)| live_keys(s, now).contains(key) implies key_set(v).contains(key) by {
        let w = choose|w: int| 0 <= w < s.len() && live_at(s[w], now) && key_of(s[w]) == key;
        assert(live_at(s[w], now));
        let k = choose|k: int| 0 <= k < v.len() && v[k].destination == s[w].destination;
        lemma_entry_source(s, now, v, k);
        let w2 = entry_source(s, now, v, k);
        if w < w2 {
            assert(s[w].action == s[w2].action);
        } else if w2 < w {
            assert(s[w2].action == s[w].action);
        }
        assert(key_of(v[k]) == key);
    }
    assert(key_set(v) =~= live_keys(s, now));
}

/// The keys left after taking out those of `b` are those of `a` not in `b`.
pub proof fn lemma_minus_keys(a: Seq<IntentView>, b: Seq<IntentView>)
    ensures
        key_set(minus_keys(a, b)) == key_set(a).difference(key_set(b)),
{
    let f = minus_keys(a, b);
    let p = key_absent(b);
    assert forall|key: (IpNetwork, RouteIntentAction)| key_set(f).contains(key) implies key_set(a).difference(key_set(b)).contains(key) by {
        let i = choose|i: int| 0 <= i < f.len() && key_of(f[i]) == key;
        a.lemma_filter_pred(p, i);
        assert(f.contains(f[i]));
        a.lemma_filter_contains_rev(p, f[i]);
        let j = choose|j: int| 0 <= j < a.len() && a[j] == f[i];
        assert(key_of(a[j]) == key);
        if key_set(b).contains(key) {
            let m = choose|m: int| 0 <= m < b.len() && key_of(b[m]) == key;
            assert(has_key(b, f[i]));
        }
    }
    assert forall|key: (IpNetwork, RouteIntentAction)| key_set(a).difference(key_set(b)).contains(key) implies key_set(f).contains(key) by {
        let j = choose|j: int| 0 <= j < a.len() && key_of(a[j]) == key;
        if has_key(b, a[j]) {
            let m = choose|m: int| 0 <= m < b.len() && key_of(b[m]) == key_of(a[j]);
            assert(key_set(b).contains(key));
        }
        a.lemma_filter_contains(p, j);
        let i = choose|i: int| 0 <= i < f.len() && f[i] == a[j];
        assert(key_of(f[i]) == key);
    }
    assert(key_set(f) =~= key_set(a).difference(key_set(b)));
}

/// A sequence with no keys is empty.
proof fn lemma_no_keys_empty(v: Seq<IntentView>)
    requires
        key_set(v) == Set::<(IpNetwork, RouteIntentAction)>::empty(),
    ensures
        v.len() == 0,
{
    if v.len() > 0 {
        assert(key_set(v).contains(key_of(v[0])));
    }
}

/// The keys of the expired intents that `expired_once` keeps are the keys
/// of all expired intents, each once.
proof fn lemma_expired_once(s: Seq<IntentView>, now: u64)
    ensures
        key_set(expired_once(s, now)) == expired_keys(s, now),
        keys_unique(expired_once(s, now)),
    decreases s.len(),
{
    if s.len() == 0 {
        assert(key_set(expired_once(s, now)) =~= expired_keys(s, now));
    } else {
        let p = s.drop_last();
        let x = s.last();
        let e = expired_once(p, now);
        let f = expired_once(s, now);
        lemma_expired_once(p, now);
        assert forall|k: (IpNetwork, RouteIntentAction)| expired_keys(s, now).contains(k) implies key_set(f).contains(k) by {
            let i = choose|i: int| 0 <= i < s.len() && intent_expired_at(s[i], now) && key_of(s[i]) == k;
            if i < s.len() - 1 {
                assert(p[i] == s[i]);
                assert(expired_keys(p, now).contains(k));
                let j = choose|j: int| 0 <= j < e.len() && key_of(e[j]) == k;
                if intent_expired_at(x, now) && !has_key(e, x) {
                    assert(e.push(x)[j] == e[j]);
                }
            } else if has_key(e, x) {
                let j = choose|j: int| 0 <= j < e.len() && key_of(e[j]) == key_of(x);
                assert(key_of(e[j]) == k);
            } else {
                assert(e.push(x)[e.len() as int] == x);
            }
        }
        assert forall|k: (IpNetwork, RouteIntentAction)| key_set(f).contains(k) implies expired_keys(s, now).contains(k) by {
            let j = choose|j: int| 0 <= j < f.len() && key_of(f[j]) == k;
            if j < e.len() {
                assert(f[j] == e[j]);
                assert(key_set(e).contains(k));
                let i = choose|i: int| 0 <= i < p.len() && intent_expired_at(p[i], now) && key_of(p[i]) == k;
                assert(s[i] == p[i]);
            } else {
                assert(f[j] == x);
                assert(s[s.len() - 1] == x);
            }
        }
        assert(key_set(f) =~= expired_keys(s, now));
        if intent_expired_at(x, now) && !has_key(e, x) {
            assert forall|a: int, b: int| 0 <= a < b < f.len() implies key_of(#[trigger] f[a]) != key_of(#[trigger] f[b]) by {
                assert(f[a] == e[a]);
                if b == e.len() {
                    assert(f[b] == x);
                } else {
                    assert(f[b] == e[b]);
                }
            }
        }
    }
}

/// Every key of `s` is the key of a live or of an expired intent at `now`.
proof fn lemma_all_keys(s: Seq<IntentView>, now: u64)
    ensures
        live_keys(s, None) == live_keys(s, Some(now)).union(expired_keys(s, now)),
{
    assert forall|k: (IpNetwork, RouteIntentAction)| live_keys(s, None).contains(k) implies live_keys(s, Some(now)).union(expired_keys(s, now)).contains(k) by {
        let i = choose|i: int| 0 <= i < s.len() && live_at(s[i], None) && key_of(s[i]) == k;
        if intent_expired_at(s[i], now) {
            assert(expired_keys(s, now).contains(k));
        } else {
            assert(live_at(s[i], Some(now)));
            assert(live_keys(s, Some(now)).contains(k));
        }
    }
    assert forall|k: (IpNetwork, RouteIntentAction)| live_keys(s, Some(now)).union(expired_keys(s, now)).contains(k) implies live_keys(s, None).contains(k) by {
        if live_keys(s, Some(now)).contains(k) {
            let i = choose|i: int| 0 <= i < s.len() && live_at(s[i], Some(now)) && key_of(s[i]) == k;
            assert(live_at(s[i], None));
        } else {
            let i = choose|i: int| 0 <= i < s.len() && intent_expired_at(s[i], now) && key_of(s[i]) == k;
            assert(live_at(s[i], None));
        }
    }
    assert(live_keys(s, None) =~= live_keys(s, Some(now)).union(expired_keys(s, now)));
}

/// The keys of a concatenation are the keys of both parts.
proof fn lemma_key_set_concat(a: Seq<IntentView>, b: Seq<IntentView>)
    ensures
        key_set(a + b) == key_set(a).union(key_set(b)),
{
    let c = a + b;
    assert forall|k: (IpNetwork, RouteIntentAction)| key_set(c).contains(k) implies key_set(a).union(key_set(b)).contains(k) by {
        let i = choose|i: int| 0 <= i < c.len() && key_of(c[i]) == k;
        if i < a.len() {
            assert(c[i] == a[i]);
        } else {
            assert(c[i] == b[i - a.len()]);
            assert(key_set(b).contains(k));
        }
    }
    assert forall|k: (IpNetwork, RouteIntentAction)| key_set(a).union(key_set(b)).contains(k) implies key_set(c).contains(k) by {
        if key_set(a).contains(k) {
            let i = choose|i: int| 0 <= i < a.len() && key_of(a[i]) == k;
            assert(c[i] == a[i]);
        } else {
            let i = choose|i: int| 0 <= i < b.len() && key_of(b[i]) == k;
            assert(c[i + a.len()] == b[i]);
        }
    }
    assert(key_set(c) =~= key_set(a).union(key_set(b)));
}

/// Taking out the keys of `b` keeps keys unique.
proof fn lemma_minus_keys_unique(a: Seq<IntentView>, b: Seq<IntentView>)
    requires
        keys_unique(a),
    ensures
        keys_unique(minus_keys(a, b)),
    decreases a.len(),
{
    if a.len() > 0 {
        let p = a.drop_last();
        let x = a.last();
        assert forall|i: int, j: int| 0 <= i < j < p.len() implies key_of(#[trigger] p[i]) != key_of(#[trigger] p[j]) by {
            assert(p[i] == a[i] && p[j] == a[j]);
        }
        lemma_minus_keys_unique(p, b);
        assert(a =~= p.push(x));
        p.lemma_filter_push(x, key_absent(b));
        let fp = minus_keys(p, b);
        if key_absent(b)(x) {
            let f = fp.push(x);
            assert(minus_keys(a, b) == f);
            assert forall|i: int, j: int| 0 <= i < j < f.len() implies key_of(#[trigger] f[i]) != key_of(#[trigger] f[j]) by {
                assert(f[i] == fp[i]);
                if j == fp.len() {
                    assert(fp.contains(fp[i]));
                    p.lemma_filter_contains_rev(key_absent(b), fp[i]);
                    let m = choose|m: int| 0 <= m < p.len() && p[m] == fp[i];
                    assert(a[m] == p[m]);
                    assert(a[a.len() - 1] == x);
                    assert(f[j] == x);
                } else {
                    assert(f[j] == fp[j]);
                }
            }
        } else {
            assert(minus_keys(a, b) == fp);
        }
    }
}

/// Two sequences with unique keys and no key in common concatenate to one
/// with unique keys.
proof fn lemma_concat_unique(a: Seq<IntentView>, b: Seq<IntentView>)
    requires
        keys_unique(a),
        keys_unique(b),
        key_set(a).disjoint(key_set(b)),
    ensures
        keys_unique(a + b),
{
    let c = a + b;
    assert forall|i: int, j: int| 0 <= i < j < c.len() implies key_of(#[trigger] c[i]) != key_of(#[trigger] c[j]) by {
        if j < a.len() {
            assert(c[i] == a[i] && c[j] == a[j]);
        } else if i >= a.len() {
            assert(c[i] == b[i - a.len()] && c[j] == b[j - a.len()]);
        } else {
            assert(c[i] == a[i] && c[j] == b[j - a.len()]);
            assert(key_set(a).contains(key_of(c[i])));
            assert(key_set(b).contains(key_of(c[j])));
        }
    }
}

/// Effective intents have one intent per destination, so unique keys.
proof fn lemma_effective_unique(s: Seq<IntentView>, now: Option<u64>, v: Seq<IntentView>)
    requires
        is_effective(s, now, v),
    ensures
        keys_unique(v),
{
    assert forall|a: int, b: int| 0 <= a < b < v.len() implies key_of(#[trigger] v[a]) != key_of(#[trigger] v[b]) by {
        assert(v[a].destination != v[b].destination);
    }
}

/// A plan removes each applied key that is not desired at `now`, whether
/// its intents are live or expired, and applies each desired key that is
/// not live among the applied intents; each list holds a key at most once,
/// and nothing applied is expired at `now`. Carried out, the plan leaves
/// the applied keys equal to the desired keys.
pub proof fn lemma_plan_keys(
    desired: Seq<IntentView>,
    applied: Seq<IntentView>,
    now: u64,
    dv: Seq<IntentView>,
    av: Seq<IntentView>,
)
    requires
        is_effective(desired, Some(now), dv),
        is_effective(applied, Some(now), av),
    ensures
        key_set(plan_remove(applied, now, dv, av)) == live_keys(applied, None).difference(live_keys(desired, Some(now))),
        key_set(minus_keys(dv, av)) == live_keys(desired, Some(now)).difference(live_keys(applied, Some(now))),
        keys_unique(plan_remove(applied, now, dv, av)),
        keys_unique(minus_keys(dv, av)),
        forall|k: int| 0 <= k < minus_keys(dv, av).len() ==> live_at(#[trigger] minus_keys(dv, av)[k], Some(now)),
        live_keys(applied, None).difference(key_set(plan_remove(applied, now, dv, av))).union(key_set(minus_keys(dv, av)))
            == live_keys(desired, Some(now)),
{
    let e = expired_once(applied, now);
    let e1 = minus_keys(e, dv);
    let e2 = minus_keys(e1, av);
    let r1 = minus_keys(av, dv);
    let ap = minus_keys(dv, av);
    lemma_effective_keys(desired, Some(now), dv);
    lemma_effective_keys(applied, Some(now), av);
    lemma_expired_once(applied, now);
    lemma_all_keys(applied, now);
    lemma_minus_keys(av, dv);
    lemma_minus_keys(dv, av);
    lemma_minus_keys(e, dv);
    lemma_minus_keys(e1, av);
    lemma_key_set_concat(r1, e2);
    lemma_effective_unique(desired, Some(now), dv);
    lemma_effective_unique(applied, Some(now), av);
    lemma_minus_keys_unique(av, dv);
    lemma_minus_keys_unique(dv, av);
    lemma_minus_keys_unique(e, dv);
    lemma_minus_keys_unique(e1, av);
    let d = live_keys(desired, Some(now));
    let l = live_keys(applied, Some(now));
    let x = expired_keys(applied, now);
    let all = live_keys(applied, None);
    assert(key_set(r1).disjoint(key_set(e2))) by {
        assert(key_set(r1) =~= l.difference(d));
        assert(key_set(e2) =~= x.difference(d).difference(l));
    }
    lemma_concat_unique(r1, e2);
    assert(key_set(plan_remove(applied, now, dv, av)) =~= all.difference(d));
    assert forall|k: int| 0 <= k < ap.len() implies live_at(#[trigger] ap[k], Some(now)) by {
        assert(ap.contains(ap[k]));
        dv.lemma_filter_contains_rev(key_absent(av), ap[k]);
        let m = choose|m: int| 0 <= m < dv.len() && dv[m] == ap[k];
        assert(live_at(dv[m], Some(now)));
    }
    assert(all.difference(all.difference(d)).union(d.difference(l)) =~= d);
}

/// When the desired keys at `now` are the keys live among the applied
/// intents, and no applied key has only expired intents, the plan is empty.
pub proof fn lemma_unchanged_plan_empty(
    desired: Seq<IntentView>,
    applied: Seq<IntentView>,
    now: u64,
    dv: Seq<IntentView>,
    av: Seq<IntentView>,
)
    requires
        is_effective(desired, Some(now), dv),
        is_effective(applied, Some(now), av),
        live_keys(desired, Some(now)) == live_keys(applied, Some(now)),
        live_keys(applied, Some(now)) == live_keys(applied, None),
    ensures
        plan_remove(applied, now, dv, av).len() == 0,
        minus_keys(dv, av).len() == 0,
{
    lemma_plan_keys(desired, applied, now, dv, av);
    let d = live_keys(desired, Some(now));
    assert(d.difference(d) =~= Set::empty());
    lemma_no_keys_empty(plan_remove(applied, now, dv, av));
    lemma_no_keys_empty(minus_keys(dv, av));
}

/// Once the applied intents are the effective desired intents at `now`,
/// planning the same desired intents at the same time gives an empty plan.
pub proof fn lemma_plan_after_commit(
    desired: Seq<IntentView>,
    now: u64,
    committed: Seq<IntentView>,
    dv: Seq<IntentView>,
    av: Seq<IntentView>,
)
    requires
        is_effective(desired, Some(now), committed),
        is_effective(desired, Some(now), dv),
        is_effective(committed, Some(now), av),
    ensures
        plan_remove(committed, now, dv, av).len() == 0,
        minus_keys(dv, av).len() == 0,
{
    lemma_effective_keys(desired, Some(now), committed);
    assert forall|key: (IpNetwork, RouteIntentAction)| key_set(committed).contains(key) <==> live_keys(committed, None).contains(key) by {
        if key_set(committed).contains(key) {
            let k = choose|k: int| 0 <= k < committed.len() && key_of(committed[k]) == key;
            assert(live_at(committed[k], None));
        }
    }
    assert forall|key: (IpNetwork, RouteIntentAction)| key_set(committed).contains(key) <==> live_keys(committed, Some(now)).contains(key) by {
        if key_set(committed).contains(key) {
            let k = choose|k: int| 0 <= k < committed.len() && key_of(committed[k]) == key;
            assert(live_at(committed[k], Some(now)));
        }
    }
    assert(key_set(committed) =~= live_keys(committed, None));
    assert(key_set(committed) =~= live_keys(committed, Some(now)));
    lemma_unchanged_plan_empty(desired, committed, now, dv, av);
}

/// A conflict between live intents leaves the intents inconsistent.
proof fn lemma_conflict_inconsistent(s: Seq<IntentView>, now: Option<u64>, j: int, i: int)
    requires
        first_conflict(s, now, j, i),
    ensures
        !consistent_upto(s, now, s.len() as int),
{
    assert(s[i].action != s[j].action);
}

/// An error of `effective_intents` means a conflict.
proof fn lemma_error_inconsistent(s: Seq<IntentView>, now: Option<u64>, e: ReconcileError)
    requires
        effective_result(s, now, Err(e)),
    ensures
        !consistent_upto(s, now, s.len() as int),
{
    match e {
        ReconcileError::ConflictingActions { destination, first, second } => {
            let (j, i) = choose|j: int, i: int| first_conflict(s, now, j, i) && destination == s[j].destination
                && first == s[i].action && second == s[j].action;
            lemma_conflict_inconsistent(s, now, j, i);
        },
        ReconcileError::Backend(_) => {},
    }
}

impl ReconcilePlan {
    /// Nothing to remove and nothing to apply.
    pub fn is_empty(&self) -> (b: bool)
        ensures
            b == (self.remove@.len() == 0 && self.apply@.len() == 0),
    {
        self.remove.len() == 0 && self.apply.len() == 0
    }
}

/// The identity of an intent for reconciliation: destination and action.
#[derive(Clone, Copy, Debug, PartialEq, Eq, Hash, Structural)]
pub struct IntentKey {
    pub destination: IpNetwork,
    pub action: RouteIntentAction,
}

/// The key of an intent.
pub fn intent_key(intent: &RouteIntent) -> (r: IntentKey)
    ensures
        r == (IntentKey { destination: intent.destination, action: intent.action }),
{
    IntentKey { destination: intent.destination, action: intent.action }
}

/// Whether some intent of `v` has the key of `x`.
fn has_key_exec(v: &[RouteIntent], x: &RouteIntent) -> (r: bool)
    ensures
        r == has_key(intent_views(v@), x@),
{
    let wanted = intent_key(x);
    let mut k: usize = 0;
    while k < v.len()
        invariant
            k <= v@.len(),
            wanted == (IntentKey { destination: x.destination, action: x.action }),
            forall|m: int| 0 <= m < k ==> key_of(#[trigger] intent_views(v@)[m]) != key_of(x@),
        decreases v.len() - k,
    {
        if intent_key(&v[k]) == wanted {
            assert(key_of(intent_views(v@)[k as int]) == key_of(x@));
            return true;
        }
        k += 1;
    }
    false
}

/// The intents of `a`, in order, whose key is not in `b`.
fn minus_keys_exec(a: &[RouteIntent], b: &[RouteIntent]) -> (r: Vec<RouteIntent>)
    requires
        all_wf(a@),
    ensures
        intent_views(r@) == minus_keys(intent_views(a@), intent_views(b@)),
        all_wf(r@),
{
    let ghost av = intent_views(a@);
    let ghost bv = intent_views(b@);
    let mut r: Vec<RouteIntent> = Vec::new();
    let mut i: usize = 0;
    proof {
        reveal(Seq::filter);
        assert(av.take(0) =~= Seq::<IntentView>::empty());
        assert(intent_views(r@) =~= Seq::<IntentView>::empty());
    }
    while i < a.len()
        invariant
            i <= a@.len(),
            av == intent_views(a@),
            bv == intent_views(b@),
            all_wf(a@),
            all_wf(r@),
            intent_views(r@) == minus_keys(av.take(i as int), bv),
        decreases a.len() - i,
    {
        let ghost before = r@;
        proof {
            assert(av.take(i + 1) =~= av.take(i as int).push(av[i as int]));
            av.take(i as int).lemma_filter_push(av[i as int], key_absent(bv));
        }
        if !has_key_exec(b, &a[i]) {
            r.push(a[i].duplicate());
            proof {
                assert(intent_views(r@) =~= intent_views(before).push(av[i as int]));
            }
        }
        i += 1;
    }
    proof {
        assert(av.take(a@.len() as int) =~= av);
    }
    r
}

/// The intents of `s` expired at `now`, each key once.
fn expired_once_exec(s: &[RouteIntent], now: u64) -> (r: Vec<RouteIntent>)
    requires
        all_wf(s@),
    ensures
        intent_views(r@) == expired_once(intent_views(s@), now),
        all_wf(r@),
{
    let ghost sv = intent_views(s@);
    let mut r: Vec<RouteIntent> = Vec::new();
    let mut i: usize = 0;
    proof {
        assert(sv.take(0) =~= Seq::<IntentView>::empty());
        assert(intent_views(r@) =~= Seq::<IntentView>::empty());
    }
    while i < s.len()
        invariant
            i <= s@.len(),
            sv == intent_views(s@),
            all_wf(s@),
            all_wf(r@),
            intent_views(r@) == expired_once(sv.take(i as int), now),
        decreases s.len() - i,
    {
        let ghost before = r@;
        proof {
            assert(sv.take(i + 1).drop_last() =~= sv.take(i as int));
            assert(sv.take(i + 1).last() == s[i as int]@);
        }
        if s[i].is_expired_at(now) && !has_key_exec(r.as_slice(), &s[i]) {
            r.push(s[i].duplicate());
            proof {
                assert(intent_views(r@) =~= intent_views(before).push(sv[i as int]));
            }
        }
        i += 1;
    }
    proof {
        assert(sv.take(s@.len() as int) =~= sv);
    }
    r
}

/// The plan from the applied intents to the desired ones at `now`. Both
/// sides are reduced to their effective intents at `now`; applied intents
/// that have expired are removed too, unless their key is desired.
pub fn build_plan(desired: &[RouteIntent], applied: &[RouteIntent], now: u64) -> (r: Result<ReconcilePlan, ReconcileError>)
    requires
        all_wf(desired@),
        all_wf(applied@),
    ensures
        plan_result(intent_views(desired@), intent_views(applied@), now, match r {
            Ok(plan) => Ok((intent_views(plan.remove@), intent_views(plan.apply@))),
            Err(e) => Err(e),
        }),
        r matches Ok(plan) ==> all_wf(plan.remove@) && all_wf(plan.apply@),
{
    let ghost ds = intent_views(desired@);
    let ghost aps = intent_views(applied@);
    let dv = match effective_intents_at(desired, Some(now)) {
        Ok(v) => v,
        Err(e) => {
            proof {
                lemma_error_inconsistent(ds, Some(now), e);
            }
            return Err(e);
        },
    };
    let av = match effective_intents_at(applied, Some(now)) {
        Ok(v) => v,
        Err(e) => {
            proof {
                lemma_error_inconsistent(aps, Some(now), e);
            }
            return Err(e);
        },
    };
    let stale = expired_once_exec(applied, now);
    let stale_undesired = minus_keys_exec(&stale, &dv);
    let mut gone = minus_keys_exec(&stale_undesired, &av);
    let mut remove = minus_keys_exec(&av, &dv);
    let ghost live_part = remove@;
    let ghost gone_part = gone@;
    remove.append(&mut gone);
    let apply = minus_keys_exec(&dv, &av);
    proof {
        assert(intent_views(remove@) =~= intent_views(live_part) + intent_views(gone_part));
        assert forall|k: int| 0 <= k < remove@.len() implies (#[trigger] remove@[k]).destination.wf() by {
            if k < live_part.len() {
                assert(remove@[k] == live_part[k]);
            } else {
                assert(remove@[k] == gone_part[k - live_part.len()]);
            }
        }
    }
    let plan = ReconcilePlan { remove, apply };
    assert(is_effective(ds, Some(now), intent_views(dv@)) && is_effective(aps, Some(now), intent_views(av@))
        && intent_views(plan.remove@) == plan_remove(aps, now, intent_views(dv@), intent_views(av@))
        && intent_views(plan.apply@) == minus_keys(intent_views(dv@), intent_views(av@)));
    Ok(plan)
}

/// Drops from `applied` every intent whose key is among `removed`.
pub fn remove_applied_keys(applied: &mut Vec<RouteIntent>, removed: &[RouteIntent])
    requires
        all_wf(old(applied)@),
    ensures
        intent_views(final(applied)@) == minus_keys(intent_views(old(applied)@), intent_views(removed@)),
        all_wf(final(applied)@),
{
    let kept = minus_keys_exec(applied.as_slice(), removed);
    *applied = kept;
}

/// Keeps the intents that a backend has applied and plans what to change.
pub struct Reconciler<B> {
    backend: B,
    applied: Vec<RouteIntent>,
}

impl<B> Reconciler<B> {
    /// The backend.
    pub closed spec fn spec_backend(&self) -> B {
        self.backend
    }

    /// The intents recorded as applied.
    pub closed spec fn spec_applied(&self) -> Seq<RouteIntent> {
        self.applied@
    }

    /// The recorded intents all have well-formed destinations.
    pub open spec fn wf(&self) -> bool {
        all_wf(self.spec_applied())
    }

    /// A reconciler over `backend` with nothing applied yet.
    pub fn new(backend: B) -> (r: Reconciler<B>)
        ensures
            r.spec_backend() == backend,
            r.spec_applied() == Seq::<RouteIntent>::empty(),
            r.wf(),
    {
        Reconciler { backend, applied: Vec::new() }
    }

    pub fn backend(&self) -> (r: &B)
        ensures
            *r == self.spec_backend(),
    {
        &self.backend
    }

    pub fn applied(&self) -> (r: &[RouteIntent])
        ensures
            r@ == self.spec_applied(),
    {
        self.applied.as_slice()
    }

    /// The plan from the recorded intents to `desired` at `now`.
    pub fn plan(&self, desired: &[RouteIntent], now: u64) -> (r: Result<ReconcilePlan, ReconcileError>)
        requires
            self.wf(),
            all_wf(desired@),
        ensures
            plan_result(intent_views(desired@), intent_views(self.spec_applied()), now, match r {
                Ok(plan) => Ok((intent_views(plan.remove@), intent_views(plan.apply@))),
                Err(e) => Err(e),
            }),
            r matches Ok(plan) ==> all_wf(plan.remove@) && all_wf(plan.apply@),
    {
        build_plan(desired, self.applied.as_slice(), now)
    }

    /// Records that the backend removed `removed`: their keys are no longer
    /// applied.
    pub fn record_removed(&mut self, removed: &[RouteIntent])
        requires
            old(self).wf(),
        ensures
            final(self).wf(),
            final(self).spec_backend() == old(self).spec_backend(),
            intent_views(final(self).spec_applied()) == minus_keys(intent_views(old(self).spec_applied()), intent_views(removed@)),
    {
        remove_applied_keys(&mut self.applied, removed);
    }

    /// Records `desired` at `now` as applied: the recorded intents become
    /// its effective intents. On a conflict nothing changes.
    pub fn commit(&mut self, desired: &[RouteIntent], now: u64) -> (r: Result<(), ReconcileError>)
        requires
            old(self).wf(),
            all_wf(desired@),
        ensures
            final(self).wf(),
            final(self).spec_backend() == old(self).spec_backend(),
            match r {
                Ok(()) => is_effective(intent_views(desired@), Some(now), intent_views(final(self).spec_applied())),
                Err(e) => effective_result(intent_views(desired@), Some(now), Err(e))
                    && final(self).spec_applied() == old(self).spec_applied(),
            },
    {
        match effective_intents(desired, now) {
            Ok(v) => {
                self.applied = v;
                Ok(())
            },
            Err(e) => Err(e),
        }
    }
}


/// An action as its variant name.
pub open spec fn action_variant_name(a: RouteIntentAction) -> Seq<char> {
    match a {
        RouteIntentAction::Direct => "Direct"@,
        RouteIntentAction::Proxy => "Proxy"@,
        RouteIntentAction::Auto => "Auto"@,
        RouteIntentAction::Block => "Block"@,
    }
}

/// The variant name of an action.
pub fn action_variant(a: RouteIntentAction) -> (r: &'static str)
    ensures
        r@ == action_variant_name(a),
{
    match a {
        RouteIntentAction::Direct => "Direct",
        RouteIntentAction::Proxy => "Proxy",
        RouteIntentAction::Auto => "Auto",
        RouteIntentAction::Block => "Block",
    }
}

/// The message of a reconciliation error.
pub open spec fn reconcile_error_text(e: ReconcileError) -> Seq<char> {
    match e {
        ReconcileError::ConflictingActions { destination, first, second } => "conflicting route actions for "@
            + spec_ip_net_text(destination) + ": "@ + action_variant_name(first) + " vs "@ + action_variant_name(second),
        ReconcileError::Backend(error) => "route backend error: "@ + backend_error_text(error),
    }
}

impl ReconcileError {
    /// The error's message.
    pub fn message(&self) -> (s: String)
        requires
            self matches ReconcileError::ConflictingActions { destination, .. } ==> destination.wf(),
        ensures
            s@ == reconcile_error_text(*self),
    {
        match self {
            ReconcileError::ConflictingActions { destination, first, second } => {
                let a = concat_chars(&str_chars("conflicting route actions for "), &str_chars(destination.to_text().as_str()));
                let b = concat_chars(&a, &str_chars(": "));
                let c = concat_chars(&b, &str_chars(action_variant(*first)));
                let d = concat_chars(&c, &str_chars(" vs "));
                let e = concat_chars(&d, &str_chars(action_variant(*second)));
                vec_to_string(&e)
            },
            ReconcileError::Backend(error) => {
                let a = concat_chars(&str_chars("route backend error: "), &str_chars(error.message().as_str()));
                vec_to_string(&a)
            },
        }
    }
}

} // verus!
