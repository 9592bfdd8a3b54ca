//! The difference between the saved route set and a fresh one.
use vstd::prelude::*;
use crate::net::IpNetwork;
use crate::text::{concat_chars, decimal_string, decimal_text, str_chars, vec_to_string};

verus! {

/// What a refresh changes: routes to add, routes to remove, and how many
/// stay.
#[derive(Clone, Debug)]
pub struct DiffResult {
    pub added: Vec<IpNetwork>,
    pub removed: Vec<IpNetwork>,
    pub unchanged: usize,
}

/// A refreshed state is saved only when no route operation failed.
pub fn can_commit_state(add_failed: usize, remove_failed: usize) -> (b: bool)
    ensures
        b == (add_failed == 0 && remove_failed == 0),
{
    add_failed == 0 && remove_failed == 0
}

/// What a refresh has just learned: the size of the diff, or how many
/// route operations of a batch failed.
#[derive(Clone, Copy, Debug, PartialEq, Eq, Structural)]
pub enum RefreshEvent {
    /// The diff holds `added` routes to add and `removed` routes to remove.
    Diffed { added: usize, removed: usize },
    /// The additions are done, `failed` of them failed; `removed` routes
    /// remain to remove.
    AddsDone { failed: usize, removed: usize },
    /// The removals are done, `failed` of them failed.
    RemovesDone { failed: usize },
}

/// What a refresh does next.
#[derive(Clone, Debug, PartialEq, Eq)]
pub enum RefreshAction {
    /// Nothing differs: report the diff, change and save nothing.
    UpToDate,
    /// Add the new routes.
    AddRoutes,
    /// Remove the obsolete routes.
    RemoveRoutes,
    /// Every operation succeeded: save the new state.
    SaveState,
    /// Stop with this error and keep the previous state.
    Fail(String),
}

/// The message when `failed` routes could not be added.
pub open spec fn add_failed_message(failed: nat) -> Seq<char> {
    "failed to add "@ + decimal_text(failed) + " routes during route refresh"@
}

/// The message when `failed` old routes could not be removed.
pub open spec fn remove_failed_message(failed: nat) -> Seq<char> {
    "failed to remove "@ + decimal_text(failed) + " old routes during route refresh"@
}

/// `head`, the decimal text of `n`, then `tail`.
fn count_message(head: &str, n: usize, tail: &str) -> (r: String)
    ensures
        r@ == head@ + decimal_text(n as nat) + tail@,
{
    let number = decimal_string(n as u64);
    let front = concat_chars(&str_chars(head), &str_chars(number.as_str()));
    let all = concat_chars(&front, &str_chars(tail));
    vec_to_string(&all)
}

/// The next step of a refresh. An empty diff changes nothing; additions
/// come before removals; a failed addition stops the refresh before any
/// removal, a failed removal stops it too, and either way nothing is saved.
pub fn refresh_step(event: RefreshEvent) -> (r: RefreshAction)
    ensures
        match event {
            RefreshEvent::Diffed { added, removed } => if added == 0 && removed == 0 {
                r is UpToDate
            } else if added > 0 {
                r is AddRoutes
            } else {
                r is RemoveRoutes
            },
            RefreshEvent::AddsDone { failed, removed } => if failed > 0 {
                r matches RefreshAction::Fail(m) && m@ == add_failed_message(failed as nat)
            } else if removed > 0 {
                r is RemoveRoutes
            } else {
                r is SaveState
            },
            RefreshEvent::RemovesDone { failed } => if failed > 0 {
                r matches RefreshAction::Fail(m) && m@ == remove_failed_message(failed as nat)
            } else {
                r is SaveState
            },
        },
{
    match event {
        RefreshEvent::Diffed { added, removed } => if added == 0 && removed == 0 {
            RefreshAction::UpToDate
        } else if added > 0 {
            RefreshAction::AddRoutes
        } else {
            RefreshAction::RemoveRoutes
        },
        RefreshEvent::AddsDone { failed, removed } => if failed > 0 {
            RefreshAction::Fail(count_message("failed to add ", failed, " routes during route refresh"))
        } else if removed > 0 {
            RefreshAction::RemoveRoutes
        } else {
            RefreshAction::SaveState
        },
        RefreshEvent::RemovesDone { failed } => if failed > 0 {
            RefreshAction::Fail(count_message("failed to remove ", failed, " old routes during route refresh"))
        } else {
            RefreshAction::SaveState
        },
    }
}

/// Whether `v` holds `x`.
pub fn contains_network(v: &[IpNetwork], x: IpNetwork) -> (r: bool)
    ensures
        r == v@.contains(x),
{
    let mut i: usize = 0;
    while i < v.len()
        invariant
            i <= v@.len(),
            forall|k: int| 0 <= k < i ==> v@[k] != x,
        decreases v.len() - i,
    {
        if v[i] == x {
            assert(v@[i as int] == x);
            return true;
        }
        i += 1;
    }
    false
}

/// The distinct networks of `a` that `b` lacks (`keep == false`) or holds
/// (`keep == true`), in the order of their first occurrence.
fn select_networks(a: &[IpNetwork], b: &[IpNetwork], keep: bool) -> (r: Vec<IpNetwork>)
    ensures
        r@.no_duplicates(),
        r@.to_set() == (if keep {
            a@.to_set().intersect(b@.to_set())
        } else {
            a@.to_set().difference(b@.to_set())
        }),
{
    let mut r: Vec<IpNetwork> = Vec::new();
    let mut i: usize = 0;
    assert(a@.take(0).to_set() =~= Set::<IpNetwork>::empty());
    assert(r@.to_set() =~= Set::<IpNetwork>::empty());
    while i < a.len()
        invariant
            i <= a@.len(),
            r@.no_duplicates(),
            r@.to_set() == (if keep {
                a@.take(i as int).to_set().intersect(b@.to_set())
            } else {
                a@.take(i as int).to_set().difference(b@.to_set())
            }),
        decreases a.len() - i,
    {
        let x = a[i];
        let ghost before = r@;
        let ghost t0 = a@.take(i as int);
        let ghost t1 = a@.take(i + 1);
        assert(t1 =~= t0.push(x));
        assert(t1.to_set() =~= t0.to_set().insert(x)) by {
            assert forall|y: IpNetwork| t1.to_set().contains(y) implies t0.to_set().insert(x).contains(y) by {
                let k = choose|k: int| 0 <= k < t1.len() && t1[k] == y;
                if k < i {
                    assert(t0[k] == y);
                }
            }
            assert forall|y: IpNetwork| t0.to_set().insert(x).contains(y) implies t1.to_set().contains(y) by {
                if y == x {
                    assert(t1[i as int] == x);
                } else {
                    let k = choose|k: int| 0 <= k < t0.len() && t0[k] == y;
                    assert(t1[k] == y);
                }
            }
        }
        let in_b = contains_network(b, x);
        if in_b == keep && !contains_network(r.as_slice(), x) {
            r.push(x);
            proof {
                assert(r@.to_set() =~= before.to_set().insert(x)) by {
                    assert forall|y: IpNetwork| r@.to_set().contains(y) implies before.to_set().insert(x).contains(y) by {
                        let k = choose|k: int| 0 <= k < r@.len() && r@[k] == y;
                        if k < before.len() {
                            assert(before[k] == y);
                        }
                    }
                    assert forall|y: IpNetwork| before.to_set().insert(x).contains(y) implies r@.to_set().contains(y) by {
                        if y == x {
                            assert(r@[before.len() as int] == x);
                        } else {
                            let k = choose|k: int| 0 <= k < before.len() && before[k] == y;
                            assert(r@[k] == y);
                        }
                    }
                }
                assert forall|p: int, q: int| 0 <= p < r@.len() && 0 <= q < r@.len() && p != q implies r@[p] != r@[q] by {
                    if p == before.len() {
                        assert(!before.contains(x));
                        assert(before[q] == r@[q]);
                    } else if q == before.len() {
                        assert(!before.contains(x));
                        assert(before[p] == r@[p]);
                    } else {
                        assert(before[p] == r@[p]);
                        assert(before[q] == r@[q]);
                    }
                }
            }
        } else {
            proof {
                if in_b == keep {
                    assert(before.contains(x));
                    let k = choose|k: int| 0 <= k < before.len() && before[k] == x;
                    assert(before.to_set().contains(x));
                }
            }
        }
        proof {
            if keep {
                assert(r@.to_set() =~= a@.take(i + 1).to_set().intersect(b@.to_set()));
            } else {
                assert(r@.to_set() =~= a@.take(i + 1).to_set().difference(b@.to_set()));
            }
        }
        i += 1;
    }
    assert(a@.take(a@.len() as int) =~= a@);
    r
}

/// The difference from the saved routes `old_routes` to `new_routes`, both
/// taken as sets: the networks to add, those to remove (each once), and the
/// number of networks in both.
pub fn compute_route_diff(new_routes: &[IpNetwork], old_routes: &[IpNetwork]) -> (r: DiffResult)
    ensures
        r.added@.no_duplicates(),
        r.removed@.no_duplicates(),
        r.added@.to_set() == new_routes@.to_set().difference(old_routes@.to_set()),
        r.removed@.to_set() == old_routes@.to_set().difference(new_routes@.to_set()),
        r.unchanged == new_routes@.to_set().intersect(old_routes@.to_set()).len(),
{
    let added = select_networks(new_routes, old_routes, false);
    let removed = select_networks(old_routes, new_routes, false);
    let common = select_networks(new_routes, old_routes, true);
    proof {
        common@.unique_seq_to_set();
    }
    DiffResult { added, removed, unchanged: common.len() }
}

/// The distinct networks of `routes`, each once, in the order of their
/// first occurrence.
pub fn distinct_networks(routes: &[IpNetwork]) -> (r: Vec<IpNetwork>)
    ensures
        r@.no_duplicates(),
        r@.to_set() == routes@.to_set(),
{
    let none: Vec<IpNetwork> = Vec::new();
    let r = select_networks(routes, none.as_slice(), false);
    assert(routes@.to_set().difference(none@.to_set()) =~= routes@.to_set());
    r
}

/// Carrying out a diff turns the old route set into the new one, and no
/// network is both added and removed.
pub proof fn lemma_diff_applies(new_set: Set<IpNetwork>, old_set: Set<IpNetwork>, added: Set<IpNetwork>, removed: Set<IpNetwork>)
    requires
        added == new_set.difference(old_set),
        removed == old_set.difference(new_set),
    ensures
        old_set.difference(removed).union(added) == new_set,
        added.disjoint(removed),
{
    assert(old_set.difference(removed).union(added) =~= new_set);
}

} // verus!
