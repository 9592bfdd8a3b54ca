use chnroutes::domain::backend::{RouteBackendError, SystemRouteBackend};
use chnroutes::net::IpNetwork;
use chnroutes::route_op::{
    network_wait_step, remove_outcome_of, AddOutcome, RemoveOutcome, RemoveResult, RouteResult, WaitStep,
};
use chnroutes::source::bgp_cache::BgpCache;
use chnroutes::state::State;
use std::time::Duration;
use chnroutes::update::{refresh_step, RefreshAction, RefreshEvent};

#[test]
fn refresh_with_empty_diff_is_up_to_date() {
    assert_eq!(refresh_step(RefreshEvent::Diffed { added: 0, removed: 0 }), RefreshAction::UpToDate);
}

#[test]
fn refresh_adds_before_removing() {
    assert_eq!(refresh_step(RefreshEvent::Diffed { added: 2, removed: 3 }), RefreshAction::AddRoutes);
    assert_eq!(refresh_step(RefreshEvent::Diffed { added: 0, removed: 3 }), RefreshAction::RemoveRoutes);
    assert_eq!(refresh_step(RefreshEvent::AddsDone { failed: 0, removed: 3 }), RefreshAction::RemoveRoutes);
    assert_eq!(refresh_step(RefreshEvent::AddsDone { failed: 0, removed: 0 }), RefreshAction::SaveState);
    assert_eq!(refresh_step(RefreshEvent::RemovesDone { failed: 0 }), RefreshAction::SaveState);
}

#[test]
fn refresh_failures_stop_without_saving() {
    assert_eq!(
        refresh_step(RefreshEvent::AddsDone { failed: 2, removed: 3 }),
        RefreshAction::Fail("failed to add 2 routes during route refresh".to_string())
    );
    assert_eq!(
        refresh_step(RefreshEvent::RemovesDone { failed: 13 }),
        RefreshAction::Fail("failed to remove 13 old routes during route refresh".to_string())
    );
}

#[test]
fn backend_apply_outcome_counts_routes_in_place() {
    let tally = RouteResult { added: 2, already_exists: 3, failed: 0, success_routes: Vec::new() };
    assert_eq!(SystemRouteBackend::apply_outcome(Ok(tally)), Ok(5));
    let tally = RouteResult { added: 2, already_exists: 3, failed: 1, success_routes: Vec::new() };
    assert_eq!(
        SystemRouteBackend::apply_outcome(Ok(tally)),
        Err(RouteBackendError::OperationFailed { operation: "add".to_string(), failed: 1 })
    );
    assert_eq!(
        SystemRouteBackend::apply_outcome(Err("no handle".to_string())),
        Err(RouteBackendError::Other("no handle".to_string()))
    );
}

#[test]
fn backend_remove_outcome_counts_routes_gone() {
    let tally = RemoveResult { removed: 4, not_found: 1, failed: 0 };
    assert_eq!(SystemRouteBackend::remove_outcome(Ok(tally)), Ok(5));
    let tally = RemoveResult { removed: 4, not_found: 1, failed: 2 };
    assert_eq!(
        SystemRouteBackend::remove_outcome(Ok(tally)),
        Err(RouteBackendError::OperationFailed { operation: "remove".to_string(), failed: 2 })
    );
}

#[test]
fn delete_outcomes() {
    assert_eq!(remove_outcome_of(None), RemoveOutcome::Failed);
    assert_eq!(remove_outcome_of(Some(true)), RemoveOutcome::Removed);
    assert_eq!(remove_outcome_of(Some(false)), RemoveOutcome::NotFound);
}

#[test]
fn network_wait_probes_until_the_deadline() {
    assert_eq!(network_wait_step(0, 30_000_000_000, 0), WaitStep::Probe { heartbeat: false });
    assert_eq!(network_wait_step(5_000_000_000, 30_000_000_000, 1_000), WaitStep::Probe { heartbeat: true });
    assert_eq!(
        network_wait_step(30_000_000_000, 30_000_000_000, 0),
        WaitStep::TimedOut("Network not ready within 30 seconds timeout".to_string())
    );
}

#[test]
fn network_wait_with_zero_timeout_times_out_at_once() {
    assert_eq!(network_wait_step(0, 0, 0), WaitStep::TimedOut("Network not ready within 0 seconds timeout".to_string()));
}

#[test]
fn refreshed_state_holds_each_new_route_once() {
    let routes: Vec<IpNetwork> = ["1.0.1.0/24", "10.0.0.0/8", "1.0.1.0/24"]
        .iter()
        .map(|t| IpNetwork::parse(t).unwrap())
        .collect();
    let state = State::refreshed_at("apnic".to_string(), 7, &routes, 42);
    assert_eq!(state.source, "apnic");
    assert_eq!(state.interface_index, 7);
    assert_eq!(state.updated_at, 42);
    let mut texts = state.routes.clone();
    texts.sort();
    assert_eq!(texts, vec!["1.0.1.0/24".to_string(), "10.0.0.0/8".to_string()]);
    let live = State::refreshed("apnic".to_string(), 7, &routes);
    assert_eq!(live.routes.len(), 2);
    assert!(live.updated_at > 0);
}

#[test]
fn add_tally_counts_every_route_and_keeps_order() {
    let routes: Vec<IpNetwork> = ["1.0.0.0/24", "2.0.0.0/24", "3.0.0.0/24", "4.0.0.0/24"]
        .iter()
        .map(|t| IpNetwork::parse(t).unwrap())
        .collect();
    let outcomes = [AddOutcome::AlreadyExists, AddOutcome::Failed, AddOutcome::Added, AddOutcome::Added];
    let tally = RouteResult::tally(&routes, &outcomes);
    assert_eq!((tally.added, tally.already_exists, tally.failed), (2, 1, 1));
    assert_eq!(tally.success_routes, vec![routes[0], routes[2], routes[3]]);
}

#[test]
fn remove_tally_counts_every_route() {
    let outcomes = [RemoveOutcome::NotFound, RemoveOutcome::Removed, RemoveOutcome::Failed, RemoveOutcome::Removed];
    assert_eq!(RemoveResult::tally(&outcomes), RemoveResult { removed: 2, not_found: 1, failed: 1 });
    assert_eq!(RemoveResult::tally(&[]), RemoveResult { removed: 0, not_found: 0, failed: 0 });
}

#[test]
fn bgp_cache_is_fresh_below_thirty_minutes() {
    let cache = BgpCache::new("/tmp/bgp-cache");
    assert!(cache.is_fresh_at(1_799_999_999_999));
    assert!(!cache.is_fresh_at(1_800_000_000_000));
    let zero = BgpCache::with_max_age("x", Duration::ZERO);
    assert!(!zero.is_fresh_at(0));
}
