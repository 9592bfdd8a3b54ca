use chnroutes::domain::intent::{RouteIntent, RouteIntentAction, RouteIntentOwner};
use chnroutes::domain::backend::RouteBackendError;
use chnroutes::domain::reconcile::{
    action_key, build_plan, effective_intents, intent_key, owner_key, remove_applied_keys, ReconcileError, Reconciler,
};
use chnroutes::net::IpAddress;

fn intent(ip: &str, action: RouteIntentAction, owner: &str, generation: u64, expires_at: u64) -> RouteIntent {
    RouteIntent::from_ip(
        IpAddress::parse(ip).unwrap(),
        action,
        RouteIntentOwner::Domain(owner.into()),
        generation,
        expires_at,
    )
}

#[test]
fn empty_state_applies_desired_routes() {
    let plan = build_plan(&[intent("1.2.3.4", RouteIntentAction::Direct, "a.example", 1, 100)], &[], 50).unwrap();
    assert!(plan.remove.is_empty());
    assert_eq!(plan.apply.len(), 1);
}

#[test]
fn unchanged_route_produces_empty_plan() {
    let desired = vec![intent("1.2.3.4", RouteIntentAction::Direct, "a.example", 2, 200)];
    let applied = vec![intent("1.2.3.4", RouteIntentAction::Direct, "a.example", 1, 100)];
    let plan = build_plan(&desired, &applied, 50).unwrap();
    assert!(plan.is_empty());
}

#[test]
fn expired_desired_intent_is_not_applied() {
    let plan = build_plan(&[intent("1.2.3.4", RouteIntentAction::Direct, "a.example", 1, 100)], &[], 100).unwrap();
    assert!(plan.is_empty());
}

#[test]
fn expired_applied_intent_is_removed() {
    let plan = build_plan(&[], &[intent("1.2.3.4", RouteIntentAction::Direct, "a.example", 1, 100)], 100).unwrap();
    assert_eq!(plan.remove.len(), 1);
}

#[test]
fn two_domains_sharing_ip_are_one_backend_route() {
    let desired = vec![
        intent("1.2.3.4", RouteIntentAction::Direct, "a.example", 1, 100),
        intent("1.2.3.4", RouteIntentAction::Direct, "b.example", 2, 200),
    ];
    let effective = effective_intents(&desired, 50).unwrap();
    assert_eq!(effective.len(), 1);
    assert_eq!(effective[0].generation, 2);
    assert_eq!(effective[0].expires_at, 200);
}

#[test]
fn conflicting_actions_are_rejected() {
    let desired = vec![
        intent("1.2.3.4", RouteIntentAction::Direct, "a.example", 1, 100),
        intent("1.2.3.4", RouteIntentAction::Proxy, "b.example", 1, 100),
    ];
    assert!(matches!(effective_intents(&desired, 50), Err(ReconcileError::ConflictingActions { .. })));
}

#[test]
fn different_destinations_are_independent() {
    let desired = vec![
        intent("1.2.3.4", RouteIntentAction::Direct, "a.example", 1, 100),
        intent("5.6.7.8", RouteIntentAction::Direct, "b.example", 1, 100),
    ];
    let plan = build_plan(&desired, &[], 50).unwrap();
    assert_eq!(plan.apply.len(), 2);
}

#[test]
fn remove_and_apply_are_calculated_as_sets() {
    let desired = vec![intent("5.6.7.8", RouteIntentAction::Direct, "new.example", 2, 200)];
    let applied = vec![intent("1.2.3.4", RouteIntentAction::Direct, "old.example", 1, 100)];
    let plan = build_plan(&desired, &applied, 50).unwrap();
    assert_eq!(plan.remove.len(), 1);
    assert_eq!(plan.apply.len(), 1);
}

#[test]
fn merged_owner_is_the_first_domain_in_order() {
    let desired = vec![
        intent("1.2.3.4", RouteIntentAction::Direct, "z.example", 3, 100),
        intent("1.2.3.4", RouteIntentAction::Direct, "b.example", 1, 300),
    ];
    let effective = effective_intents(&desired, 50).unwrap();
    assert_eq!(effective.len(), 1);
    assert_eq!(effective[0].owner, RouteIntentOwner::Domain("b.example".into()));
    assert_eq!(effective[0].generation, 3);
    assert_eq!(effective[0].expires_at, 300);
}

#[test]
fn conflict_names_the_destination_and_both_actions() {
    let desired = vec![
        intent("9.9.9.9", RouteIntentAction::Direct, "x.example", 1, 100),
        intent("1.2.3.4", RouteIntentAction::Block, "a.example", 1, 100),
        intent("1.2.3.4", RouteIntentAction::Block, "c.example", 1, 100),
        intent("1.2.3.4", RouteIntentAction::Auto, "b.example", 1, 100),
    ];
    match effective_intents(&desired, 50) {
        Err(ReconcileError::ConflictingActions { destination, first, second }) => {
            assert_eq!(destination.to_text(), "1.2.3.4/32");
            assert_eq!(first, RouteIntentAction::Block);
            assert_eq!(second, RouteIntentAction::Auto);
        }
        other => panic!("unexpected result: {other:?}"),
    }
}

#[test]
fn expired_intents_do_not_conflict() {
    let desired = vec![
        intent("1.2.3.4", RouteIntentAction::Direct, "a.example", 1, 40),
        intent("1.2.3.4", RouteIntentAction::Proxy, "b.example", 1, 100),
    ];
    let effective = effective_intents(&desired, 50).unwrap();
    assert_eq!(effective.len(), 1);
    assert_eq!(effective[0].action, RouteIntentAction::Proxy);
}

#[test]
fn effective_intents_are_sorted_by_destination_text() {
    let desired = vec![
        intent("5.6.7.8", RouteIntentAction::Direct, "b.example", 1, 100),
        intent("10.0.0.1", RouteIntentAction::Direct, "c.example", 1, 100),
        intent("1.2.3.4", RouteIntentAction::Direct, "a.example", 1, 100),
    ];
    let effective = effective_intents(&desired, 50).unwrap();
    let texts: Vec<String> = effective.iter().map(|i| i.destination.to_text()).collect();
    assert_eq!(texts, vec!["1.2.3.4/32", "10.0.0.1/32", "5.6.7.8/32"]);
}

#[test]
fn reconciler_plans_then_commits() {
    let desired = vec![
        intent("1.2.3.4", RouteIntentAction::Direct, "a.example", 1, 100),
        intent("5.6.7.8", RouteIntentAction::Direct, "b.example", 1, 100),
    ];
    let mut reconciler = Reconciler::new("backend");
    assert_eq!(*reconciler.backend(), "backend");
    let plan = reconciler.plan(&desired, 50).unwrap();
    assert_eq!(plan.apply.len(), 2);
    reconciler.record_removed(&plan.remove);
    reconciler.commit(&desired, 50).unwrap();
    assert_eq!(reconciler.applied().len(), 2);
    assert!(reconciler.plan(&desired, 50).unwrap().is_empty());

    let smaller = vec![intent("5.6.7.8", RouteIntentAction::Direct, "b.example", 1, 100)];
    let plan = reconciler.plan(&smaller, 50).unwrap();
    assert_eq!(plan.remove.len(), 1);
    assert_eq!(plan.remove[0].destination.to_text(), "1.2.3.4/32");
    reconciler.record_removed(&plan.remove);
    assert_eq!(reconciler.applied().len(), 1);
}

#[test]
fn removing_applied_keys_ignores_owner() {
    let mut applied = vec![
        intent("1.2.3.4", RouteIntentAction::Direct, "a.example", 1, 100),
        intent("5.6.7.8", RouteIntentAction::Direct, "b.example", 1, 100),
    ];
    remove_applied_keys(&mut applied, &[intent("1.2.3.4", RouteIntentAction::Direct, "other.example", 9, 900)]);
    assert_eq!(applied.len(), 1);
    assert_eq!(applied[0].destination.to_text(), "5.6.7.8/32");
}

#[test]
fn reconcile_error_messages() {
    let desired = vec![
        intent("1.2.3.4", RouteIntentAction::Direct, "a.example", 1, 100),
        intent("1.2.3.4", RouteIntentAction::Proxy, "b.example", 1, 100),
    ];
    let error = effective_intents(&desired, 50).unwrap_err();
    assert_eq!(error.message(), "conflicting route actions for 1.2.3.4/32: Direct vs Proxy");
    let backend: ReconcileError = RouteBackendError::Other("down".to_string()).into();
    assert_eq!(backend, ReconcileError::Backend(RouteBackendError::Other("down".to_string())));
    assert_eq!(backend.message(), "route backend error: down");
}

#[test]
fn intent_keys_ignore_owner_and_times() {
    let a = intent("1.2.3.4", RouteIntentAction::Direct, "a.example", 1, 100);
    let b = intent("1.2.3.4", RouteIntentAction::Direct, "b.example", 7, 900);
    let c = intent("1.2.3.4", RouteIntentAction::Proxy, "a.example", 1, 100);
    assert_eq!(intent_key(&a), intent_key(&b));
    assert_ne!(intent_key(&a), intent_key(&c));
    assert_eq!(action_key(RouteIntentAction::Auto), "auto");
    assert_eq!(owner_key(&a.owner), "a.example");
}

#[test]
fn expired_applied_intent_does_not_conflict_with_a_live_one() {
    let applied = vec![
        intent("1.2.3.4", RouteIntentAction::Direct, "a.example", 1, 100),
        intent("1.2.3.4", RouteIntentAction::Proxy, "b.example", 1, 200),
    ];
    let plan = build_plan(&[], &applied, 100).unwrap();
    assert!(plan.apply.is_empty());
    assert_eq!(plan.remove.len(), 2);
    assert_eq!(plan.remove[0].action, RouteIntentAction::Proxy);
    assert_eq!(plan.remove[1].action, RouteIntentAction::Direct);
}

#[test]
fn live_applied_intents_still_conflict() {
    let applied = vec![
        intent("1.2.3.4", RouteIntentAction::Direct, "a.example", 1, 200),
        intent("1.2.3.4", RouteIntentAction::Proxy, "b.example", 1, 200),
    ];
    assert!(matches!(build_plan(&[], &applied, 100), Err(ReconcileError::ConflictingActions { .. })));
}

#[test]
fn expired_applied_intent_that_is_desired_again_is_reapplied() {
    let desired = vec![intent("1.2.3.4", RouteIntentAction::Direct, "a.example", 2, 300)];
    let applied = vec![
        intent("1.2.3.4", RouteIntentAction::Direct, "a.example", 1, 100),
        intent("1.2.3.4", RouteIntentAction::Direct, "b.example", 1, 90),
    ];
    let plan = build_plan(&desired, &applied, 100).unwrap();
    assert!(plan.remove.is_empty());
    assert_eq!(plan.apply.len(), 1);
    assert_eq!(plan.apply[0].expires_at, 300);
}
