use chnroutes::domain::policy::{DomainPolicy, DomainPolicyAction, DomainRule, DomainRuleMatcher, DomainRuleSource};
use chnroutes::domain::resolver::{DomainRecord, ResolveError};
use chnroutes::domain::runtime::{DomainRuntime, ResolveOutcome};
use chnroutes::net::IpAddress;

fn answer(domain: &str, generation: u64) -> DomainRecord {
    DomainRecord::new(
        domain,
        vec![IpAddress::parse("1.2.3.4").unwrap()],
        vec![IpAddress::parse("2001:db8::1").unwrap()],
        60,
        100,
        "test",
        generation,
    )
}

#[test]
fn resolution_flows_from_policy_to_state() {
    let mut policy = DomainPolicy::new(DomainPolicyAction::Direct);
    policy.add_rule(DomainRule::new(
        "proxy-example",
        DomainRuleMatcher::Suffix("example.com".into()),
        DomainPolicyAction::Proxy,
        100,
        DomainRuleSource::User,
    ));
    let mut runtime = DomainRuntime::new(policy, "test");

    let request = runtime.begin_resolution("WWW.Example.COM.");
    let record = answer(&request.domain, request.generation);
    let outcome = runtime.finish_resolution(&request, Ok(record)).unwrap();

    assert_eq!(outcome, ResolveOutcome::Accepted);
    let entry = runtime.state().get("www.example.com").unwrap();
    assert_eq!(entry.action, DomainPolicyAction::Proxy);
    assert_eq!(entry.generation, 1);
    assert_eq!(entry.intents.len(), 2);
    assert_eq!(*runtime.resolver(), "test");
}

#[test]
fn no_override_does_not_create_domain_intents() {
    let mut policy = DomainPolicy::new(DomainPolicyAction::Direct);
    policy.add_rule(DomainRule::new(
        "keep-default",
        DomainRuleMatcher::Exact("example.com".into()),
        DomainPolicyAction::NoOverride,
        100,
        DomainRuleSource::User,
    ));
    let mut runtime = DomainRuntime::new(policy, ());

    let request = runtime.begin_resolution("example.com");
    let record = answer(&request.domain, request.generation);
    let outcome = runtime.finish_resolution(&request, Ok(record)).unwrap();

    assert_eq!(outcome, ResolveOutcome::Accepted);
    assert!(runtime.state().get("example.com").unwrap().intents.is_empty());
}

#[test]
fn resolver_error_is_recorded_in_state() {
    let policy = DomainPolicy::new(DomainPolicyAction::Direct);
    let mut runtime = DomainRuntime::new(policy, ());

    let request = runtime.begin_resolution("example.com");
    let error = runtime.finish_resolution(&request, Err(ResolveError::Timeout)).unwrap_err();

    assert_eq!(error, ResolveError::Timeout);
    assert_eq!(
        runtime.state().get("example.com").unwrap().last_error.as_deref(),
        Some("DNS resolution timed out")
    );
}

#[test]
fn late_answer_of_an_older_request_is_stale() {
    let policy = DomainPolicy::new(DomainPolicyAction::Direct);
    let mut runtime = DomainRuntime::new(policy, ());

    let first = runtime.begin_resolution("example.com");
    let second = runtime.begin_resolution("example.com");
    assert_eq!(second.generation, first.generation + 1);

    let late = runtime.finish_resolution(&first, Ok(answer("example.com", first.generation))).unwrap();
    assert_eq!(late, ResolveOutcome::Stale);
    assert!(runtime.state().get("example.com").unwrap().record.is_none());

    let late_error = runtime.finish_resolution(&first, Err(ResolveError::ServFail));
    assert_eq!(late_error, Err(ResolveError::ServFail));
    assert!(runtime.state().get("example.com").unwrap().last_error.is_none());

    let current = runtime.finish_resolution(&second, Ok(answer("example.com", second.generation))).unwrap();
    assert_eq!(current, ResolveOutcome::Accepted);
    assert_eq!(runtime.desired_intents(150).len(), 2);
    assert!(runtime.desired_intents(160).is_empty());

    assert!(runtime.remove_domain("EXAMPLE.COM").is_some());
    assert!(runtime.state().is_empty());
}
