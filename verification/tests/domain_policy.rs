use chnroutes::domain::policy::{
    normalize_domain, DomainPolicy, DomainPolicyAction, DomainRule, DomainRuleMatcher, DomainRuleSource,
};

fn rule(id: &str, matcher: DomainRuleMatcher, action: DomainPolicyAction, priority: i32) -> DomainRule {
    DomainRule::new(id, matcher, action, priority, DomainRuleSource::User)
}

#[test]
fn normalizes_domain_case_and_trailing_dot() {
    assert_eq!(normalize_domain("  WWW.Example.COM. "), "www.example.com");
}

#[test]
fn exact_match_is_case_insensitive() {
    let matcher = DomainRuleMatcher::Exact("Example.COM".into());
    assert!(matcher.matches("example.com."));
    assert!(!matcher.matches("www.example.com"));
}

#[test]
fn suffix_match_respects_dns_label_boundary() {
    let matcher = DomainRuleMatcher::Suffix("example.com".into());
    assert!(matcher.matches("example.com"));
    assert!(matcher.matches("www.example.com"));
    assert!(!matcher.matches("notexample.com"));
}

#[test]
fn keyword_match_is_substring_match() {
    let matcher = DomainRuleMatcher::Keyword("google".into());
    assert!(matcher.matches("www.google.com"));
    assert!(matcher.matches("googlevideo.example"));
    assert!(!matcher.matches("example.com"));
}

#[test]
fn disabled_rule_is_ignored() {
    let rule = rule(
        "blocked",
        DomainRuleMatcher::Exact("example.com".into()),
        DomainPolicyAction::Block,
        100,
    )
    .disabled();
    assert!(!rule.matches("example.com"));
}

#[test]
fn higher_priority_wins() {
    let mut policy = DomainPolicy::new(DomainPolicyAction::Direct);
    policy.add_rule(rule("low", DomainRuleMatcher::Suffix("example.com".into()), DomainPolicyAction::Proxy, 10));
    policy.add_rule(rule("high", DomainRuleMatcher::Exact("www.example.com".into()), DomainPolicyAction::Direct, 20));

    let decision = policy.evaluate("WWW.EXAMPLE.COM.");
    assert_eq!(decision.action, DomainPolicyAction::Direct);
    assert_eq!(decision.matched_rule.unwrap().rule.id, "high");
}

#[test]
fn specificity_breaks_priority_ties() {
    let mut policy = DomainPolicy::new(DomainPolicyAction::Direct);
    policy.add_rule(rule("keyword", DomainRuleMatcher::Keyword("example".into()), DomainPolicyAction::Block, 10));
    policy.add_rule(rule("suffix", DomainRuleMatcher::Suffix("example.com".into()), DomainPolicyAction::Proxy, 10));

    let decision = policy.evaluate("www.example.com");
    assert_eq!(decision.action, DomainPolicyAction::Proxy);
    assert_eq!(decision.matched_rule.unwrap().rule.id, "suffix");
}

#[test]
fn rule_id_breaks_complete_ties() {
    let mut policy = DomainPolicy::new(DomainPolicyAction::Direct);
    policy.add_rule(rule("z-rule", DomainRuleMatcher::Suffix("example.com".into()), DomainPolicyAction::Block, 10));
    policy.add_rule(rule("a-rule", DomainRuleMatcher::Suffix("example.com".into()), DomainPolicyAction::Proxy, 10));

    let decision = policy.evaluate("example.com");
    assert_eq!(decision.action, DomainPolicyAction::Block);
    assert_eq!(decision.matched_rule.unwrap().rule.id, "z-rule");
}

#[test]
fn no_override_falls_back_to_default() {
    let mut policy = DomainPolicy::new(DomainPolicyAction::Proxy);
    policy.add_rule(rule(
        "keep-default",
        DomainRuleMatcher::Exact("example.com".into()),
        DomainPolicyAction::NoOverride,
        100,
    ));

    let decision = policy.evaluate("example.com");
    assert_eq!(decision.action, DomainPolicyAction::Proxy);
    assert!(decision.reason.contains("NoOverride"));
}

#[test]
fn no_match_uses_default() {
    let policy = DomainPolicy::new(DomainPolicyAction::Direct);
    let decision = policy.evaluate("example.com");
    assert_eq!(decision.action, DomainPolicyAction::Direct);
    assert!(decision.matched_rule.is_none());
}

#[test]
fn rule_order_does_not_change_the_winner() {
    let mut forward = DomainPolicy::new(DomainPolicyAction::Direct);
    forward.add_rule(rule("a", DomainRuleMatcher::Keyword("example".into()), DomainPolicyAction::Block, 5));
    forward.add_rule(rule("b", DomainRuleMatcher::Suffix("example.com".into()), DomainPolicyAction::Proxy, 5));
    forward.add_rule(rule("c", DomainRuleMatcher::Exact("www.example.com".into()), DomainPolicyAction::Auto, 1));

    let mut backward = DomainPolicy::new(DomainPolicyAction::Direct);
    backward.add_rule(rule("c", DomainRuleMatcher::Exact("www.example.com".into()), DomainPolicyAction::Auto, 1));
    backward.add_rule(rule("b", DomainRuleMatcher::Suffix("example.com".into()), DomainPolicyAction::Proxy, 5));
    backward.add_rule(rule("a", DomainRuleMatcher::Keyword("example".into()), DomainPolicyAction::Block, 5));

    let f = forward.evaluate("www.example.com");
    let b = backward.evaluate("www.example.com");
    assert_eq!(f.action, DomainPolicyAction::Proxy);
    assert_eq!(f.action, b.action);
    assert_eq!(f.matched_rule.unwrap().rule.id, b.matched_rule.unwrap().rule.id);
}

#[test]
fn matcher_specificity_orders_exact_suffix_keyword() {
    assert!(DomainRuleMatcher::Exact("a".into()).specificity() > DomainRuleMatcher::Suffix("a".into()).specificity());
    assert!(DomainRuleMatcher::Suffix("a".into()).specificity() > DomainRuleMatcher::Keyword("a".into()).specificity());
    assert_eq!(DomainRuleMatcher::Suffix(" Example.COM. ".into()).normalized_value(), "example.com");
}
