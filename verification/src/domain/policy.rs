//! Deterministic domain policy rules and their evaluation.
//!
//! Nothing here touches DNS, route tables or proxies: a domain name goes in,
//! a policy decision comes out.
use vstd::prelude::*;
use crate::text::{
    lemma_seq_lt_irreflexive, lemma_seq_lt_total, lemma_seq_lt_transitive,
    chars_contains, chars_ends_with, chars_eq, chars_lt, contains_seq, ends_with, lower_chars, lower_seq, seq_lt,
    str_chars, trim, trim_chars, trim_end_char, trim_end_char_chars, vec_to_string,
};

verus! {

/// The action requested by a domain policy. Backends decide how an action
/// is enforced.
#[derive(Clone, Copy, Debug, PartialEq, Eq, Hash, Structural)]
pub enum DomainPolicyAction {
    Direct,
    Proxy,
    Auto,
    Block,
    /// Keep the result produced by the default policy unchanged.
    NoOverride,
}

/// The matcher of a domain rule.
#[derive(Clone, Debug, PartialEq, Eq)]
pub enum DomainRuleMatcher {
    Exact(String),
    Suffix(String),
    Keyword(String),
}

/// Where a rule came from.
#[derive(Clone, Debug, PartialEq, Eq)]
pub enum DomainRuleSource {
    User,
    BuiltIn,
    RuleSet(String),
}

/// A single deterministic domain policy rule.
#[derive(Clone, Debug, PartialEq, Eq)]
pub struct DomainRule {
    /// Stable rule identifier, the final tie-breaker between rules.
    pub id: String,
    pub matcher: DomainRuleMatcher,
    pub action: DomainPolicyAction,
    /// Larger values are evaluated first.
    pub priority: i32,
    pub enabled: bool,
    pub source: DomainRuleSource,
}

/// A matched rule and the domain it was matched against.
#[derive(Clone, Debug)]
pub struct DomainRuleMatch<'a> {
    pub rule: &'a DomainRule,
    pub normalized_domain: String,
}

/// The result of policy evaluation.
#[derive(Clone, Debug)]
pub struct DomainPolicyDecision<'a> {
    pub action: DomainPolicyAction,
    pub matched_rule: Option<DomainRuleMatch<'a>>,
    pub reason: String,
}

/// A collection of domain rules with a deterministic evaluation order.
#[derive(Clone, Debug)]
pub struct DomainPolicy {
    rules: Vec<DomainRule>,
    default_action: DomainPolicyAction,
}

/// A domain name as the policy compares it: trimmed, without trailing
/// dots, ASCII lower-case.
pub open spec fn normalize_spec(domain: Seq<char>) -> Seq<char> {
    lower_seq(trim_end_char(trim(domain), '.'))
}

/// Normalizes a DNS-style domain name for policy matching (no IDNA).
pub fn normalize_domain(domain: &str) -> (r: String)
    ensures
        r@ == normalize_spec(domain@),
{
    let v = str_chars(domain);
    let t = trim_chars(&v);
    let u = trim_end_char_chars(&t, '.');
    let l = lower_chars(&u);
    vec_to_string(&l)
}

fn normalize_chars(domain: &Vec<char>) -> (r: Vec<char>)
    ensures
        r@ == normalize_spec(domain@),
{
    let t = trim_chars(domain);
    let u = trim_end_char_chars(&t, '.');
    lower_chars(&u)
}

impl DomainRuleMatcher {
    pub open spec fn value(self) -> Seq<char> {
        match self {
            DomainRuleMatcher::Exact(v) => v@,
            DomainRuleMatcher::Suffix(v) => v@,
            DomainRuleMatcher::Keyword(v) => v@,
        }
    }

    /// Whether the matcher matches `domain`; both sides are normalized and
    /// an empty side never matches.
    pub open spec fn spec_matches(self, domain: Seq<char>) -> bool {
        let d = normalize_spec(domain);
        let v = normalize_spec(self.value());
        if v.len() == 0 || d.len() == 0 {
            false
        } else {
            match self {
                DomainRuleMatcher::Exact(_) => d == v,
                DomainRuleMatcher::Suffix(_) => d == v || ends_with(d, seq!['.'] + v),
                DomainRuleMatcher::Keyword(_) => contains_seq(d, v),
            }
        }
    }

    pub open spec fn spec_specificity(self) -> u8 {
        match self {
            DomainRuleMatcher::Exact(_) => 3,
            DomainRuleMatcher::Suffix(_) => 2,
            DomainRuleMatcher::Keyword(_) => 1,
        }
    }

    fn value_chars(&self) -> (r: Vec<char>)
        ensures
            r@ == self.value(),
    {
        match self {
            DomainRuleMatcher::Exact(v) => str_chars(v.as_str()),
            DomainRuleMatcher::Suffix(v) => str_chars(v.as_str()),
            DomainRuleMatcher::Keyword(v) => str_chars(v.as_str()),
        }
    }

    /// The normalized matcher value.
    pub fn normalized_value(&self) -> (r: String)
        ensures
            r@ == normalize_spec(self.value()),
    {
        let v = self.value_chars();
        let n = normalize_chars(&v);
        vec_to_string(&n)
    }

    fn matches_chars(&self, domain: &Vec<char>) -> (b: bool)
        ensures
            b == self.spec_matches(domain@),
    {
        let d = normalize_chars(domain);
        let raw = self.value_chars();
        let v = normalize_chars(&raw);
        if v.len() == 0 || d.len() == 0 {
            return false;
        }
        match self {
            DomainRuleMatcher::Exact(_) => chars_eq(&d, &v),
            DomainRuleMatcher::Suffix(_) => {
                if chars_eq(&d, &v) {
                    true
                } else {
                    let mut dotted: Vec<char> = Vec::new();
                    dotted.push('.');
                    let mut i: usize = 0;
                    while i < v.len()
                        invariant
                            i <= v.len(),
                            dotted@ == seq!['.'] + v@.take(i as int),
                        decreases v.len() - i,
                    {
                        dotted.push(v[i]);
                        i += 1;
                        assert(dotted@ =~= seq!['.'] + v@.take(i as int));
                    }
                    assert(v@.take(v@.len() as int) =~= v@);
                    chars_ends_with(&d, &dotted)
                }
            },
            DomainRuleMatcher::Keyword(_) => chars_contains(&d, &v),
        }
    }

    /// Whether the matcher matches `domain`.
    pub fn matches(&self, domain: &str) -> (b: bool)
        ensures
            b == self.spec_matches(domain@),
    {
        let d = str_chars(domain);
        self.matches_chars(&d)
    }

    /// Exact matchers are the most specific, keywords the least.
    pub fn specificity(&self) -> (r: u8)
        ensures
            r == self.spec_specificity(),
    {
        match self {
            DomainRuleMatcher::Exact(_) => 3,
            DomainRuleMatcher::Suffix(_) => 2,
            DomainRuleMatcher::Keyword(_) => 1,
        }
    }
}

/// The rule is enabled and its matcher matches `domain`.
pub open spec fn rule_matches(rule: DomainRule, domain: Seq<char>) -> bool {
    rule.enabled && rule.matcher.spec_matches(domain)
}

/// `a` wins over `b`: higher priority, then a more specific matcher, then
/// the larger rule id.
pub open spec fn outranks(a: DomainRule, b: DomainRule) -> bool {
    ||| a.priority > b.priority
    ||| a.priority == b.priority && a.matcher.spec_specificity() > b.matcher.spec_specificity()
    ||| a.priority == b.priority && a.matcher.spec_specificity() == b.matcher.spec_specificity()
        && seq_lt(b.id@, a.id@)
}

/// The reason text of a decision.
pub open spec fn reason_text(matched: Option<DomainRule>) -> Seq<char> {
    match matched {
        None => "no rule matched; using default action"@,
        Some(rule) => if rule.action == DomainPolicyAction::NoOverride {
            "rule '"@ + rule.id@ + "' matched with NoOverride; using default action"@
        } else {
            "rule '"@ + rule.id@ + "' matched"@
        },
    }
}

impl DomainRule {
    /// A new enabled rule.
    pub fn new(
        id: &str,
        matcher: DomainRuleMatcher,
        action: DomainPolicyAction,
        priority: i32,
        source: DomainRuleSource,
    ) -> (r: DomainRule)
        ensures
            r.id@ == id@,
            r.matcher == matcher,
            r.action == action,
            r.priority == priority,
            r.enabled,
            r.source == source,
    {
        DomainRule { id: String::from_str(id), matcher, action, priority, enabled: true, source }
    }

    /// The same rule, disabled.
    pub fn disabled(self) -> (r: DomainRule)
        ensures
            r == (DomainRule { enabled: false, ..self }),
    {
        let mut r = self;
        r.enabled = false;
        r
    }

    /// Whether the rule is enabled and matches `domain`.
    pub fn matches(&self, domain: &str) -> (b: bool)
        ensures
            b == rule_matches(*self, domain@),
    {
        self.enabled && self.matcher.matches(domain)
    }

    fn matches_chars(&self, domain: &Vec<char>) -> (b: bool)
        ensures
            b == rule_matches(*self, domain@),
    {
        self.enabled && self.matcher.matches_chars(domain)
    }
}


/// Two rules have the same ranking key: priority, specificity and id.
pub open spec fn same_rank(a: DomainRule, b: DomainRule) -> bool {
    a.priority == b.priority && a.matcher.spec_specificity() == b.matcher.spec_specificity()
        && a.id@ == b.id@
}

/// `outranks` is irreflexive.
pub proof fn lemma_outranks_irreflexive(a: DomainRule)
    ensures
        !outranks(a, a),
{
    lemma_seq_lt_irreflexive(a.id@);
}

/// `outranks` is transitive.
pub proof fn lemma_outranks_transitive(a: DomainRule, b: DomainRule, c: DomainRule)
    requires
        outranks(a, b),
        outranks(b, c),
    ensures
        outranks(a, c),
{
    if a.priority == b.priority && b.priority == c.priority && a.matcher.spec_specificity()
        == b.matcher.spec_specificity() && b.matcher.spec_specificity()
        == c.matcher.spec_specificity() {
        lemma_seq_lt_transitive(c.id@, b.id@, a.id@);
    }
}

/// Any two rules either have the same rank or one outranks the other.
pub proof fn lemma_outranks_total(a: DomainRule, b: DomainRule)
    ensures
        same_rank(a, b) || outranks(a, b) || outranks(b, a),
{
    if a.id@ != b.id@ {
        lemma_seq_lt_total(a.id@, b.id@);
    }
}

/// `outranks` is asymmetric.
pub proof fn lemma_outranks_asymmetric(a: DomainRule, b: DomainRule)
    requires
        outranks(a, b),
    ensures
        !outranks(b, a),
{
    if outranks(b, a) {
        lemma_outranks_transitive(a, b, a);
        lemma_outranks_irreflexive(a);
    }
}

/// A rule that nothing ranked below `b` outranks is not outranked by what
/// `b` does not outrank either.
proof fn lemma_not_outranks_transitive(a: DomainRule, b: DomainRule, c: DomainRule)
    requires
        !outranks(a, b),
        !outranks(b, c),
    ensures
        !outranks(a, c),
{
    lemma_outranks_total(a, b);
    lemma_outranks_total(b, c);
    if outranks(a, c) {
        if outranks(b, a) {
            lemma_outranks_transitive(b, a, c);
        } else {
            assert(same_rank(a, b));
            if outranks(c, b) {
                lemma_outranks_transitive(a, c, b);
            } else {
                assert(same_rank(b, c));
                lemma_outranks_irreflexive(a);
            }
        }
    }
}

/// The winning rule among `rules` for a normalized domain: it matches, no
/// matching rule outranks it, and every matching rule after it ranks
/// strictly lower (of rules with the same rank, the last one wins).
pub open spec fn is_winner(rules: Seq<DomainRule>, domain: Seq<char>, b: int) -> bool {
    &&& 0 <= b < rules.len()
    &&& rule_matches(rules[b], domain)
    &&& forall|j: int| 0 <= j < rules.len() && rule_matches(rules[j], domain) ==> !outranks(#[trigger] rules[j], rules[b])
    &&& forall|j: int| b < j < rules.len() && rule_matches(rules[j], domain) ==> outranks(rules[b], #[trigger] rules[j])
}

/// Some rule matches the normalized domain.
pub open spec fn any_match(rules: Seq<DomainRule>, domain: Seq<char>) -> bool {
    exists|j: int| 0 <= j < rules.len() && rule_matches(#[trigger] rules[j], domain)
}

impl DomainPolicy {
    pub closed spec fn spec_rules(self) -> Seq<DomainRule> {
        self.rules@
    }

    pub closed spec fn spec_default_action(self) -> DomainPolicyAction {
        self.default_action
    }

    /// An empty policy with the given default action.
    pub fn new(default_action: DomainPolicyAction) -> (r: DomainPolicy)
        ensures
            r.spec_rules() == Seq::<DomainRule>::empty(),
            r.spec_default_action() == default_action,
    {
        DomainPolicy { rules: Vec::new(), default_action }
    }

    /// The rules in insertion order.
    pub fn rules(&self) -> (r: &[DomainRule])
        ensures
            r@ == self.spec_rules(),
    {
        self.rules.as_slice()
    }

    pub fn default_action(&self) -> (r: DomainPolicyAction)
        ensures
            r == self.spec_default_action(),
    {
        self.default_action
    }

    /// Appends a rule.
    pub fn add_rule(&mut self, rule: DomainRule)
        ensures
            final(self).spec_rules() == old(self).spec_rules().push(rule),
            final(self).spec_default_action() == old(self).spec_default_action(),
    {
        self.rules.push(rule);
    }

    /// The index of the winning rule for an already normalized domain.
    fn winner(&self, domain: &Vec<char>) -> (r: Option<usize>)
        ensures
            match r {
                None => !any_match(self.rules@, domain@),
                Some(b) => is_winner(self.rules@, domain@, b as int),
            },
    {
        let mut best: Option<usize> = None;
        let mut i: usize = 0;
        while i < self.rules.len()
            invariant
                i <= self.rules.len(),
                best is None ==> forall|j: int| 0 <= j < i ==> !rule_matches(#[trigger] self.rules@[j], domain@),
                best is Some ==> best->0 < i,
                best is Some ==> rule_matches(self.rules@[best->0 as int], domain@),
                best is Some ==> forall|j: int| 0 <= j < i && rule_matches(self.rules@[j], domain@) ==> !outranks(#[trigger] self.rules@[j], self.rules@[best->0 as int]),
                best is Some ==> forall|j: int| best->0 < j < i && rule_matches(self.rules@[j], domain@) ==> outranks(self.rules@[best->0 as int], #[trigger] self.rules@[j]),
            decreases self.rules.len() - i,
        {
            let m = self.rules[i].matches_chars(domain);
            assert(m == rule_matches(self.rules@[i as int], domain@));
            if m {
                match best {
                    None => {
                        proof {
                            lemma_outranks_irreflexive(self.rules@[i as int]);
                        }
                        best = Some(i);
                    },
                    Some(b) => {
                        if !self.outranks_at(b, i) {
                            proof {
                                let rb = self.rules@[b as int];
                                let ri = self.rules@[i as int];
                                assert forall|j: int| 0 <= j < i + 1 && rule_matches(self.rules@[j], domain@) implies !outranks(#[trigger] self.rules@[j], ri) by {
                                    if j < i {
                                        lemma_not_outranks_transitive(self.rules@[j], rb, ri);
                                    } else {
                                        lemma_outranks_irreflexive(ri);
                                    }
                                }
                            }
                            best = Some(i);
                        } else {
                            proof {
                                lemma_outranks_asymmetric(self.rules@[b as int], self.rules@[i as int]);
                            }
                        }
                    },
                }
            }
            i += 1;
        }
        best
    }

    /// Whether rule `a` outranks rule `b`.
    fn outranks_at(&self, a: usize, b: usize) -> (r: bool)
        requires
            a < self.rules.len(),
            b < self.rules.len(),
        ensures
            r == outranks(self.rules@[a as int], self.rules@[b as int]),
    {
        let ra = &self.rules[a];
        let rb = &self.rules[b];
        if ra.priority > rb.priority {
            return true;
        }
        if ra.priority < rb.priority {
            return false;
        }
        let sa = ra.matcher.specificity();
        let sb = rb.matcher.specificity();
        if sa > sb {
            return true;
        }
        if sa < sb {
            return false;
        }
        let ia = str_chars(ra.id.as_str());
        let ib = str_chars(rb.id.as_str());
        chars_lt(&ib, &ia)
    }

    /// Evaluates the policy for a domain. The winning rule is the matching
    /// rule with the highest priority, then the most specific matcher, then
    /// the largest id; `NoOverride` and no match give the default action.
    pub fn evaluate(&self, domain: &str) -> (d: DomainPolicyDecision<'_>)
        ensures
            match d.matched_rule {
                None => !any_match(self.spec_rules(), normalize_spec(domain@)),
                Some(m) => {
                    &&& m.normalized_domain@ == normalize_spec(domain@)
                    &&& exists|b: int| is_winner(self.spec_rules(), normalize_spec(domain@), b) && *m.rule == self.spec_rules()[b]
                },
            },
            d.action == match d.matched_rule {
                Some(m) => if m.rule.action == DomainPolicyAction::NoOverride {
                    self.spec_default_action()
                } else {
                    m.rule.action
                },
                None => self.spec_default_action(),
            },
            d.reason@ == reason_text(match d.matched_rule {
                Some(m) => Some(*m.rule),
                None => None,
            }),
    {
        let normalized = normalize_domain(domain);
        let nchars = str_chars(normalized.as_str());
        assert(nchars@ == normalize_spec(domain@));
        match self.winner(&nchars) {
            None => {
                assert(!any_match(self.spec_rules(), normalize_spec(domain@)));
                let reason = String::from_str("no rule matched; using default action");
                DomainPolicyDecision { action: self.default_action, matched_rule: None, reason }
            },
            Some(b) => {
                let rule = &self.rules[b];
                assert(is_winner(self.spec_rules(), normalize_spec(domain@), b as int));
                let mut reason = String::from_str("rule '");
                reason.append(rule.id.as_str());
                if rule.action == DomainPolicyAction::NoOverride {
                    reason.append("' matched with NoOverride; using default action");
                    DomainPolicyDecision {
                        action: self.default_action,
                        matched_rule: Some(DomainRuleMatch { rule, normalized_domain: normalized }),
                        reason,
                    }
                } else {
                    reason.append("' matched");
                    DomainPolicyDecision {
                        action: rule.action,
                        matched_rule: Some(DomainRuleMatch { rule, normalized_domain: normalized }),
                        reason,
                    }
                }
            },
        }
    }
}


/// No two rules share an id.
pub open spec fn distinct_ids(rules: Seq<DomainRule>) -> bool {
    forall|i: int, j: int| 0 <= i < j < rules.len() ==> #[trigger] rules[i].id@ != #[trigger] rules[j].id@
}

/// The winner is independent of the order in which rules were added:
/// two rule lists with the same rules and distinct ids match the same
/// domains and select the same rule.
pub proof fn lemma_winner_order_independent(
    r1: Seq<DomainRule>,
    r2: Seq<DomainRule>,
    domain: Seq<char>,
    b1: int,
    b2: int,
)
    requires
        r1.to_multiset() == r2.to_multiset(),
        distinct_ids(r1),
        is_winner(r1, domain, b1),
        is_winner(r2, domain, b2),
    ensures
        r1[b1] == r2[b2],
{
    broadcast use vstd::seq_lib::group_to_multiset_ensures;
    let w1 = r1[b1];
    let w2 = r2[b2];
    assert(r1.contains(w1));
    assert(r1.to_multiset().count(w1) > 0);
    assert(r2.contains(w1));
    let k = choose|k: int| 0 <= k < r2.len() && r2[k] == w1;
    assert(r2.contains(w2));
    assert(r2.to_multiset().count(w2) > 0);
    assert(r1.contains(w2));
    let m = choose|m: int| 0 <= m < r1.len() && r1[m] == w2;
    assert(!outranks(r1[m], r1[b1]));
    assert(!outranks(r2[k], r2[b2]));
    lemma_outranks_total(w1, w2);
    assert(same_rank(w1, w2));
    if m != b1 {
        if m < b1 {
            assert(r1[m].id@ != r1[b1].id@);
        } else {
            assert(r1[b1].id@ != r1[m].id@);
        }
    }
}

/// Whether some rule matches does not depend on the order of the rules.
pub proof fn lemma_any_match_order_independent(
    r1: Seq<DomainRule>,
    r2: Seq<DomainRule>,
    domain: Seq<char>,
)
    requires
        r1.to_multiset() == r2.to_multiset(),
    ensures
        any_match(r1, domain) == any_match(r2, domain),
{
    broadcast use vstd::seq_lib::group_to_multiset_ensures;
    if any_match(r1, domain) {
        let j = choose|j: int| 0 <= j < r1.len() && rule_matches(#[trigger] r1[j], domain);
        assert(r1.contains(r1[j]));
        assert(r1.to_multiset().count(r1[j]) > 0);
        assert(r2.contains(r1[j]));
        let k = choose|k: int| 0 <= k < r2.len() && r2[k] == r1[j];
        assert(rule_matches(r2[k], domain));
    }
    if any_match(r2, domain) {
        let j = choose|j: int| 0 <= j < r2.len() && rule_matches(#[trigger] r2[j], domain);
        assert(r2.contains(r2[j]));
        assert(r2.to_multiset().count(r2[j]) > 0);
        assert(r1.contains(r2[j]));
        let k = choose|k: int| 0 <= k < r1.len() && r1[k] == r2[j];
        assert(rule_matches(r1[k], domain));
    }
}

} // verus!
