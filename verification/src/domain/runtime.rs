//! Coordination of policy evaluation, resolution generations and state.
//!
//! Awaiting the resolver happens outside this module: `begin_resolution`
//! prepares a request, `finish_resolution` takes the resolver's answer.
use vstd::prelude::*;
use crate::domain::policy::{any_match, is_winner, normalize_domain, normalize_spec, DomainPolicy, DomainPolicyAction};
use crate::domain::resolver::{DomainRecord, ResolveError};
use crate::domain::state::{
    answered, begun, desired_spec, rejected, DomainState, DomainStateEntry, EntryView, ResolveStateError,
};
use crate::domain::intent::{intent_views, RouteIntent};
use crate::domain::resolver::resolve_error_text;

verus! {

/// Whether a resolver answer was taken or was stale.
#[derive(Clone, Copy, Debug, PartialEq, Eq, Structural)]
pub enum ResolveOutcome {
    Accepted,
    Stale,
}

/// The action that a new domain's entry takes: the action of the winning
/// rule (`NoOverride` included, so that such a domain claims no route), or
/// the default action when no rule matches.
pub open spec fn claimed_action(policy: DomainPolicy, domain: Seq<char>, action: DomainPolicyAction) -> bool {
    &&& !any_match(policy.spec_rules(), domain) ==> action == policy.spec_default_action()
    &&& forall|b: int| is_winner(policy.spec_rules(), domain, b) ==> policy.spec_rules()[b].action == action
}

/// A domain policy, a resolver and the domain state.
pub struct DomainRuntime<R> {
    policy: DomainPolicy,
    resolver: R,
    state: DomainState,
}

/// A resolution request: the normalized domain and its generation.
pub struct ResolveRequest {
    pub domain: String,
    pub generation: u64,
}

impl<R> DomainRuntime<R> {
    pub closed spec fn spec_policy(self) -> DomainPolicy {
        self.policy
    }

    pub closed spec fn spec_state(self) -> DomainState {
        self.state
    }

    pub closed spec fn spec_resolver(self) -> R {
        self.resolver
    }

    /// The state is well formed.
    pub open spec fn wf(self) -> bool {
        self.spec_state().wf()
    }

    /// A runtime with an empty state.
    pub fn new(policy: DomainPolicy, resolver: R) -> (r: DomainRuntime<R>)
        ensures
            r.wf(),
            r.spec_policy() == policy,
            r.spec_resolver() == resolver,
            r.spec_state().spec_entries() == Seq::<EntryView>::empty(),
    {
        DomainRuntime { policy, resolver, state: DomainState::new() }
    }

    pub fn policy(&self) -> (r: &DomainPolicy)
        ensures
            *r == self.spec_policy(),
    {
        &self.policy
    }

    pub fn policy_mut(&mut self) -> (r: &mut DomainPolicy)
        ensures
            *r == old(self).spec_policy(),
            final(self).spec_policy() == *final(r),
            final(self).spec_state() == old(self).spec_state(),
            final(self).spec_resolver() == old(self).spec_resolver(),
    {
        &mut self.policy
    }

    pub fn resolver(&self) -> (r: &R)
        ensures
            *r == self.spec_resolver(),
    {
        &self.resolver
    }

    pub fn state(&self) -> (r: &DomainState)
        ensures
            *r == self.spec_state(),
    {
        &self.state
    }

    pub fn state_mut(&mut self) -> (r: &mut DomainState)
        ensures
            *r == old(self).spec_state(),
            final(self).spec_state() == *final(r),
            final(self).spec_policy() == old(self).spec_policy(),
            final(self).spec_resolver() == old(self).spec_resolver(),
    {
        &mut self.state
    }

    /// The intents wanted at `now`.
    pub fn desired_intents(&self, now: u64) -> (r: Vec<RouteIntent>)
        ensures
            intent_views(r@) == desired_spec(self.spec_state().spec_entries(), now),
    {
        self.state.desired_intents(now)
    }

    /// Starts resolving a domain: the current policy picks its action, the
    /// domain's entry is created if needed, and its generation advances.
    /// The request names the normalized domain and the new generation.
    pub fn begin_resolution(&mut self, domain: &str) -> (req: ResolveRequest)
        requires
            old(self).wf(),
        ensures
            final(self).wf(),
            req.domain@ == normalize_spec(domain@),
            final(self).spec_policy() == old(self).spec_policy(),
            final(self).spec_resolver() == old(self).spec_resolver(),
            final(self).spec_state().has_key(normalize_spec(normalize_spec(domain@))),
            req.generation == final(self).spec_state().spec_entries()[final(self).spec_state().index_of(normalize_spec(normalize_spec(domain@)))].generation,
            !old(self).spec_state().has_key(normalize_spec(normalize_spec(domain@))) ==> claimed_action(
                old(self).spec_policy(),
                normalize_spec(normalize_spec(domain@)),
                final(self).spec_state().spec_entries()[final(self).spec_state().index_of(normalize_spec(normalize_spec(domain@)))].action,
            ),
            old(self).spec_state().has_key(normalize_spec(normalize_spec(domain@))) ==> {
                let i = old(self).spec_state().index_of(normalize_spec(normalize_spec(domain@)));
                &&& final(self).spec_state().spec_keys() == old(self).spec_state().spec_keys()
                &&& final(self).spec_state().spec_entries() == old(self).spec_state().spec_entries().update(
                    i,
                    begun(old(self).spec_state().spec_entries()[i]),
                )
            },
            !old(self).spec_state().has_key(normalize_spec(normalize_spec(domain@))) ==> {
                let n = old(self).spec_state().spec_entries().len();
                let fresh = final(self).spec_state().spec_entries()[n as int];
                &&& final(self).spec_state().spec_keys() == old(self).spec_state().spec_keys().push(normalize_spec(normalize_spec(domain@)))
                &&& final(self).spec_state().spec_entries() == old(self).spec_state().spec_entries().push(fresh)
                &&& fresh == begun(EntryView {
                    domain: normalize_spec(normalize_spec(normalize_spec(domain@))),
                    action: fresh.action,
                    generation: 0,
                    record: None,
                    intents: Seq::empty(),
                    last_error: None,
                })
            },
    {
        let normalized = normalize_domain(domain);
        let decision = self.policy.evaluate(normalized.as_str());
        let action = match &decision.matched_rule {
            Some(m) => if m.rule.action == DomainPolicyAction::NoOverride {
                DomainPolicyAction::NoOverride
            } else {
                decision.action
            },
            None => decision.action,
        };
        proof {
            let rules = self.policy.spec_rules();
            let d = normalize_spec(normalized@);
            if let Some(m) = decision.matched_rule {
                let b0 = choose|b: int| is_winner(rules, d, b) && *m.rule == rules[b];
                assert forall|b: int| is_winner(rules, d, b) implies rules[b].action == action by {
                    if b < b0 {
                        assert(!crate::domain::policy::outranks(rules[b], rules[b0]));
                    } else if b0 < b {
                        assert(!crate::domain::policy::outranks(rules[b0], rules[b]));
                    }
                }
            }
            assert(claimed_action(self.policy, d, action));
        }
        let ghost old_state = self.state;
        let ghost key = normalize_spec(normalized@);
        let ghost existed = old_state.has_key(key);
        let ghost idx = if existed { old_state.index_of(key) } else { old_state.spec_keys().len() as int };
        proof {
            old_state.lemma_wf_lengths();
        }
        let entry = self.state.upsert(normalized.as_str(), action);
        let generation = entry.begin_resolution();
        proof {
            self.state.lemma_wf_lengths();
            if existed {
                assert(old_state.spec_keys()[idx] == key);
            }
            assert(self.state.spec_keys()[idx] == key);
            self.state.lemma_index_of_unique(key, idx);
        }
        ResolveRequest { domain: normalized, generation }
    }

    /// Takes the resolver's answer to `req`. An answer is accepted only if
    /// it carries the entry's current generation; an error is recorded only
    /// if `req` is still the entry's current request.
    pub fn finish_resolution(
        &mut self,
        req: &ResolveRequest,
        result: Result<DomainRecord, ResolveError>,
    ) -> (r: Result<ResolveOutcome, ResolveError>)
        requires
            old(self).wf(),
            old(self).spec_state().has_key(normalize_spec(req.domain@)),
        ensures
            final(self).wf(),
            final(self).spec_policy() == old(self).spec_policy(),
            final(self).spec_resolver() == old(self).spec_resolver(),
            final(self).spec_state().spec_keys() == old(self).spec_state().spec_keys(),
            ({
                let i = old(self).spec_state().index_of(normalize_spec(req.domain@));
                let e = old(self).spec_state().spec_entries()[i];
                match result {
                    Ok(record) => {
                        &&& r == Ok::<ResolveOutcome, ResolveError>(
                            if record.generation == e.generation { ResolveOutcome::Accepted } else { ResolveOutcome::Stale },
                        )
                        &&& final(self).spec_state().spec_entries() == old(self).spec_state().spec_entries().update(
                            i,
                            answered(e, record@),
                        )
                    },
                    Err(error) => {
                        &&& r == Err::<ResolveOutcome, ResolveError>(error)
                        &&& final(self).spec_state().spec_entries() == old(self).spec_state().spec_entries().update(
                            i,
                            rejected(e, req.generation, resolve_error_text(error)),
                        )
                    },
                }
            }),
    {
        proof {
            self.state.lemma_wf_lengths();
        }
        match result {
            Ok(record) => {
                let entry_opt = self.state.get_mut(req.domain.as_str());
                match entry_opt {
                    Some(entry) => {
                        if entry.accept_record(record) {
                            Ok(ResolveOutcome::Accepted)
                        } else {
                            Ok(ResolveOutcome::Stale)
                        }
                    },
                    None => {
                        proof {
                            assert(false);
                        }
                        Ok(ResolveOutcome::Stale)
                    },
                }
            },
            Err(error) => {
                let state_error = ResolveStateError::from_resolve_error(&error);
                let entry_opt = self.state.get_mut(req.domain.as_str());
                match entry_opt {
                    Some(entry) => {
                        entry.reject_record(req.generation, state_error);
                    },
                    None => {
                        proof {
                            assert(false);
                        }
                    },
                }
                Err(error)
            },
        }
    }

    /// Removes a domain from the state.
    pub fn remove_domain(&mut self, domain: &str) -> (r: Option<DomainStateEntry>)
        requires
            old(self).wf(),
        ensures
            final(self).wf(),
            final(self).spec_policy() == old(self).spec_policy(),
            final(self).spec_resolver() == old(self).spec_resolver(),
            match r {
                Some(e) => old(self).spec_state().has_key(normalize_spec(domain@))
                    && e@ == old(self).spec_state().spec_entries()[old(self).spec_state().index_of(normalize_spec(domain@))]
                    && final(self).spec_state().spec_entries() == old(self).spec_state().spec_entries().remove(
                        old(self).spec_state().index_of(normalize_spec(domain@)),
                    ),
                None => !old(self).spec_state().has_key(normalize_spec(domain@))
                    && final(self).spec_state().spec_entries() == old(self).spec_state().spec_entries(),
            },
    {
        self.state.remove(domain)
    }
}

} // verus!
