//! Route intents: the desired routing state produced by the domain layer.
use vstd::prelude::*;
use crate::clock::unix_now;
use crate::domain::policy::DomainPolicyAction;
use crate::net::{IpAddress, IpNetwork};

verus! {

/// The enforcement action requested for an IP route intent.
#[derive(Clone, Copy, Debug, PartialEq, Eq, Hash, Structural)]
pub enum RouteIntentAction {
    Direct,
    Proxy,
    Auto,
    Block,
}

/// The owner of an intent: the same IP may be wanted by several domains.
#[derive(Clone, Debug, PartialEq, Eq, Hash)]
pub enum RouteIntentOwner {
    Domain(String),
}

/// A desired route: a destination network, an action, its owner, the
/// resolution generation it came from and when it expires (Unix seconds).
#[derive(Clone, Debug, PartialEq, Eq, Hash)]
pub struct RouteIntent {
    pub destination: IpNetwork,
    pub action: RouteIntentAction,
    pub owner: RouteIntentOwner,
    pub generation: u64,
    pub expires_at: u64,
}

/// The value of a route intent, with the owner as its domain text.
pub struct IntentView {
    pub destination: IpNetwork,
    pub action: RouteIntentAction,
    pub owner: Seq<char>,
    pub generation: u64,
    pub expires_at: u64,
}

impl View for RouteIntentOwner {
    type V = Seq<char>;

    open spec fn view(&self) -> Seq<char> {
        match self {
            RouteIntentOwner::Domain(d) => d@,
        }
    }
}

impl View for RouteIntent {
    type V = IntentView;

    open spec fn view(&self) -> IntentView {
        IntentView {
            destination: self.destination,
            action: self.action,
            owner: self.owner@,
            generation: self.generation,
            expires_at: self.expires_at,
        }
    }
}

/// The values of a sequence of intents.
pub open spec fn intent_views(v: Seq<RouteIntent>) -> Seq<IntentView> {
    Seq::new(v.len(), |i: int| v[i]@)
}

/// The route action for a policy action; `NoOverride` claims no route.
pub open spec fn spec_action_from_policy(action: DomainPolicyAction) -> Option<RouteIntentAction> {
    match action {
        DomainPolicyAction::Direct => Some(RouteIntentAction::Direct),
        DomainPolicyAction::Proxy => Some(RouteIntentAction::Proxy),
        DomainPolicyAction::Auto => Some(RouteIntentAction::Auto),
        DomainPolicyAction::Block => Some(RouteIntentAction::Block),
        DomainPolicyAction::NoOverride => None,
    }
}

impl RouteIntentAction {
    /// Converts an effective policy action; `NoOverride` gives `None` and
    /// therefore never creates an intent.
    pub fn from_policy(action: DomainPolicyAction) -> (r: Option<RouteIntentAction>)
        ensures
            r == spec_action_from_policy(action),
    {
        match action {
            DomainPolicyAction::Direct => Some(RouteIntentAction::Direct),
            DomainPolicyAction::Proxy => Some(RouteIntentAction::Proxy),
            DomainPolicyAction::Auto => Some(RouteIntentAction::Auto),
            DomainPolicyAction::Block => Some(RouteIntentAction::Block),
            DomainPolicyAction::NoOverride => None,
        }
    }
}

impl RouteIntentOwner {
    /// A copy of the owner.
    pub fn duplicate(&self) -> (r: RouteIntentOwner)
        ensures
            r == *self,
            r@ == self@,
    {
        match self {
            RouteIntentOwner::Domain(d) => RouteIntentOwner::Domain(d.clone()),
        }
    }
}

/// The intent expires at `now` or later (expiry is inclusive).
pub open spec fn intent_expired_at(intent: IntentView, now: u64) -> bool {
    now >= intent.expires_at
}

impl RouteIntent {
    pub fn new(
        destination: IpNetwork,
        action: RouteIntentAction,
        owner: RouteIntentOwner,
        generation: u64,
        expires_at: u64,
    ) -> (r: RouteIntent)
        ensures
            r == (RouteIntent { destination, action, owner, generation, expires_at }),
    {
        RouteIntent { destination, action, owner, generation, expires_at }
    }

    /// The intent for one DNS answer: a host route (`/32` or `/128`).
    pub fn from_ip(
        ip: IpAddress,
        action: RouteIntentAction,
        owner: RouteIntentOwner,
        generation: u64,
        expires_at: u64,
    ) -> (r: RouteIntent)
        ensures
            r == (RouteIntent { destination: IpNetwork::host_spec(ip), action, owner, generation, expires_at }),
            r.destination.wf(),
    {
        RouteIntent::new(IpNetwork::host(ip), action, owner, generation, expires_at)
    }

    pub fn is_expired_at(&self, now: u64) -> (b: bool)
        ensures
            b == intent_expired_at(self@, now),
    {
        now >= self.expires_at
    }

    /// Whether the intent has expired by the wall clock: the answer of
    /// `is_expired_at` for the clock's reading, whatever that reading was.
    pub fn is_expired(&self) -> (b: bool)
        ensures
            exists|now: u64| b == #[trigger] intent_expired_at(self@, now),
    {
        let now = unix_now();
        let b = self.is_expired_at(now);
        assert(b == intent_expired_at(self@, now));
        b
    }

    /// A copy of the intent.
    pub fn duplicate(&self) -> (r: RouteIntent)
        ensures
            r == *self,
            r@ == self@,
    {
        RouteIntent {
            destination: self.destination,
            action: self.action,
            owner: self.owner.duplicate(),
            generation: self.generation,
            expires_at: self.expires_at,
        }
    }
}

} // verus!
