//! What a route backend can enforce, and the check of intents against it.
use vstd::prelude::*;
use crate::domain::intent::{IntentView, RouteIntent, RouteIntentAction};
use crate::domain::reconcile::{action_variant, action_variant_name};
use crate::net::{spec_ip_address_text, IpAddress, IpNetwork};
use crate::route_op::{RemoveResult, RouteResult};
use crate::text::{concat_chars, decimal_string, decimal_text, str_chars, string_of, vec_to_string};

verus! {

/// Why a backend refused or failed.
#[derive(Clone, Debug, PartialEq, Eq)]
pub enum RouteBackendError {
    UnsupportedAction(RouteIntentAction),
    UnsupportedAddressFamily(IpAddress),
    OperationFailed { operation: String, failed: usize },
    Other(String),
}

/// The address families and actions a backend enforces itself.
#[derive(Clone, Copy, Debug, Default, PartialEq, Eq, Structural)]
pub struct RouteBackendCapabilities {
    pub ipv4: bool,
    pub ipv6: bool,
    pub direct: bool,
    pub proxy: bool,
    pub auto: bool,
    pub block: bool,
}

/// The backend supports the intent's address family and its action.
pub open spec fn spec_supports(caps: RouteBackendCapabilities, intent: IntentView) -> bool {
    let family = match intent.destination {
        IpNetwork::V4 { .. } => caps.ipv4,
        IpNetwork::V6 { .. } => caps.ipv6,
    };
    let action = match intent.action {
        RouteIntentAction::Direct => caps.direct,
        RouteIntentAction::Proxy => caps.proxy,
        RouteIntentAction::Auto => caps.auto,
        RouteIntentAction::Block => caps.block,
    };
    family && action
}

/// The error for an unsupported intent: its address family if the backend
/// lacks that family, else its action.
pub open spec fn refusal(caps: RouteBackendCapabilities, intent: IntentView) -> RouteBackendError {
    match intent.destination {
        IpNetwork::V4 { addr, .. } => if !caps.ipv4 {
            RouteBackendError::UnsupportedAddressFamily(IpAddress::V4(addr))
        } else {
            RouteBackendError::UnsupportedAction(intent.action)
        },
        IpNetwork::V6 { addr, .. } => if !caps.ipv6 {
            RouteBackendError::UnsupportedAddressFamily(IpAddress::V6(addr))
        } else {
            RouteBackendError::UnsupportedAction(intent.action)
        },
    }
}

impl RouteBackendCapabilities {
    /// The system route table: IPv4 direct routes only.
    pub fn system_route() -> (r: RouteBackendCapabilities)
        ensures
            r == (RouteBackendCapabilities {
                ipv4: true,
                ipv6: false,
                direct: true,
                proxy: false,
                auto: false,
                block: false,
            }),
    {
        RouteBackendCapabilities {
            ipv4: true,
            ipv6: false,
            direct: true,
            proxy: false,
            auto: false,
            block: false,
        }
    }

    /// Whether the backend enforces this intent.
    pub fn supports(&self, intent: &RouteIntent) -> (b: bool)
        ensures
            b == spec_supports(*self, intent@),
    {
        let family = match intent.destination {
            IpNetwork::V4 { .. } => self.ipv4,
            IpNetwork::V6 { .. } => self.ipv6,
        };
        let action = match intent.action {
            RouteIntentAction::Direct => self.direct,
            RouteIntentAction::Proxy => self.proxy,
            RouteIntentAction::Auto => self.auto,
            RouteIntentAction::Block => self.block,
        };
        family && action
    }
}

/// The backend over the system route table.
#[derive(Clone, Copy, Debug, Default)]
pub struct SystemRouteBackend;

impl SystemRouteBackend {
    pub fn new() -> (r: SystemRouteBackend)
        ensures
            r == SystemRouteBackend,
    {
        SystemRouteBackend
    }

    pub fn name(&self) -> (r: &'static str)
        ensures
            r@ == "system-route"@,
    {
        "system-route"
    }

    /// IPv4 direct routes only.
    pub fn capabilities(&self) -> (r: RouteBackendCapabilities)
        ensures
            r == (RouteBackendCapabilities {
                ipv4: true,
                ipv6: false,
                direct: true,
                proxy: false,
                auto: false,
                block: false,
            }),
    {
        RouteBackendCapabilities::system_route()
    }

    /// `Ok` when every intent is supported; otherwise the refusal of the
    /// first unsupported one.
    pub fn validate_intents(&self, intents: &[RouteIntent]) -> (r: Result<(), RouteBackendError>)
        ensures
            match r {
                Ok(()) => forall|k: int| 0 <= k < intents@.len() ==> spec_supports(RouteBackendCapabilities::system_spec(), #[trigger] intents@[k]@),
                Err(e) => exists|j: int| 0 <= j < intents@.len()
                    && (forall|k: int| 0 <= k < j ==> spec_supports(RouteBackendCapabilities::system_spec(), #[trigger] intents@[k]@))
                    && !spec_supports(RouteBackendCapabilities::system_spec(), intents@[j]@)
                    && e == refusal(RouteBackendCapabilities::system_spec(), intents@[j]@),
            },
            r is Ok <==> forall|k: int| 0 <= k < intents@.len()
                ==> (#[trigger] intents@[k]).destination is V4 && intents@[k].action == RouteIntentAction::Direct,
    {
        proof {
            assert forall|k: int| 0 <= k < intents@.len() implies (spec_supports(RouteBackendCapabilities::system_spec(), #[trigger] intents@[k]@)
                <==> (intents@[k].destination is V4 && intents@[k].action == RouteIntentAction::Direct)) by {
                lemma_system_backend_takes_ipv4_direct_only(intents@[k]@);
            }
        }
        let r = self.check_intents(intents);
        proof {
            if r is Ok {
                assert forall|k: int| 0 <= k < intents@.len() implies (#[trigger] intents@[k]).destination is V4
                    && intents@[k].action == RouteIntentAction::Direct by {
                    assert(spec_supports(RouteBackendCapabilities::system_spec(), intents@[k]@));
                }
            } else {
                let j = choose|j: int| 0 <= j < intents@.len()
                    && (forall|k: int| 0 <= k < j ==> spec_supports(RouteBackendCapabilities::system_spec(), #[trigger] intents@[k]@))
                    && !spec_supports(RouteBackendCapabilities::system_spec(), intents@[j]@)
                    && r->Err_0 == refusal(RouteBackendCapabilities::system_spec(), intents@[j]@);
                assert(!(intents@[j].destination is V4 && intents@[j].action == RouteIntentAction::Direct));
            }
        }
        r
    }

    /// `Ok` when every intent is supported; otherwise the refusal of the
    /// first unsupported one.
    fn check_intents(&self, intents: &[RouteIntent]) -> (r: Result<(), RouteBackendError>)
        ensures
            match r {
                Ok(()) => forall|k: int| 0 <= k < intents@.len() ==> spec_supports(RouteBackendCapabilities::system_spec(), #[trigger] intents@[k]@),
                Err(e) => exists|j: int| 0 <= j < intents@.len()
                    && (forall|k: int| 0 <= k < j ==> spec_supports(RouteBackendCapabilities::system_spec(), #[trigger] intents@[k]@))
                    && !spec_supports(RouteBackendCapabilities::system_spec(), intents@[j]@)
                    && e == refusal(RouteBackendCapabilities::system_spec(), intents@[j]@),
            },
    {
        let capabilities = self.capabilities();
        let mut i: usize = 0;
        while i < intents.len()
            invariant
                i <= intents@.len(),
                capabilities == RouteBackendCapabilities::system_spec(),
                forall|k: int| 0 <= k < i ==> spec_supports(capabilities, #[trigger] intents@[k]@),
            decreases intents.len() - i,
        {
            let intent = &intents[i];
            if !capabilities.supports(intent) {
                let e = match intent.destination {
                    IpNetwork::V4 { addr, .. } => if !capabilities.ipv4 {
                        RouteBackendError::UnsupportedAddressFamily(IpAddress::V4(addr))
                    } else {
                        RouteBackendError::UnsupportedAction(intent.action)
                    },
                    IpNetwork::V6 { addr, .. } => if !capabilities.ipv6 {
                        RouteBackendError::UnsupportedAddressFamily(IpAddress::V6(addr))
                    } else {
                        RouteBackendError::UnsupportedAction(intent.action)
                    },
                };
                assert(e == refusal(capabilities, intents@[i as int]@));
                return Err(e);
            }
            i += 1;
        }
        Ok(())
    }

    /// The destinations of the intents, in order.
    pub fn destinations(intents: &[RouteIntent]) -> (r: Vec<IpNetwork>)
        ensures
            r@.len() == intents@.len(),
            forall|k: int| 0 <= k < r@.len() ==> r@[k] == #[trigger] intents@[k].destination,
    {
        let mut r: Vec<IpNetwork> = Vec::new();
        let mut i: usize = 0;
        while i < intents.len()
            invariant
                i <= intents@.len(),
                r@.len() == i,
                forall|k: int| 0 <= k < i ==> r@[k] == #[trigger] intents@[k].destination,
            decreases intents.len() - i,
        {
            r.push(intents[i].destination);
            i += 1;
        }
        r
    }
}

/// A backend enforces no intent whose own action it lacks: an Auto intent
/// needs `auto`, a Proxy intent `proxy`, a Block intent `block` and a Direct
/// intent `direct`, whatever the other flags; nor one whose address family
/// it lacks.
pub proof fn lemma_support_needs_own_action(caps: RouteBackendCapabilities, x: IntentView)
    ensures
        x.action == RouteIntentAction::Auto && !caps.auto ==> !spec_supports(caps, x),
        x.action == RouteIntentAction::Proxy && !caps.proxy ==> !spec_supports(caps, x),
        x.action == RouteIntentAction::Block && !caps.block ==> !spec_supports(caps, x),
        x.action == RouteIntentAction::Direct && !caps.direct ==> !spec_supports(caps, x),
        x.destination is V4 && !caps.ipv4 ==> !spec_supports(caps, x),
        x.destination is V6 && !caps.ipv6 ==> !spec_supports(caps, x),
{
}

/// The system route table enforces exactly the IPv4 Direct intents; any
/// other IPv4 intent is refused for its action, and an IPv6 intent for its
/// address family.
pub proof fn lemma_system_backend_takes_ipv4_direct_only(x: IntentView)
    ensures
        spec_supports(RouteBackendCapabilities::system_spec(), x)
            <==> (x.destination is V4 && x.action == RouteIntentAction::Direct),
        x.destination is V4 && x.action != RouteIntentAction::Direct
            ==> refusal(RouteBackendCapabilities::system_spec(), x) == RouteBackendError::UnsupportedAction(x.action),
        x.destination is V6 ==> refusal(RouteBackendCapabilities::system_spec(), x) is UnsupportedAddressFamily,
{
}

impl RouteBackendCapabilities {
    /// The capabilities of the system route table.
    pub open spec fn system_spec() -> RouteBackendCapabilities {
        RouteBackendCapabilities {
            ipv4: true,
            ipv6: false,
            direct: true,
            proxy: false,
            auto: false,
            block: false,
        }
    }
}


/// The message of a backend error.
pub open spec fn backend_error_text(e: RouteBackendError) -> Seq<char> {
    match e {
        RouteBackendError::UnsupportedAction(a) => "route backend does not support action: "@ + action_variant_name(a),
        RouteBackendError::UnsupportedAddressFamily(ip) => "route backend does not support address family: "@
            + spec_ip_address_text(ip),
        RouteBackendError::OperationFailed { operation, failed } => operation@ + " route operation failed for "@
            + decimal_text(failed as nat) + " route(s)"@,
        RouteBackendError::Other(message) => message@,
    }
}

impl SystemRouteBackend {
    /// What applying reports once the route table has taken the additions:
    /// the route table's own error as `Other`, an `OperationFailed` "add"
    /// error when some route failed, else the number of routes in place
    /// (added or already there).
    pub fn apply_outcome(result: Result<RouteResult, String>) -> (r: Result<usize, RouteBackendError>)
        requires
            result matches Ok(t) ==> t.failed > 0 || t.added + t.already_exists <= usize::MAX,
        ensures
            match result {
                Err(m) => r == Err::<usize, RouteBackendError>(RouteBackendError::Other(m)),
                Ok(t) => if t.failed > 0 {
                    r matches Err(RouteBackendError::OperationFailed { operation, failed })
                        && operation@ == "add"@ && failed == t.failed
                } else {
                    r == Ok::<usize, RouteBackendError>((t.added + t.already_exists) as usize)
                },
            },
    {
        match result {
            Err(m) => Err(RouteBackendError::Other(m)),
            Ok(t) => if t.failed > 0 {
                Err(RouteBackendError::OperationFailed { operation: string_of("add"), failed: t.failed })
            } else {
                Ok(t.added + t.already_exists)
            },
        }
    }

    /// What removing reports once the route table has taken the deletions:
    /// the route table's own error as `Other`, an `OperationFailed`
    /// "remove" error when some route failed, else the number of routes
    /// gone (removed or not found).
    pub fn remove_outcome(result: Result<RemoveResult, String>) -> (r: Result<usize, RouteBackendError>)
        requires
            result matches Ok(t) ==> t.failed > 0 || t.removed + t.not_found <= usize::MAX,
        ensures
            match result {
                Err(m) => r == Err::<usize, RouteBackendError>(RouteBackendError::Other(m)),
                Ok(t) => if t.failed > 0 {
                    r matches Err(RouteBackendError::OperationFailed { operation, failed })
                        && operation@ == "remove"@ && failed == t.failed
                } else {
                    r == Ok::<usize, RouteBackendError>((t.removed + t.not_found) as usize)
                },
            },
    {
        match result {
            Err(m) => Err(RouteBackendError::Other(m)),
            Ok(t) => if t.failed > 0 {
                Err(RouteBackendError::OperationFailed { operation: string_of("remove"), failed: t.failed })
            } else {
                Ok(t.removed + t.not_found)
            },
        }
    }
}

impl RouteBackendError {
    /// The error's message.
    pub fn message(&self) -> (s: String)
        ensures
            s@ == backend_error_text(*self),
    {
        match self {
            RouteBackendError::UnsupportedAction(a) => {
                let v = concat_chars(&str_chars("route backend does not support action: "), &str_chars(action_variant(*a)));
                vec_to_string(&v)
            },
            RouteBackendError::UnsupportedAddressFamily(ip) => {
                let v = concat_chars(&str_chars("route backend does not support address family: "), &str_chars(ip.to_text().as_str()));
                vec_to_string(&v)
            },
            RouteBackendError::OperationFailed { operation, failed } => {
                let a = concat_chars(&str_chars(operation.as_str()), &str_chars(" route operation failed for "));
                let b = concat_chars(&a, &str_chars(decimal_string(*failed as u64).as_str()));
                let c = concat_chars(&b, &str_chars(" route(s)"));
                vec_to_string(&c)
            },
            RouteBackendError::Other(message) => message.clone(),
        }
    }
}

} // verus!
