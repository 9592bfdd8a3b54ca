use chnroutes::domain::backend::{RouteBackendCapabilities, RouteBackendError, SystemRouteBackend};
use chnroutes::domain::intent::{RouteIntent, RouteIntentAction, RouteIntentOwner};
use chnroutes::net::IpAddress;

fn intent(ip: &str, action: RouteIntentAction) -> RouteIntent {
    RouteIntent::from_ip(
        IpAddress::parse(ip).unwrap(),
        action,
        RouteIntentOwner::Domain("example.com".into()),
        1,
        u64::MAX,
    )
}

#[test]
fn system_backend_capabilities_are_explicit() {
    let backend = SystemRouteBackend::new();
    let caps = backend.capabilities();

    assert!(caps.ipv4);
    assert!(!caps.ipv6);
    assert!(caps.direct);
    assert!(!caps.proxy);
    assert!(!caps.auto);
    assert!(!caps.block);
}

#[test]
fn system_backend_accepts_ipv4_direct() {
    let backend = SystemRouteBackend::new();
    assert!(backend.capabilities().supports(&intent("1.2.3.4", RouteIntentAction::Direct)));
}

#[test]
fn system_backend_rejects_ipv6_until_backend_support_exists() {
    let backend = SystemRouteBackend::new();
    let result = backend.validate_intents(&[intent("2001:db8::1", RouteIntentAction::Direct)]);

    assert_eq!(
        result,
        Err(RouteBackendError::UnsupportedAddressFamily(IpAddress::parse("2001:db8::1").unwrap()))
    );
}

#[test]
fn system_backend_rejects_proxy_action() {
    let backend = SystemRouteBackend::new();
    let result = backend.validate_intents(&[intent("1.2.3.4", RouteIntentAction::Proxy)]);

    assert_eq!(result, Err(RouteBackendError::UnsupportedAction(RouteIntentAction::Proxy)));
}

#[test]
fn validation_reports_the_first_unsupported_intent() {
    let backend = SystemRouteBackend::new();
    let result = backend.validate_intents(&[
        intent("1.2.3.4", RouteIntentAction::Direct),
        intent("1.2.3.5", RouteIntentAction::Block),
        intent("2001:db8::1", RouteIntentAction::Direct),
    ]);
    assert_eq!(result, Err(RouteBackendError::UnsupportedAction(RouteIntentAction::Block)));
    assert_eq!(backend.validate_intents(&[]), Ok(()));
    assert_eq!(backend.name(), "system-route");
    assert_eq!(RouteBackendCapabilities::system_route(), backend.capabilities());
}

#[test]
fn destinations_keep_the_intent_order() {
    let intents = [intent("1.2.3.4", RouteIntentAction::Direct), intent("5.6.7.8", RouteIntentAction::Direct)];
    let destinations = SystemRouteBackend::destinations(&intents);
    assert_eq!(destinations, vec![intents[0].destination, intents[1].destination]);
}

#[test]
fn backend_error_messages() {
    assert_eq!(
        RouteBackendError::UnsupportedAction(RouteIntentAction::Proxy).message(),
        "route backend does not support action: Proxy"
    );
    assert_eq!(
        RouteBackendError::UnsupportedAddressFamily(IpAddress::parse("2001:db8::1").unwrap()).message(),
        "route backend does not support address family: 2001:db8::1"
    );
    assert_eq!(
        RouteBackendError::OperationFailed { operation: "add".to_string(), failed: 3 }.message(),
        "add route operation failed for 3 route(s)"
    );
    assert_eq!(RouteBackendError::Other("boom".to_string()).message(), "boom");
    assert_eq!(IpAddress::parse("1.2.3.4").unwrap().to_text(), "1.2.3.4");
}
