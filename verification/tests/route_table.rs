use chnroutes::error::RouteOpError;
use chnroutes::net::{IpAddress, IpNetwork};
use chnroutes::route_op::{
    check_interface_index, find_gateway_in_routes, parse_existing_ipv4_routes, plan_route_add, resolve_gateway,
    route_destination_key, route_key, AddOutcome, RemoveOutcome, RemoveResult, RouteAddStep, RouteKey, RouteResult,
    SystemRoute,
};

fn net(text: &str) -> IpNetwork {
    IpNetwork::parse(text).unwrap()
}

fn v4(text: &str) -> u32 {
    match IpAddress::parse(text).unwrap() {
        IpAddress::V4(a) => a,
        IpAddress::V6(_) => panic!("not IPv4"),
    }
}

fn sys(destination: &str, prefix: u8, ifindex: Option<u32>, gateway: Option<&str>) -> SystemRoute {
    SystemRoute {
        destination: IpAddress::parse(destination).unwrap(),
        prefix,
        ifindex,
        gateway: gateway.map(|g| IpAddress::parse(g).unwrap()),
    }
}

#[test]
fn gateway_comes_from_the_first_default_route() {
    let routes = vec![
        sys("10.0.0.0", 8, Some(2), Some("10.0.0.1")),
        sys("0.0.0.0", 0, Some(3), Some("0.0.0.0")),
        sys("::", 0, Some(3), Some("fe80::1")),
        sys("0.0.0.0", 0, Some(4), Some("192.168.1.1")),
        sys("0.0.0.0", 0, Some(5), Some("192.168.9.1")),
    ];
    assert_eq!(find_gateway_in_routes(&routes), Some(v4("192.168.1.1")));
    assert_eq!(resolve_gateway(&routes), Ok(v4("192.168.1.1")));
    assert_eq!(resolve_gateway(&routes[..3]), Err(RouteOpError::NoGatewayError));
}

#[test]
fn destination_key_is_the_network_address() {
    assert_eq!(route_destination_key(&net("1.0.1.7/24")), Some((v4("1.0.1.0"), 24)));
    assert_eq!(route_destination_key(&net("255.255.255.255/0")), Some((0, 0)));
    assert_eq!(route_destination_key(&net("1.2.3.4/32")), Some((v4("1.2.3.4"), 32)));
    assert_eq!(route_destination_key(&net("2400:da00::/32")), None);
    assert_eq!(
        route_key(&net("1.0.1.7/24"), 7, v4("192.168.1.1")),
        Some(RouteKey { destination: v4("1.0.1.0"), prefix: 24, ifindex: 7, gateway: v4("192.168.1.1") })
    );
}

#[test]
fn existing_routes_need_ipv4_interface_and_gateway() {
    let routes = vec![
        sys("1.0.1.0", 24, Some(7), Some("192.168.1.1")),
        sys("1.0.2.0", 23, None, Some("192.168.1.1")),
        sys("1.0.3.0", 24, Some(7), None),
        sys("2400:da00::", 32, Some(7), Some("192.168.1.1")),
        sys("1.0.4.0", 22, Some(7), Some("fe80::1")),
    ];
    let keys = parse_existing_ipv4_routes(&routes);
    assert_eq!(keys, vec![RouteKey { destination: v4("1.0.1.0"), prefix: 24, ifindex: 7, gateway: v4("192.168.1.1") }]);
}

#[test]
fn add_steps_and_tallies() {
    let gateway = v4("192.168.1.1");
    let existing = vec![RouteKey { destination: v4("1.0.1.0"), prefix: 24, ifindex: 7, gateway }];
    assert_eq!(plan_route_add(&net("1.0.1.9/24"), 7, gateway, &existing), RouteAddStep::Existing);
    assert_eq!(plan_route_add(&net("2400:da00::/32"), 7, gateway, &existing), RouteAddStep::Invalid);
    assert_eq!(
        plan_route_add(&net("1.0.2.0/23"), 7, gateway, &existing),
        RouteAddStep::Add(RouteKey { destination: v4("1.0.2.0"), prefix: 23, ifindex: 7, gateway })
    );

    let mut result = RouteResult::new();
    result.record(net("1.0.1.0/24"), AddOutcome::AlreadyExists);
    result.record(net("2400:da00::/32"), AddOutcome::Failed);
    result.record(net("1.0.2.0/23"), AddOutcome::Added);
    assert_eq!((result.added, result.already_exists, result.failed), (1, 1, 1));
    assert_eq!(result.success_routes, vec![net("1.0.1.0/24"), net("1.0.2.0/23")]);

    let mut removed = RemoveResult::new();
    removed.record(RemoveOutcome::Removed);
    removed.record(RemoveOutcome::NotFound);
    removed.record(RemoveOutcome::NotFound);
    assert_eq!(removed, RemoveResult { removed: 1, not_found: 2, failed: 0 });
}

#[test]
fn interface_index_zero_is_refused() {
    assert_eq!(check_interface_index(Ok(0)), Err("Default Interface not found".to_string()));
    assert_eq!(check_interface_index(Ok(12)), Ok(12));
    assert_eq!(check_interface_index(Err("no route".to_string())), Err("no route".to_string()));
}
