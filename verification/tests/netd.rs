use vpngate2socks::netd::protocol::{ping_outcome, NetdClientError, NetdResponse};
use vpngate2socks::domain::{Ipv4Addr, SecretString, UpstreamEndpoint};
use vpngate2socks::netd::system::{
    clamp_connect_timeout_ms, max_workers, namespace_argument, root_guard_script,
    route_output_covers_public_ipv4, worker_guard_script, NetworkPool,
};

#[test]
fn guard_allows_only_upstream_on_veth_and_tun_output() {
    let upstream = UpstreamEndpoint::new(
        Ipv4Addr::new(203, 0, 113, 10),
        1080,
        Some("user".to_owned()),
        Some(SecretString::new("password")),
    )
    .expect("valid endpoint");
    let script = worker_guard_script("v2wdeadbeef", &upstream);
    assert!(script.contains("policy drop"));
    assert!(script.contains("203.0.113.10 tcp dport 1080 accept"));
    assert!(script.contains("oifname \"tun0\" accept"));
    assert!(script.contains("iifname \"v2wdeadbeef\" ip saddr 203.0.113.10 tcp sport 1080"));
    assert!(!script.contains("\n        ct state established,related accept"));
    assert!(!script.contains("password"));
}

#[test]
fn root_guard_never_forwards_arbitrary_worker_traffic() {
    let upstream = UpstreamEndpoint::new(Ipv4Addr::new(203, 0, 113, 10), 1080, None, None).expect("valid endpoint");
    let script = root_guard_script(&upstream, 8080, 1080);
    assert!(script.contains("iifname \"v2h*\" ip daddr 203.0.113.10 tcp dport 1080 accept"));
    assert!(script.contains("iifname \"v2h*\" drop"));
    assert!(!script.contains("iifname \"v2h*\" accept"));
}

#[test]
fn network_indices_are_reused_only_after_the_lease_drops() {
    let mut pool = NetworkPool::new();
    let first = pool.allocate().expect("first allocation");
    let first_namespace = first.namespace.clone();
    let second = pool.allocate().expect("second allocation");
    assert_ne!(first.namespace, second.namespace);
    pool.release(first.index);
    let reused = pool.allocate().expect("reused allocation");
    assert_eq!(reused.namespace, first_namespace);
}

#[test]
fn first_allocation_uses_the_first_subnet() {
    let mut pool = NetworkPool::new();
    let first = pool.allocate().expect("first allocation");
    assert_eq!(first.index, 1);
    assert_eq!(first.namespace, "v2s-0001");
    assert_eq!(first.host_veth, "v2h0001");
    assert_eq!(first.worker_veth, "v2w0001");
    assert_eq!(first.host_ip, Ipv4Addr::new(10, 231, 0, 5));
    assert_eq!(first.worker_ip, Ipv4Addr::new(10, 231, 0, 6));
}

#[test]
fn tunnel_routes_must_cover_both_ipv4_halves() {
    assert!(route_output_covers_public_ipv4("default via 10.0.0.1 dev tun0\n"));
    assert!(route_output_covers_public_ipv4(
        "default via 10.231.0.1 dev v2w0001\n0.0.0.0/1 via 10.8.0.1 dev tun0\n128.0.0.0/1 via 10.8.0.1 dev tun0\n"
    ));
    assert!(!route_output_covers_public_ipv4("default via 10.231.0.1 dev v2w0001\n0.0.0.0/1 via 10.8.0.1 dev tun0\n"));
}

#[test]
fn namespace_argument_and_limits() {
    assert_eq!(namespace_argument("v2s-0001"), "--net=/run/netns/v2s-0001");
    assert_eq!(max_workers(3), 11);
    assert_eq!(max_workers(100), 64);
    assert_eq!(clamp_connect_timeout_ms(0), 1000);
    assert_eq!(clamp_connect_timeout_ms(45_000), 45_000);
    assert_eq!(clamp_connect_timeout_ms(900_000), 300_000);
}

#[test]
fn pong_carries_the_pinned_upstream_address() {
    let pinned = ping_outcome(NetdResponse::Pong { upstream: Ipv4Addr::new(10, 0, 2, 2) });
    assert_eq!(pinned.ok(), Some(Ipv4Addr::new(10, 0, 2, 2)));
    assert!(matches!(ping_outcome(NetdResponse::Stopped), Err(NetdClientError::UnexpectedResponse)));
}
