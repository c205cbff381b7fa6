use vpngate2socks::config::{
    valid_listener_credential, validate_runtime_dir, AppConfig, ConfigError, ConfigValues, ListenerAddr, UpstreamAddress,
};
use vpngate2socks::domain::{parse_host_port, Ipv4Addr};

#[test]
fn runtime_directory_rejects_traversal_and_broad_system_paths() {
    assert!(validate_runtime_dir("/run/vpngate2socks").is_ok());
    assert!(validate_runtime_dir("/tmp/vpngate2socks").is_ok());
    assert!(validate_runtime_dir("/etc").is_err());
    assert!(validate_runtime_dir("/run/../etc/vpngate2socks").is_err());
    assert!(validate_runtime_dir("relative/runtime").is_err());
}

#[test]
fn listener_credentials_fit_the_socks_wire_format() {
    assert!(valid_listener_credential("user"));
    assert!(!valid_listener_credential(""));
    assert!(!valid_listener_credential(&"x".repeat(256)));
    assert!(!valid_listener_credential("line\nbreak"));
}

fn loopback(address: &str) -> Result<ListenerAddr, String> {
    Ok(ListenerAddr { address: address.to_owned(), is_loopback: true, is_unspecified: false })
}

fn values(upstream: Option<UpstreamAddress>) -> ConfigValues {
    ConfigValues {
        web_bind: loopback("127.0.0.1:8080"),
        socks_bind: loopback("127.0.0.1:1080"),
        lan_mode: None,
        container_bind: None,
        upstream,
        upstream_user: Ok(None),
        upstream_password: Ok(None),
        runtime_dir: None,
        web_user: Ok(None),
        web_password: Ok(None),
        socks_user: Ok(None),
        socks_password: Ok(None),
        tls_cert: None,
        tls_key: None,
        unprivileged_uid: None,
        unprivileged_gid: None,
        openvpn_uid: None,
        database_url: None,
        web_dist: None,
        vpngate_url: None,
        ippure_url: None,
        refresh_seconds: None,
        connect_timeout_seconds: None,
        ippure_timeout_seconds: None,
        max_parallel_tests: None,
    }
}

fn other(text: &str) -> Option<UpstreamAddress> {
    Some(UpstreamAddress::Other { text: text.to_owned(), message: "invalid socket address syntax".to_owned() })
}

#[test]
fn host_name_upstream_is_accepted_and_pinned_later() {
    let config = AppConfig::from_values(values(other("host.containers.internal:1080"))).expect("host name upstream");
    assert_eq!(config.upstream.name(), Some("host.containers.internal"));
    assert_eq!(config.upstream.address(), None);
    assert_eq!(config.upstream.port(), 1080);
    let pinned = config.upstream.resolve_to(Ipv4Addr::new(10, 0, 2, 2)).expect("unicast address");
    assert_eq!(pinned.socket_addr(), (Ipv4Addr::new(10, 0, 2, 2), 1080));
    assert!(config.upstream.resolve_to(Ipv4Addr::new(0, 0, 0, 0)).is_err());
}

#[test]
fn address_upstream_must_resolve_to_itself() {
    let config =
        AppConfig::from_values(values(Some(UpstreamAddress::V4(Ipv4Addr::new(192, 0, 2, 10), 1080)))).expect("address upstream");
    assert_eq!(config.upstream.address(), Some(Ipv4Addr::new(192, 0, 2, 10)));
    assert!(config.upstream.resolve_to(Ipv4Addr::new(192, 0, 2, 10)).is_ok());
    assert_eq!(
        config.upstream.resolve_to(Ipv4Addr::new(192, 0, 2, 11)).err(),
        Some("netd resolved an inconsistent upstream address")
    );
}

#[test]
fn malformed_upstreams_are_refused() {
    for text in ["host.containers.internal", "bad host:1080", "host:99999", "a:b:1080", ":1080", "höst:1080"] {
        match AppConfig::from_values(values(other(text))) {
            Err(ConfigError::Invalid { name, message }) => {
                assert_eq!(name, "VPNGATE2SOCKS_UPSTREAM");
                assert_eq!(message, "invalid socket address syntax");
            }
            _ => panic!("{text} should be refused"),
        }
    }
    match AppConfig::from_values(values(other("proxy.lan:0"))) {
        Err(ConfigError::Invalid { message, .. }) => assert_eq!(message, "port must be non-zero"),
        _ => panic!("port zero should be refused"),
    }
    assert!(matches!(AppConfig::from_values(values(None)), Err(ConfigError::Missing("VPNGATE2SOCKS_UPSTREAM"))));
}

#[test]
fn host_and_port_split() {
    assert_eq!(parse_host_port("proxy.lan:1080"), Some(("proxy.lan".to_owned(), 1080)));
    assert_eq!(parse_host_port("proxy.lan:+8"), Some(("proxy.lan".to_owned(), 8)));
    assert_eq!(parse_host_port("proxy.lan"), None);
    assert_eq!(parse_host_port("proxy_lan:1080"), None);
}
