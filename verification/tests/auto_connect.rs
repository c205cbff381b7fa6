use vpngate2socks::service::{check_node, test_profile, ServiceError};
use vpngate2socks::auto_connect::select_node;
use vpngate2socks::domain::{
    AutoConnectConfig, IpPureResult, IpTypeFilter, Ipv4Addr, NodeAvailability, NodeId,
    ResidentialFilter, TestRecord, Timestamp, VpnNode,
};

fn node(value: u8, region: &str, speed_bps: u64) -> VpnNode {
    VpnNode {
        id: NodeId::parse(&format!("{value:064x}")).expect("generated node id is valid"),
        hostname: format!("vpn-{value}"),
        ip: Ipv4Addr::new(1, 1, 1, value),
        score: u64::from(value),
        ping_ms: Some(u32::from(value)),
        speed_bps,
        country_long: region.to_owned(),
        country_short: region.to_owned(),
        sessions: 1,
        uptime_ms: 1,
        total_users: 1,
        total_traffic_bytes: 1,
        log_type: String::new(),
        operator: String::new(),
        message: String::new(),
        tcp_port: Some(443),
        availability: NodeAvailability::Available,
        openvpn: None,
    }
}

fn test_record(node_id: NodeId, is_broadcast: bool, is_residential: bool) -> TestRecord {
    TestRecord {
        node_id,
        result: Some(IpPureResult {
            fraud_score_bits: 1.0f64.to_bits(),
            is_residential,
            is_broadcast,
            exit_ip: None,
        }),
        duration_ms: 1,
        tested_at: Timestamp { secs: 1_700_000_000, nanos: 0 },
        error: None,
    }
}

fn same(a: Option<NodeId>, b: &NodeId) -> bool {
    a.map(|x| x.as_str() == b.as_str()).unwrap_or(false)
}

#[test]
fn chooses_the_highest_bandwidth_matching_node() {
    let nodes = vec![node(1, "JP", 10), node(2, "JP", 30), node(3, "US", 50)];
    let mut config = AutoConnectConfig::default();
    config.enabled = true;
    config.region = Some("JP".to_owned());

    assert!(same(select_node(&nodes, &[], &config, &[]), &nodes[1].id));
}

#[test]
fn requires_successful_ippure_data_for_ip_filters() {
    let nodes = vec![node(1, "JP", 30), node(2, "JP", 20), node(3, "JP", 10)];
    let tests = vec![
        test_record(nodes[0].id.duplicate(), true, false),
        test_record(nodes[1].id.duplicate(), false, false),
    ];
    let mut config = AutoConnectConfig::default();
    config.enabled = true;
    config.ip_type = IpTypeFilter::Native;
    config.residential = ResidentialFilter::NonResidential;

    assert!(same(select_node(&nodes, &tests, &config, &[]), &nodes[1].id));
}

#[test]
fn skips_temporarily_excluded_nodes() {
    let nodes = vec![node(1, "JP", 30), node(2, "JP", 20)];
    let excluded = vec![nodes[0].id.duplicate()];

    assert!(same(select_node(&nodes, &[], &AutoConnectConfig::default(), &excluded), &nodes[1].id));
}

#[test]
fn region_matches_without_regard_to_ascii_case() {
    let nodes = vec![node(1, "jp", 30), node(2, "US", 40)];
    let mut config = AutoConnectConfig::default();
    config.region = Some("JP".to_owned());
    assert!(same(select_node(&nodes, &[], &config, &[]), &nodes[0].id));
}

#[test]
fn no_selectable_node_gives_none() {
    let mut unavailable = node(1, "JP", 30);
    unavailable.availability = NodeAvailability::UnsupportedProtocol;
    assert!(select_node(&[unavailable], &[], &AutoConnectConfig::default(), &[]).is_none());
}

#[test]
fn equal_bandwidth_prefers_score_then_ping() {
    let mut a = node(1, "JP", 50);
    let mut b = node(2, "JP", 50);
    a.score = 10;
    b.score = 10;
    a.ping_ms = None;
    b.ping_ms = Some(100);
    assert!(same(select_node(&[a, b.clone()], &[], &AutoConnectConfig::default(), &[]), &b.id));
}

#[test]
fn queued_tests_need_only_a_profile() {
    let mut unavailable = node(3, "JP", 10);
    unavailable.availability = NodeAvailability::UnsupportedProtocol;
    assert!(matches!(test_profile(None), Err(ServiceError::NodeNotFound)));
    assert!(matches!(test_profile(Some(&unavailable)), Err(ServiceError::NodeUnavailable)));
    assert!(matches!(check_node(Some(&unavailable)), Err(ServiceError::NodeUnavailable)));
}
