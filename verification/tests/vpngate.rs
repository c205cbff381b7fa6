use base64::engine::general_purpose::STANDARD;
use base64::Engine;
use vpngate2socks::domain::NodeAvailability;
use vpngate2socks::vpngate::{parse_snapshot, CsvLimits, VpnGateError};

const EXPECTED_HEADERS: [&str; 15] = [
    "HostName",
    "IP",
    "Score",
    "Ping",
    "Speed",
    "CountryLong",
    "CountryShort",
    "NumVpnSessions",
    "Uptime",
    "TotalUsers",
    "TotalTraffic",
    "LogType",
    "Operator",
    "Message",
    "OpenVPN_ConfigData_Base64",
];

fn profile(protocol: &str) -> String {
    format!(
        "client\ndev tun\nproto {protocol}\nremote 1.2.3.4 443\n<ca>\nCA\n</ca>\n<cert>\nCERT\n</cert>\n<key>\nKEY\n</key>\n"
    )
}

fn row(hostname: &str, message: &str, profile: &str) -> String {
    let encoded = STANDARD.encode(profile);
    format!(
        "{hostname},1.2.3.4,100,20,1000000,Japan,JP,4,1000,30,4000,2weeks,operator,\"{message}\",{encoded}\n"
    )
}

fn document(rows: &str) -> String {
    format!("*vpn_servers\n#{}\n{rows}*\n", EXPECTED_HEADERS.join(","))
}

#[test]
fn parses_markers_quotes_and_tcp_node() {
    let input = document(&row("vpn1", "hello, world", &profile("tcp")));
    let snapshot = parse_snapshot(input.as_bytes(), CsvLimits::default()).expect("valid CSV");
    assert_eq!(snapshot.nodes.len(), 1);
    assert_eq!(snapshot.nodes[0].message, "hello, world");
    assert_eq!(snapshot.nodes[0].availability, NodeAvailability::Available);
    assert_eq!(snapshot.stats.accepted, 1);
}

#[test]
fn tolerates_bad_rows_and_marks_udp_unavailable() {
    let rows = format!("bad,row\n{}", row("vpn2", "udp", &profile("udp")));
    let snapshot = parse_snapshot(document(&rows).as_bytes(), CsvLimits::default()).expect("document remains parseable");
    assert_eq!(snapshot.nodes.len(), 1);
    assert_eq!(snapshot.stats.rejected, 1);
    assert_eq!(snapshot.stats.unsupported, 1);
}

#[test]
fn node_id_is_stable() {
    let input = document(&row("vpn1", "same", &profile("tcp")));
    let first = parse_snapshot(input.as_bytes(), CsvLimits::default()).expect("valid CSV");
    let second = parse_snapshot(input.as_bytes(), CsvLimits::default()).expect("valid CSV");
    assert_eq!(first.nodes[0].id, second.nodes[0].id);
}

#[test]
fn rejects_profiles_above_limit_before_decode() {
    let limits = CsvLimits { max_profile_bytes: 8, ..CsvLimits::default() };
    let input = document(&row("vpn1", "large", &profile("tcp")));
    let snapshot = parse_snapshot(input.as_bytes(), limits).expect("document is parseable");
    assert!(snapshot.nodes.is_empty());
    assert!(snapshot.stats.rejected >= 1);
}

#[test]
fn enforces_the_row_limit() {
    let rows = format!("{}{}", row("vpn1", "first", &profile("tcp")), row("vpn2", "second", &profile("tcp")));
    let limits = CsvLimits { max_rows: 1, ..CsvLimits::default() };
    assert!(matches!(parse_snapshot(document(&rows).as_bytes(), limits), Err(VpnGateError::TooManyRows)));
}

#[test]
fn rejects_documents_without_the_header_marker() {
    assert_eq!(parse_snapshot(b"*vpn_servers\n*\n", CsvLimits::default()).err(), Some(VpnGateError::MissingHeader));
    assert_eq!(parse_snapshot(&[0xff, 0xfe], CsvLimits::default()).err(), Some(VpnGateError::InvalidUtf8));
    let limits = CsvLimits { max_body_bytes: 4, ..CsvLimits::default() };
    assert_eq!(parse_snapshot(b"0123456789", limits).err(), Some(VpnGateError::BodyTooLarge));
}

#[test]
fn parsed_node_fields_follow_the_row() {
    let input = document(&row("vpn1", "hi", &profile("tcp")));
    let snapshot = parse_snapshot(input.as_bytes(), CsvLimits::default()).expect("valid CSV");
    let node = &snapshot.nodes[0];
    assert_eq!(node.hostname, "vpn1");
    assert_eq!(node.score, 100);
    assert_eq!(node.ping_ms, Some(20));
    assert_eq!(node.speed_bps, 1_000_000);
    assert_eq!(node.country_short, "JP");
    assert_eq!(node.tcp_port, Some(443));
    assert!(node.openvpn.is_some());
}
