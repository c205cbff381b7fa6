use vpngate2socks::domain::{Ipv4Addr, NodeAvailability, NodeId, VpnNode};
use vpngate2socks::mihomo::render_provider;
use vpngate2socks::openvpn::sanitize_openvpn;

const PROFILE: &str = "client
dev tun
proto tcp
remote 1.2.3.4 443
cipher AES-128-CBC
auth SHA1
data-ciphers AES-256-GCM:AES-128-GCM
data-ciphers-fallback AES-128-CBC
key-direction 1
<ca>
CA
</ca>
<cert>
CERT
</cert>
<key>
KEY
</key>
<tls-auth>
TLS-AUTH
</tls-auth>
";

fn node(profile_text: &str) -> VpnNode {
    let ip = Ipv4Addr::new(1, 2, 3, 4);
    let profile = sanitize_openvpn(profile_text.as_bytes(), ip).expect("sanitized profile");
    let node_id = NodeId::from_digest(&profile.digest());
    VpnNode {
        id: node_id,
        hostname: "vpn.example".to_owned(),
        ip,
        score: 1,
        ping_ms: Some(10),
        speed_bps: 1,
        country_long: "Japan".to_owned(),
        country_short: "JP".to_owned(),
        sessions: 1,
        uptime_ms: 1,
        total_users: 1,
        total_traffic_bytes: 1,
        log_type: String::new(),
        operator: String::new(),
        message: String::new(),
        tcp_port: Some(443),
        availability: NodeAvailability::Available,
        openvpn: Some(profile),
    }
}

#[test]
fn renders_a_mihomo_openvpn_provider() {
    let node = node(PROFILE);
    let node_id = node.id.as_str().to_owned();

    let output = render_provider(&[node]);
    assert!(output.starts_with(&format!("proxies:\n  - name: vpngate-{node_id}\n")));
    assert!(output.contains("    type: openvpn\n    server: 1.2.3.4\n    port: 443\n    proto: tcp\n"));
    assert!(output.contains("    data-ciphers:\n      - AES-256-GCM\n      - AES-128-GCM\n"));
    assert!(output.contains("    key-direction: \"1\"\n"));
    assert!(output.contains("    ca: |\n      CA\n"));
    assert!(output.contains("    tls-auth: |\n      TLS-AUTH\n"));
    assert!(output.contains("    remote-dns-resolve: true\n    dns: [1.1.1.1, 8.8.8.8]\n"));
}

#[test]
fn nodes_without_a_profile_are_left_out() {
    let mut node = node(PROFILE);
    node.openvpn = None;
    assert_eq!(render_provider(&[node]), "proxies: []\n");
}
