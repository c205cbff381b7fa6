use vpngate2socks::domain::Ipv4Addr;
use vpngate2socks::openvpn::{sanitize_openvpn, OpenVpnConfigError};

const IP: Ipv4Addr = Ipv4Addr { a: 1, b: 2, c: 3, d: 4 };

fn valid_profile() -> String {
    "client\ndev tun\nproto tcp\nremote 1.2.3.4 443\ncipher AES-128-CBC\nauth SHA1\n<ca>\nCA\n</ca>\n<cert>\nCERT\n</cert>\n<key>\nKEY\n</key>\n".to_owned()
}

#[test]
fn sanitizes_tcp_profile_and_is_stable() {
    let first = sanitize_openvpn(valid_profile().as_bytes(), IP).expect("valid profile");
    let second = sanitize_openvpn(valid_profile().as_bytes(), IP).expect("valid profile");
    assert_eq!(first.remote(), (IP, 443));
    assert_eq!(first.digest(), second.digest());
    assert!(!first.as_str().contains("script-security"));
}

#[test]
fn rejects_scripts_and_external_files() {
    let scripted = valid_profile().replace("client\n", "client\nup /tmp/pwn\n");
    assert!(matches!(
        sanitize_openvpn(scripted.as_bytes(), IP),
        Err(OpenVpnConfigError::DangerousDirective(_))
    ));

    let external = valid_profile().replace("<ca>\nCA\n</ca>", "ca /tmp/ca.pem");
    assert!(matches!(
        sanitize_openvpn(external.as_bytes(), IP),
        Err(OpenVpnConfigError::ExternalFile(_))
    ));
}

#[test]
fn rejects_udp_profiles() {
    let udp = valid_profile().replace("proto tcp", "proto udp");
    assert!(matches!(
        sanitize_openvpn(udp.as_bytes(), IP),
        Err(OpenVpnConfigError::UnsupportedProtocol)
    ));
}

#[test]
fn renders_the_fixed_header_sorted_options_and_blocks() {
    let profile = sanitize_openvpn(valid_profile().as_bytes(), IP).expect("valid profile");
    assert_eq!(
        profile.as_str(),
        "client\ndev tun\nproto tcp-client\nremote 1.2.3.4 443 tcp-client\nnobind\npersist-key\npersist-tun\nauth-nocache\nverb 3\nremote-cert-tls server\nauth SHA1\ncipher AES-128-CBC\n<ca>\nCA\n</ca>\n<cert>\nCERT\n</cert>\n<key>\nKEY\n</key>\n"
    );
}

#[test]
fn each_rejection_reason_has_an_input() {
    assert_eq!(sanitize_openvpn(&vec![b'a'; 262_145], IP).err(), Some(OpenVpnConfigError::TooLarge));
    assert_eq!(sanitize_openvpn(&[0xff, 0xfe], IP).err(), Some(OpenVpnConfigError::InvalidUtf8));
    let long = format!("client\n# {}\n", "x".repeat(5000));
    assert_eq!(sanitize_openvpn(long.as_bytes(), IP).err(), Some(OpenVpnConfigError::LineTooLong));
    let unknown = valid_profile().replace("client\n", "client\nfragment 100\n");
    assert_eq!(
        sanitize_openvpn(unknown.as_bytes(), IP).err(),
        Some(OpenVpnConfigError::UnsupportedDirective("fragment".to_owned()))
    );
    let tap = valid_profile().replace("dev tun", "dev tap");
    assert_eq!(sanitize_openvpn(tap.as_bytes(), IP).err(), Some(OpenVpnConfigError::InvalidDevice));
    let elsewhere = valid_profile().replace("remote 1.2.3.4 443", "remote 5.6.7.8 443");
    assert_eq!(sanitize_openvpn(elsewhere.as_bytes(), IP).err(), Some(OpenVpnConfigError::RemoteMismatch));
    let no_port = valid_profile().replace("remote 1.2.3.4 443", "remote 1.2.3.4 0");
    assert_eq!(sanitize_openvpn(no_port.as_bytes(), IP).err(), Some(OpenVpnConfigError::InvalidRemote));
    let no_key = valid_profile().replace("<key>\nKEY\n</key>\n", "");
    assert_eq!(sanitize_openvpn(no_key.as_bytes(), IP).err(), Some(OpenVpnConfigError::MissingInlineBlock("key")));
    let open = valid_profile().replace("</key>\n", "");
    assert_eq!(
        sanitize_openvpn(open.as_bytes(), IP).err(),
        Some(OpenVpnConfigError::InvalidInlineBlock("key".to_owned()))
    );
    let bad_direction = valid_profile().replace("client\n", "client\nkey-direction 2\n");
    assert_eq!(
        sanitize_openvpn(bad_direction.as_bytes(), IP).err(),
        Some(OpenVpnConfigError::InvalidValue("key-direction".to_owned()))
    );
}

#[test]
fn sanitizing_a_sanitized_profile_keeps_the_remote() {
    let first = sanitize_openvpn(valid_profile().as_bytes(), IP).expect("valid profile");
    let again = sanitize_openvpn(first.as_str().as_bytes(), IP).expect("a sanitized profile is accepted");
    assert_eq!(again.remote(), first.remote());
    let mut first_lines: Vec<&str> = first.as_str().lines().collect();
    let mut again_lines: Vec<&str> = again.as_str().lines().collect();
    first_lines.sort_unstable();
    again_lines.sort_unstable();
    assert_eq!(first_lines, again_lines);
}
