use vpngate2socks::config::Credentials;
use vpngate2socks::domain::{Ipv4Addr, SecretString};
use vpngate2socks::socks::{
    reply_address, ReplyAddress,
    authenticate, first_public_address, greeting_header_ok, probe_auth_reply, probe_greeting, probe_method_reply,
    ProbeStep, UpstreamProbeError, SOCKS_VERSION, encode_dns_query, encode_request, parse_dns_a_response,
    proc_route_table_covers_public_ipv4, select_method, validate_target, DnsError,
    SocksConnectionError, Target, ADDRESS_DOMAIN, AUTH_VERSION, METHOD_NONE, METHOD_PASSWORD,
    METHOD_UNACCEPTABLE,
};

#[test]
fn rejects_private_and_special_targets() {
    assert!(validate_target(&Target::Ipv4(Ipv4Addr::localhost(), 443)).is_err());
    assert!(validate_target(&Target::Domain("localhost".to_owned(), 443)).is_err());
    assert!(validate_target(&Target::Domain("printer.local".to_owned(), 443)).is_err());
    assert!(validate_target(&Target::Domain("example.com".to_owned(), 443)).is_ok());
}

#[test]
fn request_encoding_uses_remote_dns_for_domains() {
    let request = encode_request(&Target::Domain("example.com".to_owned(), 443)).expect("valid domain encodes");
    assert_eq!(request[3], ADDRESS_DOMAIN);
    assert_eq!(request[4], 11);
}

#[test]
fn request_encoding_of_an_address_is_exact() {
    let request = encode_request(&Target::Ipv4(Ipv4Addr::new(1, 2, 3, 4), 443)).expect("address encodes");
    assert_eq!(request, vec![5, 1, 0, 1, 1, 2, 3, 4, 1, 187]);
}

#[test]
fn parses_a_bounded_dns_a_response() {
    let query = encode_dns_query("example.com", 0x1234).expect("valid query");
    let mut response = vec![0x12, 0x34, 0x81, 0x80, 0, 1, 0, 1, 0, 0, 0, 0];
    response.extend_from_slice(&query[12..]);
    response.extend_from_slice(&[0xc0, 0x0c, 0, 1, 0, 1, 0, 0, 0, 60, 0, 4, 93, 184, 216, 34]);
    assert_eq!(
        parse_dns_a_response(&response, 0x1234).expect("valid response"),
        vec![Ipv4Addr::new(93, 184, 216, 34)]
    );
    assert!(parse_dns_a_response(&response, 0x9999).is_err());
}

#[test]
fn dns_query_rejects_overlong_labels() {
    let label = "a".repeat(64);
    assert_eq!(encode_dns_query(&format!("{label}.com"), 1).err(), Some(DnsError::LabelLength));
    assert_eq!(encode_dns_query("a..com", 1).err(), Some(DnsError::LabelLength));
    let huge = "a".repeat(256);
    assert_eq!(encode_dns_query(&huge, 1).err(), Some(DnsError::LabelTooLong));
}

#[test]
fn proc_route_table_requires_a_full_tunnel_route() {
    let header = "Iface\tDestination\tGateway\tFlags\tRefCnt\tUse\tMetric\tMask\tMTU\tWindow\tIRTT\n";
    let def1 = format!(
        "{header}tun0\t00000000\t00000000\t0001\t0\t0\t0\t00000080\t0\t0\t0\n\
         tun0\t00000080\t00000000\t0001\t0\t0\t0\t00000080\t0\t0\t0\n"
    );
    assert!(proc_route_table_covers_public_ipv4(&def1));
    let root_default = format!("{header}tun0\t00000000\t00000000\t0001\t0\t0\t0\t00000000\t0\t0\t0\n");
    assert!(proc_route_table_covers_public_ipv4(&root_default));
    let partial = format!("{header}tun0\t00000000\t00000000\t0001\t0\t0\t0\t00000080\t0\t0\t0\n");
    assert!(!proc_route_table_covers_public_ipv4(&partial));
}

#[test]
fn method_selection_requires_password_when_configured() {
    assert_eq!(select_method(&[METHOD_NONE, METHOD_PASSWORD], true), METHOD_PASSWORD);
    assert_eq!(select_method(&[METHOD_NONE], true), METHOD_UNACCEPTABLE);
    assert_eq!(select_method(&[METHOD_NONE], false), METHOD_NONE);
}

#[test]
fn rfc1929_credentials_are_checked() {
    let credentials = Credentials { username: "user".to_owned(), password: SecretString::new("secret") };
    let (reply, outcome) = authenticate(AUTH_VERSION, b"user", b"secret", &credentials);
    assert_eq!(reply, Some([AUTH_VERSION, 0]));
    assert!(outcome.is_ok());
    let (reply, outcome) = authenticate(AUTH_VERSION, b"user", b"wrong", &credentials);
    assert_eq!(reply, Some([AUTH_VERSION, 1]));
    assert_eq!(outcome, Err(SocksConnectionError::Authentication));
    let (reply, outcome) = authenticate(5, b"user", b"secret", &credentials);
    assert_eq!(reply, None);
    assert_eq!(outcome, Err(SocksConnectionError::Authentication));
}

#[test]
fn reply_address_sizes_follow_the_address_type() {
    assert_eq!(reply_address(5, 0, 1), Ok(ReplyAddress::Fixed(6)));
    assert_eq!(reply_address(5, 0, 3), Ok(ReplyAddress::Domain));
    assert_eq!(reply_address(5, 0, 4), Ok(ReplyAddress::Fixed(18)));
    assert_eq!(reply_address(4, 0, 1), Err(SocksConnectionError::Protocol));
    assert_eq!(reply_address(5, 1, 1), Err(SocksConnectionError::Protocol));
    assert_eq!(reply_address(5, 0, 9), Err(SocksConnectionError::Protocol));
}

#[test]
fn rfc1929_authentication_is_required_and_checked() {
    let credentials = Credentials { username: "user".to_owned(), password: SecretString::new("secret") };
    let greeting = [SOCKS_VERSION, 1, METHOD_PASSWORD];
    assert!(greeting_header_ok(greeting[0], greeting[1]));
    let method = select_method(&greeting[2..], true);
    assert_eq!([SOCKS_VERSION, method], [SOCKS_VERSION, METHOD_PASSWORD]);
    let request = [AUTH_VERSION, 4, b'u', b's', b'e', b'r', 6, b's', b'e', b'c', b'r', b'e', b't'];
    let (reply, outcome) = authenticate(request[0], &request[2..6], &request[7..13], &credentials);
    assert_eq!(reply, Some([AUTH_VERSION, 0]));
    assert!(outcome.is_ok());
}

#[test]
fn upstream_probe_checks_password_authentication() {
    assert_eq!(probe_greeting(true), vec![SOCKS_VERSION, 2, METHOD_NONE, METHOD_PASSWORD]);
    match probe_method_reply([SOCKS_VERSION, METHOD_PASSWORD], Some("user"), Some("secret")) {
        ProbeStep::SendAuthentication(request) => assert_eq!(request, b"\x01\x04user\x06secret".to_vec()),
        other => panic!("unexpected step {other:?}"),
    }
    assert_eq!(probe_auth_reply([AUTH_VERSION, 0]), Ok(()));
}

#[test]
fn upstream_probe_reports_authentication_failure() {
    assert_eq!(probe_greeting(false), vec![SOCKS_VERSION, 1, METHOD_NONE]);
    assert!(matches!(
        probe_method_reply([SOCKS_VERSION, METHOD_UNACCEPTABLE], None, None),
        ProbeStep::Fail(UpstreamProbeError::Authentication)
    ));
    assert_eq!(probe_auth_reply([AUTH_VERSION, 1]), Err(UpstreamProbeError::Authentication));
    assert!(matches!(probe_method_reply([SOCKS_VERSION, METHOD_NONE], None, None), ProbeStep::Done));
    assert!(matches!(probe_method_reply([4, METHOD_NONE], None, None), ProbeStep::Fail(UpstreamProbeError::Protocol)));
}

#[test]
fn domain_targets_use_the_first_public_answer() {
    let answers = [Ipv4Addr::new(10, 0, 0, 1), Ipv4Addr::new(93, 184, 216, 34), Ipv4Addr::new(1, 1, 1, 1)];
    assert_eq!(first_public_address(&answers), Some(Ipv4Addr::new(93, 184, 216, 34)));
    assert_eq!(first_public_address(&[Ipv4Addr::new(127, 0, 0, 1), Ipv4Addr::new(192, 168, 1, 1)]), None);
    assert_eq!(first_public_address(&[]), None);
}
