use std::cmp::Ordering;

use vpngate2socks::api::auth::{
    access_error, constant_time_equal, cookie, session_cookie, AccessDecision, AuthManager,
};
use vpngate2socks::api::listing::{compare_nodes, list_nodes, NodesQuery, SortKey, SortOrder};
use vpngate2socks::api::{api_error_for, default_page, default_page_size, ApiError};
use vpngate2socks::config::Credentials;
use vpngate2socks::domain::{
    IpPureResult, Ipv4Addr, NodeAvailability, NodeId, SecretString, TestRecord, Timestamp, VpnNode,
};
use vpngate2socks::service::ServiceError;

fn node(value: u8, score: u64, ping_ms: Option<u32>, speed_bps: u64) -> VpnNode {
    VpnNode {
        id: NodeId::parse(&format!("{value:064x}")).expect("generated node id is valid"),
        hostname: format!("vpn-{value}.example"),
        ip: Ipv4Addr::new(1, 1, 1, value),
        score,
        ping_ms,
        speed_bps,
        country_long: "Japan".to_owned(),
        country_short: "JP".to_owned(),
        sessions: u32::from(value),
        uptime_ms: 1,
        total_users: 1,
        total_traffic_bytes: 1,
        log_type: String::new(),
        operator: String::new(),
        message: String::new(),
        tcp_port: Some(443),
        availability: NodeAvailability::Available,
        openvpn: None,
    }
}

fn query(page: usize, page_size: usize, search: &str, sort: SortKey, order: SortOrder) -> NodesQuery {
    NodesQuery { page, page_size, search: search.to_owned(), sort, order }
}

fn hosts(page: &vpngate2socks::api::listing::NodesPage) -> Vec<String> {
    page.items.iter().map(|s| s.hostname.clone()).collect()
}

fn now() -> Timestamp {
    Timestamp { secs: 1_700_000_000, nanos: 0 }
}

#[test]
fn empty_catalog_lists_nothing() {
    let page = list_nodes(&[], &[], &query(default_page(), default_page_size(), "", SortKey::default(), SortOrder::default()))
        .expect("valid query");
    assert_eq!(page.total, 0);
    assert!(page.items.is_empty());
    assert_eq!((page.page, page.page_size), (1, 50));
}

#[test]
fn invalid_pagination_is_refused() {
    for q in [
        query(0, 50, "", SortKey::Score, SortOrder::Desc),
        query(1, 0, "", SortKey::Score, SortOrder::Desc),
        query(1, 201, "", SortKey::Score, SortOrder::Desc),
        query(1, 50, &"x".repeat(257), SortKey::Score, SortOrder::Desc),
    ] {
        let e = list_nodes(&[], &[], &q).expect_err("invalid query");
        assert_eq!((e.status, e.code, e.message.as_str()), (400, "invalidPagination", "分页或搜索参数无效"));
    }
    assert!(list_nodes(&[], &[], &query(1, 200, &"é".repeat(128), SortKey::Score, SortOrder::Desc)).is_ok());
}

#[test]
fn nodes_are_sorted_filtered_and_paged() {
    let nodes = vec![node(1, 10, Some(30), 5), node(2, 30, None, 7), node(3, 20, Some(10), 9)];
    let desc = list_nodes(&nodes, &[], &query(1, 50, "", SortKey::Score, SortOrder::Desc)).expect("valid");
    assert_eq!(hosts(&desc), ["vpn-2.example", "vpn-3.example", "vpn-1.example"]);
    let asc = list_nodes(&nodes, &[], &query(1, 50, "", SortKey::Speed, SortOrder::Asc)).expect("valid");
    assert_eq!(hosts(&asc), ["vpn-1.example", "vpn-2.example", "vpn-3.example"]);
    let ping_desc = list_nodes(&nodes, &[], &query(1, 50, "", SortKey::Ping, SortOrder::Desc)).expect("valid");
    assert_eq!(hosts(&ping_desc), ["vpn-1.example", "vpn-3.example", "vpn-2.example"]);
    let page2 = list_nodes(&nodes, &[], &query(2, 2, "", SortKey::Sessions, SortOrder::Asc)).expect("valid");
    assert_eq!(hosts(&page2), ["vpn-3.example"]);
    assert_eq!(page2.total, 3);
    let searched = list_nodes(&nodes, &[], &query(1, 50, "VPN-3", SortKey::Score, SortOrder::Desc)).expect("valid");
    assert_eq!(hosts(&searched), ["vpn-3.example"]);
    assert_eq!(searched.total, 1);
    let beyond = list_nodes(&nodes, &[], &query(usize::MAX, 200, "", SortKey::Score, SortOrder::Desc)).expect("valid");
    assert!(beyond.items.is_empty());
}

#[test]
fn summaries_carry_the_latest_test() {
    let nodes = vec![node(1, 10, Some(30), 5)];
    let record = TestRecord {
        node_id: nodes[0].id.duplicate(),
        result: Some(IpPureResult { fraud_score_bits: 3.0f64.to_bits(), is_residential: true, is_broadcast: false, exit_ip: None }),
        duration_ms: 4,
        tested_at: now(),
        error: None,
    };
    let page = list_nodes(&nodes, &[record], &query(1, 50, "", SortKey::Score, SortOrder::Desc)).expect("valid");
    assert_eq!(page.items[0].latest_test.as_ref().map(|t| t.duration_ms), Some(4));
}

#[test]
fn compare_nodes_puts_unmeasured_ping_last_and_breaks_ties_by_id() {
    let a = node(1, 10, None, 5);
    let b = node(2, 10, Some(5), 5);
    assert_eq!(compare_nodes(&b, &a, SortKey::Ping, SortOrder::Asc), Ordering::Less);
    assert_eq!(compare_nodes(&b, &a, SortKey::Ping, SortOrder::Desc), Ordering::Less);
    assert_eq!(compare_nodes(&a, &b, SortKey::Score, SortOrder::Desc), Ordering::Less);
    assert_eq!(compare_nodes(&a, &a, SortKey::Score, SortOrder::Desc), Ordering::Equal);
}

#[test]
fn service_errors_map_to_stable_codes() {
    let e: ApiError = api_error_for(&ServiceError::QueueFull);
    assert_eq!((e.status, e.code), (429, "testQueueFull"));
    let e = api_error_for(&ServiceError::NodeNotFound);
    assert_eq!((e.status, e.code), (404, "notFound"));
    let e = ApiError::internal();
    assert_eq!((e.status, e.code, e.message.as_str()), (500, "internalError", "内部错误"));
}

#[test]
fn cookie_header_is_split_and_trimmed() {
    assert_eq!(cookie("a=1; vpngate2socks_session=abc ; b=2", "vpngate2socks_session").as_deref(), Some("abc"));
    assert_eq!(cookie("vpngate2socks_session_x=1", "vpngate2socks_session"), None);
    assert_eq!(cookie("", "vpngate2socks_session"), None);
}

#[test]
fn cookies_have_the_documented_attributes() {
    assert_eq!(
        session_cookie("t0k", false),
        "vpngate2socks_session=t0k; Path=/; HttpOnly; SameSite=Strict; Max-Age=28800"
    );
    assert_eq!(
        session_cookie("t0k", true),
        "vpngate2socks_session=t0k; Path=/; HttpOnly; SameSite=Strict; Max-Age=28800; Secure"
    );
    assert!(constant_time_equal(b"same", b"same"));
    assert!(!constant_time_equal(b"same", b"other"));
}

fn credentials() -> Credentials {
    Credentials { username: "operator".to_owned(), password: SecretString::new("secret") }
}

#[test]
fn lan_session_requires_cookie_and_csrf_for_mutations() {
    let mut auth = AuthManager::new(Some(credentials()), false);

    let unauthorized = auth.authorize_at(None, "GET", None, now());
    assert_eq!(access_error(unauthorized).map(|e| e.status), Some(401));

    let login = auth
        .login_at("operator", "secret", now(), "a".repeat(32), "c".repeat(32))
        .expect("login succeeds");
    assert!(login.response.authenticated);
    let cookie_header = login
        .set_cookie
        .expect("session cookie")
        .split(';')
        .next()
        .expect("cookie value")
        .to_owned();
    let csrf = login.response.csrf_token.expect("CSRF token");

    let missing_csrf = auth.authorize_at(Some(&cookie_header), "DELETE", None, now());
    assert_eq!(access_error(missing_csrf).map(|e| e.status), Some(403));

    let allowed = auth.authorize_at(Some(&cookie_header), "DELETE", Some(&csrf), now());
    assert_eq!(allowed, AccessDecision::Allowed);
}

#[test]
fn wrong_credentials_are_refused_and_sessions_expire() {
    let mut auth = AuthManager::new(Some(credentials()), true);
    let e = auth.login_at("operator", "wrong", now(), "a".repeat(32), "c".repeat(32)).expect_err("refused");
    assert_eq!((e.status, e.code), (401, "invalidCredentials"));

    let reply = auth.login_at("operator", "secret", now(), "b".repeat(32), "d".repeat(32)).expect("login");
    assert!(reply.set_cookie.expect("cookie").ends_with("; Secure"));
    let header = format!("vpngate2socks_session={}", "b".repeat(32));
    let live = auth.session_response_at(Some(&header), Timestamp { secs: now().secs + 100, nanos: 0 });
    assert!(live.authenticated);
    assert_eq!(live.csrf_token.as_deref(), Some("d".repeat(32).as_str()));
    assert_eq!(
        auth.authorize_at(Some(&header), "POST", Some("wrong"), now()),
        AccessDecision::CsrfInvalid
    );
    let expired = auth.session_response_at(Some(&header), Timestamp { secs: now().secs + 28_800, nanos: 0 });
    assert!(!expired.authenticated);
    let later = auth.session_response_at(Some(&header), now());
    assert!(!later.authenticated);
}

#[test]
fn logout_ends_the_session() {
    let mut auth = AuthManager::new(Some(credentials()), false);
    auth.login_at("operator", "secret", now(), "e".repeat(32), "f".repeat(32)).expect("login");
    let header = format!("vpngate2socks_session={}", "e".repeat(32));
    assert!(auth.session_at(Some(&header), now()).is_some());
    let cleared = auth.logout(Some(&header));
    assert_eq!(cleared, "vpngate2socks_session=; Path=/; HttpOnly; SameSite=Strict; Max-Age=0");
    assert!(auth.session_at(Some(&header), now()).is_none());
}

#[test]
fn without_credentials_everything_is_open() {
    let mut auth = AuthManager::new(None, false);
    assert!(!auth.is_required());
    assert_eq!(auth.authorize_at(None, "DELETE", None, now()), AccessDecision::Allowed);
    let reply = auth.login_at("x", "y", now(), "a".repeat(32), "b".repeat(32)).expect("open login");
    assert!(reply.response.authenticated && reply.response.csrf_token.is_none() && reply.set_cookie.is_none());
    let live = auth.session_response(None);
    assert!(live.authenticated);
}

#[test]
fn real_login_issues_random_tokens() {
    let mut auth = AuthManager::new(Some(credentials()), false);
    let reply = auth.login("operator", "secret").expect("login");
    let csrf = reply.response.csrf_token.expect("csrf");
    assert_eq!(csrf.len(), 32);
    assert!(csrf.chars().all(|c| c.is_ascii_hexdigit() && !c.is_ascii_uppercase()));
    let header = reply.set_cookie.expect("cookie").split(';').next().expect("pair").to_owned();
    assert_eq!(auth.authorize(Some(&header), "PUT", Some(&csrf)), AccessDecision::Allowed);
}
