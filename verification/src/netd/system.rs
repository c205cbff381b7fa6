//! Worker bookkeeping, network addressing and generated helper texts.

use vstd::prelude::*;

use crate::domain::{ipv4_text, is_public_ipv4, public_ipv4, Ipv4Addr, UpstreamEndpoint};
use crate::openvpn::{sanitize_openvpn, sanitized, SanitizedOpenVpn};
use crate::text::{
    chars_eq, chars_to_string, contains_chars, contains_seq, decimal, decimal_chars, eq_str,
    lines, push_all, push_str, split_lines, split_tokens, str_chars, tokens, trim, trim_bounds,
    views,
};

verus! {

/// Workers kept while a replacement connection is being made.
pub const MAX_DRAINING_WORKERS: usize = 8;

/// Upper bound on managed workers.
pub const MAX_MANAGED_WORKERS: usize = 64;

/// Search path given to child processes.
pub const CHILD_PATH: &'static str = "/usr/local/sbin:/usr/local/bin:/usr/sbin:/usr/bin:/sbin:/bin";

/// Why a worker request failed.
#[derive(Debug)]
pub enum WorkerError {
    Duplicate,
    NotFound,
    Capacity,
    InvalidProfile,
    RemoteMismatch,
    File,
    Network(String),
    OpenVpnSpawn,
    OpenVpnExited,
    Management,
    ConnectTimeout,
    WorkerSpawn,
    WorkerNotReady,
    ShuttingDown,
}

/// Fatal helper setup or listener error.
#[derive(Debug)]
pub enum NetdServerError {
    UnsupportedPlatform,
    Runtime,
    Bind,
    Accept,
    Guard(String),
}

pub open spec fn error_code(e: WorkerError) -> Seq<char> {
    match e {
        WorkerError::Duplicate => "duplicateWorker"@,
        WorkerError::NotFound => "workerNotFound"@,
        WorkerError::Capacity => "capacityExhausted"@,
        WorkerError::InvalidProfile => "invalidProfile"@,
        WorkerError::RemoteMismatch => "invalidProfile"@,
        WorkerError::ConnectTimeout => "connectTimeout"@,
        WorkerError::OpenVpnExited => "openvpnExited"@,
        WorkerError::WorkerNotReady => "workerNotReady"@,
        WorkerError::ShuttingDown => "shuttingDown"@,
        _ => "workerSetupFailed"@,
    }
}

pub open spec fn error_text(e: WorkerError) -> Seq<char> {
    match e {
        WorkerError::Duplicate => "worker id already exists"@,
        WorkerError::NotFound => "worker id was not found"@,
        WorkerError::Capacity => "worker capacity is exhausted"@,
        WorkerError::InvalidProfile => "control plane supplied an invalid sanitized profile"@,
        WorkerError::RemoteMismatch => "worker remote endpoint does not match its profile"@,
        WorkerError::File => "failed to prepare worker files"@,
        WorkerError::Network(m) => "network command failed: "@ + m@,
        WorkerError::OpenVpnSpawn => "OpenVPN process could not be started"@,
        WorkerError::OpenVpnExited => "OpenVPN exited before becoming ready"@,
        WorkerError::Management => "OpenVPN management interface failed"@,
        WorkerError::ConnectTimeout => "OpenVPN connection timed out"@,
        WorkerError::WorkerSpawn => "worker SOCKS process could not be started"@,
        WorkerError::WorkerNotReady => "worker SOCKS socket did not become ready"@,
        WorkerError::ShuttingDown => "netd is shutting down"@,
    }
}

impl WorkerError {
    /// The stable code reported to the control plane.
    pub fn code(&self) -> (r: &'static str)
        ensures
            r@ == error_code(*self),
    {
        match self {
            WorkerError::Duplicate => "duplicateWorker",
            WorkerError::NotFound => "workerNotFound",
            WorkerError::Capacity => "capacityExhausted",
            WorkerError::InvalidProfile => "invalidProfile",
            WorkerError::RemoteMismatch => "invalidProfile",
            WorkerError::ConnectTimeout => "connectTimeout",
            WorkerError::OpenVpnExited => "openvpnExited",
            WorkerError::WorkerNotReady => "workerNotReady",
            WorkerError::ShuttingDown => "shuttingDown",
            _ => "workerSetupFailed",
        }
    }

    /// The human-readable description.
    pub fn message(&self) -> (r: String)
        ensures
            r@ == error_text(*self),
    {
        match self {
            WorkerError::Duplicate => "worker id already exists".to_owned(),
            WorkerError::NotFound => "worker id was not found".to_owned(),
            WorkerError::Capacity => "worker capacity is exhausted".to_owned(),
            WorkerError::InvalidProfile => "control plane supplied an invalid sanitized profile".to_owned(),
            WorkerError::RemoteMismatch => "worker remote endpoint does not match its profile".to_owned(),
            WorkerError::File => "failed to prepare worker files".to_owned(),
            WorkerError::Network(m) => {
                let mut v = str_chars("network command failed: ");
                push_str(&mut v, m.as_str());
                chars_to_string(v.as_slice())
            },
            WorkerError::OpenVpnSpawn => "OpenVPN process could not be started".to_owned(),
            WorkerError::OpenVpnExited => "OpenVPN exited before becoming ready".to_owned(),
            WorkerError::Management => "OpenVPN management interface failed".to_owned(),
            WorkerError::ConnectTimeout => "OpenVPN connection timed out".to_owned(),
            WorkerError::WorkerSpawn => "worker SOCKS process could not be started".to_owned(),
            WorkerError::WorkerNotReady => "worker SOCKS socket did not become ready".to_owned(),
            WorkerError::ShuttingDown => "netd is shutting down".to_owned(),
        }
    }
}

/// Workers the helper runs at once: the parallel tests plus draining
/// connections, capped.
pub fn max_workers(max_parallel_tests: usize) -> (r: usize)
    ensures
        r == if max_parallel_tests + MAX_DRAINING_WORKERS < MAX_MANAGED_WORKERS {
            max_parallel_tests + MAX_DRAINING_WORKERS
        } else {
            MAX_MANAGED_WORKERS as int
        },
{
    let total = max_parallel_tests.saturating_add(MAX_DRAINING_WORKERS);
    if total < MAX_MANAGED_WORKERS {
        total
    } else {
        MAX_MANAGED_WORKERS
    }
}

/// The worker connect timeout, kept between one second and five minutes.
pub fn clamp_connect_timeout_ms(ms: u64) -> (r: u64)
    ensures
        r == if ms < 1000 { 1000 } else if ms > 300000 { 300000 } else { ms },
{
    if ms < 1000 {
        1000
    } else if ms > 300000 {
        300000
    } else {
        ms
    }
}

/// The `nsenter` argument that enters a named network namespace.
pub fn namespace_argument(namespace: &str) -> (r: String)
    ensures
        r@ == "--net=/run/netns/"@ + namespace@,
{
    let mut v = str_chars("--net=/run/netns/");
    push_str(&mut v, namespace);
    chars_to_string(v.as_slice())
}

/// Whether `/proc/sys/net/ipv4/ip_forward` reports forwarding as enabled.
pub fn ip_forwarding_enabled(contents: &str) -> (r: bool)
    ensures
        r == (trim(contents@) == "1"@),
{
    let v = str_chars(contents);
    let (a, b) = trim_bounds(v.as_slice());
    let t = crate::text::copy_range(v.as_slice(), a, b);
    eq_str(t.as_slice(), "1")
}

/// The root namespace firewall: nothing reaches the host from worker links,
/// only the web and SOCKS ports are open, the host talks only to the upstream,
/// and workers are forwarded only to the upstream.
pub open spec fn root_guard_text(host: Ipv4Addr, port: u16, web_port: u16, socks_port: u16) -> Seq<char> {
    let h = ipv4_text(host);
    let p = decimal(port as nat);
    "\ntable inet vpngate2socks_root {\n    chain input {\n        type filter hook input priority filter; policy drop;\n        iifname \"lo\" accept\n        iifname \"v2h*\" drop\n        ct state established,related accept\n        tcp dport { "@
        + decimal(web_port as nat) + ", "@ + decimal(socks_port as nat)
        + " } accept\n    }\n    chain output {\n        type filter hook output priority filter; policy drop;\n        oifname \"lo\" accept\n        ct state established,related accept\n        ip daddr "@
        + h + " tcp dport "@ + p
        + " accept\n    }\n    chain forward {\n        type filter hook forward priority filter; policy drop;\n        iifname \"v2h*\" ip daddr "@
        + h + " tcp dport "@ + p + " accept\n        oifname \"v2h*\" ip saddr "@ + h + " tcp sport "@ + p
        + " ct state established,related accept\n    }\n    chain postrouting {\n        type nat hook postrouting priority srcnat; policy accept;\n        ip saddr 10.231.0.0/16 masquerade\n    }\n}\n"@
}

pub fn root_guard_script(upstream: &UpstreamEndpoint, web_port: u16, socks_port: u16) -> (r: String)
    ensures
        r@ == root_guard_text(upstream.spec_host(), upstream.spec_port(), web_port, socks_port),
{
    let (host, port) = upstream.socket_addr();
    let h = host.to_chars();
    let p = decimal_chars(port as u64);
    let mut v = str_chars(
        "\ntable inet vpngate2socks_root {\n    chain input {\n        type filter hook input priority filter; policy drop;\n        iifname \"lo\" accept\n        iifname \"v2h*\" drop\n        ct state established,related accept\n        tcp dport { ",
    );
    push_all(&mut v, decimal_chars(web_port as u64).as_slice());
    push_str(&mut v, ", ");
    push_all(&mut v, decimal_chars(socks_port as u64).as_slice());
    push_str(
        &mut v,
        " } accept\n    }\n    chain output {\n        type filter hook output priority filter; policy drop;\n        oifname \"lo\" accept\n        ct state established,related accept\n        ip daddr ",
    );
    push_all(&mut v, h.as_slice());
    push_str(&mut v, " tcp dport ");
    push_all(&mut v, p.as_slice());
    push_str(
        &mut v,
        " accept\n    }\n    chain forward {\n        type filter hook forward priority filter; policy drop;\n        iifname \"v2h*\" ip daddr ",
    );
    push_all(&mut v, h.as_slice());
    push_str(&mut v, " tcp dport ");
    push_all(&mut v, p.as_slice());
    push_str(&mut v, " accept\n        oifname \"v2h*\" ip saddr ");
    push_all(&mut v, h.as_slice());
    push_str(&mut v, " tcp sport ");
    push_all(&mut v, p.as_slice());
    push_str(
        &mut v,
        " ct state established,related accept\n    }\n    chain postrouting {\n        type nat hook postrouting priority srcnat; policy accept;\n        ip saddr 10.231.0.0/16 masquerade\n    }\n}\n",
    );
    assert(v@ =~= root_guard_text(host, port, web_port, socks_port));
    chars_to_string(v.as_slice())
}

/// The worker namespace firewall: the worker link carries only the upstream
/// connection, and everything else leaves through the tunnel.
pub open spec fn worker_guard_text(worker_veth: Seq<char>, host: Ipv4Addr, port: u16) -> Seq<char> {
    let h = ipv4_text(host);
    let p = decimal(port as nat);
    "\ntable inet vpngate2socks_guard {\n    chain input {\n        type filter hook input priority filter; policy drop;\n        iifname \"lo\" accept\n        iifname \""@
        + worker_veth + "\" ip saddr "@ + h + " tcp sport "@ + p
        + " ct state established,related accept\n        iifname \"tun0\" ct state established,related accept\n    }\n    chain output {\n        type filter hook output priority filter; policy drop;\n        oifname \"lo\" accept\n        oifname \""@
        + worker_veth + "\" ip daddr "@ + h + " tcp dport "@ + p
        + " accept\n        oifname \"tun0\" accept\n    }\n}\n"@
}

pub fn worker_guard_script(worker_veth: &str, upstream: &UpstreamEndpoint) -> (r: String)
    ensures
        r@ == worker_guard_text(worker_veth@, upstream.spec_host(), upstream.spec_port()),
{
    let (host, port) = upstream.socket_addr();
    let h = host.to_chars();
    let p = decimal_chars(port as u64);
    let mut v = str_chars(
        "\ntable inet vpngate2socks_guard {\n    chain input {\n        type filter hook input priority filter; policy drop;\n        iifname \"lo\" accept\n        iifname \"",
    );
    push_str(&mut v, worker_veth);
    push_str(&mut v, "\" ip saddr ");
    push_all(&mut v, h.as_slice());
    push_str(&mut v, " tcp sport ");
    push_all(&mut v, p.as_slice());
    push_str(
        &mut v,
        " ct state established,related accept\n        iifname \"tun0\" ct state established,related accept\n    }\n    chain output {\n        type filter hook output priority filter; policy drop;\n        oifname \"lo\" accept\n        oifname \"",
    );
    push_str(&mut v, worker_veth);
    push_str(&mut v, "\" ip daddr ");
    push_all(&mut v, h.as_slice());
    push_str(&mut v, " tcp dport ");
    push_all(&mut v, p.as_slice());
    push_str(&mut v, " accept\n        oifname \"tun0\" accept\n    }\n}\n");
    assert(v@ =~= worker_guard_text(worker_veth@, host, port));
    chars_to_string(v.as_slice())
}

/// The profile OpenVPN runs: the sanitized profile, routed through the
/// upstream SOCKS proxy and driven over a management socket.
pub open spec fn runtime_profile_text(
    sanitized: Seq<char>,
    host: Ipv4Addr,
    port: u16,
    auth_path: Option<Seq<char>>,
    management_path: Seq<char>,
) -> Seq<char> {
    sanitized + "socks-proxy "@ + ipv4_text(host) + seq![' '] + decimal(port as nat) + match auth_path {
        Some(a) => seq![' '] + a,
        None => Seq::empty(),
    } + "\nmanagement "@ + management_path + " unix\nmanagement-hold\nmanagement-query-passwords\n"@
}

pub fn build_runtime_profile(
    sanitized: &str,
    upstream: &UpstreamEndpoint,
    auth_path: Option<&str>,
    management_path: &str,
) -> (r: String)
    ensures
        r@ == runtime_profile_text(
            sanitized@,
            upstream.spec_host(),
            upstream.spec_port(),
            match auth_path {
                Some(a) => Some(a@),
                None => None,
            },
            management_path@,
        ),
{
    let (host, port) = upstream.socket_addr();
    let mut v = str_chars(sanitized);
    push_str(&mut v, "socks-proxy ");
    push_all(&mut v, host.to_chars().as_slice());
    v.push(' ');
    push_all(&mut v, decimal_chars(port as u64).as_slice());
    let ghost before_auth = v@;
    match auth_path {
        Some(a) => {
            v.push(' ');
            push_str(&mut v, a);
        },
        None => {},
    }
    push_str(&mut v, "\nmanagement ");
    push_str(&mut v, management_path);
    push_str(&mut v, " unix\nmanagement-hold\nmanagement-query-passwords\n");
    assert(v@ =~= runtime_profile_text(
        sanitized@,
        host,
        port,
        match auth_path {
            Some(a) => Some(a@),
            None => None,
        },
        management_path@,
    ));
    chars_to_string(v.as_slice())
}

/// The OpenVPN credentials file for an upstream with a username: the username
/// and the password on their own lines.
pub fn upstream_auth_file(upstream: &UpstreamEndpoint) -> (r: Result<Option<String>, WorkerError>)
    ensures
        match (upstream.spec_username(), upstream.spec_password()) {
            (None, _) => r matches Ok(None),
            (Some(u), Some(p)) => r matches Ok(Some(t)) && t@ == u + seq!['\n'] + p + seq!['\n'],
            (Some(_), None) => r matches Err(WorkerError::InvalidProfile),
        },
{
    let user = match upstream.username() {
        Some(u) => u,
        None => {
            return Ok(None);
        },
    };
    let password = match upstream.password() {
        Some(p) => p,
        None => {
            return Err(WorkerError::InvalidProfile);
        },
    };
    let mut v = str_chars(user);
    v.push('\n');
    push_str(&mut v, password);
    v.push('\n');
    Ok(Some(chars_to_string(v.as_slice())))
}

/// Checks a profile the control plane sent against the endpoint it claims:
/// the endpoint must be public, the profile must sanitize for its address,
/// and the sanitized remote must be that endpoint.
pub fn validate_worker_profile(expected_remote: (Ipv4Addr, u16), profile_text: &str) -> (r: Result<SanitizedOpenVpn, WorkerError>)
    ensures
        !public_ipv4(expected_remote.0) ==> r matches Err(WorkerError::RemoteMismatch),
        public_ipv4(expected_remote.0) ==> match sanitized(encode_bytes(profile_text@), expected_remote.0) {
            Err(_) => r matches Err(WorkerError::InvalidProfile),
            Ok((text, remote)) => if remote != expected_remote {
                r matches Err(WorkerError::RemoteMismatch)
            } else {
                r matches Ok(p) && p.spec_text() == text && p.spec_remote() == remote
            },
        },
{
    if !is_public_ipv4(expected_remote.0) {
        return Err(WorkerError::RemoteMismatch);
    }
    let profile = match sanitize_openvpn(profile_text.as_bytes(), expected_remote.0) {
        Ok(p) => p,
        Err(_) => {
            return Err(WorkerError::InvalidProfile);
        },
    };
    let remote = profile.remote();
    if remote.0 != expected_remote.0 || remote.1 != expected_remote.1 {
        return Err(WorkerError::RemoteMismatch);
    }
    Ok(profile)
}

pub open spec fn encode_bytes(s: Seq<char>) -> Seq<u8> {
    vstd::utf8::encode_utf8(s)
}

pub open spec fn starts_with(s: Seq<char>, prefix: Seq<char>) -> bool {
    prefix.len() <= s.len() && s.subrange(0, prefix.len() as int) == prefix
}

fn starts_with_str(s: &[char], prefix: &str) -> (r: bool)
    ensures
        r == starts_with(s@, prefix@),
{
    let p = str_chars(prefix);
    if p.len() > s.len() {
        return false;
    }
    let head = crate::text::copy_range(s, 0, p.len());
    chars_eq(head.as_slice(), p.as_slice())
}

/// What a management line means while waiting for the connection.
#[derive(Clone, Copy, Debug, PartialEq, Eq, Structural)]
pub enum ManagementEvent {
    Connected,
    Failed,
    Other,
}

pub open spec fn connect_event_of(line: Seq<char>) -> ManagementEvent {
    if contains_seq(line, ",CONNECTED,SUCCESS,"@) {
        ManagementEvent::Connected
    } else if starts_with(line, ">FATAL:"@) || contains_seq(line, ",EXITING,"@) {
        ManagementEvent::Failed
    } else {
        ManagementEvent::Other
    }
}

/// Classifies a management line while waiting for `CONNECTED,SUCCESS`.
pub fn connect_event(line: &str) -> (r: ManagementEvent)
    ensures
        r == connect_event_of(line@),
{
    let v = str_chars(line);
    if contains_chars(v.as_slice(), str_chars(",CONNECTED,SUCCESS,").as_slice()) {
        ManagementEvent::Connected
    } else if starts_with_str(v.as_slice(), ">FATAL:") || contains_chars(v.as_slice(), str_chars(",EXITING,").as_slice()) {
        ManagementEvent::Failed
    } else {
        ManagementEvent::Other
    }
}

/// How a management line changes readiness after the connection came up:
/// a state line sets it to whether the tunnel is connected, a fatal line
/// clears it and ends monitoring.
pub open spec fn monitor_update_of(line: Seq<char>) -> Option<(bool, bool)> {
    if starts_with(line, ">STATE:"@) {
        Some((contains_seq(line, ",CONNECTED,SUCCESS,"@), false))
    } else if starts_with(line, ">FATAL:"@) {
        Some((false, true))
    } else {
        None
    }
}

/// The readiness a line sets and whether monitoring stops, if the line matters.
pub fn monitor_update(line: &str) -> (r: Option<(bool, bool)>)
    ensures
        r == monitor_update_of(line@),
{
    let v = str_chars(line);
    if starts_with_str(v.as_slice(), ">STATE:") {
        Some((contains_chars(v.as_slice(), str_chars(",CONNECTED,SUCCESS,").as_slice()), false))
    } else if starts_with_str(v.as_slice(), ">FATAL:") {
        Some((false, true))
    } else {
        None
    }
}

/// A route line that leaves through `tun0`, as its first field.
pub open spec fn via_tun(fields: Seq<Seq<char>>) -> bool {
    exists|i: int| 0 <= i && i + 1 < fields.len() && fields[i] == "dev"@ && #[trigger] fields[i + 1] == "tun0"@
}

pub open spec fn tun_route_with(ls: Seq<Seq<char>>, first: Seq<char>) -> bool {
    exists|k: int| 0 <= k < ls.len() && via_tun(#[trigger] tokens(ls[k])) && tokens(ls[k]).len() > 0 && tokens(ls[k])[0] == first
}

/// The tunnel carries all public IPv4 traffic: a default route through
/// `tun0`, or both halves `0.0.0.0/1` and `128.0.0.0/1` through it.
pub open spec fn routes_cover(routes: Seq<char>) -> bool {
    let ls = lines(routes);
    tun_route_with(ls, "default"@) || (tun_route_with(ls, "0.0.0.0/1"@) && tun_route_with(ls, "128.0.0.0/1"@))
}

fn has_tun_pair(fields: &Vec<Vec<char>>) -> (r: bool)
    ensures
        r == via_tun(views(fields@)),
{
    let ghost fv = views(fields@);
    let mut i: usize = 0;
    while fields.len() > 1 && i < fields.len() - 1
        invariant
            fv == views(fields@),
            forall|k: int| 0 <= k < i && k + 1 < fv.len() ==> !(fv[k] == "dev"@ && #[trigger] fv[k + 1] == "tun0"@),
        decreases fields.len() - i,
    {
        assert(fv[i as int] == fields@[i as int]@ && fv[i + 1] == fields@[i + 1]@);
        if eq_str(fields[i].as_slice(), "dev") && eq_str(fields[i + 1].as_slice(), "tun0") {
            return true;
        }
        i = i + 1;
    }
    false
}

/// Whether `ip -4 route` output sends all public IPv4 traffic through `tun0`.
pub fn route_output_covers_public_ipv4(routes: &str) -> (r: bool)
    ensures
        r == routes_cover(routes@),
{
    let chars = str_chars(routes);
    let ls = split_lines(chars.as_slice());
    let ghost lv = views(ls@);
    let mut default = false;
    let mut lower_half = false;
    let mut upper_half = false;
    let mut k: usize = 0;
    while k < ls.len()
        invariant
            k <= ls@.len(),
            lv == views(ls@),
            lv == lines(routes@),
            default == exists|m: int| 0 <= m < k && via_tun(#[trigger] tokens(lv[m])) && tokens(lv[m]).len() > 0 && tokens(lv[m])[0] == "default"@,
            lower_half == exists|m: int| 0 <= m < k && via_tun(#[trigger] tokens(lv[m])) && tokens(lv[m]).len() > 0 && tokens(lv[m])[0] == "0.0.0.0/1"@,
            upper_half == exists|m: int| 0 <= m < k && via_tun(#[trigger] tokens(lv[m])) && tokens(lv[m]).len() > 0 && tokens(lv[m])[0] == "128.0.0.0/1"@,
        decreases ls.len() - k,
    {
        assert(lv[k as int] == ls@[k as int]@);
        let fields = split_tokens(ls[k].as_slice());
        if has_tun_pair(&fields) && fields.len() > 0 {
            assert(views(fields@)[0] == fields@[0]@);
            if eq_str(fields[0].as_slice(), "default") {
                default = true;
            }
            if eq_str(fields[0].as_slice(), "0.0.0.0/1") {
                lower_half = true;
            }
            if eq_str(fields[0].as_slice(), "128.0.0.0/1") {
                upper_half = true;
            }
        }
        k = k + 1;
    }
    default || (lower_half && upper_half)
}

/// Four lowercase hexadecimal digits, as `format!("{:04x}")` writes a `u16`.
pub open spec fn hex4(v: u16) -> Seq<char> {
    seq![
        crate::text::hex_digit((v / 4096) as nat),
        crate::text::hex_digit(((v / 256) % 16) as nat),
        crate::text::hex_digit(((v / 16) % 16) as nat),
        crate::text::hex_digit((v % 16) as nat),
    ]
}

fn nibble(n: u16) -> (r: char)
    requires
        n < 16,
    ensures
        r == crate::text::hex_digit(n as nat),
{
    let b = n as u8;
    if b < 10 {
        (b + 48) as char
    } else {
        (b + 87) as char
    }
}

/// The interfaces and addresses of one worker network.
#[derive(Debug)]
pub struct NetworkAllocation {
    pub index: u16,
    pub namespace: String,
    pub host_veth: String,
    pub worker_veth: String,
    pub host_ip: Ipv4Addr,
    pub worker_ip: Ipv4Addr,
}

/// Network `index` (1 to 16383) owns the /30 at `10.231.(index / 64).((index % 64) * 4)`:
/// the host end is its first address and the worker end its second.
pub open spec fn allocation_matches(a: NetworkAllocation, index: u16) -> bool {
    let third = (index / 64) as u8;
    let base = ((index % 64) * 4) as u8;
    &&& a.index == index
    &&& a.namespace@ == "v2s-"@ + hex4(index)
    &&& a.host_veth@ == "v2h"@ + hex4(index)
    &&& a.worker_veth@ == "v2w"@ + hex4(index)
    &&& a.host_ip == (Ipv4Addr { a: 10, b: 231, c: third, d: (base + 1) as u8 })
    &&& a.worker_ip == (Ipv4Addr { a: 10, b: 231, c: third, d: (base + 2) as u8 })
}

/// Which index an allocation takes: the most recently released one, else
/// the next fresh one (the counter wraps as a `u16`).
pub open spec fn pool_take(free: Seq<u16>, next: u16) -> (u16, Seq<u16>, u16) {
    if free.len() > 0 {
        (free.last(), free.drop_last(), next)
    } else {
        (next, free, if next == u16::MAX { 0u16 } else { (next + 1) as u16 })
    }
}

/// A pool in which released indices are distinct, were handed out before,
/// and the counter has not wrapped.
pub open spec fn pool_ok(free: Seq<u16>, next: u16) -> bool {
    &&& next < u16::MAX
    &&& forall|i: int| 0 <= i < free.len() ==> 1 <= #[trigger] free[i] < next
    &&& forall|i: int, j: int| 0 <= i < j < free.len() ==> #[trigger] free[i] != #[trigger] free[j]
}

/// Two allocations in a row, with no release between them, never share an index.
pub proof fn allocations_differ(free: Seq<u16>, next: u16)
    requires
        pool_ok(free, next),
    ensures
        pool_take(free, next).0 != pool_take(pool_take(free, next).1, pool_take(free, next).2).0,
{
    if free.len() > 1 {
        assert(free.drop_last().last() == free[free.len() - 2]);
    }
}

/// A released index is the next one handed out.
pub proof fn released_index_is_reused(free: Seq<u16>, next: u16, index: u16)
    ensures
        pool_take(free.push(index), next).0 == index,
        pool_take(free.push(index), next).1 == free,
{
    assert(free.push(index).drop_last() =~= free);
}

/// Hands out worker network indices and takes them back.
pub struct NetworkPool {
    free: Vec<u16>,
    next: u16,
}

impl NetworkPool {
    pub closed spec fn free_indices(&self) -> Seq<u16> {
        self.free@
    }

    pub closed spec fn next_index(&self) -> u16 {
        self.next
    }

    pub fn new() -> (r: NetworkPool)
        ensures
            r.free_indices() == Seq::<u16>::empty(),
            r.next_index() == 1,
    {
        NetworkPool { free: Vec::new(), next: 1 }
    }

    /// Takes an index and derives its names and addresses; indices outside
    /// 1 to 16383 exhaust the capacity.
    pub fn allocate(&mut self) -> (r: Result<NetworkAllocation, WorkerError>)
        ensures
            ({
                let t = pool_take(old(self).free_indices(), old(self).next_index());
                &&& final(self).free_indices() == t.1
                &&& final(self).next_index() == t.2
                &&& if t.0 == 0 || t.0 > 16383 {
                    r matches Err(WorkerError::Capacity)
                } else {
                    r matches Ok(a) && allocation_matches(a, t.0)
                }
            }),
    {
        let index = match self.free.pop() {
            Some(i) => i,
            None => {
                let i = self.next;
                self.next = if self.next == u16::MAX { 0 } else { self.next + 1 };
                i
            },
        };
        if index == 0 || index > 16383 {
            return Err(WorkerError::Capacity);
        }
        let third = (index / 64) as u8;
        let base = ((index % 64) * 4) as u8;
        let mut short: Vec<char> = Vec::new();
        short.push(nibble(index / 4096));
        short.push(nibble((index / 256) % 16));
        short.push(nibble((index / 16) % 16));
        short.push(nibble(index % 16));
        assert(short@ =~= hex4(index));
        let mut ns = str_chars("v2s-");
        push_all(&mut ns, short.as_slice());
        let mut host = str_chars("v2h");
        push_all(&mut host, short.as_slice());
        let mut worker = str_chars("v2w");
        push_all(&mut worker, short.as_slice());
        Ok(
            NetworkAllocation {
                index,
                namespace: chars_to_string(ns.as_slice()),
                host_veth: chars_to_string(host.as_slice()),
                worker_veth: chars_to_string(worker.as_slice()),
                host_ip: Ipv4Addr { a: 10, b: 231, c: third, d: base + 1 },
                worker_ip: Ipv4Addr { a: 10, b: 231, c: third, d: base + 2 },
            },
        )
    }

    /// Returns an index once its network is torn down.
    pub fn release(&mut self, index: u16)
        ensures
            final(self).free_indices() == old(self).free_indices().push(index),
            final(self).next_index() == old(self).next_index(),
    {
        self.free.push(index);
    }
}

/// Starting and running workers, by id, against the worker cap.
pub struct WorkerSlots {
    starting: Vec<u128>,
    running: Vec<u128>,
    max_workers: usize,
}

impl WorkerSlots {
    pub closed spec fn starting_ids(&self) -> Seq<u128> {
        self.starting@
    }

    pub closed spec fn running_ids(&self) -> Seq<u128> {
        self.running@
    }

    pub closed spec fn capacity(&self) -> usize {
        self.max_workers
    }

    pub open spec fn wf(&self) -> bool {
        self.starting_ids().no_duplicates() && self.running_ids().no_duplicates()
    }

    pub fn new(max_parallel_tests: usize) -> (r: WorkerSlots)
        ensures
            r.wf(),
            r.starting_ids() == Seq::<u128>::empty(),
            r.running_ids() == Seq::<u128>::empty(),
            r.capacity() == if max_parallel_tests + MAX_DRAINING_WORKERS < MAX_MANAGED_WORKERS {
                max_parallel_tests + MAX_DRAINING_WORKERS
            } else {
                MAX_MANAGED_WORKERS as int
            },
    {
        WorkerSlots { starting: Vec::new(), running: Vec::new(), max_workers: max_workers(max_parallel_tests) }
    }

    fn position(v: &Vec<u128>, id: u128) -> (r: Option<usize>)
        ensures
            match r {
                Some(i) => i < v@.len() && v@[i as int] == id,
                None => !v@.contains(id),
            },
    {
        let mut i: usize = 0;
        while i < v.len()
            invariant
                i <= v@.len(),
                forall|k: int| 0 <= k < i ==> v@[k] != id,
            decreases v.len() - i,
        {
            if v[i] == id {
                return Some(i);
            }
            i = i + 1;
        }
        None
    }

    /// Reserves a slot for a starting worker: a worker id already starting or
    /// running is a duplicate, and the running and starting workers together,
    /// the new one included, may not exceed the cap.
    pub fn reserve(&mut self, worker_id: u128) -> (r: Result<(), WorkerError>)
        requires
            old(self).wf(),
        ensures
            final(self).wf(),
            final(self).running_ids() == old(self).running_ids(),
            final(self).capacity() == old(self).capacity(),
            if old(self).starting_ids().contains(worker_id) || old(self).running_ids().contains(worker_id) {
                r matches Err(WorkerError::Duplicate) && final(self).starting_ids() == old(self).starting_ids()
            } else if old(self).running_ids().len() + old(self).starting_ids().len() + 1 > old(self).capacity() {
                r matches Err(WorkerError::Capacity) && final(self).starting_ids() == old(self).starting_ids()
            } else {
                r is Ok && final(self).starting_ids() == old(self).starting_ids().push(worker_id)
            },
            r is Ok ==> final(self).running_ids().len() + final(self).starting_ids().len() <= final(self).capacity(),
    {
        if Self::position(&self.starting, worker_id).is_some() {
            return Err(WorkerError::Duplicate);
        }
        if Self::position(&self.running, worker_id).is_some() {
            return Err(WorkerError::Duplicate);
        }
        if self.running.len().saturating_add(self.starting.len()) >= self.max_workers {
            return Err(WorkerError::Capacity);
        }
        let ghost before = self.starting@;
        self.starting.push(worker_id);
        assert forall|i: int, j: int| 0 <= i < j < self.starting@.len() implies self.starting@[i] != self.starting@[j] by {
            if j == before.len() {
                assert(before[i] != worker_id);
            }
        }
        Ok(())
    }

    fn remove_from(v: &mut Vec<u128>, id: u128) -> (found: bool)
        requires
            old(v)@.no_duplicates(),
        ensures
            final(v)@.no_duplicates(),
            found == old(v)@.contains(id),
            final(v)@.to_set() == old(v)@.to_set().remove(id),
            !final(v)@.contains(id),
            final(v)@.len() == if found { old(v)@.len() - 1 } else { old(v)@.len() as int },
    {
        match Self::position(v, id) {
            Some(i) => {
                let ghost before = v@;
                v.remove(i);
                proof {
                    let after = v@;
                    assert(after =~= before.remove(i as int));
                    assert forall|a: int, b: int| 0 <= a < b < after.len() implies after[a] != after[b] by {
                        let a2 = if a < i { a } else { a + 1 };
                        let b2 = if b < i { b } else { b + 1 };
                        assert(after[a] == before[a2] && after[b] == before[b2]);
                    }
                    assert forall|x: u128| #[trigger] after.to_set().contains(x) == before.to_set().remove(id).contains(x) by {
                        if after.contains(x) {
                            let k = choose|k: int| 0 <= k < after.len() && after[k] == x;
                            let k2 = if k < i { k } else { k + 1 };
                            assert(before[k2] == x);
                            assert(k2 != i);
                        }
                        if before.contains(x) && x != id {
                            let k = choose|k: int| 0 <= k < before.len() && before[k] == x;
                            assert(k != i);
                            if k < i {
                                assert(after[k] == x);
                            } else {
                                assert(after[k - 1] == x);
                            }
                        }
                    }
                    assert(after.to_set() =~= before.to_set().remove(id));
                    if after.contains(id) {
                        let k = choose|k: int| 0 <= k < after.len() && after[k] == id;
                        let k2 = if k < i { k } else { k + 1 };
                        assert(before[k2] == id);
                    }
                }
                true
            },
            None => {
                assert(v@.to_set() =~= v@.to_set().remove(id));
                false
            },
        }
    }

    /// Ends a reservation, whatever became of the start.
    pub fn release(&mut self, worker_id: u128)
        requires
            old(self).wf(),
        ensures
            final(self).wf(),
            final(self).running_ids() == old(self).running_ids(),
            final(self).capacity() == old(self).capacity(),
            final(self).starting_ids().to_set() == old(self).starting_ids().to_set().remove(worker_id),
            !final(self).starting_ids().contains(worker_id),
    {
        Self::remove_from(&mut self.starting, worker_id);
    }

    /// Records a started worker; an id that is already running is a duplicate.
    pub fn register(&mut self, worker_id: u128) -> (r: Result<(), WorkerError>)
        requires
            old(self).wf(),
        ensures
            final(self).wf(),
            final(self).starting_ids() == old(self).starting_ids(),
            final(self).capacity() == old(self).capacity(),
            old(self).running_ids().contains(worker_id) ==> (r matches Err(WorkerError::Duplicate)
                && final(self).running_ids() == old(self).running_ids()),
            !old(self).running_ids().contains(worker_id) ==> r is Ok
                && final(self).running_ids() == old(self).running_ids().push(worker_id),
    {
        if Self::position(&self.running, worker_id).is_some() {
            return Err(WorkerError::Duplicate);
        }
        let ghost before = self.running@;
        self.running.push(worker_id);
        assert forall|i: int, j: int| 0 <= i < j < self.running@.len() implies self.running@[i] != self.running@[j] by {
            if j == before.len() {
                assert(before[i] != worker_id);
            }
        }
        Ok(())
    }

    /// Forgets a stopped worker; an unknown id is not found.
    pub fn remove(&mut self, worker_id: u128) -> (r: Result<(), WorkerError>)
        requires
            old(self).wf(),
        ensures
            final(self).wf(),
            final(self).starting_ids() == old(self).starting_ids(),
            final(self).capacity() == old(self).capacity(),
            r is Ok <==> old(self).running_ids().contains(worker_id),
            r matches Err(e) ==> e is NotFound,
            final(self).running_ids().to_set() == old(self).running_ids().to_set().remove(worker_id),
    {
        if Self::remove_from(&mut self.running, worker_id) {
            Ok(())
        } else {
            Err(WorkerError::NotFound)
        }
    }

    pub fn is_running(&self, worker_id: u128) -> (r: bool)
        ensures
            r == self.running_ids().contains(worker_id),
    {
        Self::position(&self.running, worker_id).is_some()
    }
}

} // verus!
