//! Validation rules for the environment-driven application configuration.

use vstd::prelude::*;

use crate::domain::{
    host_port, invalid_credential, invalid_socks_credential, opt_secret_view, opt_view,
    parse_host_port, target_error, HostView, Ipv4Addr, SecretString, UpstreamHost, UpstreamTarget,
};
use crate::text::{
    all_digits, byte_len, byte_len_of, chars_to_string, decimal, decimal_chars, digit_char_value,
    eq_str, parse_decimal, parse_unsigned, push_all, push_str, split_chars, split_on, str_chars,
    views,
};

verus! {

/// Username and password used by a local listener in explicit LAN mode.
#[derive(Clone)]
pub struct Credentials {
    pub username: String,
    pub password: SecretString,
}

/// PEM files used by the optional built-in HTTPS listener.
#[derive(Clone, Debug)]
pub struct TlsConfig {
    pub certificate: String,
    pub private_key: String,
}

/// Configuration error that can be shown safely at startup.
#[derive(Debug)]
pub enum ConfigError {
    Missing(&'static str),
    Invalid { name: &'static str, message: String },
    LanCredential(&'static str),
}

/// The variable an `Invalid` error names.
pub open spec fn invalid_name(e: ConfigError) -> Option<Seq<char>> {
    match e {
        ConfigError::Invalid { name, .. } => Some(name@),
        _ => None,
    }
}

/// The variable named by an `Invalid` error result.
pub open spec fn err_name<T>(r: Result<T, ConfigError>) -> Option<Seq<char>> {
    match r {
        Err(e) => invalid_name(e),
        Ok(_) => None,
    }
}

pub open spec fn err_message<T>(r: Result<T, ConfigError>) -> Option<Seq<char>> {
    match r {
        Err(e) => invalid_message(e),
        Ok(_) => None,
    }
}

pub open spec fn invalid_message(e: ConfigError) -> Option<Seq<char>> {
    match e {
        ConfigError::Invalid { message, .. } => Some(message@),
        _ => None,
    }
}

pub open spec fn safe_path_char(c: char) -> bool {
    ('0' <= c && c <= '9') || ('a' <= c && c <= 'z') || ('A' <= c && c <= 'Z') || c == '/' || c
        == '.' || c == '_' || c == '-'
}

/// A path segment that `Path::components` reports as a normal component.
pub open spec fn normal_segment(seg: Seq<char>) -> bool {
    seg.len() > 0 && seg != seq!['.'] && seg != seq!['.', '.']
}

pub open spec fn count_normal(segs: Seq<Seq<char>>) -> nat
    decreases segs.len(),
{
    if segs.len() == 0 {
        0
    } else {
        count_normal(segs.drop_last()) + if normal_segment(segs.last()) {
            1nat
        } else {
            0nat
        }
    }
}

/// An acceptable runtime directory: absolute, without `..` components, with at least
/// two normal components, at most 48 bytes and only `[A-Za-z0-9/._-]` characters.
pub open spec fn runtime_dir_ok(s: Seq<char>) -> bool {
    let segs = split_on(s, '/');
    &&& s.len() > 0 && s[0] == '/'
    &&& count_normal(segs) >= 2
    &&& forall|i: int| 0 <= i < segs.len() ==> #[trigger] segs[i] != seq!['.', '.']
    &&& byte_len(s) <= 48
    &&& forall|i: int| 0 <= i < s.len() ==> safe_path_char(#[trigger] s[i])
}

fn runtime_dir_error() -> (r: ConfigError)
    ensures
        invalid_name(r) == Some("VPNGATE2SOCKS_RUNTIME_DIR"@),
{
    ConfigError::Invalid {
        name: "VPNGATE2SOCKS_RUNTIME_DIR",
        message: "path must be an absolute, non-system root path without traversal, at most 48 bytes, and contain only safe characters".to_owned(),
    }
}

/// Rejects relative, traversing, broad system, long or unusually spelled runtime directories.
pub fn validate_runtime_dir(path: &str) -> (r: Result<(), ConfigError>)
    ensures
        r is Ok <==> runtime_dir_ok(path@),
        r matches Err(e) ==> invalid_name(e) == Some("VPNGATE2SOCKS_RUNTIME_DIR"@),
{
    let v = str_chars(path);
    if v.len() == 0 || v[0] != '/' {
        return Err(runtime_dir_error());
    }
    if byte_len_of(v.as_slice()) > 48 {
        return Err(runtime_dir_error());
    }
    let mut i: usize = 0;
    while i < v.len()
        invariant
            i <= v@.len(),
            v@ == path@,
            forall|k: int| 0 <= k < i ==> safe_path_char(#[trigger] v@[k]),
        decreases v.len() - i,
    {
        let c = v[i];
        if !(('0' <= c && c <= '9') || ('a' <= c && c <= 'z') || ('A' <= c && c <= 'Z') || c
            == '/' || c == '.' || c == '_' || c == '-') {
            assert(!safe_path_char(v@[i as int]));
            return Err(runtime_dir_error());
        }
        i = i + 1;
    }
    let segs = split_chars(v.as_slice(), '/');
    let ghost sv = views(segs@);
    let mut normal: usize = 0;
    let mut j: usize = 0;
    while j < segs.len()
        invariant
            j <= segs@.len() == sv.len(),
            sv == views(segs@),
            sv == split_on(path@, '/'),
            normal == count_normal(sv.subrange(0, j as int)),
            normal <= j,
            forall|k: int| 0 <= k < j ==> #[trigger] sv[k] != seq!['.', '.'],
        decreases segs.len() - j,
    {
        let seg = &segs[j];
        assert(sv[j as int] == seg@);
        assert(sv.subrange(0, (j + 1) as int).drop_last() =~= sv.subrange(0, j as int));
        if seg.len() == 2 && seg[0] == '.' && seg[1] == '.' {
            assert(seg@ =~= seq!['.', '.']);
            return Err(runtime_dir_error());
        }
        assert(seg@ != seq!['.', '.']) by {
            if seg@.len() == 2 {
                assert(seg@ =~= seq![seg@[0], seg@[1]]);
            }
        }
        let is_normal = seg.len() > 0 && !(seg.len() == 1 && seg[0] == '.');
        assert(is_normal == normal_segment(seg@)) by {
            if seg@.len() == 1 {
                assert(seg@ =~= seq![seg@[0]]);
            }
        }
        if is_normal {
            normal = normal + 1;
        }
        j = j + 1;
    }
    assert(sv.subrange(0, sv.len() as int) =~= sv);
    if normal < 2 {
        return Err(runtime_dir_error());
    }
    Ok(())
}

/// A listener credential fits the SOCKS wire format: 1 to 255 bytes without NUL or line breaks.
pub fn valid_listener_credential(value: &str) -> (r: bool)
    ensures
        r == !invalid_credential(value@),
{
    !invalid_socks_credential(value)
}

/// Decides the listener credentials from the configured username and password.
pub fn credentials_from_values(
    required_in_lan_mode: bool,
    user_name: &'static str,
    username: Option<String>,
    password: Option<String>,
) -> (r: Result<Option<Credentials>, ConfigError>)
    ensures
        match (username, password) {
            (Some(u), Some(p)) => if !invalid_credential(u@) && !invalid_credential(p@) {
                r matches Ok(Some(c)) && c.username@ == u@ && c.password@ == p@
            } else {
                r matches Err(e) && e@ == ConfigFault::Invalid(user_name@, credential_message())
            },
            (None, None) => if required_in_lan_mode {
                r matches Err(e) && e@ == ConfigFault::LanCredential(user_name@)
            } else {
                r matches Ok(None)
            },
            _ => r matches Err(e) && e@ == ConfigFault::Invalid(user_name@, credential_message()),
        },
{
    match (username, password) {
        (Some(username), Some(password)) => {
            if valid_listener_credential(username.as_str()) && valid_listener_credential(
                password.as_str(),
            ) {
                let secret = SecretString::new(password.as_str());
                Ok(Some(Credentials { username, password: secret }))
            } else {
                Err(
                    ConfigError::Invalid {
                        name: user_name,
                        message: "username and password must be 1 to 255 bytes without NUL or line breaks".to_owned(),
                    },
                )
            }
        },
        (None, None) => {
            if required_in_lan_mode {
                Err(ConfigError::LanCredential(user_name))
            } else {
                Ok(None)
            }
        },
        _ => Err(
            ConfigError::Invalid {
                name: user_name,
                message: "username and password must be 1 to 255 bytes without NUL or line breaks".to_owned(),
            },
        ),
    }
}

/// The message for a value outside `[minimum, maximum]`.
pub open spec fn range_message(minimum: u64, maximum: u64) -> Seq<char> {
    "must be between "@ + decimal(minimum as nat) + " and "@ + decimal(maximum as nat)
}

/// Checks that a numeric setting lies in its inclusive range.
pub fn check_range(name: &'static str, value: u64, minimum: u64, maximum: u64) -> (r: Result<
    u64,
    ConfigError,
>)
    ensures
        minimum <= value <= maximum ==> r == Ok::<u64, ConfigError>(value),
        !(minimum <= value <= maximum) ==> err_name(r) == Some(name@) && err_message(r) == Some(
            range_message(minimum, maximum),
        ),
{
    if minimum <= value && value <= maximum {
        return Ok(value);
    }
    let mut m: Vec<char> = Vec::new();
    push_str(&mut m, "must be between ");
    let lo = decimal_chars(minimum);
    crate::text::push_all(&mut m, lo.as_slice());
    push_str(&mut m, " and ");
    let hi = decimal_chars(maximum);
    crate::text::push_all(&mut m, hi.as_slice());
    Err(ConfigError::Invalid { name, message: chars_to_string(m.as_slice()) })
}

/// Listener placement: loopback unless LAN mode; both unspecified in container mode.
pub fn check_listeners(
    web_loopback: bool,
    socks_loopback: bool,
    web_unspecified: bool,
    socks_unspecified: bool,
    lan_mode: bool,
    container_bind: bool,
) -> (r: Result<(), ConfigError>)
    ensures
        !lan_mode && !container_bind && (!web_loopback || !socks_loopback) ==> err_name(r)
            == Some("listener address"@),
        !(!lan_mode && !container_bind && (!web_loopback || !socks_loopback)) && container_bind
            && (!web_unspecified || !socks_unspecified) ==> err_name(r) == Some(
            "container listener address"@,
        ),
        r is Ok <==> !(!lan_mode && !container_bind && (!web_loopback || !socks_loopback))
            && !(container_bind && (!web_unspecified || !socks_unspecified)),
{
    if !lan_mode && !container_bind && (!web_loopback || !socks_loopback) {
        return Err(
            ConfigError::Invalid {
                name: "listener address",
                message: "non-loopback listeners require VPNGATE2SOCKS_LAN_MODE=true".to_owned(),
            },
        );
    }
    if container_bind && (!web_unspecified || !socks_unspecified) {
        return Err(
            ConfigError::Invalid {
                name: "container listener address",
                message: "container mode requires both listeners to use an unspecified address".to_owned(),
            },
        );
    }
    Ok(())
}

/// OpenVPN and the control plane must run under different user ids.
pub fn check_distinct_uids(openvpn_uid: u32, unprivileged_uid: u32) -> (r: Result<(), ConfigError>)
    ensures
        r is Ok <==> openvpn_uid != unprivileged_uid,
        r matches Err(e) ==> invalid_name(e) == Some("VPNGATE2SOCKS_OPENVPN_UID"@),
{
    if openvpn_uid == unprivileged_uid {
        return Err(
            ConfigError::Invalid {
                name: "VPNGATE2SOCKS_OPENVPN_UID",
                message: "OpenVPN and the control plane must use different UIDs".to_owned(),
            },
        );
    }
    Ok(())
}

/// A configuration error with its texts as character sequences.
pub enum ConfigFault {
    Missing(Seq<char>),
    Invalid(Seq<char>, Seq<char>),
    LanCredential(Seq<char>),
}

impl View for ConfigError {
    type V = ConfigFault;

    open spec fn view(&self) -> ConfigFault {
        match self {
            ConfigError::Missing(n) => ConfigFault::Missing(n@),
            ConfigError::Invalid { name, message } => ConfigFault::Invalid(name@, message@),
            ConfigError::LanCredential(n) => ConfigFault::LanCredential(n@),
        }
    }
}

/// A listener address as the caller parsed it.
#[derive(Clone, Debug)]
pub struct ListenerAddr {
    pub address: String,
    pub is_loopback: bool,
    pub is_unspecified: bool,
}

/// The upstream setting as a socket address parser saw it: an IPv4 or an
/// IPv6 socket address, or a text that is no socket address, with the
/// parser's message.
#[derive(Clone, Debug)]
pub enum UpstreamAddress {
    V4(Ipv4Addr, u16),
    V6,
    Other { text: String, message: String },
}

/// The raw settings, as read from the environment and secret files.
///
/// Listener and upstream addresses come parsed (or with the parser's message);
/// a setting that may come from a secret file comes as the result of reading it.
pub struct ConfigValues {
    pub web_bind: Result<ListenerAddr, String>,
    pub socks_bind: Result<ListenerAddr, String>,
    pub lan_mode: Option<String>,
    pub container_bind: Option<String>,
    /// `None` when the variable is unset or empty.
    pub upstream: Option<UpstreamAddress>,
    pub upstream_user: Result<Option<String>, ConfigError>,
    pub upstream_password: Result<Option<String>, ConfigError>,
    pub runtime_dir: Option<String>,
    pub web_user: Result<Option<String>, ConfigError>,
    pub web_password: Result<Option<String>, ConfigError>,
    pub socks_user: Result<Option<String>, ConfigError>,
    pub socks_password: Result<Option<String>, ConfigError>,
    pub tls_cert: Option<String>,
    pub tls_key: Option<String>,
    pub unprivileged_uid: Option<String>,
    pub unprivileged_gid: Option<String>,
    pub openvpn_uid: Option<String>,
    pub database_url: Option<String>,
    pub web_dist: Option<String>,
    pub vpngate_url: Option<String>,
    pub ippure_url: Option<String>,
    pub refresh_seconds: Option<String>,
    pub connect_timeout_seconds: Option<String>,
    pub ippure_timeout_seconds: Option<String>,
    pub max_parallel_tests: Option<String>,
}

/// Complete configuration for the control plane and privileged helper.
pub struct AppConfig {
    pub web_bind: ListenerAddr,
    pub socks_bind: ListenerAddr,
    pub database_url: String,
    pub runtime_dir: String,
    pub netd_socket: String,
    pub web_dist_dir: String,
    pub vpngate_url: String,
    pub ippure_url: String,
    pub upstream: UpstreamTarget,
    pub refresh_interval_secs: u64,
    pub connect_timeout_secs: u64,
    pub ippure_timeout_secs: u64,
    pub max_parallel_tests: usize,
    pub lan_mode: bool,
    pub container_bind: bool,
    pub web_credentials: Option<Credentials>,
    pub socks_credentials: Option<Credentials>,
    pub tls: Option<TlsConfig>,
    pub unprivileged_uid: u32,
    pub unprivileged_gid: u32,
    pub openvpn_uid: u32,
}

/// `str::parse::<bool>`.
pub open spec fn bool_setting(value: Option<String>, default: bool) -> Option<bool> {
    match value {
        None => Some(default),
        Some(s) => if s@ == "true"@ {
            Some(true)
        } else if s@ == "false"@ {
            Some(false)
        } else {
            None
        },
    }
}

/// The message of the error `str::parse::<u64>` reports.
pub open spec fn int_error_message(s: Seq<char>) -> Seq<char> {
    let d = if s.len() > 0 && s[0] == '+' { s.drop_first() } else { s };
    if s.len() == 0 {
        "cannot parse integer from empty string"@
    } else if d.len() == 0 || !all_digits(d) {
        "invalid digit found in string"@
    } else {
        "number too large to fit in target type"@
    }
}

/// An integer setting with its default and inclusive range, or the message.
pub open spec fn u64_setting(value: Option<String>, default: u64, minimum: u64, maximum: u64) -> Result<u64, Seq<char>> {
    let parsed: Result<u64, Seq<char>> = match value {
        None => Ok(default),
        Some(s) => match parse_unsigned(s@, u64::MAX as nat) {
            Some(x) => Ok(x as u64),
            None => Err(int_error_message(s@)),
        },
    };
    match parsed {
        Err(m) => Err(m),
        Ok(x) => if minimum <= x && x <= maximum {
            Ok(x)
        } else {
            Err(range_message(minimum, maximum))
        },
    }
}

pub open spec fn text_or(value: Option<String>, default: Seq<char>) -> Seq<char> {
    match value {
        Some(s) => s@,
        None => default,
    }
}

/// The scheme-checked serialization of a URL setting, or the message.
pub open spec fn url_setting(value: Option<String>, default: Seq<char>) -> Result<Seq<char>, Seq<char>> {
    match parsed_url(text_or(value, default)) {
        Err(m) => Err(m),
        Ok((href, scheme)) => if scheme == "https"@ {
            Ok(href)
        } else {
            Err("URL must use HTTPS"@)
        },
    }
}

/// `Path::join(dir, "netd.sock")`.
pub open spec fn netd_socket_path(dir: Seq<char>) -> Seq<char> {
    if dir.len() > 0 && dir.last() == '/' {
        dir + "netd.sock"@
    } else {
        dir + "/netd.sock"@
    }
}

pub open spec fn fault_of<T>(r: Result<T, ConfigError>) -> Option<ConfigFault> {
    match r {
        Err(e) => Some(e@),
        Ok(_) => None,
    }
}

pub open spec fn credential_fault(
    lan: bool,
    user_name: Seq<char>,
    user: Option<String>,
    password: Option<String>,
) -> Option<ConfigFault> {
    match (user, password) {
        (Some(u), Some(p)) => if !invalid_credential(u@) && !invalid_credential(p@) {
            None
        } else {
            Some(ConfigFault::Invalid(user_name, credential_message()))
        },
        (None, None) => if lan {
            Some(ConfigFault::LanCredential(user_name))
        } else {
            None
        },
        _ => Some(ConfigFault::Invalid(user_name, credential_message())),
    }
}

pub open spec fn credential_message() -> Seq<char> {
    "username and password must be 1 to 255 bytes without NUL or line breaks"@
}

pub open spec fn credentials_match(c: Option<Credentials>, user: Option<String>, password: Option<String>) -> bool {
    match (user, password) {
        (Some(u), Some(p)) => c matches Some(x) && x.username@ == u@ && x.password@ == p@,
        _ => c is None,
    }
}

pub open spec fn listener_fault(web: ListenerAddr, socks: ListenerAddr, lan: bool, container: bool) -> Option<ConfigFault> {
    if !lan && !container && (!web.is_loopback || !socks.is_loopback) {
        Some(ConfigFault::Invalid("listener address"@, "non-loopback listeners require VPNGATE2SOCKS_LAN_MODE=true"@))
    } else if container && (!web.is_unspecified || !socks.is_unspecified) {
        Some(ConfigFault::Invalid("container listener address"@, "container mode requires both listeners to use an unspecified address"@))
    } else {
        None
    }
}

/// An IPv4 socket address, or an ASCII `name:port`, with a non-zero port.
pub open spec fn upstream_fault(u: Option<UpstreamAddress>) -> Option<ConfigFault> {
    match u {
        None => Some(ConfigFault::Missing("VPNGATE2SOCKS_UPSTREAM"@)),
        Some(UpstreamAddress::V6) => Some(ConfigFault::Invalid("VPNGATE2SOCKS_UPSTREAM"@, "only IPv4 upstream endpoints are supported"@)),
        Some(UpstreamAddress::V4(_, port)) => if port == 0 {
            Some(ConfigFault::Invalid("VPNGATE2SOCKS_UPSTREAM"@, "port must be non-zero"@))
        } else {
            None
        },
        Some(UpstreamAddress::Other { text, message }) => match host_port(text@) {
            None => Some(ConfigFault::Invalid("VPNGATE2SOCKS_UPSTREAM"@, message@)),
            Some((_, port)) => if port == 0 {
                Some(ConfigFault::Invalid("VPNGATE2SOCKS_UPSTREAM"@, "port must be non-zero"@))
            } else {
                None
            },
        },
    }
}

pub open spec fn upstream_host(u: Option<UpstreamAddress>) -> HostView {
    match u {
        Some(UpstreamAddress::Other { text, .. }) => HostView::Name(host_port(text@).unwrap().0),
        Some(UpstreamAddress::V4(h, _)) => HostView::Address(h),
        _ => HostView::Address(Ipv4Addr { a: 0, b: 0, c: 0, d: 0 }),
    }
}

pub open spec fn upstream_port(u: Option<UpstreamAddress>) -> u16 {
    match u {
        Some(UpstreamAddress::V4(_, p)) => p,
        Some(UpstreamAddress::Other { text, .. }) => host_port(text@).unwrap().1,
        _ => 0,
    }
}

pub open spec fn setting_fault(name: Seq<char>, r: Result<u64, Seq<char>>) -> Option<ConfigFault> {
    match r {
        Err(m) => Some(ConfigFault::Invalid(name, m)),
        Ok(_) => None,
    }
}

pub open spec fn text_fault(name: Seq<char>, r: Result<Seq<char>, Seq<char>>) -> Option<ConfigFault> {
    match r {
        Err(m) => Some(ConfigFault::Invalid(name, m)),
        Ok(_) => None,
    }
}

pub open spec fn opt_user(r: Result<Option<String>, ConfigError>) -> Option<String> {
    match r {
        Ok(v) => v,
        Err(_) => None,
    }
}

pub open spec fn uid_setting(value: Option<String>, default: u64) -> Result<u64, Seq<char>> {
    u64_setting(value, default, 1, u32::MAX as u64)
}

/// The first rule the settings break, in the order in which they are checked.
pub open spec fn config_fault(v: ConfigValues) -> Option<ConfigFault> {
    let lan = bool_setting(v.lan_mode, false);
    let container = bool_setting(v.container_bind, false);
    let runtime_dir = text_or(v.runtime_dir, "/run/vpngate2socks"@);
    let uid = uid_setting(v.unprivileged_uid, 10001);
    let gid = uid_setting(v.unprivileged_gid, 10001);
    let ovpn = uid_setting(v.openvpn_uid, 10002);
    if v.web_bind is Err {
        Some(ConfigFault::Invalid("VPNGATE2SOCKS_WEB_BIND"@, v.web_bind->Err_0@))
    } else if v.socks_bind is Err {
        Some(ConfigFault::Invalid("VPNGATE2SOCKS_SOCKS_BIND"@, v.socks_bind->Err_0@))
    } else if lan is None {
        Some(ConfigFault::Invalid("VPNGATE2SOCKS_LAN_MODE"@, bool_message()))
    } else if container is None {
        Some(ConfigFault::Invalid("VPNGATE2SOCKS_CONTAINER_BIND"@, bool_message()))
    } else if listener_fault(v.web_bind->Ok_0, v.socks_bind->Ok_0, lan.unwrap(), container.unwrap()) is Some {
        listener_fault(v.web_bind->Ok_0, v.socks_bind->Ok_0, lan.unwrap(), container.unwrap())
    } else if upstream_fault(v.upstream) is Some {
        upstream_fault(v.upstream)
    } else if v.upstream_user is Err {
        fault_of(v.upstream_user)
    } else if v.upstream_password is Err {
        fault_of(v.upstream_password)
    } else if target_error(upstream_host(v.upstream), opt_view(opt_user(v.upstream_user)), opt_view(opt_user(v.upstream_password))) is Some {
        Some(ConfigFault::Invalid("upstream credentials"@, target_error(upstream_host(v.upstream), opt_view(opt_user(v.upstream_user)), opt_view(opt_user(v.upstream_password))).unwrap()))
    } else if !runtime_dir_ok(runtime_dir) {
        Some(ConfigFault::Invalid("VPNGATE2SOCKS_RUNTIME_DIR"@, runtime_dir_message()))
    } else if v.web_user is Err {
        fault_of(v.web_user)
    } else if v.web_password is Err {
        fault_of(v.web_password)
    } else if credential_fault(lan.unwrap(), "VPNGATE2SOCKS_WEB_USER"@, opt_user(v.web_user), opt_user(v.web_password)) is Some {
        credential_fault(lan.unwrap(), "VPNGATE2SOCKS_WEB_USER"@, opt_user(v.web_user), opt_user(v.web_password))
    } else if v.socks_user is Err {
        fault_of(v.socks_user)
    } else if v.socks_password is Err {
        fault_of(v.socks_password)
    } else if credential_fault(lan.unwrap(), "VPNGATE2SOCKS_SOCKS_USER"@, opt_user(v.socks_user), opt_user(v.socks_password)) is Some {
        credential_fault(lan.unwrap(), "VPNGATE2SOCKS_SOCKS_USER"@, opt_user(v.socks_user), opt_user(v.socks_password))
    } else if v.tls_cert.is_some() != v.tls_key.is_some() {
        Some(ConfigFault::Invalid("TLS configuration"@, "certificate and key must be configured together"@))
    } else if uid is Err {
        setting_fault("VPNGATE2SOCKS_UNPRIVILEGED_UID"@, uid)
    } else if gid is Err {
        setting_fault("VPNGATE2SOCKS_UNPRIVILEGED_GID"@, gid)
    } else if ovpn is Err {
        setting_fault("VPNGATE2SOCKS_OPENVPN_UID"@, ovpn)
    } else if ovpn == uid {
        Some(ConfigFault::Invalid("VPNGATE2SOCKS_OPENVPN_UID"@, "OpenVPN and the control plane must use different UIDs"@))
    } else {
        later_fault(v)
    }
}

/// The checks of the settings read last.
pub open spec fn later_fault(v: ConfigValues) -> Option<ConfigFault> {
    let vpngate = url_setting(v.vpngate_url, default_vpngate_url());
    let ippure = url_setting(v.ippure_url, default_ippure_url());
    let refresh = u64_setting(v.refresh_seconds, 600, 30, 86400);
    let connect = u64_setting(v.connect_timeout_seconds, 45, 5, 300);
    let ippure_timeout = u64_setting(v.ippure_timeout_seconds, 15, 1, 120);
    let parallel = u64_setting(v.max_parallel_tests, 3, 1, 32);
    if vpngate is Err {
        text_fault("VPNGATE2SOCKS_VPNGATE_URL"@, vpngate)
    } else if ippure is Err {
        text_fault("VPNGATE2SOCKS_IPPURE_URL"@, ippure)
    } else if refresh is Err {
        setting_fault("VPNGATE2SOCKS_REFRESH_SECONDS"@, refresh)
    } else if connect is Err {
        setting_fault("VPNGATE2SOCKS_CONNECT_TIMEOUT_SECONDS"@, connect)
    } else if ippure_timeout is Err {
        setting_fault("VPNGATE2SOCKS_IPPURE_TIMEOUT_SECONDS"@, ippure_timeout)
    } else if parallel is Err {
        setting_fault("VPNGATE2SOCKS_MAX_PARALLEL_TESTS"@, parallel)
    } else {
        None
    }
}

pub open spec fn bool_message() -> Seq<char> {
    "provided string was not `true` or `false`"@
}

pub open spec fn runtime_dir_message() -> Seq<char> {
    "path must be an absolute, non-system root path without traversal, at most 48 bytes, and contain only safe characters"@
}

pub open spec fn default_vpngate_url() -> Seq<char> {
    "https://www.vpngate.net/api/iphone/"@
}

pub open spec fn default_ippure_url() -> Seq<char> {
    "https://my.ippure.com/v1/info"@
}

/// The configuration built from settings that break no rule.
pub open spec fn config_built(v: ConfigValues, c: AppConfig) -> bool {
    let runtime_dir = text_or(v.runtime_dir, "/run/vpngate2socks"@);
    &&& c.web_bind == v.web_bind->Ok_0
    &&& c.socks_bind == v.socks_bind->Ok_0
    &&& Some(c.lan_mode) == bool_setting(v.lan_mode, false)
    &&& Some(c.container_bind) == bool_setting(v.container_bind, false)
    &&& c.upstream.wf()
    &&& c.upstream.spec_host() == upstream_host(v.upstream)
    &&& c.upstream.spec_port() == upstream_port(v.upstream)
    &&& c.upstream.spec_username() == opt_view(opt_user(v.upstream_user))
    &&& c.upstream.spec_password() == opt_view(opt_user(v.upstream_password))
    &&& c.runtime_dir@ == runtime_dir
    &&& c.netd_socket@ == netd_socket_path(runtime_dir)
    &&& credentials_match(c.web_credentials, opt_user(v.web_user), opt_user(v.web_password))
    &&& credentials_match(c.socks_credentials, opt_user(v.socks_user), opt_user(v.socks_password))
    &&& (match (v.tls_cert, v.tls_key) {
        (Some(cert), Some(key)) => c.tls matches Some(t) && t.certificate@ == cert@ && t.private_key@ == key@,
        _ => c.tls is None,
    })
    &&& Ok::<u64, Seq<char>>(c.unprivileged_uid as u64) == uid_setting(v.unprivileged_uid, 10001)
    &&& Ok::<u64, Seq<char>>(c.unprivileged_gid as u64) == uid_setting(v.unprivileged_gid, 10001)
    &&& Ok::<u64, Seq<char>>(c.openvpn_uid as u64) == uid_setting(v.openvpn_uid, 10002)
    &&& c.database_url@ == text_or(v.database_url, "sqlite:///var/lib/vpngate2socks/state.db?mode=rwc"@)
    &&& c.web_dist_dir@ == text_or(v.web_dist, "/opt/vpngate2socks/web"@)
    &&& Ok::<Seq<char>, Seq<char>>(c.vpngate_url@) == url_setting(v.vpngate_url, default_vpngate_url())
    &&& Ok::<Seq<char>, Seq<char>>(c.ippure_url@) == url_setting(v.ippure_url, default_ippure_url())
    &&& Ok::<u64, Seq<char>>(c.refresh_interval_secs) == u64_setting(v.refresh_seconds, 600, 30, 86400)
    &&& Ok::<u64, Seq<char>>(c.connect_timeout_secs) == u64_setting(v.connect_timeout_seconds, 45, 5, 300)
    &&& Ok::<u64, Seq<char>>(c.ippure_timeout_secs) == u64_setting(v.ippure_timeout_seconds, 15, 1, 120)
    &&& Ok::<u64, Seq<char>>(c.max_parallel_tests as u64) == u64_setting(v.max_parallel_tests, 3, 1, 32)
}

/// What `url::Url::parse` gives for a text: the serialization and the
/// scheme, or the message of the parse error.
pub uninterp spec fn parsed_url(text: Seq<char>) -> Result<(Seq<char>, Seq<char>), Seq<char>>;

/// Parses with `url::Url::parse`, giving `Url::as_str` and `Url::scheme`, or
/// the error's `Display` text; the outcome is named by `parsed_url`.
#[verifier::external_body]
pub(crate) fn parse_url_text(text: &str) -> (r: Result<(String, String), String>)
    ensures
        match parsed_url(text@) {
            Ok((href, scheme)) => r matches Ok((a, b)) && a@ == href && b@ == scheme,
            Err(m) => r matches Err(x) && x@ == m,
        },
{
    match url::Url::parse(text) {
        Ok(url) => Ok((url.as_str().to_owned(), url.scheme().to_owned())),
        Err(error) => Err(error.to_string()),
    }
}

fn invalid(name: &'static str, message: &str) -> (r: ConfigError)
    ensures
        r@ == ConfigFault::Invalid(name@, message@),
{
    ConfigError::Invalid { name, message: message.to_owned() }
}

fn text_setting(value: Option<String>, default: &str) -> (r: String)
    ensures
        r@ == text_or(value, default@),
{
    match value {
        Some(s) => s,
        None => default.to_owned(),
    }
}

/// A boolean setting: `true`, `false`, or the default when unset.
fn parse_bool(name: &'static str, value: &Option<String>, default: bool) -> (r: Result<bool, ConfigError>)
    ensures
        match bool_setting(*value, default) {
            Some(b) => r == Ok::<bool, ConfigError>(b),
            None => r matches Err(e) && e@ == ConfigFault::Invalid(name@, bool_message()),
        },
{
    match value {
        None => Ok(default),
        Some(s) => {
            let cs = str_chars(s.as_str());
            if eq_str(cs.as_slice(), "true") {
                Ok(true)
            } else if eq_str(cs.as_slice(), "false") {
                Ok(false)
            } else {
                Err(invalid(name, "provided string was not `true` or `false`"))
            }
        },
    }
}

fn all_digit_chars(s: &[char]) -> (r: bool)
    ensures
        r == all_digits(s@),
{
    let mut i: usize = 0;
    while i < s.len()
        invariant
            i <= s@.len(),
            forall|k: int| 0 <= k < i ==> crate::text::is_digit(#[trigger] s@[k]),
        decreases s.len() - i,
    {
        if !('0' <= s[i] && s[i] <= '9') {
            return false;
        }
        i = i + 1;
    }
    true
}

fn int_error(s: &[char]) -> (r: &'static str)
    ensures
        r@ == int_error_message(s@),
{
    if s.len() == 0 {
        return "cannot parse integer from empty string";
    }
    let start: usize = if s[0] == '+' { 1 } else { 0 };
    let ghost d = if s@.len() > 0 && s@[0] == '+' { s@.drop_first() } else { s@ };
    let rest = crate::text::copy_range(s, start, s.len());
    assert(rest@ =~= d);
    if rest.len() == 0 || !all_digit_chars(rest.as_slice()) {
        "invalid digit found in string"
    } else {
        "number too large to fit in target type"
    }
}

/// An integer setting with a default and an inclusive range.
fn parse_u64(name: &'static str, value: &Option<String>, default: u64, minimum: u64, maximum: u64) -> (r: Result<u64, ConfigError>)
    ensures
        match u64_setting(*value, default, minimum, maximum) {
            Ok(x) => r == Ok::<u64, ConfigError>(x),
            Err(m) => r matches Err(e) && e@ == ConfigFault::Invalid(name@, m),
        },
{
    let parsed = match value {
        None => default,
        Some(s) => {
            let cs = str_chars(s.as_str());
            match parse_decimal(cs.as_slice(), u64::MAX) {
                Some(x) => x,
                None => {
                    return Err(invalid(name, int_error(cs.as_slice())));
                },
            }
        },
    };
    if minimum <= parsed && parsed <= maximum {
        Ok(parsed)
    } else {
        match check_range(name, parsed, minimum, maximum) {
            Ok(_) => Ok(parsed),
            Err(e) => Err(e),
        }
    }
}

/// A URL setting that must use HTTPS.
fn parse_url(name: &'static str, value: Option<String>, default: &str) -> (r: Result<String, ConfigError>)
    ensures
        match url_setting(value, default@) {
            Ok(h) => r matches Ok(x) && x@ == h,
            Err(m) => r matches Err(e) && e@ == ConfigFault::Invalid(name@, m),
        },
{
    let text = text_setting(value, default);
    match parse_url_text(text.as_str()) {
        Err(m) => Err(ConfigError::Invalid { name, message: m }),
        Ok((href, scheme)) => {
            let cs = str_chars(scheme.as_str());
            if eq_str(cs.as_slice(), "https") {
                Ok(href)
            } else {
                Err(invalid(name, "URL must use HTTPS"))
            }
        },
    }
}

fn netd_socket_of(dir: &str) -> (r: String)
    ensures
        r@ == netd_socket_path(dir@),
{
    let mut v = str_chars(dir);
    if v.len() > 0 && v[v.len() - 1] == '/' {
        push_str(&mut v, "netd.sock");
    } else {
        push_str(&mut v, "/netd.sock");
    }
    chars_to_string(v.as_slice())
}

impl AppConfig {
    /// Builds the configuration from its raw settings, checking them in a
    /// fixed order and reporting the first rule that is broken.
    pub fn from_values(v: ConfigValues) -> (r: Result<AppConfig, ConfigError>)
        ensures
            match config_fault(v) {
                Some(f) => r matches Err(e) && e@ == f,
                None => r matches Ok(c) && config_built(v, c),
            },
    {
        let ghost input = v;
        let ConfigValues {
            web_bind,
            socks_bind,
            lan_mode,
            container_bind,
            upstream,
            upstream_user,
            upstream_password,
            runtime_dir,
            web_user,
            web_password,
            socks_user,
            socks_password,
            tls_cert,
            tls_key,
            unprivileged_uid,
            unprivileged_gid,
            openvpn_uid,
            database_url,
            web_dist,
            vpngate_url,
            ippure_url,
            refresh_seconds,
            connect_timeout_seconds,
            ippure_timeout_seconds,
            max_parallel_tests,
        } = v;
        let web_bind = match web_bind {
            Ok(a) => a,
            Err(m) => {
                return Err(ConfigError::Invalid { name: "VPNGATE2SOCKS_WEB_BIND", message: m });
            },
        };
        let socks_bind = match socks_bind {
            Ok(a) => a,
            Err(m) => {
                return Err(ConfigError::Invalid { name: "VPNGATE2SOCKS_SOCKS_BIND", message: m });
            },
        };
        let lan = match parse_bool("VPNGATE2SOCKS_LAN_MODE", &lan_mode, false) {
            Ok(b) => b,
            Err(e) => {
                return Err(e);
            },
        };
        let container = match parse_bool("VPNGATE2SOCKS_CONTAINER_BIND", &container_bind, false) {
            Ok(b) => b,
            Err(e) => {
                return Err(e);
            },
        };
        if !lan && !container && (!web_bind.is_loopback || !socks_bind.is_loopback) {
            return Err(invalid("listener address", "non-loopback listeners require VPNGATE2SOCKS_LAN_MODE=true"));
        }
        if container && (!web_bind.is_unspecified || !socks_bind.is_unspecified) {
            return Err(invalid("container listener address", "container mode requires both listeners to use an unspecified address"));
        }
        let (host, port) = match upstream {
            None => {
                return Err(ConfigError::Missing("VPNGATE2SOCKS_UPSTREAM"));
            },
            Some(UpstreamAddress::V6) => {
                return Err(invalid("VPNGATE2SOCKS_UPSTREAM", "only IPv4 upstream endpoints are supported"));
            },
            Some(UpstreamAddress::V4(h, p)) => {
                if p == 0 {
                    return Err(invalid("VPNGATE2SOCKS_UPSTREAM", "port must be non-zero"));
                }
                (UpstreamHost::Address(h), p)
            },
            Some(UpstreamAddress::Other { text, message }) => match parse_host_port(text.as_str()) {
                None => {
                    return Err(ConfigError::Invalid { name: "VPNGATE2SOCKS_UPSTREAM", message });
                },
                Some((name, p)) => {
                    if p == 0 {
                        return Err(invalid("VPNGATE2SOCKS_UPSTREAM", "port must be non-zero"));
                    }
                    (UpstreamHost::Name(name), p)
                },
            },
        };
        let upstream_user = match upstream_user {
            Ok(u) => u,
            Err(e) => {
                return Err(e);
            },
        };
        let upstream_password = match upstream_password {
            Ok(p) => p,
            Err(e) => {
                return Err(e);
            },
        };
        let secret = match &upstream_password {
            Some(p) => Some(SecretString::new(p.as_str())),
            None => None,
        };
        assert(opt_secret_view(secret) == opt_view(upstream_password));
        let upstream = match UpstreamTarget::new(host, port, upstream_user, secret) {
            Ok(e) => e,
            Err(m) => {
                return Err(invalid("upstream credentials", m));
            },
        };
        let runtime_dir = text_setting(runtime_dir, "/run/vpngate2socks");
        match validate_runtime_dir(runtime_dir.as_str()) {
            Ok(()) => {},
            Err(_) => {
                return Err(invalid("VPNGATE2SOCKS_RUNTIME_DIR", "path must be an absolute, non-system root path without traversal, at most 48 bytes, and contain only safe characters"));
            },
        }
        let web_user = match web_user {
            Ok(u) => u,
            Err(e) => {
                return Err(e);
            },
        };
        let web_password = match web_password {
            Ok(p) => p,
            Err(e) => {
                return Err(e);
            },
        };
        let web_credentials = match credentials_from_values(lan, "VPNGATE2SOCKS_WEB_USER", web_user, web_password) {
            Ok(c) => c,
            Err(e) => {
                return Err(e);
            },
        };
        let socks_user = match socks_user {
            Ok(u) => u,
            Err(e) => {
                return Err(e);
            },
        };
        let socks_password = match socks_password {
            Ok(p) => p,
            Err(e) => {
                return Err(e);
            },
        };
        let socks_credentials = match credentials_from_values(lan, "VPNGATE2SOCKS_SOCKS_USER", socks_user, socks_password) {
            Ok(c) => c,
            Err(e) => {
                return Err(e);
            },
        };
        if tls_cert.is_some() != tls_key.is_some() {
            return Err(invalid("TLS configuration", "certificate and key must be configured together"));
        }
        let tls = match (tls_cert, tls_key) {
            (Some(certificate), Some(private_key)) => Some(TlsConfig { certificate, private_key }),
            _ => None,
        };
        let uid = match parse_u64("VPNGATE2SOCKS_UNPRIVILEGED_UID", &unprivileged_uid, 10001, 1, 4294967295) {
            Ok(x) => x,
            Err(e) => {
                return Err(e);
            },
        };
        let gid = match parse_u64("VPNGATE2SOCKS_UNPRIVILEGED_GID", &unprivileged_gid, 10001, 1, 4294967295) {
            Ok(x) => x,
            Err(e) => {
                return Err(e);
            },
        };
        let ovpn = match parse_u64("VPNGATE2SOCKS_OPENVPN_UID", &openvpn_uid, 10002, 1, 4294967295) {
            Ok(x) => x,
            Err(e) => {
                return Err(e);
            },
        };
        if ovpn == uid {
            return Err(invalid("VPNGATE2SOCKS_OPENVPN_UID", "OpenVPN and the control plane must use different UIDs"));
        }
        let database_url = text_setting(database_url, "sqlite:///var/lib/vpngate2socks/state.db?mode=rwc");
        let netd_socket = netd_socket_of(runtime_dir.as_str());
        let web_dist_dir = text_setting(web_dist, "/opt/vpngate2socks/web");
        let vpngate_url = match parse_url("VPNGATE2SOCKS_VPNGATE_URL", vpngate_url, "https://www.vpngate.net/api/iphone/") {
            Ok(u) => u,
            Err(e) => {
                return Err(e);
            },
        };
        let ippure_url = match parse_url("VPNGATE2SOCKS_IPPURE_URL", ippure_url, "https://my.ippure.com/v1/info") {
            Ok(u) => u,
            Err(e) => {
                return Err(e);
            },
        };
        let refresh = match parse_u64("VPNGATE2SOCKS_REFRESH_SECONDS", &refresh_seconds, 600, 30, 86400) {
            Ok(x) => x,
            Err(e) => {
                return Err(e);
            },
        };
        let connect = match parse_u64("VPNGATE2SOCKS_CONNECT_TIMEOUT_SECONDS", &connect_timeout_seconds, 45, 5, 300) {
            Ok(x) => x,
            Err(e) => {
                return Err(e);
            },
        };
        let ippure_timeout = match parse_u64("VPNGATE2SOCKS_IPPURE_TIMEOUT_SECONDS", &ippure_timeout_seconds, 15, 1, 120) {
            Ok(x) => x,
            Err(e) => {
                return Err(e);
            },
        };
        let parallel = match parse_u64("VPNGATE2SOCKS_MAX_PARALLEL_TESTS", &max_parallel_tests, 3, 1, 32) {
            Ok(x) => x,
            Err(e) => {
                return Err(e);
            },
        };
        Ok(
            AppConfig {
                web_bind,
                socks_bind,
                database_url,
                runtime_dir,
                netd_socket,
                web_dist_dir,
                vpngate_url,
                ippure_url,
                upstream,
                refresh_interval_secs: refresh,
                connect_timeout_secs: connect,
                ippure_timeout_secs: ippure_timeout,
                max_parallel_tests: parallel as usize,
                lan_mode: lan,
                container_bind: container,
                web_credentials,
                socks_credentials,
                tls,
                unprivileged_uid: uid as u32,
                unprivileged_gid: gid as u32,
                openvpn_uid: ovpn as u32,
            },
        )
    }
}

/// Where a setting that may be kept in a file comes from.
pub enum SecretSource {
    Direct(String),
    File(String),
    Unset,
}

/// Chooses between `NAME` and `NAME_FILE`; configuring both is an error.
pub fn secret_source(name: &'static str, direct: Option<String>, file: Option<String>) -> (r: Result<SecretSource, ConfigError>)
    ensures
        match (direct, file) {
            (Some(_), Some(_)) => r matches Err(e) && e@ == ConfigFault::Invalid(
                name@,
                "configure either "@ + name@ + " or "@ + name@ + "_FILE, not both"@,
            ),
            (Some(d), None) => r matches Ok(SecretSource::Direct(x)) && x@ == d@,
            (None, Some(f)) => r matches Ok(SecretSource::File(x)) && x@ == f@,
            (None, None) => r matches Ok(SecretSource::Unset),
        },
{
    match (direct, file) {
        (Some(_), Some(_)) => {
            let mut m: Vec<char> = Vec::new();
            push_str(&mut m, "configure either ");
            push_str(&mut m, name);
            push_str(&mut m, " or ");
            push_str(&mut m, name);
            push_str(&mut m, "_FILE, not both");
            Err(ConfigError::Invalid { name, message: chars_to_string(m.as_slice()) })
        },
        (Some(d), None) => Ok(SecretSource::Direct(d)),
        (None, Some(f)) => Ok(SecretSource::File(f)),
        (None, None) => Ok(SecretSource::Unset),
    }
}

/// An empty value counts as unset.
pub fn non_empty(value: String) -> (r: Option<String>)
    ensures
        value@.len() == 0 ==> r is None,
        value@.len() > 0 ==> (r matches Some(x) && x@ == value@),
{
    if str_chars(value.as_str()).len() == 0 {
        None
    } else {
        Some(value)
    }
}

/// Trailing carriage returns and line feeds removed.
pub open spec fn trim_end_newlines(s: Seq<char>) -> Seq<char>
    decreases s.len(),
{
    if s.len() > 0 && (s.last() == '\r' || s.last() == '\n') {
        trim_end_newlines(s.drop_last())
    } else {
        s
    }
}

/// A secret read from a file of `size` bytes: at most 16 KiB, trailing line
/// breaks removed, and an empty value counts as unset.
pub fn secret_file_value(name: &'static str, size: u64, contents: String) -> (r: Result<Option<String>, ConfigError>)
    ensures
        size > 16384 ==> (r matches Err(e) && e@ == ConfigFault::Invalid(name@, "secret file exceeds 16 KiB"@)),
        size <= 16384 && trim_end_newlines(contents@).len() == 0 ==> r matches Ok(None),
        size <= 16384 && trim_end_newlines(contents@).len() > 0 ==> (r matches Ok(Some(x)) && x@ == trim_end_newlines(contents@)),
{
    if size > 16384 {
        return Err(invalid(name, "secret file exceeds 16 KiB"));
    }
    let v = str_chars(contents.as_str());
    let mut e = v.len();
    assert(v@.subrange(0, e as int) =~= v@);
    while e > 0 && (v[e - 1] == '\r' || v[e - 1] == '\n')
        invariant
            e <= v@.len(),
            trim_end_newlines(v@) == trim_end_newlines(v@.subrange(0, e as int)),
        decreases e,
    {
        assert(v@.subrange(0, e as int).drop_last() =~= v@.subrange(0, e - 1));
        e = e - 1;
    }
    if e == 0 {
        return Ok(None);
    }
    let kept = crate::text::copy_range(v.as_slice(), 0, e);
    Ok(Some(chars_to_string(kept.as_slice())))
}

/// A variable that must be set to a non-empty value.
pub fn required(name: &'static str, value: Option<String>) -> (r: Result<String, ConfigError>)
    ensures
        match value {
            Some(v) => if v@.len() > 0 {
                r matches Ok(x) && x@ == v@
            } else {
                r matches Err(e) && e@ == ConfigFault::Missing(name@)
            },
            None => r matches Err(e) && e@ == ConfigFault::Missing(name@),
        },
{
    match value {
        Some(v) => match non_empty(v) {
            Some(x) => Ok(x),
            None => Err(ConfigError::Missing(name)),
        },
        None => Err(ConfigError::Missing(name)),
    }
}

} // verus!
