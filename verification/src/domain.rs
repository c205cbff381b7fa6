//! Core domain values and externally visible state.

use vstd::prelude::*;

use crate::text::{
    all_digits, byte_len, byte_len_of, chars_to_string, contains_chars, contains_seq, decimal, decimal_chars,
    digits_value, hex, hex_chars, is_digit, parse_decimal, parse_unsigned, push_all, split_chars, split_on,
    str_chars, copy_range, eq_str, lemma_decimal, lemma_split_four, to_ascii_uppercase, to_lowercase, trim, trim_bounds, unicode_lowercase, uppercase,
    views,
};
use crate::openvpn::SanitizedOpenVpn;
use crate::config::{parse_url_text, parsed_url};

verus! {

/// An IPv4 address, octets in network order.
#[derive(Clone, Copy, PartialEq, Eq, Structural, Debug, Hash, PartialOrd, Ord)]
pub struct Ipv4Addr {
    pub a: u8,
    pub b: u8,
    pub c: u8,
    pub d: u8,
}

/// The address as a 32-bit number in network order.
pub open spec fn ipv4_value(ip: Ipv4Addr) -> nat {
    ip.a as nat * 16777216 + ip.b as nat * 65536 + ip.c as nat * 256 + ip.d as nat
}

pub open spec fn in_block(v: nat, network: nat, size: nat) -> bool {
    network <= v < network + size
}

/// Globally routable: outside every special-purpose IPv4 block.
pub open spec fn public_ipv4(ip: Ipv4Addr) -> bool {
    let v = ipv4_value(ip);
    !(in_block(v, 0, 16777216)  // 0.0.0.0/8
    || in_block(v, 167772160, 16777216)  // 10.0.0.0/8
    || in_block(v, 1681915904, 4194304)  // 100.64.0.0/10
    || in_block(v, 2130706432, 16777216)  // 127.0.0.0/8
    || in_block(v, 2851995648, 65536)  // 169.254.0.0/16
    || in_block(v, 2886729728, 1048576)  // 172.16.0.0/12
    || in_block(v, 3221225472, 256)  // 192.0.0.0/24
    || in_block(v, 3221225984, 256)  // 192.0.2.0/24
    || in_block(v, 3227017984, 256)  // 192.88.99.0/24
    || in_block(v, 3232235520, 65536)  // 192.168.0.0/16
    || in_block(v, 3323068416, 131072)  // 198.18.0.0/15
    || in_block(v, 3325256704, 256)  // 198.51.100.0/24
    || in_block(v, 3405803776, 256)  // 203.0.113.0/24
    || in_block(v, 3758096384, 268435456)  // 224.0.0.0/4
    || in_block(v, 4026531840, 268435456))  // 240.0.0.0/4
}

/// Text form of one octet as accepted by `Ipv4Addr::from_str`: one to three
/// ASCII digits, no leading zero, at most 255.
pub open spec fn octet_value(p: Seq<char>) -> Option<u8> {
    if 1 <= p.len() <= 3 && all_digits(p) && !(p.len() > 1 && p[0] == '0') && digits_value(p)
        <= 255 {
        Some(digits_value(p) as u8)
    } else {
        None
    }
}

/// Dotted-quad parsing as done by `Ipv4Addr::from_str`.
pub open spec fn parse_ipv4(s: Seq<char>) -> Option<Ipv4Addr> {
    let parts = split_on(s, '.');
    if parts.len() == 4 && octet_value(parts[0]) is Some && octet_value(parts[1]) is Some
        && octet_value(parts[2]) is Some && octet_value(parts[3]) is Some {
        Some(
            Ipv4Addr {
                a: octet_value(parts[0]).unwrap(),
                b: octet_value(parts[1]).unwrap(),
                c: octet_value(parts[2]).unwrap(),
                d: octet_value(parts[3]).unwrap(),
            },
        )
    } else {
        None
    }
}

/// Dotted-quad rendering as done by `Display for Ipv4Addr`.
pub open spec fn ipv4_text(ip: Ipv4Addr) -> Seq<char> {
    decimal(ip.a as nat) + seq!['.'] + decimal(ip.b as nat) + seq!['.'] + decimal(ip.c as nat)
        + seq!['.'] + decimal(ip.d as nat)
}

proof fn lemma_octet_text(x: u8)
    ensures
        octet_value(decimal(x as nat)) == Some(x),
        !decimal(x as nat).contains('.'),
{
    lemma_decimal(x as nat);
    let t = decimal(x as nat);
    if t.contains('.') {
        let k = choose|k: int| 0 <= k < t.len() && t[k] == '.';
        assert(is_digit(t[k]));
    }
}

/// Rendering an address and parsing the text gives the address back.
pub proof fn ipv4_text_parses_back(ip: Ipv4Addr)
    ensures
        parse_ipv4(ipv4_text(ip)) == Some(ip),
{
    lemma_octet_text(ip.a);
    lemma_octet_text(ip.b);
    lemma_octet_text(ip.c);
    lemma_octet_text(ip.d);
    lemma_split_four(decimal(ip.a as nat), decimal(ip.b as nat), decimal(ip.c as nat), decimal(ip.d as nat), '.');
}

fn parse_octet(p: &[char]) -> (r: Option<u8>)
    ensures
        r == octet_value(p@),
{
    if p.len() < 1 || p.len() > 3 || (p.len() > 1 && p[0] == '0') {
        return None;
    }
    let mut i: usize = 0;
    while i < p.len()
        invariant
            i <= p@.len(),
            forall|k: int| 0 <= k < i ==> is_digit(#[trigger] p@[k]),
        decreases p.len() - i,
    {
        if !('0' <= p[i] && p[i] <= '9') {
            assert(!is_digit(p@[i as int]));
            return None;
        }
        i = i + 1;
    }
    assert(all_digits(p@));
    match parse_decimal(p, 255) {
        Some(v) => {
            assert(p@.len() > 0 && p@[0] != '+');
            Some(v as u8)
        },
        None => None,
    }
}

impl Ipv4Addr {
    pub fn new(a: u8, b: u8, c: u8, d: u8) -> (r: Ipv4Addr)
        ensures
            r == (Ipv4Addr { a, b, c, d }),
    {
        Ipv4Addr { a, b, c, d }
    }

    /// 127.0.0.1
    pub fn localhost() -> (r: Ipv4Addr)
        ensures
            r == (Ipv4Addr { a: 127, b: 0, c: 0, d: 1 }),
    {
        Ipv4Addr { a: 127, b: 0, c: 0, d: 1 }
    }

    pub fn octets(&self) -> (r: [u8; 4])
        ensures
            r@ == seq![self.a, self.b, self.c, self.d],
    {
        let r = [self.a, self.b, self.c, self.d];
        assert(r@ =~= seq![self.a, self.b, self.c, self.d]);
        r
    }

    /// The address as a number in network order.
    pub fn to_u32(&self) -> (r: u32)
        ensures
            r == ipv4_value(*self),
    {
        (self.a as u32) * 16777216 + (self.b as u32) * 65536 + (self.c as u32) * 256
            + (self.d as u32)
    }

    /// Parses dotted-quad text.
    pub fn parse_chars(s: &[char]) -> (r: Option<Ipv4Addr>)
        ensures
            r == parse_ipv4(s@),
    {
        let parts = split_chars(s, '.');
        assert(views(parts@).len() == parts@.len());
        if parts.len() != 4 {
            return None;
        }
        assert(views(parts@)[0] == parts@[0]@);
        assert(views(parts@)[1] == parts@[1]@);
        assert(views(parts@)[2] == parts@[2]@);
        assert(views(parts@)[3] == parts@[3]@);
        let a = parse_octet(parts[0].as_slice());
        let b = parse_octet(parts[1].as_slice());
        let c = parse_octet(parts[2].as_slice());
        let d = parse_octet(parts[3].as_slice());
        match (a, b, c, d) {
            (Some(a), Some(b), Some(c), Some(d)) => Some(Ipv4Addr { a, b, c, d }),
            _ => None,
        }
    }

    /// Parses dotted-quad text.
    pub fn parse(s: &str) -> (r: Option<Ipv4Addr>)
        ensures
            r == parse_ipv4(s@),
    {
        let v = str_chars(s);
        Ipv4Addr::parse_chars(v.as_slice())
    }

    /// Dotted-quad text.
    pub fn to_chars(&self) -> (r: Vec<char>)
        ensures
            r@ == ipv4_text(*self),
    {
        let mut r = decimal_chars(self.a as u64);
        r.push('.');
        let b = decimal_chars(self.b as u64);
        push_all(&mut r, b.as_slice());
        r.push('.');
        let c = decimal_chars(self.c as u64);
        push_all(&mut r, c.as_slice());
        r.push('.');
        let d = decimal_chars(self.d as u64);
        push_all(&mut r, d.as_slice());
        r
    }
}

/// Returns true only for globally routable IPv4 targets.
pub fn is_public_ipv4(ip: Ipv4Addr) -> (r: bool)
    ensures
        r == public_ipv4(ip),
{
    let v = ip.to_u32() as u64;
    let blocked = (v < 16777216) || (167772160 <= v && v < 184549376) || (1681915904 <= v && v
        < 1686110208) || (2130706432 <= v && v < 2147483648) || (2851995648 <= v && v
        < 2852061184) || (2886729728 <= v && v < 2887778304) || (3221225472 <= v && v
        < 3221225728) || (3221225984 <= v && v < 3221226240) || (3227017984 <= v && v
        < 3227018240) || (3232235520 <= v && v < 3232301056) || (3323068416 <= v && v
        < 3323199488) || (3325256704 <= v && v < 3325256960) || (3405803776 <= v && v
        < 3405804032) || (3758096384 <= v && v < 4026531840) || (4026531840 <= v);
    !blocked
}


pub open spec fn is_lower_hex(c: char) -> bool {
    ('0' <= c && c <= '9') || ('a' <= c && c <= 'f')
}

/// Canonical node identifier text: 64 lowercase hexadecimal characters.
pub open spec fn canonical_node_id(s: Seq<char>) -> bool {
    s.len() == 64 && forall|i: int| 0 <= i < s.len() ==> is_lower_hex(#[trigger] s[i])
}

/// Stable identifier derived from a VPN Gate node and its sanitized profile.
#[derive(Clone, PartialEq, Eq, Hash, PartialOrd, Ord, Debug)]
pub struct NodeId {
    id: String,
}

impl View for NodeId {
    type V = Seq<char>;

    closed spec fn view(&self) -> Seq<char> {
        self.id@
    }
}

/// The BLAKE3 digest (32 bytes) of a byte string.
pub uninterp spec fn blake3_digest(data: Seq<u8>) -> Seq<u8>;

/// Hashes `data` with `blake3::hash`; the result is the digest that
/// `blake3_digest` names, a function of the input bytes alone.
#[verifier::external_body]
pub(crate) fn blake3_hash(data: &[u8]) -> (r: [u8; 32])
    ensures
        r@ == blake3_digest(data@),
{
    blake3::hash(data).into()
}

impl NodeId {
    /// Creates an identifier from a BLAKE3 digest, as its lowercase hexadecimal text.
    pub fn from_digest(digest: &[u8; 32]) -> (r: NodeId)
        ensures
            r@ == hex(digest@),
    {
        let v = hex_chars(digest);
        NodeId { id: chars_to_string(v.as_slice()) }
    }

    /// Returns the wire representation.
    pub fn as_str(&self) -> (r: &str)
        ensures
            r@ == self@,
    {
        self.id.as_str()
    }

    /// A copy of the identifier.
    pub fn duplicate(&self) -> (r: NodeId)
        ensures
            r@ == self@,
    {
        NodeId { id: self.id.clone() }
    }

    /// Whether both identifiers have the same text.
    pub fn same(&self, other: &NodeId) -> (r: bool)
        ensures
            r == (self@ == other@),
    {
        self.id == other.id
    }

    /// Accepts exactly 64 lowercase hexadecimal characters.
    pub fn parse(value: &str) -> (r: Result<NodeId, &'static str>)
        ensures
            r is Ok <==> canonical_node_id(value@),
            r matches Ok(n) ==> n@ == value@,
            r matches Err(e) ==> e@ == "node id must be 64 lowercase hexadecimal characters"@,
    {
        let v = str_chars(value);
        if v.len() != 64 {
            return Err("node id must be 64 lowercase hexadecimal characters");
        }
        let mut i: usize = 0;
        while i < v.len()
            invariant
                i <= v@.len(),
                v@ == value@,
                forall|k: int| 0 <= k < i ==> is_lower_hex(#[trigger] v@[k]),
            decreases v.len() - i,
        {
            let c = v[i];
            if !(('0' <= c && c <= '9') || ('a' <= c && c <= 'f')) {
                assert(!is_lower_hex(v@[i as int]));
                return Err("node id must be 64 lowercase hexadecimal characters");
            }
            i = i + 1;
        }
        Ok(NodeId { id: chars_to_string(v.as_slice()) })
    }
}

impl std::str::FromStr for NodeId {
    type Err = &'static str;

    fn from_str(value: &str) -> (r: Result<Self, Self::Err>)
        ensures
            r is Ok <==> canonical_node_id(value@),
            r matches Ok(n) ==> n@ == value@,
            r matches Err(e) ==> e@ == "node id must be 64 lowercase hexadecimal characters"@,
    {
        NodeId::parse(value)
    }
}

/// A secret that is kept out of diagnostics.
#[derive(Clone, PartialEq, Eq)]
pub struct SecretString {
    value: String,
}

impl View for SecretString {
    type V = Seq<char>;

    closed spec fn view(&self) -> Seq<char> {
        self.value@
    }
}

impl SecretString {
    /// Wraps a secret value.
    pub fn new(value: &str) -> (r: SecretString)
        ensures
            r@ == value@,
    {
        SecretString { value: value.to_owned() }
    }

    /// Explicitly exposes the secret at the point where it is required.
    pub fn expose(&self) -> (r: &str)
        ensures
            r@ == self@,
    {
        self.value.as_str()
    }

    /// A copy of the secret.
    pub fn duplicate(&self) -> (r: SecretString)
        ensures
            r@ == self@,
    {
        SecretString { value: self.value.clone() }
    }
}

/// A credential that cannot be carried by an RFC 1929 message field:
/// empty, longer than 255 bytes, or containing NUL, CR or LF.
pub open spec fn invalid_credential(s: Seq<char>) -> bool {
    s.len() == 0 || byte_len(s) > 255 || exists|i: int|
        0 <= i < s.len() && forbidden_credential_char(#[trigger] s[i])
}

pub open spec fn forbidden_credential_char(c: char) -> bool {
    c == '\0' || c == '\r' || c == '\n'
}

pub fn invalid_socks_credential(value: &str) -> (r: bool)
    ensures
        r == invalid_credential(value@),
{
    let v = str_chars(value);
    if v.len() == 0 {
        return true;
    }
    if byte_len_of(v.as_slice()) > 255 {
        return true;
    }
    let mut i: usize = 0;
    while i < v.len()
        invariant
            i <= v@.len(),
            v@ == value@,
            forall|k: int| 0 <= k < i ==> !forbidden_credential_char(#[trigger] v@[k]),
        decreases v.len() - i,
    {
        let c = v[i];
        if c == '\0' || c == '\r' || c == '\n' {
            assert(forbidden_credential_char(v@[i as int]));
            return true;
        }
        i = i + 1;
    }
    false
}

/// Validated IPv4 SOCKS5 endpoint and optional RFC 1929 credentials.
#[derive(Clone, PartialEq, Eq)]
pub struct UpstreamEndpoint {
    host: Ipv4Addr,
    port: u16,
    username: Option<String>,
    password: Option<SecretString>,
}

pub open spec fn opt_view(o: Option<String>) -> Option<Seq<char>> {
    match o {
        Some(s) => Some(s@),
        None => None,
    }
}

pub open spec fn opt_secret_view(o: Option<SecretString>) -> Option<Seq<char>> {
    match o {
        Some(s) => Some(s@),
        None => None,
    }
}

/// Unicast: not in 0.0.0.0/8, not the broadcast address, not multicast.
pub open spec fn unicast_host(host: Ipv4Addr) -> bool {
    host.a != 0 && host != (Ipv4Addr { a: 255, b: 255, c: 255, d: 255 }) && !(224 <= host.a
        <= 239)
}

/// The message of an error result.
pub open spec fn err_message<T>(r: Result<T, &'static str>) -> Option<Seq<char>> {
    match r {
        Ok(_) => None,
        Err(m) => Some(m@),
    }
}

pub open spec fn empty_name(o: Option<String>) -> bool {
    match o {
        Some(u) => u@.len() == 0,
        None => false,
    }
}

pub open spec fn bad_name(o: Option<String>) -> bool {
    match o {
        Some(u) => invalid_credential(u@),
        None => false,
    }
}

pub open spec fn bad_secret(o: Option<SecretString>) -> bool {
    match o {
        Some(p) => invalid_credential(p@),
        None => false,
    }
}

pub open spec fn empty_opt(o: Option<Seq<char>>) -> bool {
    match o {
        Some(u) => u.len() == 0,
        None => false,
    }
}

pub open spec fn invalid_opt(o: Option<Seq<char>>) -> bool {
    match o {
        Some(u) => invalid_credential(u),
        None => false,
    }
}

/// The first rule an upstream endpoint breaks, as its message.
pub open spec fn endpoint_error(host: Ipv4Addr, username: Option<Seq<char>>, password: Option<Seq<char>>) -> Option<Seq<char>> {
    if !unicast_host(host) {
        Some("upstream host must be a unicast IPv4 address"@)
    } else {
        credential_error(username, password)
    }
}

/// The first rule the upstream credentials break, as its message.
pub open spec fn credential_error(username: Option<Seq<char>>, password: Option<Seq<char>>) -> Option<Seq<char>> {
    if username.is_some() != password.is_some() {
        Some("upstream username and password must be configured together"@)
    } else if empty_opt(username) {
        Some("upstream username must not be empty"@)
    } else if invalid_opt(username) || invalid_opt(password) {
        Some("upstream credentials must be at most 255 bytes and contain no line breaks"@)
    } else {
        None
    }
}

impl UpstreamEndpoint {
    pub closed spec fn spec_host(&self) -> Ipv4Addr {
        self.host
    }

    pub closed spec fn spec_port(&self) -> u16 {
        self.port
    }

    pub closed spec fn spec_username(&self) -> Option<Seq<char>> {
        opt_view(self.username)
    }

    pub closed spec fn spec_password(&self) -> Option<Seq<char>> {
        opt_secret_view(self.password)
    }

    /// Constructs a validated endpoint; the first failed rule names the error.
    pub fn new(
        host: Ipv4Addr,
        port: u16,
        username: Option<String>,
        password: Option<SecretString>,
    ) -> (r: Result<UpstreamEndpoint, &'static str>)
        requires
            port != 0,
        ensures
            !unicast_host(host) ==> err_message(r) == Some(
                "upstream host must be a unicast IPv4 address"@,
            ),
            unicast_host(host) && username.is_some() != password.is_some() ==> err_message(r)
                == Some("upstream username and password must be configured together"@),
            unicast_host(host) && username.is_some() == password.is_some() && empty_name(username)
                ==> err_message(r) == Some("upstream username must not be empty"@),
            unicast_host(host) && username.is_some() == password.is_some() && !empty_name(username)
                && (bad_name(username) || bad_secret(password)) ==> err_message(r) == Some(
                "upstream credentials must be at most 255 bytes and contain no line breaks"@,
            ),
            r is Ok <==> unicast_host(host) && username.is_some() == password.is_some()
                && !bad_name(username) && !bad_secret(password),
            r matches Ok(e) ==> e.spec_host() == host && e.spec_port() == port && e.spec_username()
                == opt_view(username) && e.spec_password() == opt_secret_view(password),
            match endpoint_error(host, opt_view(username), opt_secret_view(password)) {
                Some(m) => err_message(r) == Some(m),
                None => r is Ok,
            },
    {
        if host.a == 0 || (host.a == 255 && host.b == 255 && host.c == 255 && host.d == 255) || (
        224 <= host.a && host.a <= 239) {
            return Err("upstream host must be a unicast IPv4 address");
        }
        if username.is_some() != password.is_some() {
            return Err("upstream username and password must be configured together");
        }
        if let Some(u) = &username {
            if str_chars(u.as_str()).len() == 0 {
                return Err("upstream username must not be empty");
            }
        }
        let bad_user = match &username {
            Some(u) => invalid_socks_credential(u.as_str()),
            None => false,
        };
        let bad_password = match &password {
            Some(p) => invalid_socks_credential(p.expose()),
            None => false,
        };
        if bad_user || bad_password {
            return Err("upstream credentials must be at most 255 bytes and contain no line breaks");
        }
        Ok(UpstreamEndpoint { host, port, username, password })
    }

    /// Returns the network address without credentials.
    pub fn socket_addr(&self) -> (r: (Ipv4Addr, u16))
        ensures
            r == (self.spec_host(), self.spec_port()),
    {
        (self.host, self.port)
    }

    /// Returns the optional username.
    pub fn username(&self) -> (r: Option<&str>)
        ensures
            match r {
                Some(u) => self.spec_username() == Some(u@),
                None => self.spec_username() is None,
            },
    {
        match &self.username {
            Some(u) => Some(u.as_str()),
            None => None,
        }
    }

    /// Returns the optional password at an explicit exposure point.
    pub fn password(&self) -> (r: Option<&str>)
        ensures
            match r {
                Some(p) => self.spec_password() == Some(p@),
                None => self.spec_password() is None,
            },
    {
        match &self.password {
            Some(p) => Some(p.expose()),
            None => None,
        }
    }
}

/// The SOCKS URL of an upstream before credentials: `socks5h://host:port`.
pub open spec fn proxy_base(host: Ipv4Addr, port: u16) -> Seq<char> {
    "socks5h://"@ + ipv4_text(host) + ":"@ + decimal(port as nat)
}

/// What a URL serialization becomes once `url::Url::set_username` and
/// `url::Url::set_password` have put a username and password in it.
pub uninterp spec fn url_userinfo(href: Seq<char>, username: Seq<char>, password: Seq<char>) -> Seq<char>;

/// Parses `href` with `url::Url::parse`, sets the username and the password
/// (whose failures the caller ignores, as it does), and gives the new
/// serialization; an `href` that does not parse comes back unchanged. The
/// result is named by `url_userinfo`.
#[verifier::external_body]
fn url_with_userinfo(href: &str, username: &str, password: &str) -> (r: String)
    ensures
        r@ == url_userinfo(href@, username@, password@),
{
    match url::Url::parse(href) {
        Ok(mut url) => {
            let _ = url.set_username(username);
            let _ = url.set_password(Some(password));
            url.as_str().to_owned()
        },
        Err(_) => href.to_owned(),
    }
}

impl UpstreamEndpoint {
    /// The remote-DNS SOCKS URL for HTTP clients, with the credentials when
    /// both are configured; the text is `url::Url`'s serialization, or the
    /// parse error's message.
    pub fn proxy_url(&self) -> (r: Result<String, String>)
        ensures
            match parsed_url(proxy_base(self.spec_host(), self.spec_port())) {
                Err(m) => r matches Err(x) && x@ == m,
                Ok((href, _)) => match (self.spec_username(), self.spec_password()) {
                    (Some(u), Some(p)) => r matches Ok(x) && x@ == url_userinfo(href, u, p),
                    _ => r matches Ok(x) && x@ == href,
                },
            },
    {
        let mut base = str_chars("socks5h://");
        let ip = self.host.to_chars();
        push_all(&mut base, ip.as_slice());
        base.push(':');
        let port = decimal_chars(self.port as u64);
        push_all(&mut base, port.as_slice());
        proof {
            reveal_strlit("socks5h://");
            reveal_strlit(":");
        }
        assert(base@ =~= proxy_base(self.host, self.port));
        let text = chars_to_string(base.as_slice());
        let href = match parse_url_text(text.as_str()) {
            Err(m) => {
                return Err(m);
            },
            Ok((href, _)) => href,
        };
        match (self.username(), self.password()) {
            (Some(u), Some(p)) => Ok(url_with_userinfo(href.as_str(), u, p)),
            _ => Ok(href),
        }
    }
}

/// A character of an upstream host name: an ASCII letter or digit, `-` or `.`.
pub open spec fn host_name_char(c: char) -> bool {
    ('a' <= c <= 'z') || ('A' <= c <= 'Z') || ('0' <= c <= '9') || c == '-' || c == '.'
}

/// An ASCII host name of 1 to 253 characters.
pub open spec fn host_name_ok(s: Seq<char>) -> bool {
    0 < s.len() <= 253 && forall|i: int| 0 <= i < s.len() ==> host_name_char(#[trigger] s[i])
}

/// A `name:port` upstream: exactly one colon, an ASCII host name before it
/// and a decimal port number (at most 65535) after it.
pub open spec fn host_port(text: Seq<char>) -> Option<(Seq<char>, u16)> {
    let parts = split_on(text, ':');
    if parts.len() == 2 && host_name_ok(parts[0]) && parse_unsigned(parts[1], 65535) is Some {
        Some((parts[0], parse_unsigned(parts[1], 65535).unwrap() as u16))
    } else {
        None
    }
}

/// Splits a `name:port` upstream into its host name and port number.
pub fn parse_host_port(text: &str) -> (r: Option<(String, u16)>)
    ensures
        match host_port(text@) {
            Some((name, port)) => r matches Some((n, p)) && n@ == name && p == port,
            None => r is None,
        },
{
    let v = str_chars(text);
    let parts = split_chars(v.as_slice(), ':');
    assert(views(parts@) == split_on(text@, ':'));
    if parts.len() != 2 {
        return None;
    }
    assert(parts@[0]@ == split_on(text@, ':')[0]);
    assert(parts@[1]@ == split_on(text@, ':')[1]);
    let name = &parts[0];
    if name.len() == 0 || name.len() > 253 {
        return None;
    }
    let mut i: usize = 0;
    while i < name.len()
        invariant
            i <= name@.len(),
            name@ == split_on(text@, ':')[0],
            split_on(text@, ':').len() == 2,
            forall|k: int| 0 <= k < i ==> host_name_char(#[trigger] name@[k]),
        decreases name.len() - i,
    {
        let c = name[i];
        if !(('a' <= c && c <= 'z') || ('A' <= c && c <= 'Z') || ('0' <= c && c <= '9') || c == '-' || c == '.') {
            assert(!host_name_char(name@[i as int]));
            return None;
        }
        i = i + 1;
    }
    match parse_decimal(parts[1].as_slice(), 65535) {
        Some(port) => Some((chars_to_string(name.as_slice()), port as u16)),
        None => None,
    }
}

/// Where the upstream SOCKS5 server is: a fixed IPv4 address, or an ASCII host
/// name that netd resolves once at startup.
#[derive(Clone, Debug)]
pub enum UpstreamHost {
    Address(Ipv4Addr),
    Name(String),
}

/// The view of an upstream host, with the name as its characters.
pub ghost enum HostView {
    Address(Ipv4Addr),
    Name(Seq<char>),
}

pub open spec fn host_view(h: UpstreamHost) -> HostView {
    match h {
        UpstreamHost::Address(a) => HostView::Address(a),
        UpstreamHost::Name(n) => HostView::Name(n@),
    }
}

/// The first rule a configured upstream breaks, as its message: a fixed
/// address must be unicast; a name is checked once it is resolved.
pub open spec fn target_error(host: HostView, username: Option<Seq<char>>, password: Option<Seq<char>>) -> Option<Seq<char>> {
    match host {
        HostView::Address(a) => endpoint_error(a, username, password),
        HostView::Name(_) => credential_error(username, password),
    }
}

/// The message for an address that disagrees with the configured one.
pub open spec fn inconsistent_message() -> Seq<char> {
    "netd resolved an inconsistent upstream address"@
}

/// The configured upstream before its address is pinned: host, non-zero port
/// and optional RFC 1929 credentials.
pub struct UpstreamTarget {
    host: UpstreamHost,
    port: u16,
    username: Option<String>,
    password: Option<SecretString>,
}

impl UpstreamTarget {
    pub closed spec fn spec_host(&self) -> HostView {
        host_view(self.host)
    }

    pub closed spec fn spec_port(&self) -> u16 {
        self.port
    }

    pub closed spec fn spec_username(&self) -> Option<Seq<char>> {
        opt_view(self.username)
    }

    pub closed spec fn spec_password(&self) -> Option<Seq<char>> {
        opt_secret_view(self.password)
    }

    /// A configured upstream breaks no rule that can be checked before resolution.
    pub open spec fn wf(&self) -> bool {
        &&& self.spec_port() != 0
        &&& target_error(self.spec_host(), self.spec_username(), self.spec_password()) is None
    }

    #[verifier::type_invariant]
    closed spec fn valid(&self) -> bool {
        self.wf()
    }

    /// Validates a configured upstream; the first failed rule names the error.
    pub fn new(
        host: UpstreamHost,
        port: u16,
        username: Option<String>,
        password: Option<SecretString>,
    ) -> (r: Result<UpstreamTarget, &'static str>)
        requires
            port != 0,
        ensures
            match target_error(host_view(host), opt_view(username), opt_secret_view(password)) {
                Some(m) => err_message(r) == Some(m),
                None => r matches Ok(t) && t.wf() && t.spec_host() == host_view(host) && t.spec_port() == port
                    && t.spec_username() == opt_view(username) && t.spec_password() == opt_secret_view(password),
            },
    {
        let check_host = match &host {
            UpstreamHost::Address(a) => *a,
            UpstreamHost::Name(_) => Ipv4Addr { a: 1, b: 1, c: 1, d: 1 },
        };
        let user_copy = match &username {
            Some(u) => Some(u.clone()),
            None => None,
        };
        let password_copy = match &password {
            Some(p) => Some(p.duplicate()),
            None => None,
        };
        assert(opt_view(user_copy) == opt_view(username));
        assert(opt_secret_view(password_copy) == opt_secret_view(password));
        match UpstreamEndpoint::new(check_host, port, user_copy, password_copy) {
            Err(m) => Err(m),
            Ok(_) => Ok(UpstreamTarget { host, port, username, password }),
        }
    }

    /// Pins the upstream to the address that netd resolved. A fixed address
    /// must be the one resolved; a resolved name must be a unicast address.
    pub fn resolve_to(&self, address: Ipv4Addr) -> (r: Result<UpstreamEndpoint, &'static str>)
        ensures
            match self.spec_host() {
                HostView::Address(a) => if a != address {
                    err_message(r) == Some(inconsistent_message())
                } else {
                    r matches Ok(e) && e.spec_host() == address && e.spec_port() == self.spec_port()
                        && e.spec_username() == self.spec_username() && e.spec_password() == self.spec_password()
                },
                HostView::Name(_) => if unicast_host(address) {
                    r matches Ok(e) && e.spec_host() == address && e.spec_port() == self.spec_port()
                        && e.spec_username() == self.spec_username() && e.spec_password() == self.spec_password()
                } else {
                    err_message(r) == Some("upstream host must be a unicast IPv4 address"@)
                },
            },
    {
        proof {
            use_type_invariant(self);
        }
        if let UpstreamHost::Address(a) = &self.host {
            if *a != address {
                proof {
                    reveal_strlit("netd resolved an inconsistent upstream address");
                }
                return Err("netd resolved an inconsistent upstream address");
            }
        }
        let user_copy = match &self.username {
            Some(u) => Some(u.clone()),
            None => None,
        };
        let password_copy = match &self.password {
            Some(p) => Some(p.duplicate()),
            None => None,
        };
        assert(opt_view(user_copy) == self.spec_username());
        assert(opt_secret_view(password_copy) == self.spec_password());
        UpstreamEndpoint::new(address, self.port, user_copy, password_copy)
    }

    /// The fixed address, when the upstream was configured by address.
    pub fn address(&self) -> (r: Option<Ipv4Addr>)
        ensures
            match self.spec_host() {
                HostView::Address(a) => r == Some(a),
                HostView::Name(_) => r is None,
            },
    {
        match &self.host {
            UpstreamHost::Address(a) => Some(*a),
            UpstreamHost::Name(_) => None,
        }
    }

    /// The host name, when the upstream was configured by name.
    pub fn name(&self) -> (r: Option<&str>)
        ensures
            match self.spec_host() {
                HostView::Address(_) => r is None,
                HostView::Name(n) => r matches Some(x) && x@ == n,
            },
    {
        match &self.host {
            UpstreamHost::Address(_) => None,
            UpstreamHost::Name(n) => Some(n.as_str()),
        }
    }

    /// The configured port.
    pub fn port(&self) -> (r: u16)
        ensures
            r == self.spec_port(),
    {
        self.port
    }
}

/// Why a downloaded node can or cannot be used.
#[derive(Clone, Copy, PartialEq, Eq, Structural, Debug)]
pub enum NodeAvailability {
    Available,
    UnsupportedProtocol,
    InvalidConfig,
}

/// Reachability of the configured upstream SOCKS5 server.
#[derive(Clone, Copy, PartialEq, Eq, Structural, Debug)]
pub enum UpstreamState {
    Checking,
    Ready,
    Unreachable,
    AuthenticationFailed,
    NetdUnavailable,
}

/// A point in time: seconds and nanoseconds since the Unix epoch.
#[derive(Clone, Copy, PartialEq, Eq, Structural, Debug)]
pub struct Timestamp {
    pub secs: i64,
    pub nanos: u32,
}

pub open spec fn timestamp_le(x: Timestamp, y: Timestamp) -> bool {
    x.secs < y.secs || (x.secs == y.secs && x.nanos <= y.nanos)
}

pub fn timestamp_before_or_at(x: Timestamp, y: Timestamp) -> (r: bool)
    ensures
        r == timestamp_le(x, y),
{
    x.secs < y.secs || (x.secs == y.secs && x.nanos <= y.nanos)
}

/// A version-4 UUID with the RFC 4122 variant, as a 128-bit value: version
/// nibble 4 (bits 76-79) and variant bits `10` (bits 62-63).
pub open spec fn random_uuid_shape(v: u128) -> bool {
    (v >> 76u128) & 0xfu128 == 4u128 && (v >> 62u128) & 0x3u128 == 2u128
}

/// A fresh random identifier: `uuid::Uuid::new_v4` as its 128-bit value.
/// The uuid source masks random bits into a version-4, RFC 4122 variant
/// UUID; nothing else is stated: the other bits come from the random source.
#[verifier::external_body]
fn random_uuid() -> (r: u128)
    ensures
        random_uuid_shape(r),
{
    uuid::Uuid::new_v4().as_u128()
}

/// Unique identifier for one isolated network worker.
#[derive(Clone, Copy, PartialEq, Eq, Structural, Debug, Hash)]
pub struct WorkerId {
    pub value: u128,
}

/// The first four bytes of a 128-bit identifier, most significant first.
pub open spec fn leading_bytes(v: u128) -> Seq<u8> {
    seq![
        (v / 0x1000000000000000000000000000000) as u8,
        ((v / 0x10000000000000000000000000000) % 256) as u8,
        ((v / 0x100000000000000000000000000) % 256) as u8,
        ((v / 0x1000000000000000000000000) % 256) as u8,
    ]
}

impl WorkerId {
    /// Creates a random worker identifier (a version-4 UUID).
    pub fn new() -> (r: WorkerId)
        ensures
            random_uuid_shape(r.value),
    {
        WorkerId { value: random_uuid() }
    }

    /// The first eight hexadecimal characters, suitable for Linux interface names.
    pub fn short(self) -> (r: String)
        ensures
            r@ == hex(leading_bytes(self.value)),
    {
        let v = self.value;
        let bytes = [
            (v / 0x1000000000000000000000000000000) as u8,
            ((v / 0x10000000000000000000000000000) % 256) as u8,
            ((v / 0x100000000000000000000000000) % 256) as u8,
            ((v / 0x1000000000000000000000000) % 256) as u8,
        ];
        assert(bytes@ =~= leading_bytes(v));
        let h = hex_chars(&bytes);
        chars_to_string(h.as_slice())
    }
}

/// What `uuid::Uuid::parse_str` accepts, as the identifier's 128-bit value.
pub uninterp spec fn uuid_text_value(s: Seq<char>) -> Option<u128>;

/// `uuid::Uuid::parse_str`, as the 128-bit value of the identifier.
#[verifier::external_body]
fn parse_uuid(s: &str) -> (r: Option<u128>)
    ensures
        r == uuid_text_value(s@),
{
    uuid::Uuid::parse_str(s).ok().map(|u| u.as_u128())
}

/// Unique identifier for a queued or running node test.
#[derive(Clone, Copy, PartialEq, Eq, Structural, Debug, Hash)]
pub struct OperationId {
    pub value: u128,
}

impl OperationId {
    /// Creates a random operation identifier (a version-4 UUID).
    pub fn new() -> (r: OperationId)
        ensures
            random_uuid_shape(r.value),
    {
        OperationId { value: random_uuid() }
    }

    /// Parses the textual UUID forms.
    pub fn parse(s: &str) -> (r: Option<OperationId>)
        ensures
            match uuid_text_value(s@) {
                Some(v) => r == Some(OperationId { value: v }),
                None => r is None,
            },
    {
        match parse_uuid(s) {
            Some(v) => Some(OperationId { value: v }),
            None => None,
        }
    }
}

/// Risk information returned by IPPure; the fraud score is kept as the bit
/// pattern of its `f64` value.
#[derive(Clone, Copy, PartialEq, Eq, Structural, Debug)]
pub struct IpPureResult {
    pub fraud_score_bits: u64,
    pub is_residential: bool,
    pub is_broadcast: bool,
    pub exit_ip: Option<Ipv4Addr>,
}

/// Last persisted result for a node, including failures.
#[derive(Clone, Debug)]
pub struct TestRecord {
    pub node_id: NodeId,
    pub result: Option<IpPureResult>,
    pub duration_ms: u64,
    pub tested_at: Timestamp,
    pub error: Option<String>,
}

/// Lifecycle of an isolated node quality test.
#[derive(Clone, Debug)]
pub enum TestState {
    Queued { node_id: NodeId, queued_at: Timestamp },
    Running { node_id: NodeId, started_at: Timestamp },
    Succeeded { node_id: NodeId, record: TestRecord },
    Failed { node_id: NodeId, record: TestRecord },
}

/// A test record with its texts as character sequences.
pub struct RecordView {
    pub node_id: Seq<char>,
    pub result: Option<IpPureResult>,
    pub duration_ms: u64,
    pub tested_at: Timestamp,
    pub error: Option<Seq<char>>,
}

impl View for TestRecord {
    type V = RecordView;

    open spec fn view(&self) -> RecordView {
        RecordView {
            node_id: self.node_id@,
            result: self.result,
            duration_ms: self.duration_ms,
            tested_at: self.tested_at,
            error: match self.error {
                Some(e) => Some(e@),
                None => None,
            },
        }
    }
}

impl TestRecord {
    /// A copy of the record.
    pub fn duplicate(&self) -> (r: TestRecord)
        ensures
            r@ == self@,
    {
        TestRecord {
            node_id: self.node_id.duplicate(),
            result: self.result,
            duration_ms: self.duration_ms,
            tested_at: self.tested_at,
            error: match &self.error {
                Some(e) => Some(e.clone()),
                None => None,
            },
        }
    }
}

/// A test state with its texts as character sequences.
pub enum StateView {
    Queued { node_id: Seq<char>, queued_at: Timestamp },
    Running { node_id: Seq<char>, started_at: Timestamp },
    Succeeded { node_id: Seq<char>, record: RecordView },
    Failed { node_id: Seq<char>, record: RecordView },
}

impl View for TestState {
    type V = StateView;

    open spec fn view(&self) -> StateView {
        match self {
            TestState::Queued { node_id, queued_at } => StateView::Queued { node_id: node_id@, queued_at: *queued_at },
            TestState::Running { node_id, started_at } => StateView::Running { node_id: node_id@, started_at: *started_at },
            TestState::Succeeded { node_id, record } => StateView::Succeeded { node_id: node_id@, record: record@ },
            TestState::Failed { node_id, record } => StateView::Failed { node_id: node_id@, record: record@ },
        }
    }
}

impl TestState {
    /// A copy of the state.
    pub fn duplicate(&self) -> (r: TestState)
        ensures
            r@ == self@,
    {
        match self {
            TestState::Queued { node_id, queued_at } => TestState::Queued { node_id: node_id.duplicate(), queued_at: *queued_at },
            TestState::Running { node_id, started_at } => TestState::Running { node_id: node_id.duplicate(), started_at: *started_at },
            TestState::Succeeded { node_id, record } => TestState::Succeeded { node_id: node_id.duplicate(), record: record.duplicate() },
            TestState::Failed { node_id, record } => TestState::Failed { node_id: node_id.duplicate(), record: record.duplicate() },
        }
    }
}

/// State of the active make-before-break connection.
#[derive(Clone, Debug)]
pub enum ConnectionState {
    Disconnected,
    Connecting { node_id: NodeId, worker_id: WorkerId, since: Timestamp },
    Connected { node_id: NodeId, worker_id: WorkerId, since: Timestamp },
    Failed { node_id: NodeId, message: String, at: Timestamp },
}

impl ConnectionState {
    /// Whether new local SOCKS connections may be accepted.
    pub fn is_ready(&self) -> (r: bool)
        ensures
            r == (self is Connected),
    {
        match self {
            ConnectionState::Connected { .. } => true,
            _ => false,
        }
    }

    /// The node the state refers to, if any.
    pub fn node_id(&self) -> (r: Option<&NodeId>)
        ensures
            match self {
                ConnectionState::Disconnected => r is None,
                ConnectionState::Connecting { node_id, .. } => r == Some(node_id),
                ConnectionState::Connected { node_id, .. } => r == Some(node_id),
                ConnectionState::Failed { node_id, .. } => r == Some(node_id),
            },
    {
        match self {
            ConnectionState::Disconnected => None,
            ConnectionState::Connecting { node_id, .. } => Some(node_id),
            ConnectionState::Connected { node_id, .. } => Some(node_id),
            ConnectionState::Failed { node_id, .. } => Some(node_id),
        }
    }
}


/// Internal representation of a VPN Gate node; the profile is never exposed by summaries.
#[derive(Clone, Debug)]
pub struct VpnNode {
    pub id: NodeId,
    pub hostname: String,
    pub ip: Ipv4Addr,
    pub score: u64,
    pub ping_ms: Option<u32>,
    pub speed_bps: u64,
    pub country_long: String,
    pub country_short: String,
    pub sessions: u32,
    pub uptime_ms: u64,
    pub total_users: u64,
    pub total_traffic_bytes: u64,
    pub log_type: String,
    pub operator: String,
    pub message: String,
    pub tcp_port: Option<u16>,
    pub availability: NodeAvailability,
    pub openvpn: Option<SanitizedOpenVpn>,
}

/// Public node fields returned by the Web API.
#[derive(Clone, Debug)]
pub struct NodeSummary {
    pub id: NodeId,
    pub hostname: String,
    pub ip: Ipv4Addr,
    pub score: u64,
    pub ping_ms: Option<u32>,
    pub speed_bps: u64,
    pub country_long: String,
    pub country_short: String,
    pub sessions: u32,
    pub uptime_ms: u64,
    pub total_users: u64,
    pub total_traffic_bytes: u64,
    pub log_type: String,
    pub operator: String,
    pub message: String,
    pub tcp_port: Option<u16>,
    pub availability: NodeAvailability,
    pub latest_test: Option<TestRecord>,
}

/// The documented free-text search: case-insensitive match in the region names,
/// host name, address text, operator or message; an empty query matches everything.
pub open spec fn node_matches(node: VpnNode, query: Seq<char>) -> bool {
    let q = unicode_lowercase(query);
    ||| q.len() == 0
    ||| contains_seq(unicode_lowercase(node.country_long@), q)
    ||| contains_seq(unicode_lowercase(node.country_short@), q)
    ||| contains_seq(unicode_lowercase(node.hostname@), q)
    ||| contains_seq(ipv4_text(node.ip), q)
    ||| contains_seq(unicode_lowercase(node.operator@), q)
    ||| contains_seq(unicode_lowercase(node.message@), q)
}

fn lower_contains(field: &String, q: &[char]) -> (r: bool)
    ensures
        r == contains_seq(unicode_lowercase(field@), q@),
{
    let lowered = to_lowercase(field.as_str());
    let v = str_chars(lowered.as_str());
    contains_chars(v.as_slice(), q)
}

impl VpnNode {
    /// Produces the public view without exposing the OpenVPN profile.
    pub fn summary(&self, latest_test: Option<TestRecord>) -> (r: NodeSummary)
        ensures
            r.id@ == self.id@,
            r.hostname == self.hostname,
            r.ip == self.ip,
            r.score == self.score,
            r.ping_ms == self.ping_ms,
            r.speed_bps == self.speed_bps,
            r.country_long == self.country_long,
            r.country_short == self.country_short,
            r.sessions == self.sessions,
            r.uptime_ms == self.uptime_ms,
            r.total_users == self.total_users,
            r.total_traffic_bytes == self.total_traffic_bytes,
            r.log_type == self.log_type,
            r.operator == self.operator,
            r.message == self.message,
            r.tcp_port == self.tcp_port,
            r.availability == self.availability,
            r.latest_test == latest_test,
    {
        NodeSummary {
            id: self.id.duplicate(),
            hostname: self.hostname.clone(),
            ip: self.ip,
            score: self.score,
            ping_ms: self.ping_ms,
            speed_bps: self.speed_bps,
            country_long: self.country_long.clone(),
            country_short: self.country_short.clone(),
            sessions: self.sessions,
            uptime_ms: self.uptime_ms,
            total_users: self.total_users,
            total_traffic_bytes: self.total_traffic_bytes,
            log_type: self.log_type.clone(),
            operator: self.operator.clone(),
            message: self.message.clone(),
            tcp_port: self.tcp_port,
            availability: self.availability,
            latest_test,
        }
    }

    /// Matches the documented region and free-text search fields.
    pub fn matches_search(&self, query: &str) -> (r: bool)
        ensures
            r == node_matches(*self, query@),
    {
        let lowered = to_lowercase(query);
        let q = str_chars(lowered.as_str());
        if q.len() == 0 {
            return true;
        }
        if lower_contains(&self.country_long, q.as_slice()) {
            return true;
        }
        if lower_contains(&self.country_short, q.as_slice()) {
            return true;
        }
        if lower_contains(&self.hostname, q.as_slice()) {
            return true;
        }
        let ip = self.ip.to_chars();
        if contains_chars(ip.as_slice(), q.as_slice()) {
            return true;
        }
        if lower_contains(&self.operator, q.as_slice()) {
            return true;
        }
        lower_contains(&self.message, q.as_slice())
    }
}

/// Filter on the IPPure broadcast/native classification.
#[derive(Clone, Copy, PartialEq, Eq, Structural, Debug)]
pub enum IpTypeFilter {
    Any,
    Native,
    Broadcast,
}

/// Filter on the IPPure residential attribute.
#[derive(Clone, Copy, PartialEq, Eq, Structural, Debug)]
pub enum ResidentialFilter {
    Any,
    Residential,
    NonResidential,
}

impl IpTypeFilter {
    /// The stored and wire name.
    pub fn as_str(self) -> (r: &'static str)
        ensures
            r@ == match self {
                IpTypeFilter::Any => "any"@,
                IpTypeFilter::Native => "native"@,
                IpTypeFilter::Broadcast => "broadcast"@,
            },
    {
        match self {
            IpTypeFilter::Any => "any",
            IpTypeFilter::Native => "native",
            IpTypeFilter::Broadcast => "broadcast",
        }
    }

    /// Reads a stored name.
    pub fn from_stored(value: &str) -> (r: Option<IpTypeFilter>)
        ensures
            r == if value@ == "any"@ {
                Some(IpTypeFilter::Any)
            } else if value@ == "native"@ {
                Some(IpTypeFilter::Native)
            } else if value@ == "broadcast"@ {
                Some(IpTypeFilter::Broadcast)
            } else {
                None
            },
    {
        let v = str_chars(value);
        if eq_str(v.as_slice(), "any") {
            Some(IpTypeFilter::Any)
        } else if eq_str(v.as_slice(), "native") {
            Some(IpTypeFilter::Native)
        } else if eq_str(v.as_slice(), "broadcast") {
            Some(IpTypeFilter::Broadcast)
        } else {
            None
        }
    }
}

impl ResidentialFilter {
    /// The stored and wire name.
    pub fn as_str(self) -> (r: &'static str)
        ensures
            r@ == match self {
                ResidentialFilter::Any => "any"@,
                ResidentialFilter::Residential => "residential"@,
                ResidentialFilter::NonResidential => "nonResidential"@,
            },
    {
        match self {
            ResidentialFilter::Any => "any",
            ResidentialFilter::Residential => "residential",
            ResidentialFilter::NonResidential => "nonResidential",
        }
    }

    /// Reads a stored name.
    pub fn from_stored(value: &str) -> (r: Option<ResidentialFilter>)
        ensures
            r == if value@ == "any"@ {
                Some(ResidentialFilter::Any)
            } else if value@ == "residential"@ {
                Some(ResidentialFilter::Residential)
            } else if value@ == "nonResidential"@ {
                Some(ResidentialFilter::NonResidential)
            } else {
                None
            },
    {
        let v = str_chars(value);
        if eq_str(v.as_slice(), "any") {
            Some(ResidentialFilter::Any)
        } else if eq_str(v.as_slice(), "residential") {
            Some(ResidentialFilter::Residential)
        } else if eq_str(v.as_slice(), "nonResidential") {
            Some(ResidentialFilter::NonResidential)
        } else {
            None
        }
    }
}

/// Persistent automatic connection policy.
#[derive(Clone, Debug)]
pub struct AutoConnectConfig {
    pub enabled: bool,
    pub region: Option<String>,
    pub ip_type: IpTypeFilter,
    pub residential: ResidentialFilter,
}

impl Default for AutoConnectConfig {
    fn default() -> (r: AutoConnectConfig)
        ensures
            !r.enabled && r.region is None && r.ip_type == IpTypeFilter::Any && r.residential
                == ResidentialFilter::Any,
    {
        AutoConnectConfig {
            enabled: false,
            region: None,
            ip_type: IpTypeFilter::Any,
            residential: ResidentialFilter::Any,
        }
    }
}

pub open spec fn is_ascii_alnum(c: char) -> bool {
    ('0' <= c && c <= '9') || ('a' <= c && c <= 'z') || ('A' <= c && c <= 'Z')
}

/// A region code: one to eight ASCII letters or digits.
pub open spec fn valid_region_code(s: Seq<char>) -> bool {
    1 <= s.len() <= 8 && forall|i: int| 0 <= i < s.len() ==> is_ascii_alnum(#[trigger] s[i])
}

/// The region a configuration is normalized to: trimmed and upper-cased, or none when blank.
pub open spec fn normalized_region(region: Option<Seq<char>>) -> Option<Seq<char>> {
    match region {
        Some(r) => if trim(r).len() == 0 {
            None
        } else {
            Some(to_ascii_uppercase(trim(r)))
        },
        None => None,
    }
}

impl AutoConnectConfig {
    /// Trims and upper-cases the region (a blank region means any region) and
    /// rejects a region that is not a short ASCII code.
    pub fn normalized(self) -> (r: Result<AutoConnectConfig, &'static str>)
        ensures
            r is Ok <==> match normalized_region(opt_view(self.region)) {
                Some(code) => valid_region_code(code),
                None => true,
            },
            r matches Ok(c) ==> c.enabled == self.enabled && c.ip_type == self.ip_type
                && c.residential == self.residential && opt_view(c.region) == normalized_region(
                opt_view(self.region),
            ),
    {
        let region = match &self.region {
            None => None,
            Some(text) => {
                let v = str_chars(text.as_str());
                let (a, b) = trim_bounds(v.as_slice());
                if a == b {
                    None
                } else {
                    let t = copy_range(v.as_slice(), a, b);
                    let up = uppercase(t.as_slice());
                    if up.len() > 8 {
                        return Err("region must be one to eight ASCII letters or digits");
                    }
                    let mut i: usize = 0;
                    while i < up.len()
                        invariant
                            i <= up@.len(),
                            up@.len() <= 8,
                            up@ == to_ascii_uppercase(trim(v@)),
                            trim(v@).len() > 0,
                            v@ == text@,
                            opt_view(self.region) == Some(text@),
                            forall|k: int| 0 <= k < i ==> is_ascii_alnum(#[trigger] up@[k]),
                        decreases up.len() - i,
                    {
                        let c = up[i];
                        if !(('0' <= c && c <= '9') || ('a' <= c && c <= 'z') || ('A' <= c && c
                            <= 'Z')) {
                            assert(!is_ascii_alnum(up@[i as int]));
                            return Err("region must be one to eight ASCII letters or digits");
                        }
                        i = i + 1;
                    }
                    Some(chars_to_string(up.as_slice()))
                }
            },
        };
        Ok(
            AutoConnectConfig {
                enabled: self.enabled,
                region,
                ip_type: self.ip_type,
                residential: self.residential,
            },
        )
    }
}


/// The search finds a node by any of its region names, host name, address
/// text, operator or message, without regard to case: a node is found when
/// the lowercased field contains the lowercased query; an empty query finds
/// every node.
pub proof fn search_covers_every_field(node: VpnNode, query: Seq<char>)
    ensures
        unicode_lowercase(query).len() == 0 ==> node_matches(node, query),
        contains_seq(unicode_lowercase(node.country_long@), unicode_lowercase(query)) ==> node_matches(node, query),
        contains_seq(unicode_lowercase(node.country_short@), unicode_lowercase(query)) ==> node_matches(node, query),
        contains_seq(unicode_lowercase(node.hostname@), unicode_lowercase(query)) ==> node_matches(node, query),
        contains_seq(ipv4_text(node.ip), unicode_lowercase(query)) ==> node_matches(node, query),
        contains_seq(unicode_lowercase(node.operator@), unicode_lowercase(query)) ==> node_matches(node, query),
        contains_seq(unicode_lowercase(node.message@), unicode_lowercase(query)) ==> node_matches(node, query),
{
}
} // verus!
