//! SOCKS5 wire formats, target policy and the decisions of the local gateway,
//! the worker-side server and the upstream probe.

use vstd::prelude::*;
use vstd::utf8::{encode_utf8, is_ascii_chars};

use crate::config::Credentials;
use crate::domain::{is_public_ipv4, public_ipv4, Ipv4Addr};
use sha2::{Digest, Sha256};
use subtle::ConstantTimeEq;
use crate::text::{
    byte_len, byte_len_of, chars_eq, copy_range, eq_str, lines, lowercase, split_chars,
    split_lines, split_on, split_tokens, str_chars, to_ascii_lowercase, tokens, views,
};

verus! {

pub const SOCKS_VERSION: u8 = 5;
pub const AUTH_VERSION: u8 = 1;
pub const METHOD_NONE: u8 = 0;
pub const METHOD_PASSWORD: u8 = 2;
pub const METHOD_UNACCEPTABLE: u8 = 0xff;
pub const COMMAND_CONNECT: u8 = 1;
pub const ADDRESS_IPV4: u8 = 1;
pub const ADDRESS_DOMAIN: u8 = 3;
pub const ADDRESS_IPV6: u8 = 4;
pub const REPLY_SUCCEEDED: u8 = 0;
pub const REPLY_GENERAL_FAILURE: u8 = 1;
pub const REPLY_NETWORK_UNREACHABLE: u8 = 3;
pub const REPLY_COMMAND_UNSUPPORTED: u8 = 7;
pub const REPLY_ADDRESS_UNSUPPORTED: u8 = 8;

/// Why one client connection was closed.
#[derive(Clone, Copy, PartialEq, Eq, Structural, Debug)]
pub enum SocksConnectionError {
    Protocol,
    CommandUnsupported,
    Authentication,
    NotReady,
    ForbiddenTarget,
    Io,
    Timeout,
}

/// Failure while checking reachability and authentication of the upstream SOCKS5.
#[derive(Clone, Copy, PartialEq, Eq, Structural, Debug)]
pub enum UpstreamProbeError {
    Unreachable,
    Timeout,
    Protocol,
    Authentication,
}

/// Errors returned while serving a listener rather than individual client failures.
#[derive(Clone, Copy, PartialEq, Eq, Structural, Debug)]
pub enum SocksServerError {
    Bind,
    Accept,
    Socket,
}

/// A requested destination.
#[derive(Clone, Debug)]
pub enum Target {
    Ipv4(Ipv4Addr, u16),
    Domain(String, u16),
}

pub open spec fn ends_with(s: Seq<char>, suffix: Seq<char>) -> bool {
    suffix.len() <= s.len() && s.subrange(s.len() - suffix.len(), s.len() as int) == suffix
}

/// `rsplit_once('.')` finds a dot and the text after the last dot equals `suffix`.
pub open spec fn last_label_is(s: Seq<char>, suffix: Seq<char>) -> bool {
    let parts = split_on(s, '.');
    parts.len() > 1 && parts.last() == suffix
}

/// Domain names that must never leave through the tunnel: too long, non-ASCII,
/// local-only names, and names with empty labels.
pub open spec fn domain_forbidden(d: Seq<char>) -> bool {
    let lower = to_ascii_lowercase(d);
    ||| byte_len(d) > 253
    ||| !is_ascii_chars(d)
    ||| lower == "localhost"@
    ||| ends_with(lower, ".localhost"@)
    ||| last_label_is(lower, "local"@)
    ||| last_label_is(lower, "internal"@)
    ||| exists|i: int| 0 <= i < split_on(d, '.').len() && (#[trigger] split_on(d, '.')[i]).len() == 0
}

pub open spec fn target_allowed(t: Target) -> bool {
    match t {
        Target::Ipv4(ip, port) => public_ipv4(ip) && port != 0,
        Target::Domain(d, port) => !domain_forbidden(d@) && port != 0,
    }
}

fn ends_with_str(s: &[char], suffix: &str) -> (r: bool)
    ensures
        r == ends_with(s@, suffix@),
{
    let suf = str_chars(suffix);
    if suf.len() > s.len() {
        return false;
    }
    let tail = copy_range(s, s.len() - suf.len(), s.len());
    chars_eq(tail.as_slice(), suf.as_slice())
}

/// Whether the text after the last dot equals `suffix`.
pub fn has_domain_suffix(domain: &[char], suffix: &str) -> (r: bool)
    ensures
        r == last_label_is(domain@, suffix@),
{
    let parts = split_chars(domain, '.');
    assert(views(parts@).len() == parts@.len());
    if parts.len() <= 1 {
        return false;
    }
    let last = &parts[parts.len() - 1];
    assert(views(parts@).last() == last@);
    let suf = str_chars(suffix);
    chars_eq(last.as_slice(), suf.as_slice())
}

/// Accepts only public IPv4 targets and plausible public domain names with a non-zero port.
pub fn validate_target(target: &Target) -> (r: Result<(), SocksConnectionError>)
    ensures
        r is Ok <==> target_allowed(*target),
        r matches Err(e) ==> e == SocksConnectionError::ForbiddenTarget,
{
    match target {
        Target::Ipv4(ip, port) => {
            if !is_public_ipv4(*ip) || *port == 0 {
                return Err(SocksConnectionError::ForbiddenTarget);
            }
            Ok(())
        },
        Target::Domain(domain, port) => {
            let d = str_chars(domain.as_str());
            let lower = lowercase(d.as_slice());
            if byte_len_of(d.as_slice()) > 253 {
                return Err(SocksConnectionError::ForbiddenTarget);
            }
            if !domain.as_str().is_ascii() {
                return Err(SocksConnectionError::ForbiddenTarget);
            }
            if crate::text::eq_str(lower.as_slice(), "localhost") || ends_with_str(
                lower.as_slice(),
                ".localhost",
            ) || has_domain_suffix(lower.as_slice(), "local") || has_domain_suffix(
                lower.as_slice(),
                "internal",
            ) {
                return Err(SocksConnectionError::ForbiddenTarget);
            }
            let labels = split_chars(d.as_slice(), '.');
            let ghost lv = views(labels@);
            let mut i: usize = 0;
            while i < labels.len()
                invariant
                    i <= labels@.len() == lv.len(),
                    lv == views(labels@),
                    lv == split_on(domain@, '.'),
                    target_allowed(*target) == (!domain_forbidden(domain@) && *port != 0),
                    forall|k: int| 0 <= k < i ==> (#[trigger] lv[k]).len() != 0,
                decreases labels.len() - i,
            {
                assert(lv[i as int] == labels@[i as int]@);
                if labels[i].len() == 0 {
                    return Err(SocksConnectionError::ForbiddenTarget);
                }
                i = i + 1;
            }
            if *port == 0 {
                return Err(SocksConnectionError::ForbiddenTarget);
            }
            Ok(())
        },
    }
}

/// Big-endian bytes of a port.
pub open spec fn port_bytes(port: u16) -> Seq<u8> {
    seq![(port / 256) as u8, (port % 256) as u8]
}

/// The CONNECT request sent to a worker; a domain longer than 255 bytes cannot be encoded.
pub open spec fn request_bytes(t: Target) -> Option<Seq<u8>> {
    match t {
        Target::Ipv4(ip, port) => Some(
            seq![SOCKS_VERSION, COMMAND_CONNECT, 0u8, ADDRESS_IPV4, ip.a, ip.b, ip.c, ip.d]
                + port_bytes(port),
        ),
        Target::Domain(d, port) => {
            let b = encode_utf8(d@);
            if b.len() <= 255 {
                Some(
                    seq![SOCKS_VERSION, COMMAND_CONNECT, 0u8, ADDRESS_DOMAIN, b.len() as u8] + b
                        + port_bytes(port),
                )
            } else {
                None
            }
        },
    }
}

fn push_bytes(dst: &mut Vec<u8>, src: &[u8])
    ensures
        final(dst)@ == old(dst)@ + src@,
{
    let mut i: usize = 0;
    let ghost start = dst@;
    while i < src.len()
        invariant
            i <= src@.len(),
            dst@ == start + src@.subrange(0, i as int),
        decreases src.len() - i,
    {
        dst.push(src[i]);
        i = i + 1;
        assert(dst@ =~= start + src@.subrange(0, i as int));
    }
    assert(src@.subrange(0, src@.len() as int) =~= src@);
}

/// Encodes a CONNECT request; domains are sent for remote resolution.
pub fn encode_request(target: &Target) -> (r: Result<Vec<u8>, SocksConnectionError>)
    ensures
        match request_bytes(*target) {
            Some(b) => r matches Ok(v) && v@ == b,
            None => r == Err::<Vec<u8>, SocksConnectionError>(SocksConnectionError::Protocol),
        },
{
    let mut request: Vec<u8> = Vec::new();
    request.push(SOCKS_VERSION);
    request.push(COMMAND_CONNECT);
    request.push(0);
    match target {
        Target::Ipv4(ip, port) => {
            request.push(ADDRESS_IPV4);
            request.push(ip.a);
            request.push(ip.b);
            request.push(ip.c);
            request.push(ip.d);
            request.push((*port / 256) as u8);
            request.push((*port % 256) as u8);
            assert(request@ =~= seq![SOCKS_VERSION, COMMAND_CONNECT, 0u8, ADDRESS_IPV4, ip.a, ip.b, ip.c, ip.d]
                + port_bytes(*port));
        },
        Target::Domain(domain, port) => {
            let bytes = domain.as_str().as_bytes();
            if bytes.len() > 255 {
                return Err(SocksConnectionError::Protocol);
            }
            request.push(ADDRESS_DOMAIN);
            request.push(bytes.len() as u8);
            push_bytes(&mut request, bytes);
            request.push((*port / 256) as u8);
            request.push((*port % 256) as u8);
            assert(request@ =~= seq![SOCKS_VERSION, COMMAND_CONNECT, 0u8, ADDRESS_DOMAIN, bytes@.len() as u8]
                + bytes@ + port_bytes(*port));
        },
    }
    Ok(request)
}

/// A reply with an optional bound IPv4 address (zeros when absent).
pub open spec fn reply_bytes(reply: u8, bound: Option<(Ipv4Addr, u16)>) -> Seq<u8> {
    seq![SOCKS_VERSION, reply, 0u8, ADDRESS_IPV4] + match bound {
        Some((ip, port)) => seq![ip.a, ip.b, ip.c, ip.d] + port_bytes(port),
        None => seq![0u8, 0u8, 0u8, 0u8, 0u8, 0u8],
    }
}

pub fn encode_reply(reply: u8, bound: Option<(Ipv4Addr, u16)>) -> (r: Vec<u8>)
    ensures
        r@ == reply_bytes(reply, bound),
{
    let mut response: Vec<u8> = Vec::new();
    response.push(SOCKS_VERSION);
    response.push(reply);
    response.push(0);
    response.push(ADDRESS_IPV4);
    match bound {
        Some((ip, port)) => {
            response.push(ip.a);
            response.push(ip.b);
            response.push(ip.c);
            response.push(ip.d);
            response.push((port / 256) as u8);
            response.push((port % 256) as u8);
        },
        None => {
            let mut k: usize = 0;
            while k < 6
                invariant
                    k <= 6,
                    response@ == seq![SOCKS_VERSION, reply, 0u8, ADDRESS_IPV4] + Seq::new(k as nat, |j: int| 0u8),
                decreases 6 - k,
            {
                response.push(0);
                k = k + 1;
                assert(response@ =~= seq![SOCKS_VERSION, reply, 0u8, ADDRESS_IPV4] + Seq::new(k as nat, |j: int| 0u8));
            }
        },
    }
    assert(response@ =~= reply_bytes(reply, bound));
    response
}

/// The reply code sent when a request could not be read.
pub open spec fn request_failure_reply(e: SocksConnectionError) -> u8 {
    match e {
        SocksConnectionError::ForbiddenTarget => REPLY_NETWORK_UNREACHABLE,
        SocksConnectionError::CommandUnsupported => REPLY_COMMAND_UNSUPPORTED,
        _ => REPLY_ADDRESS_UNSUPPORTED,
    }
}

pub fn reply_for_request_error(e: SocksConnectionError) -> (r: u8)
    ensures
        r == request_failure_reply(e),
{
    match e {
        SocksConnectionError::ForbiddenTarget => REPLY_NETWORK_UNREACHABLE,
        SocksConnectionError::CommandUnsupported => REPLY_COMMAND_UNSUPPORTED,
        _ => REPLY_ADDRESS_UNSUPPORTED,
    }
}

/// The address form announced in a request header.
#[derive(Clone, Copy, PartialEq, Eq, Structural, Debug)]
pub enum AddressKind {
    Ipv4,
    Domain,
}

/// Checks the first four bytes of a request.
pub open spec fn request_header_result(version: u8, command: u8, reserved: u8, address_type: u8) -> Result<AddressKind, SocksConnectionError> {
    if version != SOCKS_VERSION || reserved != 0 {
        Err(SocksConnectionError::Protocol)
    } else if command != COMMAND_CONNECT {
        Err(SocksConnectionError::CommandUnsupported)
    } else if address_type == ADDRESS_IPV4 {
        Ok(AddressKind::Ipv4)
    } else if address_type == ADDRESS_DOMAIN {
        Ok(AddressKind::Domain)
    } else if address_type == ADDRESS_IPV6 {
        Err(SocksConnectionError::ForbiddenTarget)
    } else {
        Err(SocksConnectionError::Protocol)
    }
}

pub fn check_request_header(version: u8, command: u8, reserved: u8, address_type: u8) -> (r: Result<AddressKind, SocksConnectionError>)
    ensures
        r == request_header_result(version, command, reserved, address_type),
{
    if version != SOCKS_VERSION || reserved != 0 {
        Err(SocksConnectionError::Protocol)
    } else if command != COMMAND_CONNECT {
        Err(SocksConnectionError::CommandUnsupported)
    } else if address_type == ADDRESS_IPV4 {
        Ok(AddressKind::Ipv4)
    } else if address_type == ADDRESS_DOMAIN {
        Ok(AddressKind::Domain)
    } else if address_type == ADDRESS_IPV6 {
        Err(SocksConnectionError::ForbiddenTarget)
    } else {
        Err(SocksConnectionError::Protocol)
    }
}

/// What follows the first four bytes of a reply: an address of a fixed size
/// (address and port), or a domain whose length byte comes next.
#[derive(Clone, Copy, PartialEq, Eq, Structural, Debug)]
pub enum ReplyAddress {
    Fixed(usize),
    Domain,
}

/// Checks the first four bytes of a reply (version, reply code, reserved
/// byte, address type) and says how the bound address that follows is read.
pub fn reply_address(version: u8, reserved: u8, address_type: u8) -> (r: Result<ReplyAddress, SocksConnectionError>)
    ensures
        r == if version != SOCKS_VERSION || reserved != 0 {
            Err(SocksConnectionError::Protocol)
        } else if address_type == ADDRESS_IPV4 {
            Ok(ReplyAddress::Fixed(6))
        } else if address_type == ADDRESS_DOMAIN {
            Ok(ReplyAddress::Domain)
        } else if address_type == ADDRESS_IPV6 {
            Ok(ReplyAddress::Fixed(18))
        } else {
            Err(SocksConnectionError::Protocol)
        },
{
    if version != SOCKS_VERSION || reserved != 0 {
        Err(SocksConnectionError::Protocol)
    } else if address_type == ADDRESS_IPV4 {
        Ok(ReplyAddress::Fixed(6))
    } else if address_type == ADDRESS_DOMAIN {
        Ok(ReplyAddress::Domain)
    } else if address_type == ADDRESS_IPV6 {
        Ok(ReplyAddress::Fixed(18))
    } else {
        Err(SocksConnectionError::Protocol)
    }
}

/// The method chosen for a greeting: password when credentials are configured,
/// no authentication otherwise, if the client offers it.
pub open spec fn selected_method(methods: Seq<u8>, requires_password: bool) -> u8 {
    if requires_password && methods.contains(METHOD_PASSWORD) {
        METHOD_PASSWORD
    } else if !requires_password && methods.contains(METHOD_NONE) {
        METHOD_NONE
    } else {
        METHOD_UNACCEPTABLE
    }
}

fn contains_byte(v: &[u8], b: u8) -> (r: bool)
    ensures
        r == v@.contains(b),
{
    let mut i: usize = 0;
    while i < v.len()
        invariant
            i <= v@.len(),
            forall|k: int| 0 <= k < i ==> v@[k] != b,
        decreases v.len() - i,
    {
        if v[i] == b {
            return true;
        }
        i = i + 1;
    }
    false
}

pub fn select_method(methods: &[u8], requires_password: bool) -> (r: u8)
    ensures
        r == selected_method(methods@, requires_password),
{
    if requires_password && contains_byte(methods, METHOD_PASSWORD) {
        METHOD_PASSWORD
    } else if !requires_password && contains_byte(methods, METHOD_NONE) {
        METHOD_NONE
    } else {
        METHOD_UNACCEPTABLE
    }
}

/// A greeting header is acceptable when it is SOCKS5 with 1 to 16 methods.
pub fn greeting_header_ok(version: u8, method_count: u8) -> (r: bool)
    ensures
        r == (version == SOCKS_VERSION && 1 <= method_count <= 16),
{
    version == SOCKS_VERSION && method_count != 0 && method_count <= 16
}

/// The greeting the upstream probe sends.
pub fn probe_greeting(has_username: bool) -> (r: Vec<u8>)
    ensures
        r@ == if has_username {
            seq![SOCKS_VERSION, 2u8, METHOD_NONE, METHOD_PASSWORD]
        } else {
            seq![SOCKS_VERSION, 1u8, METHOD_NONE]
        },
{
    let mut v: Vec<u8> = Vec::new();
    v.push(SOCKS_VERSION);
    if has_username {
        v.push(2);
        v.push(METHOD_NONE);
        v.push(METHOD_PASSWORD);
    } else {
        v.push(1);
        v.push(METHOD_NONE);
    }
    v
}

/// What the upstream probe does after the method reply.
#[derive(Clone, Debug)]
pub enum ProbeStep {
    Done,
    SendAuthentication(Vec<u8>),
    Fail(UpstreamProbeError),
}

/// The RFC 1929 username/password request.
pub open spec fn auth_request_bytes(user: Seq<u8>, password: Seq<u8>) -> Seq<u8> {
    seq![AUTH_VERSION, user.len() as u8] + user + seq![password.len() as u8] + password
}

/// Decides the probe's next step from the server's method reply.
pub fn probe_method_reply(reply: [u8; 2], username: Option<&str>, password: Option<&str>) -> (r: ProbeStep)
    ensures
        reply@[0] != SOCKS_VERSION ==> r matches ProbeStep::Fail(UpstreamProbeError::Protocol),
        reply@[0] == SOCKS_VERSION && reply@[1] == METHOD_NONE ==> r is Done,
        reply@[0] == SOCKS_VERSION && reply@[1] == METHOD_PASSWORD ==> match (username, password) {
            (Some(u), Some(p)) => if encode_utf8(u@).len() <= 255 && encode_utf8(p@).len() <= 255 {
                r matches ProbeStep::SendAuthentication(b) && b@ == auth_request_bytes(encode_utf8(u@), encode_utf8(p@))
            } else {
                r matches ProbeStep::Fail(UpstreamProbeError::Protocol)
            },
            _ => r matches ProbeStep::Fail(UpstreamProbeError::Authentication),
        },
        reply@[0] == SOCKS_VERSION && reply@[1] == METHOD_UNACCEPTABLE ==> r matches ProbeStep::Fail(UpstreamProbeError::Authentication),
        reply@[0] == SOCKS_VERSION && reply@[1] != METHOD_NONE && reply@[1] != METHOD_PASSWORD && reply@[1] != METHOD_UNACCEPTABLE ==> r matches ProbeStep::Fail(UpstreamProbeError::Protocol),
{
    if reply[0] != SOCKS_VERSION {
        return ProbeStep::Fail(UpstreamProbeError::Protocol);
    }
    if reply[1] == METHOD_NONE {
        ProbeStep::Done
    } else if reply[1] == METHOD_PASSWORD {
        match (username, password) {
            (Some(u), Some(p)) => {
                let ub = u.as_bytes();
                let pb = p.as_bytes();
                if ub.len() > 255 || pb.len() > 255 {
                    return ProbeStep::Fail(UpstreamProbeError::Protocol);
                }
                let mut request: Vec<u8> = Vec::new();
                request.push(AUTH_VERSION);
                request.push(ub.len() as u8);
                push_bytes(&mut request, ub);
                request.push(pb.len() as u8);
                push_bytes(&mut request, pb);
                assert(request@ =~= auth_request_bytes(ub@, pb@));
                ProbeStep::SendAuthentication(request)
            },
            _ => ProbeStep::Fail(UpstreamProbeError::Authentication),
        }
    } else if reply[1] == METHOD_UNACCEPTABLE {
        ProbeStep::Fail(UpstreamProbeError::Authentication)
    } else {
        ProbeStep::Fail(UpstreamProbeError::Protocol)
    }
}

/// The probe succeeds only on an RFC 1929 success status.
pub fn probe_auth_reply(reply: [u8; 2]) -> (r: Result<(), UpstreamProbeError>)
    ensures
        r is Ok <==> (reply@[0] == AUTH_VERSION && reply@[1] == 0),
        r matches Err(e) ==> e == UpstreamProbeError::Authentication,
{
    if reply[0] == AUTH_VERSION && reply[1] == 0 {
        Ok(())
    } else {
        Err(UpstreamProbeError::Authentication)
    }
}


/// Why a DNS message could not be built or read.
#[derive(Clone, Copy, PartialEq, Eq, Structural, Debug)]
pub enum DnsError {
    LabelTooLong,
    LabelLength,
    HeaderInvalid,
    Unsuccessful,
    TooManyRecords,
    QuestionTruncated,
    AnswerTruncated,
    RecordTruncated,
    NoAddress,
    NameTruncated,
    PointerTruncated,
    PointerOutOfBounds,
    LabelInvalid,
    LabelTruncated,
    TooManyLabels,
}

pub open spec fn split_bytes_scan(s: Seq<u8>, sep: u8, start: int, i: int) -> Seq<Seq<u8>>
    decreases s.len() - i,
{
    if i >= s.len() {
        seq![s.subrange(start, s.len() as int)]
    } else if s[i] == sep {
        seq![s.subrange(start, i)] + split_bytes_scan(s, sep, i + 1, i + 1)
    } else {
        split_bytes_scan(s, sep, start, i + 1)
    }
}

/// Byte pieces between separators, as `str::split` on an ASCII separator.
pub open spec fn split_bytes(s: Seq<u8>, sep: u8) -> Seq<Seq<u8>> {
    split_bytes_scan(s, sep, 0, 0)
}

pub open spec fn byte_views(v: Seq<Vec<u8>>) -> Seq<Seq<u8>> {
    v.map_values(|x: Vec<u8>| x@)
}

fn copy_bytes(s: &[u8], a: usize, b: usize) -> (r: Vec<u8>)
    requires
        a <= b <= s@.len(),
    ensures
        r@ == s@.subrange(a as int, b as int),
{
    let mut r: Vec<u8> = Vec::new();
    let mut k = a;
    while k < b
        invariant
            a <= k <= b <= s@.len(),
            r@ == s@.subrange(a as int, k as int),
        decreases b - k,
    {
        r.push(s[k]);
        k = k + 1;
    }
    r
}

fn split_byte_pieces(s: &[u8], sep: u8) -> (r: Vec<Vec<u8>>)
    ensures
        byte_views(r@) == split_bytes(s@, sep),
{
    let n = s.len();
    let mut out: Vec<Vec<u8>> = Vec::new();
    let mut start: usize = 0;
    let mut i: usize = 0;
    while i < n
        invariant
            start <= i <= n == s@.len(),
            byte_views(out@) + split_bytes_scan(s@, sep, start as int, i as int) == split_bytes(s@, sep),
        decreases n - i,
    {
        if s[i] == sep {
            let piece = copy_bytes(s, start, i);
            let ghost before = out@;
            out.push(piece);
            assert(byte_views(out@) =~= byte_views(before) + seq![piece@]);
            assert(byte_views(out@) + split_bytes_scan(s@, sep, (i + 1) as int, (i + 1) as int)
                =~= byte_views(before) + split_bytes_scan(s@, sep, start as int, i as int));
            start = i + 1;
        }
        i = i + 1;
    }
    let piece = copy_bytes(s, start, n);
    let ghost before = out@;
    out.push(piece);
    assert(byte_views(out@) =~= byte_views(before) + seq![piece@]);
    assert(byte_views(out@) =~= byte_views(before) + split_bytes_scan(s@, sep, start as int, n as int));
    out
}

/// Length-prefixed labels of a DNS name; the first bad label decides the error.
pub open spec fn dns_labels(parts: Seq<Seq<u8>>) -> Result<Seq<u8>, DnsError>
    decreases parts.len(),
{
    if parts.len() == 0 {
        Ok(seq![])
    } else {
        match dns_labels(parts.drop_last()) {
            Err(e) => Err(e),
            Ok(prefix) => {
                let l = parts.last();
                if l.len() > 255 {
                    Err(DnsError::LabelTooLong)
                } else if l.len() == 0 || l.len() > 63 {
                    Err(DnsError::LabelLength)
                } else {
                    Ok(prefix + seq![l.len() as u8] + l)
                }
            },
        }
    }
}

/// A recursive-desired query for the A record of `domain`.
pub open spec fn dns_query_bytes(domain: Seq<char>, query_id: u16) -> Result<Seq<u8>, DnsError> {
    match dns_labels(split_bytes(encode_utf8(domain), 0x2Eu8)) {
        Err(e) => Err(e),
        Ok(labels) => Ok(
            seq![(query_id / 256) as u8, (query_id % 256) as u8, 1u8, 0u8, 0u8, 1u8, 0u8, 0u8, 0u8, 0u8, 0u8, 0u8]
                + labels + seq![0u8, 0u8, 1u8, 0u8, 1u8],
        ),
    }
}

/// Builds a DNS A query for `domain`.
pub fn encode_dns_query(domain: &str, query_id: u16) -> (r: Result<Vec<u8>, DnsError>)
    ensures
        match dns_query_bytes(domain@, query_id) {
            Ok(b) => r matches Ok(v) && v@ == b,
            Err(e) => r == Err::<Vec<u8>, DnsError>(e),
        },
{
    let mut query: Vec<u8> = Vec::new();
    query.push((query_id / 256) as u8);
    query.push((query_id % 256) as u8);
    query.push(1);
    query.push(0);
    query.push(0);
    query.push(1);
    let mut k: usize = 0;
    while k < 6
        invariant
            k <= 6,
            query@ == seq![(query_id / 256) as u8, (query_id % 256) as u8, 1u8, 0u8, 0u8, 1u8] + Seq::new(k as nat, |j: int| 0u8),
        decreases 6 - k,
    {
        query.push(0);
        k = k + 1;
        assert(query@ =~= seq![(query_id / 256) as u8, (query_id % 256) as u8, 1u8, 0u8, 0u8, 1u8] + Seq::new(k as nat, |j: int| 0u8));
    }
    let ghost header = query@;
    assert(header =~= seq![(query_id / 256) as u8, (query_id % 256) as u8, 1u8, 0u8, 0u8, 1u8, 0u8, 0u8, 0u8, 0u8, 0u8, 0u8]);
    let parts = split_byte_pieces(domain.as_bytes(), 0x2E);
    let ghost pv = byte_views(parts@);
    let mut i: usize = 0;
    while i < parts.len()
        invariant
            i <= parts@.len() == pv.len(),
            pv == byte_views(parts@),
            pv == split_bytes(encode_utf8(domain@), 0x2Eu8),
            header == seq![(query_id / 256) as u8, (query_id % 256) as u8, 1u8, 0u8, 0u8, 1u8, 0u8, 0u8, 0u8, 0u8, 0u8, 0u8],
            dns_labels(pv.subrange(0, i as int)) matches Ok(l) && query@ == header + l,
        decreases parts.len() - i,
    {
        let label = &parts[i];
        assert(pv[i as int] == label@);
        assert(pv.subrange(0, (i + 1) as int).drop_last() =~= pv.subrange(0, i as int));
        assert(pv.subrange(0, (i + 1) as int).last() == label@);
        if label.len() > 255 {
            proof {
                lemma_labels_error_persists(pv, (i + 1) as int, DnsError::LabelTooLong);
            }
            return Err(DnsError::LabelTooLong);
        }
        if label.len() == 0 || label.len() > 63 {
            proof {
                lemma_labels_error_persists(pv, (i + 1) as int, DnsError::LabelLength);
            }
            return Err(DnsError::LabelLength);
        }
        query.push(label.len() as u8);
        push_bytes(&mut query, label.as_slice());
        i = i + 1;
        assert(query@ =~= header + dns_labels(pv.subrange(0, i as int))->Ok_0);
    }
    assert(pv.subrange(0, pv.len() as int) =~= pv);
    query.push(0);
    query.push(0);
    query.push(1);
    query.push(0);
    query.push(1);
    assert(query@ =~= header + dns_labels(pv)->Ok_0 + seq![0u8, 0u8, 1u8, 0u8, 1u8]);
    Ok(query)
}

proof fn lemma_labels_error_persists(parts: Seq<Seq<u8>>, k: int, e: DnsError)
    requires
        0 <= k <= parts.len(),
        dns_labels(parts.subrange(0, k)) == Err::<Seq<u8>, DnsError>(e),
    ensures
        dns_labels(parts) == Err::<Seq<u8>, DnsError>(e),
    decreases parts.len() - k,
{
    if k < parts.len() {
        assert(parts.subrange(0, k + 1).drop_last() =~= parts.subrange(0, k));
        lemma_labels_error_persists(parts, k + 1, e);
    } else {
        assert(parts.subrange(0, k) =~= parts);
    }
}

/// A truncated UDP answer to our query: the TC flag is set.
pub open spec fn dns_truncated(response: Seq<u8>, query_id: u16) -> bool {
    response.len() >= 4 && response[0] == (query_id / 256) as u8 && response[1] == (query_id
        % 256) as u8 && response[2] & 0x02 != 0
}

pub fn dns_response_is_truncated(response: &[u8], query_id: u16) -> (r: bool)
    ensures
        r == dns_truncated(response@, query_id),
{
    response.len() >= 4 && response[0] == (query_id / 256) as u8 && response[1] == (query_id
        % 256) as u8 && response[2] & 0x02 != 0
}

/// Offset just past the (possibly compressed) name at `offset`, reading at most `steps` labels.
pub open spec fn skip_name(m: Seq<u8>, offset: int, steps: nat) -> Result<int, DnsError>
    decreases steps,
{
    if steps == 0 {
        Err(DnsError::TooManyLabels)
    } else if offset < 0 || offset >= m.len() {
        Err(DnsError::NameTruncated)
    } else {
        let length = m[offset];
        if length & 0xc0 == 0xc0 {
            if offset + 1 >= m.len() {
                Err(DnsError::PointerTruncated)
            } else if ((length & 0x3f) as int) * 256 + m[offset + 1] as int >= m.len() {
                Err(DnsError::PointerOutOfBounds)
            } else {
                Ok(offset + 2)
            }
        } else if length & 0xc0 != 0 || length > 63 {
            Err(DnsError::LabelInvalid)
        } else if length == 0 {
            Ok(offset + 1)
        } else if offset + 1 + length > m.len() {
            Err(DnsError::LabelTruncated)
        } else {
            skip_name(m, offset + 1 + length, (steps - 1) as nat)
        }
    }
}

/// Skips a name; pointers end the name, at most 128 labels are read.
pub fn skip_dns_name(message: &[u8], offset: usize) -> (r: Result<usize, DnsError>)
    ensures
        match skip_name(message@, offset as int, 128) {
            Ok(o) => r == Ok::<usize, DnsError>(o as usize) && 0 <= o <= message@.len(),
            Err(e) => r == Err::<usize, DnsError>(e),
        },
{
    let mut off = offset;
    let mut steps: usize = 128;
    while steps > 0
        invariant
            steps <= 128,
            skip_name(message@, offset as int, 128) == skip_name(message@, off as int, steps as nat),
        decreases steps,
    {
        if off >= message.len() {
            return Err(DnsError::NameTruncated);
        }
        let length = message[off];
        if length & 0xc0 == 0xc0 {
            if off >= message.len() - 1 {
                return Err(DnsError::PointerTruncated);
            }
            let low = message[off + 1];
            let pointer = ((length & 0x3f) as usize) * 256 + low as usize;
            if pointer >= message.len() {
                return Err(DnsError::PointerOutOfBounds);
            }
            return Ok(off + 2);
        }
        if length & 0xc0 != 0 || length > 63 {
            return Err(DnsError::LabelInvalid);
        }
        if length == 0 {
            return Ok(off + 1);
        }
        if (length as usize) > message.len() - off - 1 {
            return Err(DnsError::LabelTruncated);
        }
        off = off + 1 + length as usize;
        steps = steps - 1;
    }
    Err(DnsError::TooManyLabels)
}

pub open spec fn be16(hi: u8, lo: u8) -> nat {
    hi as nat * 256 + lo as nat
}

/// Skips `count` questions starting at `offset`.
pub open spec fn skip_questions(m: Seq<u8>, offset: int, count: nat) -> Result<int, DnsError>
    decreases count,
{
    if count == 0 {
        Ok(offset)
    } else {
        match skip_name(m, offset, 128) {
            Err(e) => Err(e),
            Ok(o) => if o + 4 <= m.len() {
                skip_questions(m, o + 4, (count - 1) as nat)
            } else {
                Err(DnsError::QuestionTruncated)
            },
        }
    }
}

/// One answer record: the offset after it and the IPv4 address it carries, if it is an IN A record.
pub open spec fn one_answer(m: Seq<u8>, offset: int) -> Result<(int, Option<Ipv4Addr>), DnsError> {
    match skip_name(m, offset, 128) {
        Err(e) => Err(e),
        Ok(o) => if o + 10 > m.len() {
            Err(DnsError::AnswerTruncated)
        } else {
            let record_type = be16(m[o], m[o + 1]);
            let class = be16(m[o + 2], m[o + 3]);
            let data_length = be16(m[o + 8], m[o + 9]);
            let header_end = o + 10;
            if header_end + data_length > m.len() {
                Err(DnsError::RecordTruncated)
            } else if record_type == 1 && class == 1 && data_length == 4 {
                Ok(
                    (
                        header_end + data_length,
                        Some(
                            Ipv4Addr {
                                a: m[header_end],
                                b: m[header_end + 1],
                                c: m[header_end + 2],
                                d: m[header_end + 3],
                            },
                        ),
                    ),
                )
            } else {
                Ok((header_end + data_length, None))
            }
        },
    }
}

pub open spec fn opt_seq(o: Option<Ipv4Addr>) -> Seq<Ipv4Addr> {
    match o {
        Some(ip) => seq![ip],
        None => seq![],
    }
}

/// The IPv4 addresses of `count` answer records starting at `offset`, in order.
pub open spec fn read_answers(m: Seq<u8>, offset: int, count: nat) -> Result<Seq<Ipv4Addr>, DnsError>
    decreases count,
{
    if count == 0 {
        Ok(seq![])
    } else {
        match one_answer(m, offset) {
            Err(e) => Err(e),
            Ok((next, ip)) => match read_answers(m, next, (count - 1) as nat) {
                Err(e) => Err(e),
                Ok(rest) => Ok(opt_seq(ip) + rest),
            },
        }
    }
}

/// The A records of a response to query `query_id`.
pub open spec fn dns_a_addresses(m: Seq<u8>, query_id: u16) -> Result<Seq<Ipv4Addr>, DnsError> {
    if m.len() < 12 || m[0] != (query_id / 256) as u8 || m[1] != (query_id % 256) as u8 {
        Err(DnsError::HeaderInvalid)
    } else if m[2] < 128 || m[3] % 16 != 0 {
        Err(DnsError::Unsuccessful)
    } else if be16(m[4], m[5]) > 8 || be16(m[6], m[7]) > 128 {
        Err(DnsError::TooManyRecords)
    } else {
        match skip_questions(m, 12, be16(m[4], m[5])) {
            Err(e) => Err(e),
            Ok(o) => match read_answers(m, o, be16(m[6], m[7])) {
                Err(e) => Err(e),
                Ok(addresses) => if addresses.len() == 0 {
                    Err(DnsError::NoAddress)
                } else {
                    Ok(addresses)
                },
            },
        }
    }
}

/// The part of `dns_a_addresses` after the header checks.
pub open spec fn dns_records(m: Seq<u8>) -> Result<Seq<Ipv4Addr>, DnsError> {
    match skip_questions(m, 12, be16(m[4], m[5])) {
        Err(e) => Err(e),
        Ok(o) => match read_answers(m, o, be16(m[6], m[7])) {
            Err(e) => Err(e),
            Ok(addresses) => if addresses.len() == 0 {
                Err(DnsError::NoAddress)
            } else {
                Ok(addresses)
            },
        },
    }
}

pub open spec fn prepend(acc: Seq<Ipv4Addr>, r: Result<Seq<Ipv4Addr>, DnsError>) -> Result<Seq<Ipv4Addr>, DnsError> {
    match r {
        Err(e) => Err(e),
        Ok(rest) => Ok(acc + rest),
    }
}

/// Parses a bounded DNS response and returns its IPv4 A records.
pub fn parse_dns_a_response(response: &[u8], query_id: u16) -> (r: Result<Vec<Ipv4Addr>, DnsError>)
    ensures
        match dns_a_addresses(response@, query_id) {
            Ok(a) => r matches Ok(v) && v@ == a,
            Err(e) => r == Err::<Vec<Ipv4Addr>, DnsError>(e),
        },
{
    if response.len() < 12 || response[0] != (query_id / 256) as u8 || response[1] != (query_id % 256) as u8 {
        return Err(DnsError::HeaderInvalid);
    }
    if response[2] < 128 || response[3] % 16 != 0 {
        return Err(DnsError::Unsuccessful);
    }
    let question_count = (response[4] as usize) * 256 + response[5] as usize;
    let answer_count = (response[6] as usize) * 256 + response[7] as usize;
    if question_count > 8 || answer_count > 128 {
        return Err(DnsError::TooManyRecords);
    }
    assert(dns_a_addresses(response@, query_id) == dns_records(response@));
    let mut offset: usize = 12;
    let mut q: usize = 0;
    while q < question_count
        invariant
            q <= question_count <= 8,
            response@.len() >= 12,
            dns_a_addresses(response@, query_id) == dns_records(response@),
            question_count == be16(response@[4], response@[5]),
            offset <= response@.len(),
            skip_questions(response@, 12, question_count as nat) == skip_questions(response@, offset as int, (question_count - q) as nat),
        decreases question_count - q,
    {
        let next = skip_dns_name(response, offset);
        match next {
            Err(e) => {
                assert(skip_questions(response@, offset as int, (question_count - q) as nat) == Err::<int, DnsError>(e));
                assert(dns_records(response@) == Err::<Seq<Ipv4Addr>, DnsError>(e));
                return Err(e);
            },
            Ok(o) => {
                if o > response.len() - 4 {
                    assert(skip_questions(response@, offset as int, (question_count - q) as nat) == Err::<int, DnsError>(DnsError::QuestionTruncated));
                    assert(dns_records(response@) == Err::<Seq<Ipv4Addr>, DnsError>(DnsError::QuestionTruncated));
                    return Err(DnsError::QuestionTruncated);
                }
                offset = o + 4;
            },
        }
        q = q + 1;
    }
    let mut addresses: Vec<Ipv4Addr> = Vec::new();
    let mut a: usize = 0;
    while a < answer_count
        invariant
            a <= answer_count <= 128,
            response@.len() >= 12,
            dns_a_addresses(response@, query_id) == dns_records(response@),
            answer_count == be16(response@[6], response@[7]),
            offset <= response@.len(),
            skip_questions(response@, 12, be16(response@[4], response@[5])) is Ok,
            read_answers(response@, skip_questions(response@, 12, be16(response@[4], response@[5]))->Ok_0, answer_count as nat) == prepend(addresses@, read_answers(response@, offset as int, (answer_count - a) as nat)),
        decreases answer_count - a,
    {
        let o = match skip_dns_name(response, offset) {
            Err(e) => {
                assert(read_answers(response@, offset as int, (answer_count - a) as nat) == Err::<Seq<Ipv4Addr>, DnsError>(e));
                assert(dns_records(response@) == Err::<Seq<Ipv4Addr>, DnsError>(e));
                return Err(e);
            },
            Ok(o) => o,
        };
        if o > response.len() - 10 {
            assert(read_answers(response@, offset as int, (answer_count - a) as nat) == Err::<Seq<Ipv4Addr>, DnsError>(DnsError::AnswerTruncated));
            assert(dns_records(response@) == Err::<Seq<Ipv4Addr>, DnsError>(DnsError::AnswerTruncated));
            return Err(DnsError::AnswerTruncated);
        }
        let record_type = (response[o] as usize) * 256 + response[o + 1] as usize;
        let class = (response[o + 2] as usize) * 256 + response[o + 3] as usize;
        let data_length = (response[o + 8] as usize) * 256 + response[o + 9] as usize;
        let header_end = o + 10;
        if data_length > response.len() - header_end {
            assert(read_answers(response@, offset as int, (answer_count - a) as nat) == Err::<Seq<Ipv4Addr>, DnsError>(DnsError::RecordTruncated));
            assert(dns_records(response@) == Err::<Seq<Ipv4Addr>, DnsError>(DnsError::RecordTruncated));
            return Err(DnsError::RecordTruncated);
        }
        let ghost before = addresses@;
        if record_type == 1 && class == 1 && data_length == 4 {
            addresses.push(Ipv4Addr { a: response[header_end], b: response[header_end + 1], c: response[header_end + 2], d: response[header_end + 3] });
        }
        proof {
            let ip = one_answer(response@, offset as int)->Ok_0.1;
            assert(addresses@ =~= before + opt_seq(ip));
            match read_answers(response@, (header_end + data_length) as int, (answer_count - a - 1) as nat) {
                Err(e) => {},
                Ok(rest) => {
                    assert(before + (opt_seq(ip) + rest) =~= addresses@ + rest);
                },
            }
        }
        offset = header_end + data_length;
        a = a + 1;
    }
    if addresses.len() == 0 {
        return Err(DnsError::NoAddress);
    }
    assert(prepend(addresses@, read_answers(response@, offset as int, 0)) == Ok::<Seq<Ipv4Addr>, DnsError>(addresses@ + seq![]));
    assert(addresses@ + seq![] =~= addresses@);
    Ok(addresses)
}


/// A `/proc/net/route` row for `tun0` with the given destination and mask columns.
pub open spec fn proc_route_row(fields: Seq<Seq<char>>, destination: Seq<char>, mask: Seq<char>) -> bool {
    fields.len() >= 8 && fields[0] == "tun0"@ && fields[1] == destination && fields[7] == mask
}

/// Some row after the header line is such a row.
pub open spec fn proc_route_present(routes: Seq<char>, destination: Seq<char>, mask: Seq<char>) -> bool {
    let ls = lines(routes);
    exists|i: int| 1 <= i < ls.len() && proc_route_row(tokens(#[trigger] ls[i]), destination, mask)
}

/// The tunnel carries all of IPv4: a default route, or both halves.
pub open spec fn proc_routes_cover(routes: Seq<char>) -> bool {
    ||| proc_route_present(routes, "00000000"@, "00000000"@)
    ||| (proc_route_present(routes, "00000000"@, "00000080"@) && proc_route_present(routes, "00000080"@, "00000080"@))
}

fn proc_row_matches(fields: &Vec<Vec<char>>, destination: &str, mask: &str) -> (r: bool)
    ensures
        r == proc_route_row(views(fields@), destination@, mask@),
{
    if fields.len() < 8 {
        return false;
    }
    assert(views(fields@)[0] == fields@[0]@);
    assert(views(fields@)[1] == fields@[1]@);
    assert(views(fields@)[7] == fields@[7]@);
    eq_str(fields[0].as_slice(), "tun0") && eq_str(fields[1].as_slice(), destination) && eq_str(fields[7].as_slice(), mask)
}

/// Reads a `/proc/net/route` table and decides whether `tun0` routes cover public IPv4.
pub fn proc_route_table_covers_public_ipv4(routes: &str) -> (r: bool)
    ensures
        r == proc_routes_cover(routes@),
{
    let text = str_chars(routes);
    let ls = split_lines(text.as_slice());
    let ghost lv = views(ls@);
    let mut default = false;
    let mut lower_half = false;
    let mut upper_half = false;
    let mut i: usize = 1;
    while i < ls.len()
        invariant
            1 <= i <= ls@.len() || (i == 1 && ls@.len() == 0),
            lv == views(ls@),
            lv == lines(routes@),
            default == exists|k: int| 1 <= k < i && proc_route_row(tokens(#[trigger] lv[k]), "00000000"@, "00000000"@),
            lower_half == exists|k: int| 1 <= k < i && proc_route_row(tokens(#[trigger] lv[k]), "00000000"@, "00000080"@),
            upper_half == exists|k: int| 1 <= k < i && proc_route_row(tokens(#[trigger] lv[k]), "00000080"@, "00000080"@),
        decreases ls.len() - i,
    {
        let fields = split_tokens(ls[i].as_slice());
        assert(lv[i as int] == ls@[i as int]@);
        if proc_row_matches(&fields, "00000000", "00000000") {
            default = true;
        }
        if proc_row_matches(&fields, "00000000", "00000080") {
            lower_half = true;
        }
        if proc_row_matches(&fields, "00000080", "00000080") {
            upper_half = true;
        }
        i = i + 1;
    }
    default || (lower_half && upper_half)
}

/// The SHA-256 digest of a byte string (32 bytes).
pub uninterp spec fn sha256_digest(data: Seq<u8>) -> Seq<u8>;

/// Hashes `data` with `sha2::Sha256::digest`; the result is the digest that
/// `sha256_digest` names, a function of the input bytes alone.
#[verifier::external_body]
pub(crate) fn sha256(data: &[u8]) -> (r: [u8; 32])
    ensures
        r@ == sha256_digest(data@),
{
    let digest = Sha256::digest(data);
    digest.into()
}

/// Compares two digests with `subtle::ConstantTimeEq::ct_eq` on slices, which
/// yields 1 exactly when the lengths and all bytes agree.
#[verifier::external_body]
pub(crate) fn digests_equal(a: &[u8; 32], b: &[u8; 32]) -> (r: bool)
    ensures
        r == (a@ == b@),
{
    bool::from(a[..].ct_eq(&b[..]))
}

/// The username and password supplied in an RFC 1929 request are accepted:
/// their digests equal the digests of the configured credentials.
pub open spec fn credentials_accepted(username: Seq<u8>, password: Seq<u8>, credentials: Credentials) -> bool {
    &&& sha256_digest(username) == sha256_digest(encode_utf8(credentials.username@))
    &&& sha256_digest(password) == sha256_digest(encode_utf8(credentials.password@))
}

/// Decides an RFC 1929 username/password sub-negotiation.
///
/// With a wrong version byte no reply is sent and the connection fails with
/// `Authentication`. Otherwise the reply `[1, status]` is sent, where the status
/// is 0 when both the username and the password match (compared through their
/// SHA-256 digests in constant time) and 1 otherwise; only status 0 lets the
/// client go on.
pub fn authenticate(version: u8, username: &[u8], password: &[u8], credentials: &Credentials) -> (r: (Option<[u8; 2]>, Result<(), SocksConnectionError>))
    ensures
        version != AUTH_VERSION ==> r.0 is None && r.1 == Err::<(), SocksConnectionError>(SocksConnectionError::Authentication),
        version == AUTH_VERSION ==> {
            let ok = credentials_accepted(username@, password@, *credentials);
            &&& r.0 == Some(if ok { [AUTH_VERSION, 0u8] } else { [AUTH_VERSION, 1u8] })
            &&& r.1 == if ok { Ok::<(), SocksConnectionError>(()) } else { Err(SocksConnectionError::Authentication) }
        },
{
    if version != AUTH_VERSION {
        return (None, Err(SocksConnectionError::Authentication));
    }
    let supplied_user = sha256(username);
    let expected_user = sha256(credentials.username.as_str().as_bytes());
    let supplied_password = sha256(password);
    let expected_password = sha256(credentials.password.expose().as_bytes());
    let user_ok = digests_equal(&supplied_user, &expected_user);
    let password_ok = digests_equal(&supplied_password, &expected_password);
    if user_ok && password_ok {
        (Some([AUTH_VERSION, 0u8]), Ok(()))
    } else {
        (Some([AUTH_VERSION, 1u8]), Err(SocksConnectionError::Authentication))
    }
}

/// A client that sends exactly the configured username and password is accepted.
pub proof fn configured_credentials_are_accepted(credentials: Credentials)
    ensures
        credentials_accepted(encode_utf8(credentials.username@), encode_utf8(credentials.password@), credentials),
{
}

/// The first public address of a DNS answer, in answer order.
pub open spec fn first_public(s: Seq<Ipv4Addr>) -> Option<Ipv4Addr>
    decreases s.len(),
{
    if s.len() == 0 {
        None
    } else if public_ipv4(s[0]) {
        Some(s[0])
    } else {
        first_public(s.drop_first())
    }
}

/// Picks the address a domain target connects to: the first public one of
/// the answer; a domain with none is refused by the caller.
pub fn first_public_address(addresses: &[Ipv4Addr]) -> (r: Option<Ipv4Addr>)
    ensures
        r == first_public(addresses@),
{
    let mut i: usize = 0;
    assert(addresses@.subrange(0, addresses@.len() as int) =~= addresses@);
    while i < addresses.len()
        invariant
            i <= addresses@.len(),
            first_public(addresses@) == first_public(addresses@.subrange(i as int, addresses@.len() as int)),
        decreases addresses.len() - i,
    {
        let ghost rest = addresses@.subrange(i as int, addresses@.len() as int);
        assert(rest[0] == addresses@[i as int]);
        if is_public_ipv4(addresses[i]) {
            return Some(addresses[i]);
        }
        assert(rest.drop_first() =~= addresses@.subrange(i + 1, addresses@.len() as int));
        i = i + 1;
    }
    assert(addresses@.subrange(i as int, addresses@.len() as int) =~= Seq::<Ipv4Addr>::empty());
    None
}


/// Every encoded query carries the query id, asks for recursion, holds one
/// question, and that question is for an A record (type 1) in the Internet
/// class (class 1) of a name ended by the root label.
pub proof fn dns_query_asks_for_a_record(domain: Seq<char>, query_id: u16)
    ensures
        dns_query_bytes(domain, query_id) matches Ok(b) ==> {
            let n = b.len() as int;
            &&& n >= 17
            &&& b[0] as int * 256 + b[1] as int == query_id as int
            &&& b[2] == 1u8 && b[3] == 0u8
            &&& b[4] == 0u8 && b[5] == 1u8
            &&& b[6] == 0u8 && b[7] == 0u8 && b[8] == 0u8 && b[9] == 0u8 && b[10] == 0u8 && b[11] == 0u8
            &&& b[n - 5] == 0u8
            &&& b[n - 4] == 0u8 && b[n - 3] == 1u8
            &&& b[n - 2] == 0u8 && b[n - 1] == 1u8
        },
{
    if let Ok(b) = dns_query_bytes(domain, query_id) {
        let labels = dns_labels(split_bytes(encode_utf8(domain), 0x2Eu8))->Ok_0;
        let head = seq![(query_id / 256) as u8, (query_id % 256) as u8, 1u8, 0u8, 0u8, 1u8, 0u8, 0u8, 0u8, 0u8, 0u8, 0u8];
        let tail = seq![0u8, 0u8, 1u8, 0u8, 1u8];
        assert(b == head + labels + tail);
        let n = b.len() as int;
        assert(b[0] == head[0] && b[1] == head[1]);
        assert(b[n - 5] == tail[0] && b[n - 4] == tail[1] && b[n - 3] == tail[2] && b[n - 2] == tail[3] && b[n - 1] == tail[4]);
        assert(b[2] == head[2] && b[5] == head[5] && b[11] == head[11]);
    }
}
} // verus!
