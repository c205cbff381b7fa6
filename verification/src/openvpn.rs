//! Strict parser that converts untrusted VPN Gate profiles into a local allowlist.
//!
//! The profile is read line by line. Inline `<ca>`, `<cert>`, `<key>`,
//! `<tls-auth>` and `<tls-crypt>` blocks are collected, a fixed set of
//! directives is checked and kept, and everything else is refused. The result
//! is a freshly rendered profile, never the downloaded text.

use vstd::prelude::*;
use vstd::utf8::{decode_utf8, encode_utf8, valid_utf8};

use crate::domain::{blake3_digest, blake3_hash, ipv4_text, is_ascii_alnum, parse_ipv4, Ipv4Addr};
use crate::text::{
    byte_len, byte_len_of, chars_eq, chars_less, chars_lt, chars_to_string, copy_range, decimal,
    decimal_chars, eq_str, lemma_chars_less_order, lines, lowercase, parse_decimal, parse_unsigned,
    push_all, push_str, split_lines, split_tokens, str_chars, to_ascii_lowercase, tokens, trim,
    trim_bounds, utf8_text, views,
};

verus! {

pub const MAX_PROFILE_BYTES: usize = 262144;
pub const MAX_LINE_BYTES: usize = 4096;
pub const MAX_BLOCK_BYTES: usize = 98304;

/// Why an untrusted OpenVPN profile was rejected.
#[derive(Debug, PartialEq, Eq)]
pub enum OpenVpnConfigError {
    TooLarge,
    InvalidUtf8,
    LineTooLong,
    UnsupportedDirective(String),
    DangerousDirective(String),
    ExternalFile(String),
    UnsupportedProtocol,
    InvalidDevice,
    InvalidRemote,
    RemoteMismatch,
    MissingInlineBlock(&'static str),
    InvalidInlineBlock(String),
    InvalidValue(String),
}

/// The rejection reasons with their texts as character sequences.
pub enum ProfileError {
    TooLarge,
    InvalidUtf8,
    LineTooLong,
    UnsupportedDirective(Seq<char>),
    DangerousDirective(Seq<char>),
    ExternalFile(Seq<char>),
    UnsupportedProtocol,
    InvalidDevice,
    InvalidRemote,
    RemoteMismatch,
    MissingInlineBlock(Seq<char>),
    InvalidInlineBlock(Seq<char>),
    InvalidValue(Seq<char>),
}

impl View for OpenVpnConfigError {
    type V = ProfileError;

    open spec fn view(&self) -> ProfileError {
        match self {
            OpenVpnConfigError::TooLarge => ProfileError::TooLarge,
            OpenVpnConfigError::InvalidUtf8 => ProfileError::InvalidUtf8,
            OpenVpnConfigError::LineTooLong => ProfileError::LineTooLong,
            OpenVpnConfigError::UnsupportedDirective(s) => ProfileError::UnsupportedDirective(s@),
            OpenVpnConfigError::DangerousDirective(s) => ProfileError::DangerousDirective(s@),
            OpenVpnConfigError::ExternalFile(s) => ProfileError::ExternalFile(s@),
            OpenVpnConfigError::UnsupportedProtocol => ProfileError::UnsupportedProtocol,
            OpenVpnConfigError::InvalidDevice => ProfileError::InvalidDevice,
            OpenVpnConfigError::InvalidRemote => ProfileError::InvalidRemote,
            OpenVpnConfigError::RemoteMismatch => ProfileError::RemoteMismatch,
            OpenVpnConfigError::MissingInlineBlock(s) => ProfileError::MissingInlineBlock(s@),
            OpenVpnConfigError::InvalidInlineBlock(s) => ProfileError::InvalidInlineBlock(s@),
            OpenVpnConfigError::InvalidValue(s) => ProfileError::InvalidValue(s@),
        }
    }
}

/// Inline block names, in the order in which they are rendered.
pub open spec fn block_name(k: int) -> Seq<char> {
    if k == 0 {
        "ca"@
    } else if k == 1 {
        "cert"@
    } else if k == 2 {
        "key"@
    } else if k == 3 {
        "tls-auth"@
    } else {
        "tls-crypt"@
    }
}

pub open spec fn block_kind(name: Seq<char>) -> Option<int> {
    if name == "ca"@ {
        Some(0)
    } else if name == "cert"@ {
        Some(1)
    } else if name == "key"@ {
        Some(2)
    } else if name == "tls-auth"@ {
        Some(3)
    } else if name == "tls-crypt"@ {
        Some(4)
    } else {
        None
    }
}

/// `<name>` with a non-empty name that does not start with `/`.
pub open spec fn opening_block_name(line: Seq<char>) -> Option<Seq<char>> {
    if line.len() >= 2 && line[0] == '<' && line.last() == '>' {
        let value = line.subrange(1, line.len() - 1);
        if value.len() > 0 && value[0] != '/' {
            Some(value)
        } else {
            None
        }
    } else {
        None
    }
}

/// Directives that run programs, touch the host or redirect traffic.
pub open spec fn dangerous_directive(d: Seq<char>) -> bool {
    ||| d == "up"@ ||| d == "down"@ ||| d == "route-up"@ ||| d == "route-pre-down"@
    ||| d == "ipchange"@ ||| d == "client-connect"@ ||| d == "client-disconnect"@
    ||| d == "learn-address"@ ||| d == "auth-user-pass-verify"@ ||| d == "tls-verify"@
    ||| d == "plugin"@ ||| d == "script-security"@ ||| d == "management"@
    ||| d == "management-client"@ ||| d == "management-external-key"@
    ||| d == "management-external-cert"@ ||| d == "management-query-passwords"@
    ||| d == "management-hold"@ ||| d == "daemon"@ ||| d == "log"@ ||| d == "log-append"@
    ||| d == "status"@ ||| d == "writepid"@ ||| d == "chroot"@ ||| d == "cd"@ ||| d == "user"@
    ||| d == "group"@ ||| d == "route"@ ||| d == "route-ipv6"@ ||| d == "redirect-gateway"@
    ||| d == "ifconfig"@ ||| d == "ifconfig-ipv6"@ ||| d == "socks-proxy"@
    ||| d == "http-proxy"@ ||| d == "auth-user-pass"@
}

pub open spec fn tcp_protocol(p: Seq<char>) -> bool {
    p == "tcp"@ || p == "tcp-client"@ || p == "tcp4"@ || p == "tcp4-client"@
}

pub open spec fn external_file_directive(d: Seq<char>) -> bool {
    d == "ca"@ || d == "cert"@ || d == "key"@ || d == "tls-auth"@ || d == "tls-crypt"@
        || d == "pkcs12"@
}

pub open spec fn crypto_directive(d: Seq<char>) -> bool {
    d == "cipher"@ || d == "auth"@ || d == "data-ciphers"@ || d == "data-ciphers-fallback"@
        || d == "tls-version-min"@ || d == "tls-cipher"@
}

pub open spec fn flag_directive(d: Seq<char>) -> bool {
    d == "client"@ || d == "tls-client"@ || d == "nobind"@ || d == "persist-key"@
        || d == "persist-tun"@ || d == "pull"@ || d == "auth-nocache"@
}

pub open spec fn ignored_scalar_directive(d: Seq<char>) -> bool {
    d == "resolv-retry"@ || d == "connect-retry"@ || d == "connect-retry-max"@
        || d == "connect-timeout"@ || d == "server-poll-timeout"@ || d == "verb"@ || d == "mute"@
}

pub open spec fn safe_crypto_char(c: char) -> bool {
    is_ascii_alnum(c) || c == '-' || c == '_' || c == ':' || c == ',' || c == '.'
}

/// A cipher or digest name: 1 to 256 bytes of ASCII letters, digits and `-_:,.`.
pub open spec fn safe_crypto_value(v: Seq<char>) -> bool {
    v.len() > 0 && byte_len(v) <= 256 && forall|i: int| 0 <= i < v.len() ==> safe_crypto_char(#[trigger] v[i])
}

/// A harmless tuning value: at most 16 bytes of ASCII letters, digits and `-`.
pub open spec fn ignored_scalar_ok(t: Seq<Seq<char>>) -> bool {
    t.len() == 2 && byte_len(t[1]) <= 16 && forall|i: int|
        0 <= i < t[1].len() ==> (is_ascii_alnum(#[trigger] t[1][i]) || t[1][i] == '-')
}

/// Trailing carriage returns removed (`trim_end_matches('\r')`).
pub open spec fn trim_end_cr(s: Seq<char>) -> Seq<char>
    decreases s.len(),
{
    if s.len() > 0 && s.last() == '\r' {
        trim_end_cr(s.drop_last())
    } else {
        s
    }
}

/// What has been collected so far.
pub struct ProfileState {
    /// Bodies of the inline blocks, indexed as `block_name`.
    pub blocks: Seq<Option<Seq<char>>>,
    /// Kept option lines, strictly sorted, as an ordered set keeps them.
    pub options: Seq<Seq<char>>,
    pub remote: Option<(Ipv4Addr, u16)>,
    pub saw_tcp: bool,
    pub saw_tun: bool,
}

/// Whether the scan is between directives or inside an inline block.
pub enum LineMode {
    Top,
    Block { kind: int, name: Seq<char>, body: Seq<char> },
}

pub open spec fn initial_state() -> ProfileState {
    ProfileState {
        blocks: seq![None, None, None, None, None],
        options: Seq::empty(),
        remote: None,
        saw_tcp: false,
        saw_tun: false,
    }
}

/// Insertion into a strictly sorted sequence of option lines; a line that is
/// already there is not added twice.
pub open spec fn insert_sorted(s: Seq<Seq<char>>, x: Seq<char>) -> Seq<Seq<char>>
    decreases s.len(),
{
    if s.len() == 0 {
        seq![x]
    } else if s[0] == x {
        s
    } else if chars_less(x, s[0]) {
        seq![x] + s
    } else {
        seq![s[0]] + insert_sorted(s.drop_first(), x)
    }
}

pub open spec fn strictly_sorted(s: Seq<Seq<char>>) -> bool {
    forall|i: int, j: int| 0 <= i < j < s.len() ==> chars_less(#[trigger] s[i], #[trigger] s[j])
}

pub open spec fn with_option(st: ProfileState, line: Seq<char>) -> ProfileState {
    ProfileState { options: insert_sorted(st.options, line), ..st }
}

/// The `remote host port [proto]` directive.
pub open spec fn remote_step(t: Seq<Seq<char>>, st: ProfileState, expected: Ipv4Addr) -> Result<ProfileState, ProfileError> {
    if st.remote is Some || !(3 <= t.len() <= 4) {
        Err(ProfileError::InvalidRemote)
    } else {
        match parse_ipv4(t[1]) {
            None => Err(ProfileError::InvalidRemote),
            Some(host) => if host != expected {
                Err(ProfileError::RemoteMismatch)
            } else {
                match parse_unsigned(t[2], 65535) {
                    None => Err(ProfileError::InvalidRemote),
                    Some(port) => if port == 0 {
                        Err(ProfileError::InvalidRemote)
                    } else if t.len() == 4 && !tcp_protocol(to_ascii_lowercase(t[3])) {
                        Err(ProfileError::UnsupportedProtocol)
                    } else {
                        Ok(ProfileState { remote: Some((host, port as u16)), ..st })
                    },
                }
            },
        }
    }
}

/// One directive line, given as its ASCII-whitespace separated tokens.
pub open spec fn directive_step(t: Seq<Seq<char>>, st: ProfileState, expected: Ipv4Addr) -> Result<ProfileState, ProfileError> {
    if t.len() == 0 {
        Ok(st)
    } else {
        let d = to_ascii_lowercase(t[0]);
        if dangerous_directive(d) {
            Err(ProfileError::DangerousDirective(d))
        } else if d == "proto"@ {
            if t.len() != 2 {
                Err(ProfileError::InvalidValue(d))
            } else if !tcp_protocol(to_ascii_lowercase(t[1])) {
                Err(ProfileError::UnsupportedProtocol)
            } else {
                Ok(ProfileState { saw_tcp: true, ..st })
            }
        } else if d == "dev"@ || d == "dev-type"@ {
            if t.len() != 2 {
                Err(ProfileError::InvalidValue(d))
            } else if t[1] != "tun"@ {
                Err(ProfileError::InvalidDevice)
            } else if d == "dev"@ {
                Ok(ProfileState { saw_tun: true, ..st })
            } else {
                Ok(st)
            }
        } else if d == "remote"@ {
            remote_step(t, st, expected)
        } else if external_file_directive(d) {
            Err(ProfileError::ExternalFile(d))
        } else if crypto_directive(d) {
            if t.len() != 2 || !safe_crypto_value(t[1]) {
                Err(ProfileError::InvalidValue(d))
            } else {
                Ok(with_option(st, d + seq![' '] + t[1]))
            }
        } else if d == "key-direction"@ {
            if t.len() != 2 || !(t[1] == "0"@ || t[1] == "1"@) {
                Err(ProfileError::InvalidValue(d))
            } else {
                Ok(with_option(st, "key-direction "@ + t[1]))
            }
        } else if d == "remote-cert-tls"@ {
            if t.len() != 2 || t[1] != "server"@ {
                Err(ProfileError::InvalidValue(d))
            } else {
                Ok(with_option(st, "remote-cert-tls server"@))
            }
        } else if flag_directive(d) {
            if t.len() == 1 {
                Ok(st)
            } else {
                Err(ProfileError::InvalidValue(d))
            }
        } else if ignored_scalar_directive(d) {
            if ignored_scalar_ok(t) {
                Ok(st)
            } else {
                Err(ProfileError::InvalidValue(d))
            }
        } else if d == "setenv"@ && t =~= seq!["setenv"@, "opt"@, "block-outside-dns"@] {
            Ok(st)
        } else {
            Err(ProfileError::UnsupportedDirective(d))
        }
    }
}

/// A line of an inline block: the closing tag ends the block; a nested tag, a
/// NUL character or a body over the size limit is refused.
pub open spec fn block_line_step(raw: Seq<char>, kind: int, name: Seq<char>, body: Seq<char>, st: ProfileState) -> Result<(ProfileState, LineMode), ProfileError> {
    let line = trim_end_cr(raw);
    if trim(line) == "</"@ + name + ">"@ {
        if trim(body).len() == 0 || st.blocks[kind] is Some {
            Err(ProfileError::InvalidInlineBlock(name))
        } else {
            Ok((ProfileState { blocks: st.blocks.update(kind, Some(body)), ..st }, LineMode::Top))
        }
    } else if opening_block_name(trim(line)) is Some || line.contains('\0') {
        Err(ProfileError::InvalidInlineBlock(name))
    } else if byte_len(body) + byte_len(line) + 1 > MAX_BLOCK_BYTES {
        Err(ProfileError::InvalidInlineBlock(name))
    } else {
        Ok((st, LineMode::Block { kind, name, body: body + line + seq!['\n'] }))
    }
}

/// A line outside blocks: blank lines and comments are skipped, an opening tag
/// starts a block, anything else is a directive.
pub open spec fn top_line_step(raw: Seq<char>, st: ProfileState, expected: Ipv4Addr) -> Result<(ProfileState, LineMode), ProfileError> {
    let line = trim(raw);
    if line.len() == 0 || line[0] == '#' || line[0] == ';' {
        Ok((st, LineMode::Top))
    } else {
        match opening_block_name(line) {
            Some(name) => match block_kind(name) {
                None => Err(ProfileError::UnsupportedDirective(seq!['<'] + name + seq!['>'])),
                Some(kind) => Ok((st, LineMode::Block { kind, name, body: Seq::empty() })),
            },
            None => match directive_step(tokens(line), st, expected) {
                Ok(next) => Ok((next, LineMode::Top)),
                Err(e) => Err(e),
            },
        }
    }
}

/// The scan from line `i` on.
pub open spec fn scan(ls: Seq<Seq<char>>, i: int, st: ProfileState, mode: LineMode, expected: Ipv4Addr) -> Result<ProfileState, ProfileError>
    decreases ls.len() - i,
{
    if i >= ls.len() {
        match mode {
            LineMode::Top => Ok(st),
            LineMode::Block { name, .. } => Err(ProfileError::InvalidInlineBlock(name)),
        }
    } else {
        let step = match mode {
            LineMode::Top => top_line_step(ls[i], st, expected),
            LineMode::Block { kind, name, body } => block_line_step(ls[i], kind, name, body, st),
        };
        match step {
            Ok((next, next_mode)) => scan(ls, i + 1, next, next_mode, expected),
            Err(e) => Err(e),
        }
    }
}

pub open spec fn option_lines(options: Seq<Seq<char>>) -> Seq<char>
    decreases options.len(),
{
    if options.len() == 0 {
        Seq::empty()
    } else {
        option_lines(options.drop_last()) + options.last() + seq!['\n']
    }
}

pub open spec fn block_text(blocks: Seq<Option<Seq<char>>>, k: int) -> Seq<char> {
    match blocks[k] {
        Some(body) => seq!['<'] + block_name(k) + ">\n"@ + body + "</"@ + block_name(k) + ">\n"@,
        None => Seq::empty(),
    }
}

/// The regenerated profile: fixed client settings, the remote, the kept
/// options in order (with `remote-cert-tls server` always present) and the
/// inline blocks.
pub open spec fn render(st: ProfileState, remote: (Ipv4Addr, u16)) -> Seq<char> {
    "client\ndev tun\nproto tcp-client\nremote "@ + ipv4_text(remote.0) + seq![' '] + decimal(remote.1 as nat)
        + " tcp-client\nnobind\npersist-key\npersist-tun\nauth-nocache\nverb 3\n"@
        + (if st.options.contains("remote-cert-tls server"@) { Seq::empty() } else { "remote-cert-tls server\n"@ })
        + option_lines(st.options)
        + block_text(st.blocks, 0) + block_text(st.blocks, 1) + block_text(st.blocks, 2)
        + block_text(st.blocks, 3) + block_text(st.blocks, 4)
}

/// The checks after the last line, and the rendered profile with its remote.
pub open spec fn finish(st: ProfileState) -> Result<(Seq<char>, (Ipv4Addr, u16)), ProfileError> {
    if !st.saw_tcp {
        Err(ProfileError::UnsupportedProtocol)
    } else if !st.saw_tun {
        Err(ProfileError::InvalidDevice)
    } else {
        match st.remote {
            None => Err(ProfileError::InvalidRemote),
            Some(remote) => if st.blocks[0] is None {
                Err(ProfileError::MissingInlineBlock("ca"@))
            } else if st.blocks[1] is None {
                Err(ProfileError::MissingInlineBlock("cert"@))
            } else if st.blocks[2] is None {
                Err(ProfileError::MissingInlineBlock("key"@))
            } else {
                Ok((render(st, remote), remote))
            },
        }
    }
}

/// What sanitizing `input` gives: the rendered profile and its remote, or the
/// first reason for refusal.
pub open spec fn sanitized(input: Seq<u8>, expected: Ipv4Addr) -> Result<(Seq<char>, (Ipv4Addr, u16)), ProfileError> {
    if input.len() > MAX_PROFILE_BYTES {
        Err(ProfileError::TooLarge)
    } else if !valid_utf8(input) {
        Err(ProfileError::InvalidUtf8)
    } else {
        let ls = lines(decode_utf8(input));
        if exists|k: int| 0 <= k < ls.len() && byte_len(#[trigger] ls[k]) > MAX_LINE_BYTES {
            Err(ProfileError::LineTooLong)
        } else {
            match scan(ls, 0, initial_state(), LineMode::Top, expected) {
                Ok(st) => finish(st),
                Err(e) => Err(e),
            }
        }
    }
}

proof fn lemma_byte_len_concat(a: Seq<char>, b: Seq<char>)
    ensures
        byte_len(a + b) == byte_len(a) + byte_len(b),
    decreases b.len(),
{
    if b.len() > 0 {
        lemma_byte_len_concat(a, b.drop_last());
        assert((a + b).drop_last() =~= a + b.drop_last());
    } else {
        assert(a + b =~= a);
    }
}

pub proof fn lemma_insert_sorted_at(s: Seq<Seq<char>>, x: Seq<char>, p: int)
    requires
        strictly_sorted(s),
        0 <= p <= s.len(),
        forall|k: int| 0 <= k < p ==> chars_less(#[trigger] s[k], x),
        p < s.len() ==> !chars_less(s[p], x),
    ensures
        insert_sorted(s, x) == if p < s.len() && s[p] == x { s } else { s.insert(p, x) },
        strictly_sorted(insert_sorted(s, x)),
    decreases p,
{
    if s.len() == 0 {
        assert(seq![x] =~= s.insert(0, x));
    } else if p == 0 {
        lemma_chars_less_order(s[0], x, x);
        if s[0] != x {
            assert(seq![x] + s =~= s.insert(0, x));
            assert forall|i: int, j: int| 0 <= i < j < s.len() + 1 implies chars_less(
                #[trigger] s.insert(0, x)[i],
                #[trigger] s.insert(0, x)[j],
            ) by {
                if i == 0 {
                    lemma_chars_less_order(x, s[0], s[j - 1]);
                    if j - 1 > 0 {
                        assert(chars_less(s[0], s[j - 1]));
                    }
                } else {
                    assert(chars_less(s[i - 1], s[j - 1]));
                }
            }
        }
    } else {
        lemma_chars_less_order(s[0], x, x);
        let t = s.drop_first();
        assert forall|i: int, j: int| 0 <= i < j < t.len() implies chars_less(#[trigger] t[i], #[trigger] t[j]) by {
            assert(chars_less(s[i + 1], s[j + 1]));
        }
        assert forall|k: int| 0 <= k < p - 1 implies chars_less(#[trigger] t[k], x) by {
            assert(chars_less(s[k + 1], x));
        }
        lemma_insert_sorted_at(t, x, p - 1);
        let u = insert_sorted(t, x);
        assert(insert_sorted(s, x) == seq![s[0]] + u);
        if p < s.len() && s[p] == x {
            assert(seq![s[0]] + t =~= s);
        } else {
            assert(seq![s[0]] + t.insert(p - 1, x) =~= s.insert(p, x));
        }
        assert forall|i: int, j: int| 0 <= i < j < u.len() + 1 implies chars_less(
            #[trigger] (seq![s[0]] + u)[i],
            #[trigger] (seq![s[0]] + u)[j],
        ) by {
            if i == 0 {
                if p < s.len() && s[p] == x {
                    assert(chars_less(s[0], s[j]));
                } else if j - 1 < p - 1 {
                    assert(u[j - 1] == t[j - 1]);
                    assert(chars_less(s[0], s[j]));
                } else if j - 1 == p - 1 {
                    assert(u[j - 1] == x);
                } else {
                    assert(u[j - 1] == t[j - 2]);
                    assert(chars_less(s[0], s[j - 1]));
                }
            } else {
                assert(chars_less(u[i - 1], u[j - 1]));
            }
        }
    }
}

/// Sorted insertion without duplicates into the kept option lines.
fn insert_option(options: &mut Vec<Vec<char>>, x: Vec<char>)
    requires
        strictly_sorted(views(old(options)@)),
    ensures
        views(final(options)@) == insert_sorted(views(old(options)@), x@),
        strictly_sorted(views(final(options)@)),
{
    let ghost s = views(options@);
    let mut p: usize = 0;
    while p < options.len() && chars_lt(options[p].as_slice(), x.as_slice())
        invariant
            p <= options@.len(),
            s == views(options@),
            forall|k: int| 0 <= k < p ==> chars_less(#[trigger] s[k], x@),
        decreases options.len() - p,
    {
        p = p + 1;
    }
    proof {
        lemma_insert_sorted_at(s, x@, p as int);
    }
    if p < options.len() && chars_eq(options[p].as_slice(), x.as_slice()) {
        return;
    }
    let ghost xv = x@;
    options.insert(p, x);
    assert(views(options@) =~= s.insert(p as int, xv));
}

/// The name of an opening tag `<name>`.
fn opening_block(line: &[char]) -> (r: Option<Vec<char>>)
    ensures
        match opening_block_name(line@) {
            Some(n) => r matches Some(v) && v@ == n,
            None => r is None,
        },
{
    let n = line.len();
    if n >= 2 && line[0] == '<' && line[n - 1] == '>' {
        if line[1] != '/' && n > 2 {
            let v = copy_range(line, 1, n - 1);
            return Some(v);
        }
    }
    None
}

fn block_kind_of(name: &[char]) -> (r: Option<usize>)
    ensures
        match block_kind(name@) {
            Some(k) => r == Some(k as usize),
            None => r is None,
        },
{
    if eq_str(name, "ca") {
        Some(0)
    } else if eq_str(name, "cert") {
        Some(1)
    } else if eq_str(name, "key") {
        Some(2)
    } else if eq_str(name, "tls-auth") {
        Some(3)
    } else if eq_str(name, "tls-crypt") {
        Some(4)
    } else {
        None
    }
}

fn block_name_str(k: usize) -> (r: &'static str)
    requires
        k < 5,
    ensures
        r@ == block_name(k as int),
{
    if k == 0 {
        "ca"
    } else if k == 1 {
        "cert"
    } else if k == 2 {
        "key"
    } else if k == 3 {
        "tls-auth"
    } else {
        "tls-crypt"
    }
}

/// Directives that run programs, touch the host or redirect traffic.
fn is_dangerous(d: &[char]) -> (r: bool)
    ensures
        r == dangerous_directive(d@),
{
    eq_str(d, "up") || eq_str(d, "down") || eq_str(d, "route-up") || eq_str(d, "route-pre-down")
        || eq_str(d, "ipchange") || eq_str(d, "client-connect") || eq_str(d, "client-disconnect")
        || eq_str(d, "learn-address") || eq_str(d, "auth-user-pass-verify") || eq_str(d, "tls-verify")
        || eq_str(d, "plugin") || eq_str(d, "script-security") || eq_str(d, "management")
        || eq_str(d, "management-client") || eq_str(d, "management-external-key")
        || eq_str(d, "management-external-cert") || eq_str(d, "management-query-passwords")
        || eq_str(d, "management-hold") || eq_str(d, "daemon") || eq_str(d, "log")
        || eq_str(d, "log-append") || eq_str(d, "status") || eq_str(d, "writepid")
        || eq_str(d, "chroot") || eq_str(d, "cd") || eq_str(d, "user") || eq_str(d, "group")
        || eq_str(d, "route") || eq_str(d, "route-ipv6") || eq_str(d, "redirect-gateway")
        || eq_str(d, "ifconfig") || eq_str(d, "ifconfig-ipv6") || eq_str(d, "socks-proxy")
        || eq_str(d, "http-proxy") || eq_str(d, "auth-user-pass")
}

fn is_tcp(p: &[char]) -> (r: bool)
    ensures
        r == tcp_protocol(p@),
{
    eq_str(p, "tcp") || eq_str(p, "tcp-client") || eq_str(p, "tcp4") || eq_str(p, "tcp4-client")
}

fn is_ascii_alnum_char(c: char) -> (r: bool)
    ensures
        r == is_ascii_alnum(c),
{
    ('0' <= c && c <= '9') || ('a' <= c && c <= 'z') || ('A' <= c && c <= 'Z')
}

/// A cipher or digest name: 1 to 256 bytes of ASCII letters, digits and `-_:,.`.
fn is_safe_crypto_value(v: &[char]) -> (r: bool)
    ensures
        r == safe_crypto_value(v@),
{
    if v.len() == 0 || byte_len_of(v) > 256 {
        return false;
    }
    let mut i: usize = 0;
    while i < v.len()
        invariant
            i <= v@.len(),
            forall|k: int| 0 <= k < i ==> safe_crypto_char(#[trigger] v@[k]),
        decreases v.len() - i,
    {
        let c = v[i];
        if !(is_ascii_alnum_char(c) || c == '-' || c == '_' || c == ':' || c == ',' || c == '.') {
            return false;
        }
        i = i + 1;
    }
    true
}

fn message(s: &[char]) -> (r: String)
    ensures
        r@ == s@,
{
    chars_to_string(s)
}

fn invalid_value(d: &[char]) -> (r: OpenVpnConfigError)
    ensures
        r@ == ProfileError::InvalidValue(d@),
{
    OpenVpnConfigError::InvalidValue(message(d))
}

/// A directive that takes no value.
fn ensure_no_values(t: &Vec<Vec<char>>, d: &[char]) -> (r: Result<(), OpenVpnConfigError>)
    ensures
        t@.len() == 1 ==> r is Ok,
        t@.len() != 1 ==> (r matches Err(e) && e@ == ProfileError::InvalidValue(d@)),
{
    if t.len() == 1 {
        Ok(())
    } else {
        Err(invalid_value(d))
    }
}

/// A tuning directive whose value is checked and then dropped.
fn validate_ignored_scalar(t: &Vec<Vec<char>>, d: &[char]) -> (r: Result<(), OpenVpnConfigError>)
    ensures
        ignored_scalar_ok(views(t@)) ==> r is Ok,
        !ignored_scalar_ok(views(t@)) ==> (r matches Err(e) && e@ == ProfileError::InvalidValue(d@)),
{
    if t.len() != 2 || byte_len_of(t[1].as_slice()) > 16 {
        return Err(invalid_value(d));
    }
    let v = t[1].as_slice();
    assert(v@ == views(t@)[1]);
    let mut i: usize = 0;
    while i < v.len()
        invariant
            i <= v@.len(),
            forall|k: int| 0 <= k < i ==> (is_ascii_alnum(#[trigger] v@[k]) || v@[k] == '-'),
            v@ == views(t@)[1],
            t@.len() == 2,
        decreases v.len() - i,
    {
        if !(is_ascii_alnum_char(v[i]) || v[i] == '-') {
            return Err(invalid_value(d));
        }
        i = i + 1;
    }
    Ok(())
}

/// End of `s` once trailing carriage returns are removed.
fn trim_end_cr_end(s: &[char]) -> (r: usize)
    ensures
        r <= s@.len(),
        s@.subrange(0, r as int) == trim_end_cr(s@),
{
    let mut e = s.len();
    assert(s@.subrange(0, e as int) =~= s@);
    while e > 0 && s[e - 1] == '\r'
        invariant
            e <= s@.len(),
            trim_end_cr(s@) == trim_end_cr(s@.subrange(0, e as int)),
        decreases e,
    {
        assert(s@.subrange(0, e as int).drop_last() =~= s@.subrange(0, e - 1));
        e = e - 1;
    }
    e
}

fn contains_nul(s: &[char]) -> (r: bool)
    ensures
        r == s@.contains('\0'),
{
    let mut i: usize = 0;
    while i < s.len()
        invariant
            i <= s@.len(),
            forall|k: int| 0 <= k < i ==> s@[k] != '\0',
        decreases s.len() - i,
    {
        if s[i] == '\0' {
            assert(s@[i as int] == '\0');
            return true;
        }
        i = i + 1;
    }
    false
}

/// The trimmed copy of a line.
fn trimmed(s: &[char]) -> (r: Vec<char>)
    ensures
        r@ == trim(s@),
{
    let (a, b) = trim_bounds(s);
    copy_range(s, a, b)
}

pub open spec fn block_views(b: Seq<Option<Vec<char>>>) -> Seq<Option<Seq<char>>> {
    b.map_values(
        |o: Option<Vec<char>>|
            match o {
                Some(v) => Some(v@),
                None => None,
            },
    )
}

/// The state of a scan in executable form.
struct ProfileBuilder {
    blocks: Vec<Option<Vec<char>>>,
    options: Vec<Vec<char>>,
    remote: Option<(Ipv4Addr, u16)>,
    saw_tcp: bool,
    saw_tun: bool,
}

impl ProfileBuilder {
    spec fn state(&self) -> ProfileState {
        ProfileState {
            blocks: block_views(self.blocks@),
            options: views(self.options@),
            remote: self.remote,
            saw_tcp: self.saw_tcp,
            saw_tun: self.saw_tun,
        }
    }

    spec fn wf(&self) -> bool {
        self.blocks@.len() == 5 && strictly_sorted(views(self.options@))
    }

    fn new() -> (r: ProfileBuilder)
        ensures
            r.wf(),
            r.state() == initial_state(),
    {
        let mut blocks: Vec<Option<Vec<char>>> = Vec::new();
        blocks.push(None);
        blocks.push(None);
        blocks.push(None);
        blocks.push(None);
        blocks.push(None);
        let r = ProfileBuilder {
            blocks,
            options: Vec::new(),
            remote: None,
            saw_tcp: false,
            saw_tun: false,
        };
        assert(block_views(r.blocks@) =~= seq![None, None, None, None, None]);
        assert(views(r.options@) =~= Seq::<Seq<char>>::empty());
        r
    }
}

/// The `remote host port [proto]` directive.
fn apply_remote(b: &mut ProfileBuilder, t: &Vec<Vec<char>>, expected: Ipv4Addr) -> (r: Result<(), OpenVpnConfigError>)
    requires
        old(b).wf(),
    ensures
        final(b).wf(),
        match remote_step(views(t@), old(b).state(), expected) {
            Ok(s) => r is Ok && final(b).state() == s,
            Err(e) => r matches Err(x) && x@ == e,
        },
{
    if b.remote.is_some() || t.len() < 3 || t.len() > 4 {
        return Err(OpenVpnConfigError::InvalidRemote);
    }
    assert(views(t@)[1] == t@[1]@ && views(t@)[2] == t@[2]@);
    let host = match Ipv4Addr::parse_chars(t[1].as_slice()) {
        Some(h) => h,
        None => {
            return Err(OpenVpnConfigError::InvalidRemote);
        },
    };
    if host != expected {
        return Err(OpenVpnConfigError::RemoteMismatch);
    }
    let port = match parse_decimal(t[2].as_slice(), 65535) {
        Some(p) => p,
        None => {
            return Err(OpenVpnConfigError::InvalidRemote);
        },
    };
    if port == 0 {
        return Err(OpenVpnConfigError::InvalidRemote);
    }
    if t.len() == 4 {
        assert(views(t@)[3] == t@[3]@);
        let protocol = lowercase(t[3].as_slice());
        if !is_tcp(protocol.as_slice()) {
            return Err(OpenVpnConfigError::UnsupportedProtocol);
        }
    }
    b.remote = Some((host, port as u16));
    Ok(())
}

fn is_external_file(d: &[char]) -> (r: bool)
    ensures
        r == external_file_directive(d@),
{
    eq_str(d, "ca") || eq_str(d, "cert") || eq_str(d, "key") || eq_str(d, "tls-auth") || eq_str(
        d,
        "tls-crypt",
    ) || eq_str(d, "pkcs12")
}

fn is_crypto(d: &[char]) -> (r: bool)
    ensures
        r == crypto_directive(d@),
{
    eq_str(d, "cipher") || eq_str(d, "auth") || eq_str(d, "data-ciphers") || eq_str(
        d,
        "data-ciphers-fallback",
    ) || eq_str(d, "tls-version-min") || eq_str(d, "tls-cipher")
}

fn is_flag(d: &[char]) -> (r: bool)
    ensures
        r == flag_directive(d@),
{
    eq_str(d, "client") || eq_str(d, "tls-client") || eq_str(d, "nobind") || eq_str(d, "persist-key")
        || eq_str(d, "persist-tun") || eq_str(d, "pull") || eq_str(d, "auth-nocache")
}

fn is_ignored_scalar(d: &[char]) -> (r: bool)
    ensures
        r == ignored_scalar_directive(d@),
{
    eq_str(d, "resolv-retry") || eq_str(d, "connect-retry") || eq_str(d, "connect-retry-max")
        || eq_str(d, "connect-timeout") || eq_str(d, "server-poll-timeout") || eq_str(d, "verb")
        || eq_str(d, "mute")
}

/// One directive line, as its tokens.
fn apply_directive(b: &mut ProfileBuilder, t: &Vec<Vec<char>>, expected: Ipv4Addr) -> (r: Result<(), OpenVpnConfigError>)
    requires
        old(b).wf(),
    ensures
        final(b).wf(),
        match directive_step(views(t@), old(b).state(), expected) {
            Ok(s) => r is Ok && final(b).state() == s,
            Err(e) => r matches Err(x) && x@ == e,
        },
{
    let ghost tv = views(t@);
    if t.len() == 0 {
        return Ok(());
    }
    assert(tv[0] == t@[0]@);
    let d = lowercase(t[0].as_slice());
    if is_dangerous(d.as_slice()) {
        return Err(OpenVpnConfigError::DangerousDirective(message(d.as_slice())));
    }
    if eq_str(d.as_slice(), "proto") {
        if t.len() != 2 {
            return Err(invalid_value(d.as_slice()));
        }
        assert(tv[1] == t@[1]@);
        let protocol = lowercase(t[1].as_slice());
        if !is_tcp(protocol.as_slice()) {
            return Err(OpenVpnConfigError::UnsupportedProtocol);
        }
        b.saw_tcp = true;
        return Ok(());
    }
    if eq_str(d.as_slice(), "dev") || eq_str(d.as_slice(), "dev-type") {
        if t.len() != 2 {
            return Err(invalid_value(d.as_slice()));
        }
        assert(tv[1] == t@[1]@);
        if !eq_str(t[1].as_slice(), "tun") {
            return Err(OpenVpnConfigError::InvalidDevice);
        }
        if eq_str(d.as_slice(), "dev") {
            b.saw_tun = true;
        }
        return Ok(());
    }
    if eq_str(d.as_slice(), "remote") {
        return apply_remote(b, t, expected);
    }
    if is_external_file(d.as_slice()) {
        return Err(OpenVpnConfigError::ExternalFile(message(d.as_slice())));
    }
    if is_crypto(d.as_slice()) {
        if t.len() != 2 {
            return Err(invalid_value(d.as_slice()));
        }
        assert(tv[1] == t@[1]@);
        if !is_safe_crypto_value(t[1].as_slice()) {
            return Err(invalid_value(d.as_slice()));
        }
        let mut line: Vec<char> = Vec::new();
        push_all(&mut line, d.as_slice());
        line.push(' ');
        push_all(&mut line, t[1].as_slice());
        assert(line@ =~= d@ + seq![' '] + tv[1]);
        insert_option(&mut b.options, line);
        return Ok(());
    }
    if eq_str(d.as_slice(), "key-direction") {
        if t.len() != 2 {
            return Err(invalid_value(d.as_slice()));
        }
        assert(tv[1] == t@[1]@);
        if !(eq_str(t[1].as_slice(), "0") || eq_str(t[1].as_slice(), "1")) {
            return Err(invalid_value(d.as_slice()));
        }
        let mut line: Vec<char> = Vec::new();
        push_str(&mut line, "key-direction ");
        push_all(&mut line, t[1].as_slice());
        insert_option(&mut b.options, line);
        return Ok(());
    }
    if eq_str(d.as_slice(), "remote-cert-tls") {
        if t.len() != 2 {
            return Err(invalid_value(d.as_slice()));
        }
        assert(tv[1] == t@[1]@);
        if !eq_str(t[1].as_slice(), "server") {
            return Err(invalid_value(d.as_slice()));
        }
        let line = str_chars("remote-cert-tls server");
        insert_option(&mut b.options, line);
        return Ok(());
    }
    if is_flag(d.as_slice()) {
        return ensure_no_values(t, d.as_slice());
    }
    if is_ignored_scalar(d.as_slice()) {
        return validate_ignored_scalar(t, d.as_slice());
    }
    if eq_str(d.as_slice(), "setenv") && t.len() == 3 {
        assert(tv[1] == t@[1]@ && tv[2] == t@[2]@);
        if eq_str(t[0].as_slice(), "setenv") && eq_str(t[1].as_slice(), "opt") && eq_str(
            t[2].as_slice(),
            "block-outside-dns",
        ) {
            assert(tv =~= seq!["setenv"@, "opt"@, "block-outside-dns"@]);
            return Ok(());
        }
    }
    Err(OpenVpnConfigError::UnsupportedDirective(message(d.as_slice())))
}

pub open spec fn mode_of(in_block: bool, kind: usize, name: Seq<char>, body: Seq<char>) -> LineMode {
    if in_block {
        LineMode::Block { kind: kind as int, name, body }
    } else {
        LineMode::Top
    }
}

spec fn utf8_width_newline() -> nat {
    crate::text::utf8_width('\n')
}

fn block_error(name: &[char]) -> (r: OpenVpnConfigError)
    ensures
        r@ == ProfileError::InvalidInlineBlock(name@),
{
    OpenVpnConfigError::InvalidInlineBlock(message(name))
}

/// Runs the line scan over all lines.
fn scan_lines(ls: &Vec<Vec<char>>, expected: Ipv4Addr) -> (r: Result<ProfileBuilder, OpenVpnConfigError>)
    ensures
        match scan(views(ls@), 0, initial_state(), LineMode::Top, expected) {
            Ok(s) => r matches Ok(b) && b.wf() && b.state() == s,
            Err(e) => r matches Err(x) && x@ == e,
        },
{
    let ghost lsv = views(ls@);
    let mut b = ProfileBuilder::new();
    let mut in_block = false;
    let mut kind: usize = 0;
    let mut name: Vec<char> = Vec::new();
    let mut body: Vec<char> = Vec::new();
    let mut body_bytes: usize = 0;
    let mut i: usize = 0;
    while i < ls.len()
        invariant
            i <= ls@.len(),
            lsv == views(ls@),
            b.wf(),
            kind < 5,
            body_bytes == byte_len(body@),
            body_bytes <= MAX_BLOCK_BYTES,
            scan(lsv, 0, initial_state(), LineMode::Top, expected) == scan(
                lsv,
                i as int,
                b.state(),
                mode_of(in_block, kind, name@, body@),
                expected,
            ),
        decreases ls.len() - i,
    {
        let raw = ls[i].as_slice();
        assert(raw@ == lsv[i as int]);
        if !in_block {
            let line = trimmed(raw);
            if line.len() == 0 || line[0] == '#' || line[0] == ';' {
                i = i + 1;
                continue;
            }
            match opening_block(line.as_slice()) {
                Some(nm) => match block_kind_of(nm.as_slice()) {
                    None => {
                        let mut m: Vec<char> = Vec::new();
                        m.push('<');
                        push_all(&mut m, nm.as_slice());
                        m.push('>');
                        assert(m@ =~= seq!['<'] + nm@ + seq!['>']);
                        return Err(OpenVpnConfigError::UnsupportedDirective(message(m.as_slice())));
                    },
                    Some(k) => {
                        in_block = true;
                        kind = k;
                        name = nm;
                        body = Vec::new();
                        body_bytes = 0;
                        assert(body@ =~= Seq::<char>::empty());
                    },
                },
                None => {
                    let toks = split_tokens(line.as_slice());
                    match apply_directive(&mut b, &toks, expected) {
                        Ok(()) => {},
                        Err(e) => {
                            return Err(e);
                        },
                    }
                },
            }
        } else {
            let e = trim_end_cr_end(raw);
            let line = copy_range(raw, 0, e);
            let t = trimmed(line.as_slice());
            let mut close: Vec<char> = Vec::new();
            close.push('<');
            close.push('/');
            push_all(&mut close, name.as_slice());
            close.push('>');
            assert(close@ =~= "</"@ + name@ + ">"@) by {
                reveal_strlit("</");
                reveal_strlit(">");
            }
            if chars_eq(t.as_slice(), close.as_slice()) {
                let rest = trimmed(body.as_slice());
                if rest.len() == 0 || b.blocks[kind].is_some() {
                    return Err(block_error(name.as_slice()));
                }
                let ghost before = b.blocks@;
                let ghost finished = body@;
                b.blocks.set(kind, Some(body));
                assert(block_views(b.blocks@) =~= block_views(before).update(kind as int, Some(finished)));
                body = Vec::new();
                body_bytes = 0;
                in_block = false;
                assert(body@ =~= Seq::<char>::empty());
            } else if opening_block(t.as_slice()).is_some() || contains_nul(line.as_slice()) {
                return Err(block_error(name.as_slice()));
            } else {
                let lb = byte_len_of(line.as_slice());
                if body_bytes.saturating_add(lb).saturating_add(1) > MAX_BLOCK_BYTES {
                    return Err(block_error(name.as_slice()));
                }
                let ghost old_body = body@;
                push_all(&mut body, line.as_slice());
                body.push('\n');
                proof {
                    lemma_byte_len_concat(old_body, line@);
                    lemma_byte_len_concat(old_body + line@, seq!['\n']);
                    let nl = seq!['\n'];
                    assert(nl.drop_last() =~= Seq::<char>::empty());
                    assert(byte_len(nl.drop_last()) == 0);
                    assert(nl.last() == '\n');
                    assert(utf8_width_newline() == 1);
                    assert(byte_len(nl) == 1);
                    assert(lb == byte_len(line@));
                    assert(body@ =~= old_body + line@ + seq!['\n']);
                }
                body_bytes = body_bytes + lb + 1;
            }
        }
        i = i + 1;
    }
    if in_block {
        return Err(block_error(name.as_slice()));
    }
    Ok(b)
}

/// A locally regenerated profile that contains no external file or script references.
#[derive(Clone, Debug)]
pub struct SanitizedOpenVpn {
    rendered: String,
    remote_ip: Ipv4Addr,
    remote_port: u16,
    digest: [u8; 32],
}

impl SanitizedOpenVpn {
    pub closed spec fn spec_text(&self) -> Seq<char> {
        self.rendered@
    }

    pub closed spec fn spec_remote(&self) -> (Ipv4Addr, u16) {
        (self.remote_ip, self.remote_port)
    }

    pub closed spec fn spec_digest(&self) -> Seq<u8> {
        self.digest@
    }

    /// Returns the complete sanitized profile.
    pub fn as_str(&self) -> (r: &str)
        ensures
            r@ == self.spec_text(),
    {
        self.rendered.as_str()
    }

    /// Returns the validated TCP VPN endpoint.
    pub fn remote(&self) -> (r: (Ipv4Addr, u16))
        ensures
            r == self.spec_remote(),
    {
        (self.remote_ip, self.remote_port)
    }

    /// Returns the digest used in stable node identity.
    pub fn digest(&self) -> (r: [u8; 32])
        ensures
            r@ == self.spec_digest(),
    {
        self.digest
    }
}

fn options_contain(options: &Vec<Vec<char>>, x: &str) -> (r: bool)
    ensures
        r == views(options@).contains(x@),
{
    let ghost v = views(options@);
    let mut k: usize = 0;
    while k < options.len()
        invariant
            k <= options@.len(),
            v == views(options@),
            forall|m: int| 0 <= m < k ==> v[m] != x@,
        decreases options.len() - k,
    {
        if eq_str(options[k].as_slice(), x) {
            assert(v[k as int] == x@);
            return true;
        }
        k = k + 1;
    }
    false
}

fn push_block_text(out: &mut Vec<char>, blocks: &Vec<Option<Vec<char>>>, k: usize)
    requires
        k < 5,
        blocks@.len() == 5,
    ensures
        final(out)@ == old(out)@ + block_text(block_views(blocks@), k as int),
{
    let ghost start = out@;
    match &blocks[k] {
        Some(body) => {
            let name = block_name_str(k);
            out.push('<');
            push_str(out, name);
            push_str(out, ">\n");
            push_all(out, body.as_slice());
            push_str(out, "</");
            push_str(out, name);
            push_str(out, ">\n");
            assert(block_views(blocks@)[k as int] == Some(body@));
            assert(out@ =~= start + block_text(block_views(blocks@), k as int));
        },
        None => {
            assert(block_views(blocks@)[k as int] is None);
            assert(out@ =~= start + block_text(block_views(blocks@), k as int));
        },
    }
}

/// The regenerated profile text.
#[verifier::rlimit(40)]
fn render_profile(b: &ProfileBuilder, remote: (Ipv4Addr, u16)) -> (r: Vec<char>)
    requires
        b.wf(),
    ensures
        r@ == render(b.state(), remote),
{
    let mut out = str_chars("client\ndev tun\nproto tcp-client\nremote ");
    let ip = remote.0.to_chars();
    push_all(&mut out, ip.as_slice());
    out.push(' ');
    let port = decimal_chars(remote.1 as u64);
    push_all(&mut out, port.as_slice());
    push_str(&mut out, " tcp-client\nnobind\npersist-key\npersist-tun\nauth-nocache\nverb 3\n");
    if !options_contain(&b.options, "remote-cert-tls server") {
        push_str(&mut out, "remote-cert-tls server\n");
    }
    let ghost with_cert = out@;
    let ghost opts = views(b.options@);
    let mut k: usize = 0;
    while k < b.options.len()
        invariant
            k <= b.options@.len(),
            opts == views(b.options@),
            out@ == with_cert + option_lines(opts.take(k as int)),
        decreases b.options.len() - k,
    {
        assert(opts.take(k + 1).drop_last() =~= opts.take(k as int));
        assert(opts.take(k + 1).last() == b.options@[k as int]@);
        push_all(&mut out, b.options[k].as_slice());
        out.push('\n');
        k = k + 1;
        assert(out@ =~= with_cert + option_lines(opts.take(k as int)));
    }
    assert(opts.take(k as int) =~= opts);
    push_block_text(&mut out, &b.blocks, 0);
    push_block_text(&mut out, &b.blocks, 1);
    push_block_text(&mut out, &b.blocks, 2);
    push_block_text(&mut out, &b.blocks, 3);
    push_block_text(&mut out, &b.blocks, 4);
    assert(out@ =~= render(b.state(), remote));
    out
}

/// The checks after the last line.
fn finish_profile(b: &ProfileBuilder) -> (r: Result<(Vec<char>, (Ipv4Addr, u16)), OpenVpnConfigError>)
    requires
        b.wf(),
    ensures
        match finish(b.state()) {
            Ok((text, remote)) => r matches Ok((v, rm)) && v@ == text && rm == remote,
            Err(e) => r matches Err(x) && x@ == e,
        },
{
    if !b.saw_tcp {
        return Err(OpenVpnConfigError::UnsupportedProtocol);
    }
    if !b.saw_tun {
        return Err(OpenVpnConfigError::InvalidDevice);
    }
    let remote = match b.remote {
        Some(r) => r,
        None => {
            return Err(OpenVpnConfigError::InvalidRemote);
        },
    };
    let ghost bv = block_views(b.blocks@);
    assert(bv[0] is None <==> b.blocks@[0] is None);
    assert(bv[1] is None <==> b.blocks@[1] is None);
    assert(bv[2] is None <==> b.blocks@[2] is None);
    if b.blocks[0].is_none() {
        return Err(OpenVpnConfigError::MissingInlineBlock("ca"));
    }
    if b.blocks[1].is_none() {
        return Err(OpenVpnConfigError::MissingInlineBlock("cert"));
    }
    if b.blocks[2].is_none() {
        return Err(OpenVpnConfigError::MissingInlineBlock("key"));
    }
    Ok((render_profile(b, remote), remote))
}

/// Parses and regenerates a downloaded OpenVPN profile using a fixed directive allowlist.
///
/// The result is exactly what `sanitized` describes; its digest is the BLAKE3
/// digest of the rendered text's UTF-8 bytes.
pub fn sanitize_openvpn(input: &[u8], expected_ip: Ipv4Addr) -> (r: Result<SanitizedOpenVpn, OpenVpnConfigError>)
    ensures
        match sanitized(input@, expected_ip) {
            Ok((text, remote)) => r matches Ok(p) && p.spec_text() == text && p.spec_remote() == remote
                && p.spec_digest() == blake3_digest(encode_utf8(text)),
            Err(e) => r matches Err(x) && x@ == e,
        },
{
    if input.len() > MAX_PROFILE_BYTES {
        return Err(OpenVpnConfigError::TooLarge);
    }
    let text = match utf8_text(input) {
        Some(t) => t,
        None => {
            return Err(OpenVpnConfigError::InvalidUtf8);
        },
    };
    let chars = str_chars(text);
    let ls = split_lines(chars.as_slice());
    let ghost lsv = views(ls@);
    assert(lsv == lines(decode_utf8(input@)));
    let mut k: usize = 0;
    while k < ls.len()
        invariant
            k <= ls@.len(),
            lsv == views(ls@),
            lsv == lines(decode_utf8(input@)),
            input@.len() <= MAX_PROFILE_BYTES,
            valid_utf8(input@),
            forall|m: int| 0 <= m < k ==> byte_len(#[trigger] lsv[m]) <= MAX_LINE_BYTES,
        decreases ls.len() - k,
    {
        if byte_len_of(ls[k].as_slice()) > MAX_LINE_BYTES {
            assert(byte_len(lsv[k as int]) > MAX_LINE_BYTES);
            return Err(OpenVpnConfigError::LineTooLong);
        }
        k = k + 1;
    }
    let b = match scan_lines(&ls, expected_ip) {
        Ok(b) => b,
        Err(e) => {
            return Err(e);
        },
    };
    let (out, remote) = match finish_profile(&b) {
        Ok(done) => done,
        Err(e) => {
            return Err(e);
        },
    };
    let rendered = chars_to_string(out.as_slice());
    let digest = blake3_hash(rendered.as_str().as_bytes());
    Ok(SanitizedOpenVpn { rendered, remote_ip: remote.0, remote_port: remote.1, digest })
}

pub open spec fn remote_ok(remote: Option<(Ipv4Addr, u16)>, expected: Ipv4Addr) -> bool {
    remote matches Some(r) ==> r.0 == expected && r.1 != 0
}

proof fn lemma_scan_keeps_remote(ls: Seq<Seq<char>>, i: int, st: ProfileState, mode: LineMode, expected: Ipv4Addr)
    requires
        remote_ok(st.remote, expected),
    ensures
        scan(ls, i, st, mode, expected) matches Ok(s) ==> remote_ok(s.remote, expected),
    decreases ls.len() - i,
{
    if i < ls.len() {
        let step = match mode {
            LineMode::Top => top_line_step(ls[i], st, expected),
            LineMode::Block { kind, name, body } => block_line_step(ls[i], kind, name, body, st),
        };
        if let Ok((next, next_mode)) = step {
            lemma_scan_keeps_remote(ls, i + 1, next, next_mode, expected);
        }
    }
}

/// A sanitized profile always connects to the address the catalog listed for
/// the node, on a non-zero port.
pub proof fn sanitized_profile_targets_expected_address(input: Seq<u8>, expected: Ipv4Addr)
    ensures
        sanitized(input, expected) matches Ok((text, remote)) ==> remote.0 == expected && remote.1 != 0,
{
    if input.len() <= MAX_PROFILE_BYTES && valid_utf8(input) {
        let ls = lines(decode_utf8(input));
        lemma_scan_keeps_remote(ls, 0, initial_state(), LineMode::Top, expected);
    }
}

} // verus!
