//! Mihomo proxy-provider rendering for sanitized VPN Gate profiles.

use vstd::prelude::*;

use crate::domain::{ipv4_text, NodeId, VpnNode};
use crate::openvpn::{option_lines, SanitizedOpenVpn};
use crate::text::{
    chars_eq, chars_to_string, copy_range, decimal, decimal_chars, eq_str, lines, push_all,
    push_str, split_lines, str_chars, to_ascii_uppercase, uppercase, views,
};

verus! {

/// Index of the first `c` in `s` at or after `i`.
pub open spec fn char_index(s: Seq<char>, c: char, i: int) -> Option<int>
    decreases s.len() - i,
{
    if i < 0 || i >= s.len() {
        None
    } else if s[i] == c {
        Some(i)
    } else {
        char_index(s, c, i + 1)
    }
}

/// `str::split_once(' ')`.
pub open spec fn split_once_space(line: Seq<char>) -> Option<(Seq<char>, Seq<char>)> {
    match char_index(line, ' ', 0) {
        Some(k) => Some((line.take(k), line.skip(k + 1))),
        None => None,
    }
}

/// The value of the first line `name value` with the given name, from line `i` on.
pub open spec fn scalar_from(ls: Seq<Seq<char>>, d: Seq<char>, i: int) -> Option<Seq<char>>
    decreases ls.len() - i,
{
    if i < 0 || i >= ls.len() {
        None
    } else {
        match split_once_space(ls[i]) {
            Some((name, value)) => if name == d {
                Some(value)
            } else {
                scalar_from(ls, d, i + 1)
            },
            None => scalar_from(ls, d, i + 1),
        }
    }
}

pub open spec fn scalar_value(text: Seq<char>, d: Seq<char>) -> Option<Seq<char>> {
    scalar_from(lines(text), d, 0)
}

/// Index of the first line equal to `target`, from line `i` on.
pub open spec fn line_index(ls: Seq<Seq<char>>, target: Seq<char>, i: int) -> Option<int>
    decreases ls.len() - i,
{
    if i < 0 || i >= ls.len() {
        None
    } else if ls[i] == target {
        Some(i)
    } else {
        line_index(ls, target, i + 1)
    }
}

/// The non-empty body between the first `<name>` line and the next `</name>` line.
pub open spec fn block_body(text: Seq<char>, name: Seq<char>) -> Option<Seq<char>> {
    let ls = lines(text);
    match line_index(ls, seq!['<'] + name + seq!['>'], 0) {
        None => None,
        Some(open) => match line_index(ls, seq!['<', '/'] + name + seq!['>'], open + 1) {
            None => None,
            Some(close) => if close == open + 1 {
                None
            } else {
                Some(option_lines(ls.subrange(open + 1, close)))
            },
        },
    }
}

pub open spec fn is_cipher_sep(c: char) -> bool {
    c == ':' || c == ','
}

/// Maximal non-empty runs between `:` and `,` separators.
pub open spec fn cipher_runs(s: Seq<char>, i: int, cur: Option<int>) -> Seq<Seq<char>>
    decreases s.len() - i,
{
    if i >= s.len() {
        match cur {
            Some(b) => seq![s.subrange(b, s.len() as int)],
            None => seq![],
        }
    } else if is_cipher_sep(s[i]) {
        match cur {
            Some(b) => seq![s.subrange(b, i)] + cipher_runs(s, i + 1, None),
            None => cipher_runs(s, i + 1, None),
        }
    } else {
        cipher_runs(
            s,
            i + 1,
            match cur {
                Some(b) => Some(b),
                None => Some(i),
            },
        )
    }
}

pub open spec fn cipher_list(s: Seq<char>) -> Seq<Seq<char>> {
    cipher_runs(s, 0, None)
}

/// Data-channel ciphers that Mihomo's OpenVPN client supports.
pub open spec fn mihomo_cipher(v: Seq<char>) -> bool {
    let u = to_ascii_uppercase(v);
    u == "AES-CBC"@ || u == "AES-128-CBC"@ || u == "AES-192-CBC"@ || u == "AES-256-CBC"@
        || u == "AES-128-GCM"@ || u == "AES-192-GCM"@ || u == "AES-256-GCM"@
        || u == "CHACHA20-POLY1305"@
}

/// Digests that Mihomo's OpenVPN client supports.
pub open spec fn mihomo_auth(v: Seq<char>) -> bool {
    let u = to_ascii_uppercase(v);
    u == "MD5"@ || u == "SHA1"@ || u == "SHA256"@ || u == "SHA384"@ || u == "SHA512"@
}

pub open spec fn bad_cipher(v: Option<Seq<char>>) -> bool {
    match v {
        Some(c) => !mihomo_cipher(c),
        None => false,
    }
}

pub open spec fn bad_auth(v: Option<Seq<char>>) -> bool {
    match v {
        Some(a) => !mihomo_auth(a),
        None => false,
    }
}

/// The settings of a profile that a Mihomo provider entry carries.
pub struct MihomoSettings {
    pub ca: Seq<char>,
    pub cert: Seq<char>,
    pub key: Seq<char>,
    pub tls_auth: Option<Seq<char>>,
    pub tls_crypt: Option<Seq<char>>,
    pub cipher: Option<Seq<char>>,
    pub auth: Option<Seq<char>>,
    pub data_ciphers: Seq<Seq<char>>,
    pub data_ciphers_fallback: Option<Seq<char>>,
    pub key_direction: Option<Seq<char>>,
}

pub open spec fn data_ciphers_of(text: Seq<char>) -> Seq<Seq<char>> {
    match scalar_value(text, "data-ciphers"@) {
        Some(v) => cipher_list(v),
        None => Seq::empty(),
    }
}

/// The Mihomo settings of a sanitized profile, or `None` when Mihomo cannot
/// use it: an unsupported cipher or digest, both `tls-auth` and `tls-crypt`,
/// or a missing CA, certificate or key.
pub open spec fn mihomo_settings(text: Seq<char>) -> Option<MihomoSettings> {
    let cipher = scalar_value(text, "cipher"@);
    let auth = scalar_value(text, "auth"@);
    let data = data_ciphers_of(text);
    let fallback = scalar_value(text, "data-ciphers-fallback"@);
    let tls_auth = block_body(text, "tls-auth"@);
    let tls_crypt = block_body(text, "tls-crypt"@);
    if bad_cipher(cipher) || (exists|i: int| 0 <= i < data.len() && !mihomo_cipher(#[trigger] data[i]))
        || bad_cipher(fallback) || bad_auth(auth) {
        None
    } else if tls_auth is Some && tls_crypt is Some {
        None
    } else {
        match (block_body(text, "ca"@), block_body(text, "cert"@), block_body(text, "key"@)) {
            (Some(ca), Some(cert), Some(key)) => Some(
                MihomoSettings {
                    ca,
                    cert,
                    key,
                    tls_auth,
                    tls_crypt,
                    cipher,
                    auth,
                    data_ciphers: data,
                    data_ciphers_fallback: fallback,
                    key_direction: scalar_value(text, "key-direction"@),
                },
            ),
            _ => None,
        }
    }
}

pub open spec fn scalar_line(name: Seq<char>, value: Option<Seq<char>>) -> Seq<char> {
    match value {
        Some(v) => "    "@ + name + ": "@ + v + seq!['\n'],
        None => Seq::empty(),
    }
}

pub open spec fn indented_lines(ls: Seq<Seq<char>>) -> Seq<char>
    decreases ls.len(),
{
    if ls.len() == 0 {
        Seq::empty()
    } else {
        indented_lines(ls.drop_last()) + "      "@ + ls.last() + seq!['\n']
    }
}

/// A YAML literal block with the value's lines.
pub open spec fn block_entry(name: Seq<char>, value: Seq<char>) -> Seq<char> {
    "    "@ + name + ": |\n"@ + indented_lines(lines(value))
}

pub open spec fn optional_block_entry(name: Seq<char>, value: Option<Seq<char>>) -> Seq<char> {
    match value {
        Some(v) => block_entry(name, v),
        None => Seq::empty(),
    }
}

pub open spec fn cipher_items(cs: Seq<Seq<char>>) -> Seq<char>
    decreases cs.len(),
{
    if cs.len() == 0 {
        Seq::empty()
    } else {
        cipher_items(cs.drop_last()) + "      - "@ + cs.last() + seq!['\n']
    }
}

pub open spec fn data_ciphers_text(cs: Seq<Seq<char>>) -> Seq<char> {
    if cs.len() > 0 {
        "    data-ciphers:\n"@ + cipher_items(cs)
    } else {
        Seq::empty()
    }
}

pub open spec fn key_direction_text(d: Option<Seq<char>>) -> Seq<char> {
    match d {
        Some(v) => "    key-direction: \""@ + v + "\"\n"@,
        None => Seq::empty(),
    }
}

/// One provider entry.
pub open spec fn entry_text(id: Seq<char>, remote: (crate::domain::Ipv4Addr, u16), m: MihomoSettings) -> Seq<char> {
    "  - name: vpngate-"@ + id + "\n    type: openvpn\n    server: "@ + ipv4_text(remote.0)
        + "\n    port: "@ + decimal(remote.1 as nat) + "\n    proto: tcp\n    dev: tun\n"@
        + scalar_line("cipher"@, m.cipher) + scalar_line("auth"@, m.auth)
        + data_ciphers_text(m.data_ciphers)
        + scalar_line("data-ciphers-fallback"@, m.data_ciphers_fallback)
        + key_direction_text(m.key_direction)
        + block_entry("ca"@, m.ca) + block_entry("cert"@, m.cert) + block_entry("key"@, m.key)
        + optional_block_entry("tls-auth"@, m.tls_auth)
        + optional_block_entry("tls-crypt"@, m.tls_crypt)
        + "    remote-dns-resolve: true\n    dns: [1.1.1.1, 8.8.8.8]\n"@
}

/// The entry of a node, when it has a profile that Mihomo can use.
pub open spec fn node_entry(n: VpnNode) -> Option<Seq<char>> {
    match n.openvpn {
        Some(p) => match mihomo_settings(p.spec_text()) {
            Some(m) => Some(entry_text(n.id@, p.spec_remote(), m)),
            None => None,
        },
        None => None,
    }
}

pub open spec fn provider_entries(nodes: Seq<VpnNode>) -> Seq<char>
    decreases nodes.len(),
{
    if nodes.len() == 0 {
        Seq::empty()
    } else {
        provider_entries(nodes.drop_last()) + match node_entry(nodes.last()) {
            Some(e) => e,
            None => Seq::empty(),
        }
    }
}

pub open spec fn entry_count(nodes: Seq<VpnNode>) -> nat
    decreases nodes.len(),
{
    if nodes.len() == 0 {
        0
    } else {
        entry_count(nodes.drop_last()) + if node_entry(nodes.last()) is Some { 1nat } else { 0nat }
    }
}

/// The provider document: `proxies: []` when no node can be used.
pub open spec fn provider_text(nodes: Seq<VpnNode>) -> Seq<char> {
    if entry_count(nodes) == 0 {
        "proxies:"@ + " []\n"@
    } else {
        "proxies:"@ + seq!['\n'] + provider_entries(nodes)
    }
}

/// The Mihomo settings in executable form.
struct MihomoOpenVpn {
    ca: Vec<char>,
    cert: Vec<char>,
    key: Vec<char>,
    tls_auth: Option<Vec<char>>,
    tls_crypt: Option<Vec<char>>,
    cipher: Option<Vec<char>>,
    auth: Option<Vec<char>>,
    data_ciphers: Vec<Vec<char>>,
    data_ciphers_fallback: Option<Vec<char>>,
    key_direction: Option<Vec<char>>,
}

pub open spec fn opt_view(v: Option<Vec<char>>) -> Option<Seq<char>> {
    match v {
        Some(x) => Some(x@),
        None => None,
    }
}

impl MihomoOpenVpn {
    spec fn settings(&self) -> MihomoSettings {
        MihomoSettings {
            ca: self.ca@,
            cert: self.cert@,
            key: self.key@,
            tls_auth: opt_view(self.tls_auth),
            tls_crypt: opt_view(self.tls_crypt),
            cipher: opt_view(self.cipher),
            auth: opt_view(self.auth),
            data_ciphers: views(self.data_ciphers@),
            data_ciphers_fallback: opt_view(self.data_ciphers_fallback),
            key_direction: opt_view(self.key_direction),
        }
    }

    fn from_sanitized(profile: &SanitizedOpenVpn) -> (r: Option<MihomoOpenVpn>)
        ensures
            match mihomo_settings(profile.spec_text()) {
                Some(m) => r matches Some(x) && x.settings() == m,
                None => r is None,
            },
    {
        let text = str_chars(profile.as_str());
        let ls = split_lines(text.as_slice());
        let cipher = scalar(&ls, "cipher");
        let auth = scalar(&ls, "auth");
        let data_ciphers = match scalar(&ls, "data-ciphers") {
            Some(v) => split_ciphers(v.as_slice()),
            None => Vec::new(),
        };
        assert(views(data_ciphers@) == data_ciphers_of(profile.spec_text()));
        let data_ciphers_fallback = scalar(&ls, "data-ciphers-fallback");
        if optional_bad_cipher(&cipher) || any_bad_cipher(&data_ciphers) || optional_bad_cipher(
            &data_ciphers_fallback,
        ) || optional_bad_auth(&auth) {
            return None;
        }
        let tls_auth = inline_block(&ls, "tls-auth");
        let tls_crypt = inline_block(&ls, "tls-crypt");
        if tls_auth.is_some() && tls_crypt.is_some() {
            return None;
        }
        let ca = match inline_block(&ls, "ca") {
            Some(v) => v,
            None => {
                return None;
            },
        };
        let cert = match inline_block(&ls, "cert") {
            Some(v) => v,
            None => {
                return None;
            },
        };
        let key = match inline_block(&ls, "key") {
            Some(v) => v,
            None => {
                return None;
            },
        };
        let key_direction = scalar(&ls, "key-direction");
        Some(
            MihomoOpenVpn {
                ca,
                cert,
                key,
                tls_auth,
                tls_crypt,
                cipher,
                auth,
                data_ciphers,
                data_ciphers_fallback,
                key_direction,
            },
        )
    }
}

fn optional_bad_cipher(v: &Option<Vec<char>>) -> (r: bool)
    ensures
        r == bad_cipher(opt_view(*v)),
{
    match v {
        Some(c) => !is_mihomo_cipher(c.as_slice()),
        None => false,
    }
}

fn optional_bad_auth(v: &Option<Vec<char>>) -> (r: bool)
    ensures
        r == bad_auth(opt_view(*v)),
{
    match v {
        Some(a) => !is_mihomo_auth(a.as_slice()),
        None => false,
    }
}

fn any_bad_cipher(cs: &Vec<Vec<char>>) -> (r: bool)
    ensures
        r == exists|i: int| 0 <= i < cs@.len() && !mihomo_cipher(#[trigger] views(cs@)[i]),
{
    let mut i: usize = 0;
    while i < cs.len()
        invariant
            i <= cs@.len(),
            forall|k: int| 0 <= k < i ==> mihomo_cipher(#[trigger] views(cs@)[k]),
        decreases cs.len() - i,
    {
        assert(views(cs@)[i as int] == cs@[i as int]@);
        if !is_mihomo_cipher(cs[i].as_slice()) {
            return true;
        }
        i = i + 1;
    }
    false
}

/// Whether Mihomo supports a data-channel cipher.
fn is_mihomo_cipher(value: &[char]) -> (r: bool)
    ensures
        r == mihomo_cipher(value@),
{
    let u = uppercase(value);
    let u = u.as_slice();
    eq_str(u, "AES-CBC") || eq_str(u, "AES-128-CBC") || eq_str(u, "AES-192-CBC") || eq_str(
        u,
        "AES-256-CBC",
    ) || eq_str(u, "AES-128-GCM") || eq_str(u, "AES-192-GCM") || eq_str(u, "AES-256-GCM")
        || eq_str(u, "CHACHA20-POLY1305")
}

/// Whether Mihomo supports a digest.
fn is_mihomo_auth(value: &[char]) -> (r: bool)
    ensures
        r == mihomo_auth(value@),
{
    let u = uppercase(value);
    let u = u.as_slice();
    eq_str(u, "MD5") || eq_str(u, "SHA1") || eq_str(u, "SHA256") || eq_str(u, "SHA384") || eq_str(
        u,
        "SHA512",
    )
}

fn split_once_space_exec(line: &[char]) -> (r: Option<(Vec<char>, Vec<char>)>)
    ensures
        match split_once_space(line@) {
            Some((a, b)) => r matches Some((x, y)) && x@ == a && y@ == b,
            None => r is None,
        },
{
    let mut i: usize = 0;
    while i < line.len()
        invariant
            i <= line@.len(),
            char_index(line@, ' ', 0) == char_index(line@, ' ', i as int),
        decreases line.len() - i,
    {
        if line[i] == ' ' {
            let a = copy_range(line, 0, i);
            let b = copy_range(line, i + 1, line.len());
            assert(a@ =~= line@.take(i as int));
            assert(b@ =~= line@.skip(i + 1));
            return Some((a, b));
        }
        i = i + 1;
    }
    None
}

/// The value of the first `directive value` line.
fn scalar(ls: &Vec<Vec<char>>, directive: &str) -> (r: Option<Vec<char>>)
    ensures
        opt_view(r) == scalar_from(views(ls@), directive@, 0),
{
    let ghost lv = views(ls@);
    let mut i: usize = 0;
    while i < ls.len()
        invariant
            i <= ls@.len(),
            lv == views(ls@),
            scalar_from(lv, directive@, 0) == scalar_from(lv, directive@, i as int),
        decreases ls.len() - i,
    {
        assert(lv[i as int] == ls@[i as int]@);
        match split_once_space_exec(ls[i].as_slice()) {
            Some((name, value)) => {
                if eq_str(name.as_slice(), directive) {
                    return Some(value);
                }
            },
            None => {},
        }
        i = i + 1;
    }
    None
}

fn find_line(ls: &Vec<Vec<char>>, target: &[char], from: usize) -> (r: Option<usize>)
    ensures
        match line_index(views(ls@), target@, from as int) {
            Some(k) => r matches Some(x) && x as int == k,
            None => r is None,
        },
{
    let ghost lv = views(ls@);
    let mut i: usize = from;
    while i < ls.len()
        invariant
            from <= i,
            lv == views(ls@),
            line_index(lv, target@, from as int) == line_index(lv, target@, i as int),
        decreases ls.len() - i,
    {
        assert(lv[i as int] == ls@[i as int]@);
        if chars_eq(ls[i].as_slice(), target) {
            return Some(i);
        }
        i = i + 1;
    }
    None
}

proof fn lemma_line_index_bounds(ls: Seq<Seq<char>>, target: Seq<char>, i: int)
    ensures
        line_index(ls, target, i) matches Some(k) ==> i <= k < ls.len() && 0 <= k,
    decreases ls.len() - i,
{
    if 0 <= i < ls.len() && ls[i] != target {
        lemma_line_index_bounds(ls, target, i + 1);
    }
}

/// The body of the first inline block with the given name.
fn inline_block(ls: &Vec<Vec<char>>, name: &str) -> (r: Option<Vec<char>>)
    ensures
        opt_view(r) == match line_index(views(ls@), seq!['<'] + name@ + seq!['>'], 0) {
            None => None,
            Some(open) => match line_index(views(ls@), seq!['<', '/'] + name@ + seq!['>'], open + 1) {
                None => None,
                Some(close) => if close == open + 1 {
                    None
                } else {
                    Some(option_lines(views(ls@).subrange(open + 1, close)))
                },
            },
        },
{
    let ghost lv = views(ls@);
    let mut opening: Vec<char> = Vec::new();
    opening.push('<');
    push_str(&mut opening, name);
    opening.push('>');
    let mut closing: Vec<char> = Vec::new();
    closing.push('<');
    closing.push('/');
    push_str(&mut closing, name);
    closing.push('>');
    assert(opening@ =~= seq!['<'] + name@ + seq!['>']);
    assert(closing@ =~= seq!['<', '/'] + name@ + seq!['>']);
    let ghost first = line_index(lv, opening@, 0);
    proof {
        lemma_line_index_bounds(lv, opening@, 0);
    }
    let open = match find_line(ls, opening.as_slice(), 0) {
        Some(k) => k,
        None => {
            assert(first is None);
            return None;
        },
    };
    assert(first == Some(open as int));
    let n = ls.len();
    assert(open < n);
    let ghost second = line_index(lv, closing@, open + 1);
    proof {
        lemma_line_index_bounds(lv, closing@, open + 1);
    }
    let close = match find_line(ls, closing.as_slice(), open + 1) {
        Some(k) => k,
        None => {
            assert(second is None);
            return None;
        },
    };
    assert(second == Some(close as int));
    if close == open + 1 {
        return None;
    }
    let mut body: Vec<char> = Vec::new();
    let mut k: usize = open + 1;
    while k < close
        invariant
            open + 1 <= k <= close,
            close <= ls@.len(),
            lv == views(ls@),
            body@ == option_lines(lv.subrange(open + 1, k as int)),
        decreases close - k,
    {
        assert(lv.subrange(open + 1, k + 1).drop_last() =~= lv.subrange(open + 1, k as int));
        assert(lv[k as int] == ls@[k as int]@);
        push_all(&mut body, ls[k].as_slice());
        body.push('\n');
        k = k + 1;
    }
    Some(body)
}

/// Splits a `data-ciphers` list on `:` and `,`, dropping empty names.
fn split_ciphers(s: &[char]) -> (r: Vec<Vec<char>>)
    ensures
        views(r@) == cipher_list(s@),
{
    let n = s.len();
    let mut out: Vec<Vec<char>> = Vec::new();
    let mut in_token = false;
    let mut start: usize = 0;
    let mut i: usize = 0;
    while i < n
        invariant
            start <= i <= n == s@.len(),
            views(out@) + cipher_runs(
                s@,
                i as int,
                if in_token {
                    Some(start as int)
                } else {
                    None
                },
            ) == cipher_list(s@),
        decreases n - i,
    {
        if s[i] == ':' || s[i] == ',' {
            if in_token {
                let piece = copy_range(s, start, i);
                let ghost before = out@;
                out.push(piece);
                assert(views(out@) =~= views(before) + seq![piece@]);
                assert(views(out@) + cipher_runs(s@, (i + 1) as int, None) =~= views(before)
                    + cipher_runs(s@, i as int, Some(start as int)));
                in_token = false;
            }
        } else if !in_token {
            in_token = true;
            start = i;
        }
        i = i + 1;
    }
    if in_token {
        let piece = copy_range(s, start, n);
        let ghost before = out@;
        out.push(piece);
        assert(views(out@) =~= views(before) + seq![piece@]);
        assert(views(out@) =~= views(before) + cipher_runs(s@, n as int, Some(start as int)));
    } else {
        assert(views(out@) =~= views(out@) + cipher_runs(s@, n as int, None));
    }
    out
}

/// `    name: value` when the value is present.
fn push_optional_scalar(output: &mut Vec<char>, name: &str, value: &Option<Vec<char>>)
    ensures
        final(output)@ == old(output)@ + scalar_line(name@, opt_view(*value)),
{
    let ghost start = output@;
    match value {
        Some(v) => {
            push_str(output, "    ");
            push_str(output, name);
            push_str(output, ": ");
            push_all(output, v.as_slice());
            output.push('\n');
            assert(output@ =~= start + scalar_line(name@, opt_view(*value)));
        },
        None => {
            assert(output@ =~= start + scalar_line(name@, opt_view(*value)));
        },
    }
}

/// A YAML literal block holding the value's lines.
fn push_block(output: &mut Vec<char>, name: &str, value: &[char])
    ensures
        final(output)@ == old(output)@ + block_entry(name@, value@),
{
    let ghost start = output@;
    push_str(output, "    ");
    push_str(output, name);
    push_str(output, ": |\n");
    let ghost head = output@;
    let ls = split_lines(value);
    let ghost lv = views(ls@);
    let mut k: usize = 0;
    while k < ls.len()
        invariant
            k <= ls@.len(),
            lv == views(ls@),
            output@ == head + indented_lines(lv.take(k as int)),
        decreases ls.len() - k,
    {
        assert(lv.take(k + 1).drop_last() =~= lv.take(k as int));
        assert(lv.take(k + 1).last() == ls@[k as int]@);
        push_str(output, "      ");
        push_all(output, ls[k].as_slice());
        output.push('\n');
        k = k + 1;
        assert(output@ =~= head + indented_lines(lv.take(k as int)));
    }
    assert(lv.take(k as int) =~= lv);
    assert(output@ =~= start + block_entry(name@, value@));
}

fn push_optional_block(output: &mut Vec<char>, name: &str, value: &Option<Vec<char>>)
    ensures
        final(output)@ == old(output)@ + optional_block_entry(name@, opt_view(*value)),
{
    let ghost start = output@;
    match value {
        Some(v) => push_block(output, name, v.as_slice()),
        None => {
            assert(output@ =~= start + optional_block_entry(name@, opt_view(*value)));
        },
    }
}

fn push_data_ciphers(output: &mut Vec<char>, cs: &Vec<Vec<char>>)
    ensures
        final(output)@ == old(output)@ + data_ciphers_text(views(cs@)),
{
    let ghost start = output@;
    let ghost cv = views(cs@);
    if cs.len() == 0 {
        assert(output@ =~= start + data_ciphers_text(cv));
        return;
    }
    push_str(output, "    data-ciphers:\n");
    let ghost head = output@;
    let mut k: usize = 0;
    while k < cs.len()
        invariant
            k <= cs@.len(),
            cv == views(cs@),
            output@ == head + cipher_items(cv.take(k as int)),
        decreases cs.len() - k,
    {
        assert(cv.take(k + 1).drop_last() =~= cv.take(k as int));
        assert(cv.take(k + 1).last() == cs@[k as int]@);
        push_str(output, "      - ");
        push_all(output, cs[k].as_slice());
        output.push('\n');
        k = k + 1;
        assert(output@ =~= head + cipher_items(cv.take(k as int)));
    }
    assert(cv.take(k as int) =~= cv);
    assert(output@ =~= start + data_ciphers_text(cv));
}

pub open spec fn entry_fixed(id: Seq<char>, remote: (crate::domain::Ipv4Addr, u16)) -> Seq<char> {
    "  - name: vpngate-"@ + id + "\n    type: openvpn\n    server: "@ + ipv4_text(remote.0)
        + "\n    port: "@ + decimal(remote.1 as nat) + "\n    proto: tcp\n    dev: tun\n"@
}

pub open spec fn entry_options(m: MihomoSettings) -> Seq<char> {
    scalar_line("cipher"@, m.cipher) + scalar_line("auth"@, m.auth)
        + data_ciphers_text(m.data_ciphers)
        + scalar_line("data-ciphers-fallback"@, m.data_ciphers_fallback)
        + key_direction_text(m.key_direction)
}

pub open spec fn entry_head(id: Seq<char>, remote: (crate::domain::Ipv4Addr, u16), m: MihomoSettings) -> Seq<char> {
    entry_fixed(id, remote) + entry_options(m)
}

pub open spec fn entry_tail(m: MihomoSettings) -> Seq<char> {
    block_entry("ca"@, m.ca) + block_entry("cert"@, m.cert) + block_entry("key"@, m.key)
        + optional_block_entry("tls-auth"@, m.tls_auth)
        + optional_block_entry("tls-crypt"@, m.tls_crypt)
        + "    remote-dns-resolve: true\n    dns: [1.1.1.1, 8.8.8.8]\n"@
}

proof fn lemma_entry_parts(id: Seq<char>, remote: (crate::domain::Ipv4Addr, u16), m: MihomoSettings)
    ensures
        entry_text(id, remote, m) == entry_head(id, remote, m) + entry_tail(m),
{
    assert(entry_text(id, remote, m) =~= entry_head(id, remote, m) + entry_tail(m));
}

fn push_entry_fixed(output: &mut Vec<char>, id: &NodeId, profile: &SanitizedOpenVpn)
    ensures
        final(output)@ == old(output)@ + entry_fixed(id@, profile.spec_remote()),
{
    let ghost start = output@;
    let remote = profile.remote();
    push_str(output, "  - name: vpngate-");
    push_str(output, id.as_str());
    push_str(output, "\n    type: openvpn\n    server: ");
    let ip = remote.0.to_chars();
    push_all(output, ip.as_slice());
    push_str(output, "\n    port: ");
    let port = decimal_chars(remote.1 as u64);
    push_all(output, port.as_slice());
    push_str(output, "\n    proto: tcp\n    dev: tun\n");
    assert(output@ =~= start + entry_fixed(id@, profile.spec_remote()));
}

fn push_key_direction(output: &mut Vec<char>, d: &Option<Vec<char>>)
    ensures
        final(output)@ == old(output)@ + key_direction_text(opt_view(*d)),
{
    let ghost start = output@;
    match d {
        Some(v) => {
            push_str(output, "    key-direction: \"");
            push_all(output, v.as_slice());
            push_str(output, "\"\n");
        },
        None => {},
    }
    assert(output@ =~= start + key_direction_text(opt_view(*d)));
}

fn push_entry_options(output: &mut Vec<char>, m: &MihomoOpenVpn)
    ensures
        final(output)@ == old(output)@ + entry_options(m.settings()),
{
    let ghost start = output@;
    push_optional_scalar(output, "cipher", &m.cipher);
    push_optional_scalar(output, "auth", &m.auth);
    push_data_ciphers(output, &m.data_ciphers);
    push_optional_scalar(output, "data-ciphers-fallback", &m.data_ciphers_fallback);
    push_key_direction(output, &m.key_direction);
    assert(output@ =~= start + entry_options(m.settings()));
}

fn push_entry_head(output: &mut Vec<char>, id: &NodeId, profile: &SanitizedOpenVpn, m: &MihomoOpenVpn)
    ensures
        final(output)@ == old(output)@ + entry_head(id@, profile.spec_remote(), m.settings()),
{
    let ghost start = output@;
    push_entry_fixed(output, id, profile);
    push_entry_options(output, m);
    assert(output@ =~= start + entry_head(id@, profile.spec_remote(), m.settings()));
}

fn push_entry_tail(output: &mut Vec<char>, m: &MihomoOpenVpn)
    ensures
        final(output)@ == old(output)@ + entry_tail(m.settings()),
{
    let ghost start = output@;
    push_block(output, "ca", m.ca.as_slice());
    push_block(output, "cert", m.cert.as_slice());
    push_block(output, "key", m.key.as_slice());
    push_optional_block(output, "tls-auth", &m.tls_auth);
    push_optional_block(output, "tls-crypt", &m.tls_crypt);
    push_str(output, "    remote-dns-resolve: true\n    dns: [1.1.1.1, 8.8.8.8]\n");
    assert(output@ =~= start + entry_tail(m.settings()));
}

fn push_entry(output: &mut Vec<char>, id: &NodeId, profile: &SanitizedOpenVpn, m: &MihomoOpenVpn)
    ensures
        final(output)@ == old(output)@ + entry_text(id@, profile.spec_remote(), m.settings()),
{
    let ghost start = output@;
    push_entry_head(output, id, profile, m);
    push_entry_tail(output, m);
    proof {
        lemma_entry_parts(id@, profile.spec_remote(), m.settings());
    }
    assert(output@ =~= start + entry_text(id@, profile.spec_remote(), m.settings()));
}

/// Appends a node's entry when Mihomo can use its profile; a line break
/// precedes the first entry.
fn push_node(output: &mut Vec<char>, node: &VpnNode, first: bool) -> (added: bool)
    ensures
        added == node_entry(*node) is Some,
        final(output)@ == old(output)@ + match node_entry(*node) {
            Some(e) => if first { seq!['\n'] + e } else { e },
            None => Seq::empty(),
        },
{
    let ghost start = output@;
    match &node.openvpn {
        Some(openvpn) => {
            match MihomoOpenVpn::from_sanitized(openvpn) {
                Some(profile) => {
                    if first {
                        output.push('\n');
                    }
                    push_entry(output, &node.id, openvpn, &profile);
                    assert(output@ =~= start + match node_entry(*node) {
                        Some(e) => if first { seq!['\n'] + e } else { e },
                        None => Seq::empty(),
                    });
                    true
                },
                None => {
                    assert(output@ =~= start + Seq::<char>::empty());
                    false
                },
            }
        },
        None => {
            assert(output@ =~= start + Seq::<char>::empty());
            false
        },
    }
}

/// Renders every node whose sanitized profile Mihomo can use as an OpenVPN
/// proxy-provider entry.
pub fn render_provider(nodes: &[VpnNode]) -> (r: String)
    ensures
        r@ == provider_text(nodes@),
{
    let mut output = str_chars("proxies:");
    let ghost head = output@;
    let mut rendered: usize = 0;
    let mut i: usize = 0;
    while i < nodes.len()
        invariant
            i <= nodes@.len(),
            head == "proxies:"@,
            rendered == entry_count(nodes@.take(i as int)),
            rendered <= i,
            output@ == head + if rendered == 0 {
                Seq::empty()
            } else {
                seq!['\n'] + provider_entries(nodes@.take(i as int))
            },
        decreases nodes.len() - i,
    {
        let node = &nodes[i];
        let ghost prev = nodes@.take(i as int);
        assert(nodes@.take(i + 1).drop_last() =~= prev);
        assert(nodes@.take(i + 1).last() == *node);
        if rendered == 0 {
            proof {
                lemma_no_entries(prev);
            }
        }
        let added = push_node(&mut output, node, rendered == 0);
        if added {
            rendered = rendered + 1;
        }
        i = i + 1;
        assert(output@ =~= head + if rendered == 0 {
            Seq::empty()
        } else {
            seq!['\n'] + provider_entries(nodes@.take(i as int))
        });
    }
    assert(nodes@.take(i as int) =~= nodes@);
    if rendered == 0 {
        push_str(&mut output, " []\n");
    }
    chars_to_string(output.as_slice())
}

proof fn lemma_no_entries(nodes: Seq<VpnNode>)
    requires
        entry_count(nodes) == 0,
    ensures
        provider_entries(nodes) == Seq::<char>::empty(),
    decreases nodes.len(),
{
    if nodes.len() > 0 {
        lemma_no_entries(nodes.drop_last());
        assert(provider_entries(nodes) =~= provider_entries(nodes.drop_last()));
    }
}

} // verus!
