//! Sanitizing a sanitized profile: the rendered profile is itself accepted,
//! with the same remote.

use vstd::prelude::*;
use vstd::utf8::{decode_utf8, encode_utf8};

use crate::domain::{is_ascii_alnum, ipv4_text, ipv4_text_parses_back, Ipv4Addr};
use crate::openvpn::{
    block_kind, block_line_step, block_name, block_text, crypto_directive, directive_step, finish,
    initial_state, insert_sorted, opening_block_name, option_lines, remote_ok, remote_step, render,
    safe_crypto_char, safe_crypto_value, sanitized, scan, top_line_step, trim_end_cr, with_option,
    LineMode, ProfileError, ProfileState, MAX_BLOCK_BYTES, MAX_LINE_BYTES, MAX_PROFILE_BYTES,
};
use crate::text::{
    all_digits, byte_len, decimal, is_ascii_ws, is_unicode_whitespace, lemma_decimal, lines, lines_scan,
    parse_unsigned, strip_cr, to_ascii_lowercase, tokens, tokens_scan, trim, trim_end, trim_start,
};

verus! {

pub open spec fn no_newline(l: Seq<char>) -> bool {
    forall|k: int| 0 <= k < l.len() ==> l[k] != '\n'
}

/// The lines joined, each followed by a line feed.
pub open spec fn join_lines(ls: Seq<Seq<char>>) -> Seq<char>
    decreases ls.len(),
{
    if ls.len() == 0 {
        Seq::empty()
    } else {
        ls[0] + seq!['\n'] + join_lines(ls.drop_first())
    }
}

proof fn lemma_lines_scan_shift(s: Seq<char>, k: int, start: int, i: int)
    requires
        0 <= k <= start <= i <= s.len(),
    ensures
        lines_scan(s, start, i) == lines_scan(s.subrange(k, s.len() as int), start - k, i - k),
    decreases s.len() - i,
{
    let t = s.subrange(k, s.len() as int);
    if i < s.len() {
        assert(t[i - k] == s[i]);
        if s[i] == '\n' {
            assert(t.subrange(start - k, i - k) =~= s.subrange(start, i));
            lemma_lines_scan_shift(s, k, i + 1, i + 1);
        } else {
            lemma_lines_scan_shift(s, k, start, i + 1);
        }
    } else {
        assert(t.subrange(start - k, t.len() as int) =~= s.subrange(start, s.len() as int));
    }
}

proof fn lemma_lines_scan_skip(s: Seq<char>, i: int, n: int)
    requires
        0 <= i <= n < s.len(),
        forall|k: int| i <= k < n ==> s[k] != '\n',
        s[n] == '\n',
    ensures
        lines_scan(s, 0, i) == seq![strip_cr(s.subrange(0, n))] + lines_scan(s, n + 1, n + 1),
    decreases n - i,
{
    if i < n {
        lemma_lines_scan_skip(s, i + 1, n);
    }
}

/// A line without a line feed, then a line feed, then the rest.
proof fn lemma_lines_cons(l: Seq<char>, rest: Seq<char>)
    requires
        no_newline(l),
    ensures
        lines(l + seq!['\n'] + rest) == seq![strip_cr(l)] + lines(rest),
{
    let s = l + seq!['\n'] + rest;
    let n = l.len() as int;
    assert(s[n] == '\n');
    assert forall|k: int| 0 <= k < n implies s[k] != '\n' by {
        assert(s[k] == l[k]);
    }
    lemma_lines_scan_skip(s, 0, n);
    assert(s.subrange(0, n) =~= l);
    lemma_lines_scan_shift(s, n + 1, n + 1, n + 1);
    assert(s.subrange(n + 1, s.len() as int) =~= rest);
}

/// The lines of joined lines are the lines, each without a final carriage return.
proof fn lemma_lines_join(ls: Seq<Seq<char>>, rest: Seq<char>)
    requires
        forall|j: int| 0 <= j < ls.len() ==> no_newline(#[trigger] ls[j]),
    ensures
        lines(join_lines(ls) + rest) == ls.map_values(|l: Seq<char>| strip_cr(l)) + lines(rest),
    decreases ls.len(),
{
    if ls.len() == 0 {
        assert(join_lines(ls) + rest =~= rest);
        assert(ls.map_values(|l: Seq<char>| strip_cr(l)) + lines(rest) =~= lines(rest));
    } else {
        let tail = ls.drop_first();
        assert forall|j: int| 0 <= j < tail.len() implies no_newline(#[trigger] tail[j]) by {
            assert(tail[j] == ls[j + 1]);
        }
        lemma_lines_join(tail, rest);
        assert(no_newline(ls[0]));
        assert(join_lines(ls) + rest =~= ls[0] + seq!['\n'] + (join_lines(tail) + rest));
        lemma_lines_cons(ls[0], join_lines(tail) + rest);
        assert(ls.map_values(|l: Seq<char>| strip_cr(l)) =~= seq![strip_cr(ls[0])] + tail.map_values(|l: Seq<char>| strip_cr(l)));
    }
}

proof fn lemma_join_append(a: Seq<Seq<char>>, b: Seq<Seq<char>>)
    ensures
        join_lines(a + b) == join_lines(a) + join_lines(b),
    decreases a.len(),
{
    if a.len() == 0 {
        assert(a + b =~= b);
        assert(join_lines(a) + join_lines(b) =~= join_lines(b));
    } else {
        assert((a + b).drop_first() =~= a.drop_first() + b);
        lemma_join_append(a.drop_first(), b);
        assert((a + b)[0] == a[0]);
        assert(join_lines(a + b) =~= join_lines(a) + join_lines(b));
    }
}


proof fn lemma_option_lines(o: Seq<Seq<char>>)
    ensures
        option_lines(o) == join_lines(o),
    decreases o.len(),
{
    if o.len() > 0 {
        lemma_option_lines(o.drop_last());
        lemma_join_append(o.drop_last(), seq![o.last()]);
        assert(o.drop_last() + seq![o.last()] =~= o);
        lemma_join_one(o.last());
    }
}

pub open spec fn open_tag(k: int) -> Seq<char> {
    seq!['<'] + block_name(k) + seq!['>']
}

pub open spec fn close_tag(k: int) -> Seq<char> {
    "</"@ + block_name(k) + seq!['>']
}

/// The lines of one rendered inline block, given the lines of its body.
pub open spec fn tag_lines(blocks: Seq<Option<Seq<char>>>, bodies: Seq<Seq<Seq<char>>>, k: int) -> Seq<Seq<char>> {
    match blocks[k] {
        Some(_) => seq![open_tag(k)] + bodies[k] + seq![close_tag(k)],
        None => Seq::empty(),
    }
}

pub open spec fn remote_line(remote: (Ipv4Addr, u16)) -> Seq<char> {
    "remote "@ + ipv4_text(remote.0) + seq![' '] + decimal(remote.1 as nat) + " tcp-client"@
}

pub open spec fn header_lines(remote: (Ipv4Addr, u16)) -> Seq<Seq<char>> {
    seq!["client"@, "dev tun"@, "proto tcp-client"@, remote_line(remote), "nobind"@, "persist-key"@,
        "persist-tun"@, "auth-nocache"@, "verb 3"@]
}

pub open spec fn cert_tls_lines(options: Seq<Seq<char>>) -> Seq<Seq<char>> {
    if options.contains("remote-cert-tls server"@) { Seq::empty() } else { seq!["remote-cert-tls server"@] }
}

/// The lines of a rendered profile.
pub open spec fn rendered_lines(st: ProfileState, remote: (Ipv4Addr, u16), bodies: Seq<Seq<Seq<char>>>) -> Seq<Seq<char>> {
    header_lines(remote) + cert_tls_lines(st.options) + st.options + tag_lines(st.blocks, bodies, 0)
        + tag_lines(st.blocks, bodies, 1) + tag_lines(st.blocks, bodies, 2) + tag_lines(st.blocks, bodies, 3)
        + tag_lines(st.blocks, bodies, 4)
}

proof fn lemma_join_one(l: Seq<char>)
    ensures
        join_lines(seq![l]) == l + seq!['\n'],
{
    reveal_with_fuel(join_lines, 2);
    assert(seq![l].drop_first() =~= Seq::<Seq<char>>::empty());
    assert(seq![l][0] == l);
    assert(join_lines(seq![l]) =~= l + seq!['\n']);
}

proof fn lemma_tag_text(blocks: Seq<Option<Seq<char>>>, bodies: Seq<Seq<Seq<char>>>, k: int)
    requires
        blocks[k] matches Some(b) ==> b == join_lines(bodies[k]),
    ensures
        block_text(blocks, k) == join_lines(tag_lines(blocks, bodies, k)),
{
    if let Some(b) = blocks[k] {
        reveal_strlit(">\n");
        reveal_strlit("</");
        reveal_strlit(">\n");
        lemma_join_append(seq![open_tag(k)] + bodies[k], seq![close_tag(k)]);
        lemma_join_append(seq![open_tag(k)], bodies[k]);
        lemma_join_one(open_tag(k));
        lemma_join_one(close_tag(k));
        assert(block_text(blocks, k) =~= join_lines(tag_lines(blocks, bodies, k)));
    } else {
        assert(block_text(blocks, k) =~= join_lines(tag_lines(blocks, bodies, k)));
    }
}

proof fn lemma_header_text(remote: (Ipv4Addr, u16))
    ensures
        "client\ndev tun\nproto tcp-client\nremote "@ + ipv4_text(remote.0) + seq![' '] + decimal(remote.1 as nat)
            + " tcp-client\nnobind\npersist-key\npersist-tun\nauth-nocache\nverb 3\n"@ == join_lines(header_lines(remote)),
{
    reveal_strlit("client\ndev tun\nproto tcp-client\nremote ");
    reveal_strlit(" tcp-client\nnobind\npersist-key\npersist-tun\nauth-nocache\nverb 3\n");
    reveal_strlit("client");
    reveal_strlit("dev tun");
    reveal_strlit("proto tcp-client");
    reveal_strlit("remote ");
    reveal_strlit(" tcp-client");
    reveal_strlit("nobind");
    reveal_strlit("persist-key");
    reveal_strlit("persist-tun");
    reveal_strlit("auth-nocache");
    reveal_strlit("verb 3");
    let h = header_lines(remote);
    reveal_with_fuel(join_lines, 10);
    assert(join_lines(h) =~= "client\ndev tun\nproto tcp-client\nremote "@ + ipv4_text(remote.0) + seq![' ']
        + decimal(remote.1 as nat) + " tcp-client\nnobind\npersist-key\npersist-tun\nauth-nocache\nverb 3\n"@);
}

/// The rendered profile is its lines joined.
proof fn lemma_render_lines(st: ProfileState, remote: (Ipv4Addr, u16), bodies: Seq<Seq<Seq<char>>>)
    requires
        forall|k: int| 0 <= k < 5 ==> (#[trigger] st.blocks[k] matches Some(b) ==> b == join_lines(bodies[k])),
    ensures
        render(st, remote) == join_lines(rendered_lines(st, remote, bodies)),
{
    lemma_header_text(remote);
    lemma_option_lines(st.options);
    reveal_strlit("remote-cert-tls server\n");
    reveal_strlit("remote-cert-tls server");
    lemma_join_one("remote-cert-tls server"@);
    assert(join_lines(cert_tls_lines(st.options)) =~= (if st.options.contains("remote-cert-tls server"@) { Seq::empty() } else { "remote-cert-tls server\n"@ }));
    lemma_tag_text(st.blocks, bodies, 0);
    lemma_tag_text(st.blocks, bodies, 1);
    lemma_tag_text(st.blocks, bodies, 2);
    lemma_tag_text(st.blocks, bodies, 3);
    lemma_tag_text(st.blocks, bodies, 4);
    let h = header_lines(remote);
    let c = cert_tls_lines(st.options);
    let o = st.options;
    let t0 = tag_lines(st.blocks, bodies, 0);
    let t1 = tag_lines(st.blocks, bodies, 1);
    let t2 = tag_lines(st.blocks, bodies, 2);
    let t3 = tag_lines(st.blocks, bodies, 3);
    let t4 = tag_lines(st.blocks, bodies, 4);
    lemma_join_append(h + c + o + t0 + t1 + t2 + t3, t4);
    lemma_join_append(h + c + o + t0 + t1 + t2, t3);
    lemma_join_append(h + c + o + t0 + t1, t2);
    lemma_join_append(h + c + o + t0, t1);
    lemma_join_append(h + c + o, t0);
    lemma_join_append(h + c, o);
    lemma_join_append(h, c);
    assert(render(st, remote) =~= join_lines(rendered_lines(st, remote, bodies)));
}

/// A non-empty run of characters without ASCII whitespace.
pub open spec fn plain_word(w: Seq<char>) -> bool {
    w.len() > 0 && forall|k: int| 0 <= k < w.len() ==> !is_ascii_ws(#[trigger] w[k])
}

proof fn lemma_tokens_run(s: Seq<char>, i: int, m: int, j: int)
    requires
        0 <= i < m <= j <= s.len(),
        forall|k: int| i <= k < j ==> !is_ascii_ws(#[trigger] s[k]),
        j < s.len() ==> is_ascii_ws(s[j]),
    ensures
        tokens_scan(s, m, Some(i)) == if j < s.len() {
            seq![s.subrange(i, j)] + tokens_scan(s, j + 1, None)
        } else {
            seq![s.subrange(i, j)]
        },
    decreases j - m,
{
    if m < j {
        assert(!is_ascii_ws(s[m]));
        lemma_tokens_run(s, i, m + 1, j);
    }
}

/// A word at `i`, ended by whitespace or the end of the text.
proof fn lemma_tokens_word(s: Seq<char>, i: int, j: int)
    requires
        0 <= i < j <= s.len(),
        forall|k: int| i <= k < j ==> !is_ascii_ws(#[trigger] s[k]),
        j < s.len() ==> is_ascii_ws(s[j]),
    ensures
        tokens_scan(s, i, None) == if j < s.len() {
            seq![s.subrange(i, j)] + tokens_scan(s, j + 1, None)
        } else {
            seq![s.subrange(i, j)]
        },
{
    assert(!is_ascii_ws(s[i]));
    lemma_tokens_run(s, i, i + 1, j);
}

proof fn lemma_tokens_one(a: Seq<char>)
    requires
        plain_word(a),
    ensures
        tokens(a) == seq![a],
{
    lemma_tokens_word(a, 0, a.len() as int);
    assert(a.subrange(0, a.len() as int) =~= a);
}

proof fn lemma_tokens_two(a: Seq<char>, b: Seq<char>)
    requires
        plain_word(a),
        plain_word(b),
    ensures
        tokens(a + seq![' '] + b) == seq![a, b],
{
    let s = a + seq![' '] + b;
    let n = a.len() as int;
    assert forall|k: int| 0 <= k < n implies !is_ascii_ws(#[trigger] s[k]) by {
        assert(s[k] == a[k]);
    }
    assert(is_ascii_ws(s[n]));
    lemma_tokens_word(s, 0, n);
    assert forall|k: int| n + 1 <= k < s.len() implies !is_ascii_ws(#[trigger] s[k]) by {
        assert(s[k] == b[k - n - 1]);
    }
    lemma_tokens_word(s, n + 1, s.len() as int);
    assert(s.subrange(0, n) =~= a);
    assert(s.subrange(n + 1, s.len() as int) =~= b);
    assert(seq![a] + seq![b] =~= seq![a, b]);
}

proof fn lemma_tokens_four(a: Seq<char>, b: Seq<char>, c: Seq<char>, d: Seq<char>)
    requires
        plain_word(a),
        plain_word(b),
        plain_word(c),
        plain_word(d),
    ensures
        tokens(a + seq![' '] + b + seq![' '] + c + seq![' '] + d) == seq![a, b, c, d],
{
    let s = a + seq![' '] + b + seq![' '] + c + seq![' '] + d;
    let n1 = a.len() as int;
    let n2 = n1 + 1 + b.len();
    let n3 = n2 + 1 + c.len();
    assert forall|k: int| 0 <= k < n1 implies !is_ascii_ws(#[trigger] s[k]) by {
        assert(s[k] == a[k]);
    }
    assert forall|k: int| n1 + 1 <= k < n2 implies !is_ascii_ws(#[trigger] s[k]) by {
        assert(s[k] == b[k - n1 - 1]);
    }
    assert forall|k: int| n2 + 1 <= k < n3 implies !is_ascii_ws(#[trigger] s[k]) by {
        assert(s[k] == c[k - n2 - 1]);
    }
    assert forall|k: int| n3 + 1 <= k < s.len() implies !is_ascii_ws(#[trigger] s[k]) by {
        assert(s[k] == d[k - n3 - 1]);
    }
    assert(s[n1] == ' ' && s[n2] == ' ' && s[n3] == ' ');
    lemma_tokens_word(s, 0, n1);
    lemma_tokens_word(s, n1 + 1, n2);
    lemma_tokens_word(s, n2 + 1, n3);
    lemma_tokens_word(s, n3 + 1, s.len() as int);
    assert(s.subrange(0, n1) =~= a);
    assert(s.subrange(n1 + 1, n2) =~= b);
    assert(s.subrange(n2 + 1, n3) =~= c);
    assert(s.subrange(n3 + 1, s.len() as int) =~= d);
    assert(seq![a] + (seq![b] + (seq![c] + seq![d])) =~= seq![a, b, c, d]);
}

/// A text that neither starts nor ends with whitespace is its own trim.
proof fn lemma_trim_plain(l: Seq<char>)
    requires
        l.len() > 0,
        !is_unicode_whitespace(l[0]),
        !is_unicode_whitespace(l.last()),
    ensures
        trim(l) == l,
{
    assert(trim_start(l) == l);
    assert(trim_end(l) == l);
}


/// A line that is its own trim and no comment or tag is a directive line.
proof fn lemma_top_directive(l: Seq<char>, toks: Seq<Seq<char>>, st: ProfileState, e: Ipv4Addr)
    requires
        l.len() > 0,
        !is_unicode_whitespace(l[0]),
        !is_unicode_whitespace(l.last()),
        l[0] != '#' && l[0] != ';' && l[0] != '<',
        tokens(l) == toks,
    ensures
        top_line_step(l, st, e) == match directive_step(toks, st, e) {
            Ok(n) => Ok::<(ProfileState, LineMode), ProfileError>((n, LineMode::Top)),
            Err(x) => Err(x),
        },
{
    lemma_trim_plain(l);
    assert(opening_block_name(l) is None);
}

/// The fixed flag lines of a rendered profile change nothing.
proof fn lemma_flag_lines(st: ProfileState, e: Ipv4Addr)
    ensures
        directive_step(seq!["client"@], st, e) == Ok::<ProfileState, ProfileError>(st),
        directive_step(seq!["nobind"@], st, e) == Ok::<ProfileState, ProfileError>(st),
        directive_step(seq!["persist-key"@], st, e) == Ok::<ProfileState, ProfileError>(st),
        directive_step(seq!["persist-tun"@], st, e) == Ok::<ProfileState, ProfileError>(st),
        directive_step(seq!["auth-nocache"@], st, e) == Ok::<ProfileState, ProfileError>(st),
{
    reveal_strlit("3");
    reveal_strlit("auth");
    reveal_strlit("auth-nocache");
    reveal_strlit("auth-user-pass");
    reveal_strlit("auth-user-pass-verify");
    reveal_strlit("ca");
    reveal_strlit("cd");
    reveal_strlit("cert");
    reveal_strlit("chroot");
    reveal_strlit("cipher");
    reveal_strlit("client");
    reveal_strlit("client-connect");
    reveal_strlit("client-disconnect");
    reveal_strlit("connect-retry");
    reveal_strlit("connect-retry-max");
    reveal_strlit("connect-timeout");
    reveal_strlit("daemon");
    reveal_strlit("data-ciphers");
    reveal_strlit("data-ciphers-fallback");
    reveal_strlit("dev");
    reveal_strlit("dev tun");
    reveal_strlit("dev-type");
    reveal_strlit("down");
    reveal_strlit("group");
    reveal_strlit("http-proxy");
    reveal_strlit("ifconfig");
    reveal_strlit("ifconfig-ipv6");
    reveal_strlit("ipchange");
    reveal_strlit("key");
    reveal_strlit("key-direction");
    reveal_strlit("learn-address");
    reveal_strlit("log");
    reveal_strlit("log-append");
    reveal_strlit("management");
    reveal_strlit("management-client");
    reveal_strlit("management-external-cert");
    reveal_strlit("management-external-key");
    reveal_strlit("management-hold");
    reveal_strlit("management-query-passwords");
    reveal_strlit("mute");
    reveal_strlit("nobind");
    reveal_strlit("persist-key");
    reveal_strlit("persist-tun");
    reveal_strlit("pkcs12");
    reveal_strlit("plugin");
    reveal_strlit("proto");
    reveal_strlit("proto tcp-client");
    reveal_strlit("pull");
    reveal_strlit("redirect-gateway");
    reveal_strlit("remote");
    reveal_strlit("remote-cert-tls");
    reveal_strlit("remote-cert-tls server");
    reveal_strlit("resolv-retry");
    reveal_strlit("route");
    reveal_strlit("route-ipv6");
    reveal_strlit("route-pre-down");
    reveal_strlit("route-up");
    reveal_strlit("script-security");
    reveal_strlit("server");
    reveal_strlit("server-poll-timeout");
    reveal_strlit("setenv");
    reveal_strlit("socks-proxy");
    reveal_strlit("status");
    reveal_strlit("tcp");
    reveal_strlit("tcp-client");
    reveal_strlit("tcp4");
    reveal_strlit("tcp4-client");
    reveal_strlit("tls-auth");
    reveal_strlit("tls-cipher");
    reveal_strlit("tls-client");
    reveal_strlit("tls-crypt");
    reveal_strlit("tls-verify");
    reveal_strlit("tls-version-min");
    reveal_strlit("tun");
    reveal_strlit("up");
    reveal_strlit("user");
    reveal_strlit("verb");
    reveal_strlit("verb 3");
    reveal_strlit("writepid");
    assert("client"@[0] == 'c' && "client"@[1] == 'l' && "client"@[2] == 'i' && "client"@[3] == 'e' && "client"@[4] == 'n' && "client"@[5] == 't');
    assert(to_ascii_lowercase("client"@) =~= "client"@);
    assert("nobind"@[0] == 'n' && "nobind"@[1] == 'o' && "nobind"@[2] == 'b' && "nobind"@[3] == 'i' && "nobind"@[4] == 'n' && "nobind"@[5] == 'd');
    assert(to_ascii_lowercase("nobind"@) =~= "nobind"@);
    assert("persist-key"@[0] == 'p' && "persist-key"@[1] == 'e' && "persist-key"@[2] == 'r' && "persist-key"@[3] == 's' && "persist-key"@[4] == 'i' && "persist-key"@[5] == 's' && "persist-key"@[6] == 't' && "persist-key"@[7] == '-' && "persist-key"@[8] == 'k' && "persist-key"@[9] == 'e' && "persist-key"@[10] == 'y');
    assert(to_ascii_lowercase("persist-key"@) =~= "persist-key"@);
    assert("persist-tun"@[0] == 'p' && "persist-tun"@[1] == 'e' && "persist-tun"@[2] == 'r' && "persist-tun"@[3] == 's' && "persist-tun"@[4] == 'i' && "persist-tun"@[5] == 's' && "persist-tun"@[6] == 't' && "persist-tun"@[7] == '-' && "persist-tun"@[8] == 't' && "persist-tun"@[9] == 'u' && "persist-tun"@[10] == 'n');
    assert(to_ascii_lowercase("persist-tun"@) =~= "persist-tun"@);
    assert("auth-nocache"@[0] == 'a' && "auth-nocache"@[1] == 'u' && "auth-nocache"@[2] == 't' && "auth-nocache"@[3] == 'h' && "auth-nocache"@[4] == '-' && "auth-nocache"@[5] == 'n' && "auth-nocache"@[6] == 'o' && "auth-nocache"@[7] == 'c' && "auth-nocache"@[8] == 'a' && "auth-nocache"@[9] == 'c' && "auth-nocache"@[10] == 'h' && "auth-nocache"@[11] == 'e');
    assert(to_ascii_lowercase("auth-nocache"@) =~= "auth-nocache"@);
}

/// `dev tun`, `proto tcp-client` and `verb 3`.
proof fn lemma_setting_lines(st: ProfileState, e: Ipv4Addr)
    ensures
        directive_step(seq!["dev"@, "tun"@], st, e) == Ok::<ProfileState, ProfileError>(ProfileState { saw_tun: true, ..st }),
        directive_step(seq!["proto"@, "tcp-client"@], st, e) == Ok::<ProfileState, ProfileError>(ProfileState { saw_tcp: true, ..st }),
        directive_step(seq!["verb"@, "3"@], st, e) == Ok::<ProfileState, ProfileError>(st),
{
    reveal_strlit("3");
    reveal_strlit("auth");
    reveal_strlit("auth-nocache");
    reveal_strlit("auth-user-pass");
    reveal_strlit("auth-user-pass-verify");
    reveal_strlit("ca");
    reveal_strlit("cd");
    reveal_strlit("cert");
    reveal_strlit("chroot");
    reveal_strlit("cipher");
    reveal_strlit("client");
    reveal_strlit("client-connect");
    reveal_strlit("client-disconnect");
    reveal_strlit("connect-retry");
    reveal_strlit("connect-retry-max");
    reveal_strlit("connect-timeout");
    reveal_strlit("daemon");
    reveal_strlit("data-ciphers");
    reveal_strlit("data-ciphers-fallback");
    reveal_strlit("dev");
    reveal_strlit("dev tun");
    reveal_strlit("dev-type");
    reveal_strlit("down");
    reveal_strlit("group");
    reveal_strlit("http-proxy");
    reveal_strlit("ifconfig");
    reveal_strlit("ifconfig-ipv6");
    reveal_strlit("ipchange");
    reveal_strlit("key");
    reveal_strlit("key-direction");
    reveal_strlit("learn-address");
    reveal_strlit("log");
    reveal_strlit("log-append");
    reveal_strlit("management");
    reveal_strlit("management-client");
    reveal_strlit("management-external-cert");
    reveal_strlit("management-external-key");
    reveal_strlit("management-hold");
    reveal_strlit("management-query-passwords");
    reveal_strlit("mute");
    reveal_strlit("nobind");
    reveal_strlit("persist-key");
    reveal_strlit("persist-tun");
    reveal_strlit("pkcs12");
    reveal_strlit("plugin");
    reveal_strlit("proto");
    reveal_strlit("proto tcp-client");
    reveal_strlit("pull");
    reveal_strlit("redirect-gateway");
    reveal_strlit("remote");
    reveal_strlit("remote-cert-tls");
    reveal_strlit("remote-cert-tls server");
    reveal_strlit("resolv-retry");
    reveal_strlit("route");
    reveal_strlit("route-ipv6");
    reveal_strlit("route-pre-down");
    reveal_strlit("route-up");
    reveal_strlit("script-security");
    reveal_strlit("server");
    reveal_strlit("server-poll-timeout");
    reveal_strlit("setenv");
    reveal_strlit("socks-proxy");
    reveal_strlit("status");
    reveal_strlit("tcp");
    reveal_strlit("tcp-client");
    reveal_strlit("tcp4");
    reveal_strlit("tcp4-client");
    reveal_strlit("tls-auth");
    reveal_strlit("tls-cipher");
    reveal_strlit("tls-client");
    reveal_strlit("tls-crypt");
    reveal_strlit("tls-verify");
    reveal_strlit("tls-version-min");
    reveal_strlit("tun");
    reveal_strlit("up");
    reveal_strlit("user");
    reveal_strlit("verb");
    reveal_strlit("verb 3");
    reveal_strlit("writepid");
    assert("dev"@[0] == 'd' && "dev"@[1] == 'e' && "dev"@[2] == 'v');
    assert(to_ascii_lowercase("dev"@) =~= "dev"@);
    assert("proto"@[0] == 'p' && "proto"@[1] == 'r' && "proto"@[2] == 'o' && "proto"@[3] == 't' && "proto"@[4] == 'o');
    assert(to_ascii_lowercase("proto"@) =~= "proto"@);
    assert(to_ascii_lowercase("tcp-client"@) =~= "tcp-client"@);
    assert("verb"@[0] == 'v' && "verb"@[1] == 'e' && "verb"@[2] == 'r' && "verb"@[3] == 'b');
    assert(to_ascii_lowercase("verb"@) =~= "verb"@);
    assert(byte_len("3"@) == 1) by {
        reveal_with_fuel(byte_len, 2);
        assert("3"@.len() == 1 && "3"@.last() == '3');
        assert("3"@.drop_last() =~= Seq::<char>::empty());
    }
}

/// The literal lines of the rendered header read as their words.
proof fn lemma_header_words()
    ensures
        tokens("client"@) == seq!["client"@],
        tokens("nobind"@) == seq!["nobind"@],
        tokens("persist-key"@) == seq!["persist-key"@],
        tokens("persist-tun"@) == seq!["persist-tun"@],
        tokens("auth-nocache"@) == seq!["auth-nocache"@],
        tokens("dev tun"@) == seq!["dev"@, "tun"@],
        tokens("proto tcp-client"@) == seq!["proto"@, "tcp-client"@],
        tokens("verb 3"@) == seq!["verb"@, "3"@],
{
    reveal_strlit("3");
    reveal_strlit("auth");
    reveal_strlit("auth-nocache");
    reveal_strlit("auth-user-pass");
    reveal_strlit("auth-user-pass-verify");
    reveal_strlit("ca");
    reveal_strlit("cd");
    reveal_strlit("cert");
    reveal_strlit("chroot");
    reveal_strlit("cipher");
    reveal_strlit("client");
    reveal_strlit("client-connect");
    reveal_strlit("client-disconnect");
    reveal_strlit("connect-retry");
    reveal_strlit("connect-retry-max");
    reveal_strlit("connect-timeout");
    reveal_strlit("daemon");
    reveal_strlit("data-ciphers");
    reveal_strlit("data-ciphers-fallback");
    reveal_strlit("dev");
    reveal_strlit("dev tun");
    reveal_strlit("dev-type");
    reveal_strlit("down");
    reveal_strlit("group");
    reveal_strlit("http-proxy");
    reveal_strlit("ifconfig");
    reveal_strlit("ifconfig-ipv6");
    reveal_strlit("ipchange");
    reveal_strlit("key");
    reveal_strlit("key-direction");
    reveal_strlit("learn-address");
    reveal_strlit("log");
    reveal_strlit("log-append");
    reveal_strlit("management");
    reveal_strlit("management-client");
    reveal_strlit("management-external-cert");
    reveal_strlit("management-external-key");
    reveal_strlit("management-hold");
    reveal_strlit("management-query-passwords");
    reveal_strlit("mute");
    reveal_strlit("nobind");
    reveal_strlit("persist-key");
    reveal_strlit("persist-tun");
    reveal_strlit("pkcs12");
    reveal_strlit("plugin");
    reveal_strlit("proto");
    reveal_strlit("proto tcp-client");
    reveal_strlit("pull");
    reveal_strlit("redirect-gateway");
    reveal_strlit("remote");
    reveal_strlit("remote-cert-tls");
    reveal_strlit("remote-cert-tls server");
    reveal_strlit("resolv-retry");
    reveal_strlit("route");
    reveal_strlit("route-ipv6");
    reveal_strlit("route-pre-down");
    reveal_strlit("route-up");
    reveal_strlit("script-security");
    reveal_strlit("server");
    reveal_strlit("server-poll-timeout");
    reveal_strlit("setenv");
    reveal_strlit("socks-proxy");
    reveal_strlit("status");
    reveal_strlit("tcp");
    reveal_strlit("tcp-client");
    reveal_strlit("tcp4");
    reveal_strlit("tcp4-client");
    reveal_strlit("tls-auth");
    reveal_strlit("tls-cipher");
    reveal_strlit("tls-client");
    reveal_strlit("tls-crypt");
    reveal_strlit("tls-verify");
    reveal_strlit("tls-version-min");
    reveal_strlit("tun");
    reveal_strlit("up");
    reveal_strlit("user");
    reveal_strlit("verb");
    reveal_strlit("verb 3");
    reveal_strlit("writepid");
    lemma_tokens_one("client"@);
    lemma_tokens_one("nobind"@);
    lemma_tokens_one("persist-key"@);
    lemma_tokens_one("persist-tun"@);
    lemma_tokens_one("auth-nocache"@);
    lemma_tokens_two("dev"@, "tun"@);
    assert("dev"@ + seq![' '] + "tun"@ =~= "dev tun"@);
    lemma_tokens_two("proto"@, "tcp-client"@);
    assert("proto"@ + seq![' '] + "tcp-client"@ =~= "proto tcp-client"@);
    lemma_tokens_two("verb"@, "3"@);
    assert("verb"@ + seq![' '] + "3"@ =~= "verb 3"@);
}

proof fn lemma_digits_plain(s: Seq<char>)
    requires
        s.len() > 0,
        all_digits(s),
    ensures
        plain_word(s),
{
    assert forall|k: int| 0 <= k < s.len() implies !is_ascii_ws(#[trigger] s[k]) by {
        assert(crate::text::is_digit(s[k]));
    }
}

proof fn lemma_ipv4_plain(ip: Ipv4Addr)
    ensures
        plain_word(ipv4_text(ip)),
        ipv4_text(ip)[0] != '#' && ipv4_text(ip).len() > 0,
{
    lemma_decimal(ip.a as nat);
    lemma_decimal(ip.b as nat);
    lemma_decimal(ip.c as nat);
    lemma_decimal(ip.d as nat);
    let t = ipv4_text(ip);
    let da = decimal(ip.a as nat);
    let db = decimal(ip.b as nat);
    let dc = decimal(ip.c as nat);
    let dd = decimal(ip.d as nat);
    assert forall|k: int| 0 <= k < t.len() implies !is_ascii_ws(#[trigger] t[k]) by {
        if k < da.len() {
            assert(t[k] == da[k]);
            assert(crate::text::is_digit(da[k]));
        } else if k == da.len() {
            assert(t[k] == '.');
        } else if k < da.len() + 1 + db.len() {
            assert(t[k] == db[k - da.len() - 1]);
            assert(crate::text::is_digit(db[k - da.len() - 1]));
        } else if k == da.len() + 1 + db.len() {
            assert(t[k] == '.');
        } else if k < da.len() + 2 + db.len() + dc.len() {
            assert(t[k] == dc[k - da.len() - 2 - db.len()]);
            assert(crate::text::is_digit(dc[k - da.len() - 2 - db.len()]));
        } else if k == da.len() + 2 + db.len() + dc.len() {
            assert(t[k] == '.');
        } else {
            assert(t[k] == dd[k - da.len() - 3 - db.len() - dc.len()]);
            assert(crate::text::is_digit(dd[k - da.len() - 3 - db.len() - dc.len()]));
        }
    }
    assert(t[0] == da[0]);
    assert(crate::text::is_digit(da[0]));
}

/// The rendered `remote` line sets the remote of a state that has none.
proof fn lemma_remote_line(st: ProfileState, e: Ipv4Addr, remote: (Ipv4Addr, u16))
    requires
        st.remote is None,
        remote.0 == e,
        remote.1 != 0,
    ensures
        top_line_step(remote_line(remote), st, e) == Ok::<(ProfileState, LineMode), ProfileError>(
            (ProfileState { remote: Some(remote), ..st }, LineMode::Top)),
{
    reveal_strlit(" tcp-client");
    reveal_strlit("auth");
    reveal_strlit("auth-nocache");
    reveal_strlit("auth-user-pass");
    reveal_strlit("auth-user-pass-verify");
    reveal_strlit("ca");
    reveal_strlit("cd");
    reveal_strlit("cert");
    reveal_strlit("chroot");
    reveal_strlit("cipher");
    reveal_strlit("client");
    reveal_strlit("client-connect");
    reveal_strlit("client-disconnect");
    reveal_strlit("connect-retry");
    reveal_strlit("connect-retry-max");
    reveal_strlit("connect-timeout");
    reveal_strlit("daemon");
    reveal_strlit("data-ciphers");
    reveal_strlit("data-ciphers-fallback");
    reveal_strlit("dev");
    reveal_strlit("dev-type");
    reveal_strlit("down");
    reveal_strlit("group");
    reveal_strlit("http-proxy");
    reveal_strlit("ifconfig");
    reveal_strlit("ifconfig-ipv6");
    reveal_strlit("ipchange");
    reveal_strlit("key");
    reveal_strlit("key-direction");
    reveal_strlit("learn-address");
    reveal_strlit("log");
    reveal_strlit("log-append");
    reveal_strlit("management");
    reveal_strlit("management-client");
    reveal_strlit("management-external-cert");
    reveal_strlit("management-external-key");
    reveal_strlit("management-hold");
    reveal_strlit("management-query-passwords");
    reveal_strlit("mute");
    reveal_strlit("nobind");
    reveal_strlit("persist-key");
    reveal_strlit("persist-tun");
    reveal_strlit("pkcs12");
    reveal_strlit("plugin");
    reveal_strlit("proto");
    reveal_strlit("pull");
    reveal_strlit("redirect-gateway");
    reveal_strlit("remote");
    reveal_strlit("remote ");
    reveal_strlit("remote-cert-tls");
    reveal_strlit("resolv-retry");
    reveal_strlit("route");
    reveal_strlit("route-ipv6");
    reveal_strlit("route-pre-down");
    reveal_strlit("route-up");
    reveal_strlit("script-security");
    reveal_strlit("server-poll-timeout");
    reveal_strlit("setenv");
    reveal_strlit("socks-proxy");
    reveal_strlit("status");
    reveal_strlit("tcp");
    reveal_strlit("tcp-client");
    reveal_strlit("tcp4");
    reveal_strlit("tcp4-client");
    reveal_strlit("tls-auth");
    reveal_strlit("tls-cipher");
    reveal_strlit("tls-client");
    reveal_strlit("tls-crypt");
    reveal_strlit("tls-verify");
    reveal_strlit("tls-version-min");
    reveal_strlit("up");
    reveal_strlit("user");
    reveal_strlit("verb");
    reveal_strlit("writepid");
    let ip = ipv4_text(remote.0);
    let dec = decimal(remote.1 as nat);
    lemma_ipv4_plain(remote.0);
    lemma_decimal(remote.1 as nat);
    lemma_digits_plain(dec);
    ipv4_text_parses_back(remote.0);
    let l = remote_line(remote);
    assert(l =~= "remote"@ + seq![' '] + ip + seq![' '] + dec + seq![' '] + "tcp-client"@);
    lemma_tokens_four("remote"@, ip, dec, "tcp-client"@);
    let t = seq!["remote"@, ip, dec, "tcp-client"@];
    assert(l[0] == 'r');
    assert(l.last() == 't');
    lemma_top_directive(l, t, st, e);
    assert("remote"@[0] == 'r' && "remote"@[1] == 'e' && "remote"@[2] == 'm' && "remote"@[5] == 'e');
    assert(to_ascii_lowercase("remote"@) =~= "remote"@);
    assert(to_ascii_lowercase("tcp-client"@) =~= "tcp-client"@);
    assert(dec[0] != '+') by {
        assert(crate::text::is_digit(dec[0]));
    }
    assert(parse_unsigned(dec, 65535) == Some(remote.1 as nat));
    assert(t[1] == ip && t[2] == dec && t[3] == "tcp-client"@ && t.len() == 4);
}

/// The kept option lines: a cipher or digest setting, the key direction, or
/// `remote-cert-tls server`, written as directive, one space, value.
pub open spec fn option_parts(d: Seq<char>, v: Seq<char>) -> bool {
    ||| crypto_directive(d) && safe_crypto_value(v)
    ||| d == "key-direction"@ && (v == "0"@ || v == "1"@)
    ||| d == "remote-cert-tls"@ && v == "server"@
}

pub open spec fn good_option(l: Seq<char>) -> bool {
    exists|d: Seq<char>, v: Seq<char>| l == d + seq![' '] + v && option_parts(d, v)
}

proof fn lemma_value_plain(d: Seq<char>, v: Seq<char>)
    requires
        option_parts(d, v),
    ensures
        plain_word(v),
        !is_unicode_whitespace(v.last()),
{
    reveal_strlit("0");
    reveal_strlit("1");
    reveal_strlit("auth");
    reveal_strlit("auth-nocache");
    reveal_strlit("auth-user-pass");
    reveal_strlit("auth-user-pass-verify");
    reveal_strlit("ca");
    reveal_strlit("cd");
    reveal_strlit("cert");
    reveal_strlit("chroot");
    reveal_strlit("cipher");
    reveal_strlit("client");
    reveal_strlit("client-connect");
    reveal_strlit("client-disconnect");
    reveal_strlit("connect-retry");
    reveal_strlit("connect-retry-max");
    reveal_strlit("connect-timeout");
    reveal_strlit("daemon");
    reveal_strlit("data-ciphers");
    reveal_strlit("data-ciphers-fallback");
    reveal_strlit("dev");
    reveal_strlit("dev-type");
    reveal_strlit("down");
    reveal_strlit("group");
    reveal_strlit("http-proxy");
    reveal_strlit("ifconfig");
    reveal_strlit("ifconfig-ipv6");
    reveal_strlit("ipchange");
    reveal_strlit("key");
    reveal_strlit("key-direction");
    reveal_strlit("key-direction ");
    reveal_strlit("learn-address");
    reveal_strlit("log");
    reveal_strlit("log-append");
    reveal_strlit("management");
    reveal_strlit("management-client");
    reveal_strlit("management-external-cert");
    reveal_strlit("management-external-key");
    reveal_strlit("management-hold");
    reveal_strlit("management-query-passwords");
    reveal_strlit("mute");
    reveal_strlit("nobind");
    reveal_strlit("persist-key");
    reveal_strlit("persist-tun");
    reveal_strlit("pkcs12");
    reveal_strlit("plugin");
    reveal_strlit("proto");
    reveal_strlit("pull");
    reveal_strlit("redirect-gateway");
    reveal_strlit("remote");
    reveal_strlit("remote-cert-tls");
    reveal_strlit("remote-cert-tls server");
    reveal_strlit("resolv-retry");
    reveal_strlit("route");
    reveal_strlit("route-ipv6");
    reveal_strlit("route-pre-down");
    reveal_strlit("route-up");
    reveal_strlit("script-security");
    reveal_strlit("server");
    reveal_strlit("server-poll-timeout");
    reveal_strlit("setenv");
    reveal_strlit("socks-proxy");
    reveal_strlit("status");
    reveal_strlit("tcp");
    reveal_strlit("tcp-client");
    reveal_strlit("tcp4");
    reveal_strlit("tcp4-client");
    reveal_strlit("tls-auth");
    reveal_strlit("tls-cipher");
    reveal_strlit("tls-client");
    reveal_strlit("tls-crypt");
    reveal_strlit("tls-verify");
    reveal_strlit("tls-version-min");
    reveal_strlit("up");
    reveal_strlit("user");
    reveal_strlit("verb");
    reveal_strlit("writepid");
    if crypto_directive(d) && safe_crypto_value(v) {
        assert forall|k: int| 0 <= k < v.len() implies !is_ascii_ws(#[trigger] v[k]) by {
            assert(safe_crypto_char(v[k]));
        }
        assert(safe_crypto_char(v[v.len() - 1]));
    } else if d == "key-direction"@ {
        assert("key-direction"@[0] == 'k' && "key-direction"@[1] == 'e' && "key-direction"@[2] == 'y' && "key-direction"@[3] == '-' && "key-direction"@[4] == 'd' && "key-direction"@[5] == 'i' && "key-direction"@[6] == 'r' && "key-direction"@[7] == 'e' && "key-direction"@[8] == 'c' && "key-direction"@[9] == 't' && "key-direction"@[10] == 'i' && "key-direction"@[11] == 'o' && "key-direction"@[12] == 'n');
        assert(v.len() == 1);
    } else {
        assert("remote-cert-tls"@[0] == 'r' && "remote-cert-tls"@[1] == 'e' && "remote-cert-tls"@[2] == 'm' && "remote-cert-tls"@[3] == 'o' && "remote-cert-tls"@[4] == 't' && "remote-cert-tls"@[5] == 'e' && "remote-cert-tls"@[6] == '-' && "remote-cert-tls"@[7] == 'c' && "remote-cert-tls"@[8] == 'e' && "remote-cert-tls"@[9] == 'r' && "remote-cert-tls"@[10] == 't' && "remote-cert-tls"@[11] == '-' && "remote-cert-tls"@[12] == 't' && "remote-cert-tls"@[13] == 'l' && "remote-cert-tls"@[14] == 's');
        assert("key-direction"@[0] == 'k' && "key-direction"@[1] == 'e' && "key-direction"@[2] == 'y' && "key-direction"@[3] == '-' && "key-direction"@[4] == 'd' && "key-direction"@[5] == 'i' && "key-direction"@[6] == 'r' && "key-direction"@[7] == 'e' && "key-direction"@[8] == 'c' && "key-direction"@[9] == 't' && "key-direction"@[10] == 'i' && "key-direction"@[11] == 'o' && "key-direction"@[12] == 'n');
        assert(v[5] == 'r');
    }
}

/// A kept option line is read back as the same option.
proof fn lemma_option_line(d: Seq<char>, v: Seq<char>, st: ProfileState, e: Ipv4Addr)
    requires
        option_parts(d, v),
    ensures
        top_line_step(d + seq![' '] + v, st, e) == Ok::<(ProfileState, LineMode), ProfileError>(
            (with_option(st, d + seq![' '] + v), LineMode::Top)),
{
    reveal_strlit("0");
    reveal_strlit("1");
    reveal_strlit("auth");
    reveal_strlit("auth-nocache");
    reveal_strlit("auth-user-pass");
    reveal_strlit("auth-user-pass-verify");
    reveal_strlit("ca");
    reveal_strlit("cd");
    reveal_strlit("cert");
    reveal_strlit("chroot");
    reveal_strlit("cipher");
    reveal_strlit("client");
    reveal_strlit("client-connect");
    reveal_strlit("client-disconnect");
    reveal_strlit("connect-retry");
    reveal_strlit("connect-retry-max");
    reveal_strlit("connect-timeout");
    reveal_strlit("daemon");
    reveal_strlit("data-ciphers");
    reveal_strlit("data-ciphers-fallback");
    reveal_strlit("dev");
    reveal_strlit("dev-type");
    reveal_strlit("down");
    reveal_strlit("group");
    reveal_strlit("http-proxy");
    reveal_strlit("ifconfig");
    reveal_strlit("ifconfig-ipv6");
    reveal_strlit("ipchange");
    reveal_strlit("key");
    reveal_strlit("key-direction");
    reveal_strlit("key-direction ");
    reveal_strlit("learn-address");
    reveal_strlit("log");
    reveal_strlit("log-append");
    reveal_strlit("management");
    reveal_strlit("management-client");
    reveal_strlit("management-external-cert");
    reveal_strlit("management-external-key");
    reveal_strlit("management-hold");
    reveal_strlit("management-query-passwords");
    reveal_strlit("mute");
    reveal_strlit("nobind");
    reveal_strlit("persist-key");
    reveal_strlit("persist-tun");
    reveal_strlit("pkcs12");
    reveal_strlit("plugin");
    reveal_strlit("proto");
    reveal_strlit("pull");
    reveal_strlit("redirect-gateway");
    reveal_strlit("remote");
    reveal_strlit("remote-cert-tls");
    reveal_strlit("remote-cert-tls server");
    reveal_strlit("resolv-retry");
    reveal_strlit("route");
    reveal_strlit("route-ipv6");
    reveal_strlit("route-pre-down");
    reveal_strlit("route-up");
    reveal_strlit("script-security");
    reveal_strlit("server");
    reveal_strlit("server-poll-timeout");
    reveal_strlit("setenv");
    reveal_strlit("socks-proxy");
    reveal_strlit("status");
    reveal_strlit("tcp");
    reveal_strlit("tcp-client");
    reveal_strlit("tcp4");
    reveal_strlit("tcp4-client");
    reveal_strlit("tls-auth");
    reveal_strlit("tls-cipher");
    reveal_strlit("tls-client");
    reveal_strlit("tls-crypt");
    reveal_strlit("tls-verify");
    reveal_strlit("tls-version-min");
    reveal_strlit("up");
    reveal_strlit("user");
    reveal_strlit("verb");
    reveal_strlit("writepid");    if d == "cipher"@ {
        assert("cipher"@[0] == 'c' && "cipher"@[1] == 'i' && "cipher"@[2] == 'p' && "cipher"@[3] == 'h' && "cipher"@[4] == 'e' && "cipher"@[5] == 'r');
        assert(to_ascii_lowercase("cipher"@) =~= "cipher"@);
    }
    if d == "auth"@ {
        assert("auth"@[0] == 'a' && "auth"@[1] == 'u' && "auth"@[2] == 't' && "auth"@[3] == 'h');
        assert(to_ascii_lowercase("auth"@) =~= "auth"@);
    }
    if d == "data-ciphers"@ {
        assert("data-ciphers"@[0] == 'd' && "data-ciphers"@[1] == 'a' && "data-ciphers"@[2] == 't' && "data-ciphers"@[3] == 'a' && "data-ciphers"@[4] == '-' && "data-ciphers"@[5] == 'c' && "data-ciphers"@[6] == 'i' && "data-ciphers"@[7] == 'p' && "data-ciphers"@[8] == 'h' && "data-ciphers"@[9] == 'e' && "data-ciphers"@[10] == 'r' && "data-ciphers"@[11] == 's');
        assert(to_ascii_lowercase("data-ciphers"@) =~= "data-ciphers"@);
    }
    if d == "data-ciphers-fallback"@ {
        assert("data-ciphers-fallback"@[0] == 'd' && "data-ciphers-fallback"@[1] == 'a' && "data-ciphers-fallback"@[2] == 't' && "data-ciphers-fallback"@[3] == 'a' && "data-ciphers-fallback"@[4] == '-' && "data-ciphers-fallback"@[5] == 'c' && "data-ciphers-fallback"@[6] == 'i' && "data-ciphers-fallback"@[7] == 'p' && "data-ciphers-fallback"@[8] == 'h' && "data-ciphers-fallback"@[9] == 'e' && "data-ciphers-fallback"@[10] == 'r' && "data-ciphers-fallback"@[11] == 's' && "data-ciphers-fallback"@[12] == '-' && "data-ciphers-fallback"@[13] == 'f' && "data-ciphers-fallback"@[14] == 'a' && "data-ciphers-fallback"@[15] == 'l' && "data-ciphers-fallback"@[16] == 'l' && "data-ciphers-fallback"@[17] == 'b' && "data-ciphers-fallback"@[18] == 'a' && "data-ciphers-fallback"@[19] == 'c' && "data-ciphers-fallback"@[20] == 'k');
        assert(to_ascii_lowercase("data-ciphers-fallback"@) =~= "data-ciphers-fallback"@);
    }
    if d == "tls-version-min"@ {
        assert("tls-version-min"@[0] == 't' && "tls-version-min"@[1] == 'l' && "tls-version-min"@[2] == 's' && "tls-version-min"@[3] == '-' && "tls-version-min"@[4] == 'v' && "tls-version-min"@[5] == 'e' && "tls-version-min"@[6] == 'r' && "tls-version-min"@[7] == 's' && "tls-version-min"@[8] == 'i' && "tls-version-min"@[9] == 'o' && "tls-version-min"@[10] == 'n' && "tls-version-min"@[11] == '-' && "tls-version-min"@[12] == 'm' && "tls-version-min"@[13] == 'i' && "tls-version-min"@[14] == 'n');
        assert(to_ascii_lowercase("tls-version-min"@) =~= "tls-version-min"@);
    }
    if d == "tls-cipher"@ {
        assert("tls-cipher"@[0] == 't' && "tls-cipher"@[1] == 'l' && "tls-cipher"@[2] == 's' && "tls-cipher"@[3] == '-' && "tls-cipher"@[4] == 'c' && "tls-cipher"@[5] == 'i' && "tls-cipher"@[6] == 'p' && "tls-cipher"@[7] == 'h' && "tls-cipher"@[8] == 'e' && "tls-cipher"@[9] == 'r');
        assert(to_ascii_lowercase("tls-cipher"@) =~= "tls-cipher"@);
    }
    if d == "key-direction"@ {
        assert("key-direction"@[0] == 'k' && "key-direction"@[1] == 'e' && "key-direction"@[2] == 'y' && "key-direction"@[3] == '-' && "key-direction"@[4] == 'd' && "key-direction"@[5] == 'i' && "key-direction"@[6] == 'r' && "key-direction"@[7] == 'e' && "key-direction"@[8] == 'c' && "key-direction"@[9] == 't' && "key-direction"@[10] == 'i' && "key-direction"@[11] == 'o' && "key-direction"@[12] == 'n');
        assert(to_ascii_lowercase("key-direction"@) =~= "key-direction"@);
    }
    if d == "remote-cert-tls"@ {
        assert("remote-cert-tls"@[0] == 'r' && "remote-cert-tls"@[1] == 'e' && "remote-cert-tls"@[2] == 'm' && "remote-cert-tls"@[3] == 'o' && "remote-cert-tls"@[4] == 't' && "remote-cert-tls"@[5] == 'e' && "remote-cert-tls"@[6] == '-' && "remote-cert-tls"@[7] == 'c' && "remote-cert-tls"@[8] == 'e' && "remote-cert-tls"@[9] == 'r' && "remote-cert-tls"@[10] == 't' && "remote-cert-tls"@[11] == '-' && "remote-cert-tls"@[12] == 't' && "remote-cert-tls"@[13] == 'l' && "remote-cert-tls"@[14] == 's');
        assert(to_ascii_lowercase("remote-cert-tls"@) =~= "remote-cert-tls"@);
    }

    assert(plain_word(d));
    lemma_value_plain(d, v);
    lemma_tokens_two(d, v);
    let l = d + seq![' '] + v;
    assert(l[0] == d[0]);
    assert(l.last() == v.last());
    lemma_top_directive(l, seq![d, v], st, e);
    if d == "key-direction"@ {
        assert("key-direction "@ + v =~= l);
    }
    if d == "remote-cert-tls"@ {
        assert("remote-cert-tls server"@ =~= l);
    }
}

proof fn lemma_byte_len_add(a: Seq<char>, b: Seq<char>)
    ensures
        byte_len(a + b) == byte_len(a) + byte_len(b),
    decreases b.len(),
{
    if b.len() > 0 {
        lemma_byte_len_add(a, b.drop_last());
        assert((a + b).drop_last() =~= a + b.drop_last());
    } else {
        assert(a + b =~= a);
    }
}

/// A line of a kept inline block body: no line feed, no trailing carriage
/// return, no closing or opening tag, no NUL, and within the line limit.
pub open spec fn body_line_ok(l: Seq<char>, k: int) -> bool {
    &&& no_newline(l)
    &&& trim_end_cr(l) == l
    &&& trim(l) != "</"@ + block_name(k) + ">"@
    &&& opening_block_name(trim(l)) is None
    &&& !l.contains('\0')
    &&& byte_len(l) <= MAX_LINE_BYTES
}

pub open spec fn body_ok(bls: Seq<Seq<char>>, k: int) -> bool {
    forall|j: int| 0 <= j < bls.len() ==> body_line_ok(#[trigger] bls[j], k)
}

proof fn lemma_join_push(bls: Seq<Seq<char>>, j: int)
    requires
        0 <= j < bls.len(),
    ensures
        join_lines(bls.take(j + 1)) == join_lines(bls.take(j)) + bls[j] + seq!['\n'],
{
    assert(bls.take(j + 1) =~= bls.take(j) + seq![bls[j]]);
    lemma_join_append(bls.take(j), seq![bls[j]]);
    lemma_join_one(bls[j]);
    assert(join_lines(bls.take(j)) + (bls[j] + seq!['\n']) =~= join_lines(bls.take(j)) + bls[j] + seq!['\n']);
}

proof fn lemma_join_prefix_len(bls: Seq<Seq<char>>, j: int)
    requires
        0 <= j <= bls.len(),
    ensures
        byte_len(join_lines(bls.take(j))) <= byte_len(join_lines(bls)),
{
    assert(bls =~= bls.take(j) + bls.skip(j));
    lemma_join_append(bls.take(j), bls.skip(j));
    lemma_byte_len_add(join_lines(bls.take(j)), join_lines(bls.skip(j)));
}

/// The body lines of a rendered block are collected back into the same body.
proof fn lemma_scan_body(ls: Seq<Seq<char>>, i: int, j: int, bls: Seq<Seq<char>>, k: int, st: ProfileState, e: Ipv4Addr)
    requires
        0 <= j <= bls.len(),
        0 <= i,
        i + bls.len() <= ls.len(),
        forall|m: int| 0 <= m < bls.len() ==> ls[i + m] == #[trigger] bls[m],
        body_ok(bls, k),
        byte_len(join_lines(bls)) <= MAX_BLOCK_BYTES,
    ensures
        scan(ls, i + j, st, LineMode::Block { kind: k, name: block_name(k), body: join_lines(bls.take(j)) }, e)
            == scan(ls, i + bls.len(), st, LineMode::Block { kind: k, name: block_name(k), body: join_lines(bls) }, e),
    decreases bls.len() - j,
{
    if j < bls.len() {
        let l = bls[j];
        assert(ls[i + j] == l);
        assert(body_line_ok(l, k));
        let body = join_lines(bls.take(j));
        lemma_join_push(bls, j);
        lemma_join_prefix_len(bls, j + 1);
        lemma_byte_len_add(body, l);
        lemma_byte_len_add(body + l, seq!['\n']);
        assert(byte_len(seq!['\n']) == 1) by {
            reveal_with_fuel(byte_len, 2);
            assert(seq!['\n'].drop_last() =~= Seq::<char>::empty());
        }
        assert(block_line_step(l, k, block_name(k), body, st) == Ok::<(ProfileState, LineMode), ProfileError>(
            (st, LineMode::Block { kind: k, name: block_name(k), body: body + l + seq!['\n'] })));
        lemma_scan_body(ls, i, j + 1, bls, k, st, e);
    } else {
        assert(bls.take(j) =~= bls);
    }
}

proof fn lemma_tag_names(k: int)
    requires
        0 <= k < 5,
    ensures
        block_kind(block_name(k)) == Some(k),
        block_name(k).len() > 0,
        block_name(k)[0] != '/',
        open_tag(k)[0] == '<',
        open_tag(k).len() >= 2,
        open_tag(k).last() == '>',
        opening_block_name(open_tag(k)) == Some(block_name(k)),
        close_tag(k) == "</"@ + block_name(k) + ">"@,
        close_tag(k).last() == '>',
        close_tag(k)[0] == '<',
{
    reveal_strlit("ca");
    reveal_strlit("cert");
    reveal_strlit("key");
    reveal_strlit("tls-auth");
    reveal_strlit("tls-crypt");
    reveal_strlit("</");
    reveal_strlit(">");
    assert("ca"@[0] == 'c' && "ca"@[1] == 'a');
    assert("cert"@[0] == 'c' && "cert"@[1] == 'e' && "cert"@[2] == 'r' && "cert"@[3] == 't');
    assert("key"@[0] == 'k' && "key"@[1] == 'e' && "key"@[2] == 'y');
    assert("tls-auth"@[0] == 't' && "tls-auth"@[1] == 'l' && "tls-auth"@[2] == 's' && "tls-auth"@[3] == '-' && "tls-auth"@[4] == 'a' && "tls-auth"@[5] == 'u' && "tls-auth"@[6] == 't' && "tls-auth"@[7] == 'h');
    assert("tls-crypt"@[0] == 't' && "tls-crypt"@[1] == 'l' && "tls-crypt"@[2] == 's' && "tls-crypt"@[3] == '-' && "tls-crypt"@[4] == 'c' && "tls-crypt"@[5] == 'r' && "tls-crypt"@[6] == 'y' && "tls-crypt"@[7] == 'p' && "tls-crypt"@[8] == 't');
    let t = open_tag(k);
    assert(t.subrange(1, t.len() - 1) =~= block_name(k));
    assert(close_tag(k) =~= "</"@ + block_name(k) + ">"@);
}

/// A rendered inline block is read back into the same block.
proof fn lemma_scan_block(ls: Seq<Seq<char>>, i: int, bls: Seq<Seq<char>>, k: int, st: ProfileState, e: Ipv4Addr)
    requires
        0 <= k < 5,
        st.blocks.len() == 5,
        st.blocks[k] is None,
        0 <= i,
        i + bls.len() + 2 <= ls.len(),
        ls[i] == open_tag(k),
        forall|m: int| 0 <= m < bls.len() ==> ls[i + 1 + m] == #[trigger] bls[m],
        ls[i + 1 + bls.len()] == close_tag(k),
        body_ok(bls, k),
        byte_len(join_lines(bls)) <= MAX_BLOCK_BYTES,
        trim(join_lines(bls)).len() > 0,
    ensures
        scan(ls, i, st, LineMode::Top, e) == scan(ls, i + bls.len() + 2,
            ProfileState { blocks: st.blocks.update(k, Some(join_lines(bls))), ..st }, LineMode::Top, e),
{
    lemma_tag_names(k);
    let o = open_tag(k);
    lemma_trim_plain(o);
    assert(!is_unicode_whitespace(o[0]));
    assert(top_line_step(o, st, e) == Ok::<(ProfileState, LineMode), ProfileError>(
        (st, LineMode::Block { kind: k, name: block_name(k), body: Seq::empty() })));
    assert(bls.take(0) =~= Seq::<Seq<char>>::empty());
    assert(join_lines(bls.take(0)) == Seq::<char>::empty());
    lemma_scan_body(ls, i + 1, 0, bls, k, st, e);
    let c = close_tag(k);
    assert(trim_end_cr(c) == c);
    lemma_trim_plain(c);
    let n = bls.len();
    assert(ls[i + 1 + n] == c);
}

/// The state after the option lines `os` are read in order.
pub open spec fn add_all(st: ProfileState, os: Seq<Seq<char>>) -> ProfileState
    decreases os.len(),
{
    if os.len() == 0 {
        st
    } else {
        add_all(with_option(st, os[0]), os.drop_first())
    }
}

proof fn lemma_add_all_keeps(st: ProfileState, os: Seq<Seq<char>>)
    ensures
        add_all(st, os).blocks == st.blocks,
        add_all(st, os).remote == st.remote,
        add_all(st, os).saw_tcp == st.saw_tcp,
        add_all(st, os).saw_tun == st.saw_tun,
    decreases os.len(),
{
    if os.len() > 0 {
        lemma_add_all_keeps(with_option(st, os[0]), os.drop_first());
    }
}

/// Kept option lines are read back one by one.
proof fn lemma_scan_options(ls: Seq<Seq<char>>, i: int, os: Seq<Seq<char>>, st: ProfileState, e: Ipv4Addr)
    requires
        0 <= i,
        i + os.len() <= ls.len(),
        forall|m: int| 0 <= m < os.len() ==> ls[i + m] == #[trigger] os[m],
        forall|m: int| 0 <= m < os.len() ==> good_option(#[trigger] os[m]),
    ensures
        scan(ls, i, st, LineMode::Top, e) == scan(ls, i + os.len(), add_all(st, os), LineMode::Top, e),
    decreases os.len(),
{
    if os.len() > 0 {
        assert(good_option(os[0]));
        let (d, v) = choose|d: Seq<char>, v: Seq<char>| os[0] == d + seq![' '] + v && option_parts(d, v);
        lemma_option_line(d, v, st, e);
        assert(ls[i] == os[0]);
        let rest = os.drop_first();
        assert forall|m: int| 0 <= m < rest.len() implies ls[i + 1 + m] == #[trigger] rest[m] by {
            assert(ls[i + (m + 1)] == os[m + 1]);
        }
        assert forall|m: int| 0 <= m < rest.len() implies good_option(#[trigger] rest[m]) by {
            assert(good_option(os[m + 1]));
        }
        lemma_scan_options(ls, i + 1, rest, with_option(st, os[0]), e);
    }
}

/// What a rendered line satisfies: no line feed, no final carriage return,
/// and within the line limit.
pub open spec fn plain_line(l: Seq<char>) -> bool {
    &&& no_newline(l)
    &&& strip_cr(l) == l
    &&& byte_len(l) <= MAX_LINE_BYTES
}

proof fn lemma_byte_len_bound(s: Seq<char>)
    ensures
        byte_len(s) <= 4 * s.len(),
    decreases s.len(),
{
    if s.len() > 0 {
        lemma_byte_len_bound(s.drop_last());
    }
}

proof fn lemma_short_line(l: Seq<char>)
    requires
        l.len() > 0,
        l.len() <= 1024,
        l.last() != '\r',
        forall|k: int| 0 <= k < l.len() ==> #[trigger] l[k] != '\n',
    ensures
        plain_line(l),
{
    lemma_byte_len_bound(l);
}

proof fn lemma_decimal_short(n: nat)
    ensures
        n < 10 ==> decimal(n).len() <= 1,
        n < 100 ==> decimal(n).len() <= 2,
        n < 1000 ==> decimal(n).len() <= 3,
        n < 10000 ==> decimal(n).len() <= 4,
        n < 100000 ==> decimal(n).len() <= 5,
    decreases n,
{
    if n >= 10 {
        lemma_decimal_short(n / 10);
    }
}

proof fn lemma_digit_line(s: Seq<char>)
    requires
        all_digits(s),
    ensures
        forall|k: int| 0 <= k < s.len() ==> #[trigger] s[k] != '\n' && s[k] != '\r',
{
    assert forall|k: int| 0 <= k < s.len() implies #[trigger] s[k] != '\n' && s[k] != '\r' by {
        assert(crate::text::is_digit(s[k]));
    }
}

proof fn lemma_header_plain(remote: (Ipv4Addr, u16))
    ensures
        forall|m: int| 0 <= m < header_lines(remote).len() ==> plain_line(#[trigger] header_lines(remote)[m]),
{
    reveal_strlit("client");
    reveal_strlit("dev tun");
    reveal_strlit("proto tcp-client");
    reveal_strlit("remote ");
    reveal_strlit(" tcp-client");
    reveal_strlit("nobind");
    reveal_strlit("persist-key");
    reveal_strlit("persist-tun");
    reveal_strlit("auth-nocache");
    reveal_strlit("verb 3");
    let h = header_lines(remote);
    lemma_short_line("client"@);
    lemma_short_line("dev tun"@);
    lemma_short_line("proto tcp-client"@);
    lemma_short_line("nobind"@);
    lemma_short_line("persist-key"@);
    lemma_short_line("persist-tun"@);
    lemma_short_line("auth-nocache"@);
    lemma_short_line("verb 3"@);
    let ip = remote.0;
    lemma_decimal(ip.a as nat);
    lemma_decimal(ip.b as nat);
    lemma_decimal(ip.c as nat);
    lemma_decimal(ip.d as nat);
    lemma_decimal(remote.1 as nat);
    lemma_decimal_short(remote.1 as nat);
    let da = decimal(ip.a as nat);
    let db = decimal(ip.b as nat);
    let dc = decimal(ip.c as nat);
    let dd = decimal(ip.d as nat);
    let dp = decimal(remote.1 as nat);
    lemma_digit_line(da);
    lemma_digit_line(db);
    lemma_digit_line(dc);
    lemma_digit_line(dd);
    let r = remote_line(remote);
    let pieces = "remote "@ + da + seq!['.'] + db + seq!['.'] + dc + seq!['.'] + dd + seq![' '] + dp + " tcp-client"@;
    assert(r =~= pieces);
    assert forall|k: int| 0 <= k < ipv4_text(ip).len() implies #[trigger] ipv4_text(ip)[k] != '\n' by {
        lemma_ipv4_plain(ip);
        assert(!is_ascii_ws(ipv4_text(ip)[k]));
    }
    lemma_digits_plain(dp);
    assert forall|k: int| 0 <= k < r.len() implies #[trigger] r[k] != '\n' by {
        let a = "remote "@;
        let t = ipv4_text(ip);
        if k < a.len() {
            assert(r[k] == a[k]);
        } else if k < a.len() + t.len() {
            assert(r[k] == t[k - a.len()]);
        } else if k == a.len() + t.len() {
            assert(r[k] == ' ');
        } else if k < a.len() + t.len() + 1 + dp.len() {
            assert(r[k] == dp[k - a.len() - t.len() - 1]);
            assert(!is_ascii_ws(dp[k - a.len() - t.len() - 1]));
        } else {
            assert(r[k] == " tcp-client"@[k - a.len() - t.len() - 1 - dp.len()]);
        }
    }
    assert(r.last() == 't');
    lemma_short_line(r);
    assert forall|m: int| 0 <= m < h.len() implies plain_line(#[trigger] h[m]) by {
        if m == 3 {
            assert(h[m] == r);
        }
    }
}

proof fn lemma_option_plain(l: Seq<char>)
    requires
        good_option(l),
    ensures
        plain_line(l),
{
    reveal_strlit("cipher");
    reveal_strlit("auth");
    reveal_strlit("data-ciphers");
    reveal_strlit("data-ciphers-fallback");
    reveal_strlit("tls-version-min");
    reveal_strlit("tls-cipher");
    reveal_strlit("key-direction");
    reveal_strlit("remote-cert-tls");
    reveal_strlit("server");
    reveal_strlit("0");
    reveal_strlit("1");
    let (d, v) = choose|d: Seq<char>, v: Seq<char>| l == d + seq![' '] + v && option_parts(d, v);
    lemma_value_plain(d, v);
    assert(d.len() <= 21);
    assert forall|k: int| 0 <= k < d.len() implies #[trigger] d[k] != '\n' by {}
    assert forall|k: int| 0 <= k < l.len() implies #[trigger] l[k] != '\n' by {
        if k < d.len() {
            assert(l[k] == d[k]);
        } else if k > d.len() {
            assert(l[k] == v[k - d.len() - 1]);
            assert(!is_ascii_ws(v[k - d.len() - 1]));
        }
    }
    assert(l.last() == v.last());
    if crypto_directive(d) && safe_crypto_value(v) {
        lemma_byte_len_add(d + seq![' '], v);
        lemma_byte_len_bound(d + seq![' ']);
    } else {
        lemma_byte_len_bound(l);
    }
}

proof fn lemma_tag_plain(k: int)
    requires
        0 <= k < 5,
    ensures
        plain_line(open_tag(k)),
        plain_line(close_tag(k)),
{
    reveal_strlit("ca");
    reveal_strlit("cert");
    reveal_strlit("key");
    reveal_strlit("tls-auth");
    reveal_strlit("tls-crypt");
    reveal_strlit("</");
    lemma_short_line(open_tag(k));
    lemma_short_line(close_tag(k));
}

proof fn lemma_body_plain(l: Seq<char>, k: int)
    requires
        body_line_ok(l, k),
    ensures
        plain_line(l),
{
    if l.len() > 0 && l.last() == '\r' {
        assert(trim_end_cr(l) == trim_end_cr(l.drop_last()));
        lemma_trim_end_cr_shorter(l.drop_last());
    }
}

proof fn lemma_trim_end_cr_shorter(s: Seq<char>)
    ensures
        trim_end_cr(s).len() <= s.len(),
        trim_end_cr(s) =~= s.subrange(0, trim_end_cr(s).len() as int),
        trim_end_cr(s).len() > 0 ==> trim_end_cr(s).last() != '\r',
    decreases s.len(),
{
    if s.len() > 0 && s.last() == '\r' {
        lemma_trim_end_cr_shorter(s.drop_last());
        assert(s.drop_last().subrange(0, trim_end_cr(s).len() as int) =~= s.subrange(0, trim_end_cr(s).len() as int));
    } else {
        assert(s.subrange(0, s.len() as int) =~= s);
    }
}

/// The kept blocks of a state, each the joined lines of `bodies`.
pub open spec fn bodies_match(st: ProfileState, bodies: Seq<Seq<Seq<char>>>) -> bool {
    forall|k: int| 0 <= k < 5 ==> (#[trigger] st.blocks[k] matches Some(b) ==> {
        &&& b == join_lines(bodies[k])
        &&& body_ok(bodies[k], k)
        &&& byte_len(b) <= MAX_BLOCK_BYTES
        &&& trim(b).len() > 0
    })
}

/// One rendered block, present or not, is read back.
proof fn lemma_scan_tag(ls: Seq<Seq<char>>, i: int, blocks: Seq<Option<Seq<char>>>, bodies: Seq<Seq<Seq<char>>>,
    k: int, cur: ProfileState, e: Ipv4Addr)
    requires
        0 <= k < 5,
        blocks.len() == 5,
        cur.blocks.len() == 5,
        cur.blocks[k] is None,
        0 <= i,
        i + tag_lines(blocks, bodies, k).len() <= ls.len(),
        forall|m: int| 0 <= m < tag_lines(blocks, bodies, k).len() ==> ls[i + m] == #[trigger] tag_lines(blocks, bodies, k)[m],
        blocks[k] matches Some(b) ==> {
            &&& b == join_lines(bodies[k])
            &&& body_ok(bodies[k], k)
            &&& byte_len(b) <= MAX_BLOCK_BYTES
            &&& trim(b).len() > 0
        },
    ensures
        scan(ls, i, cur, LineMode::Top, e) == scan(ls, i + tag_lines(blocks, bodies, k).len(),
            match blocks[k] {
                Some(b) => ProfileState { blocks: cur.blocks.update(k, Some(b)), ..cur },
                None => cur,
            }, LineMode::Top, e),
{
    if let Some(b) = blocks[k] {
        let t = tag_lines(blocks, bodies, k);
        let bls = bodies[k];
        assert(t[0] == open_tag(k));
        assert forall|m: int| 0 <= m < bls.len() implies ls[i + 1 + m] == #[trigger] bls[m] by {
            assert(t[1 + m] == bls[m]);
            assert(ls[i + (1 + m)] == t[1 + m]);
        }
        assert(t[1 + bls.len() as int] == close_tag(k));
        assert(ls[i + (1 + bls.len())] == t[1 + bls.len() as int]);
        assert(ls[i + 0] == t[0]);
        lemma_scan_block(ls, i, bls, k, cur, e);
    }
}

proof fn lemma_fixed_line_shape()
    ensures
        "client"@.len() > 0 && "client"@[0] == 'c' && "client"@.last() == 't',
        "dev tun"@.len() > 0 && "dev tun"@[0] == 'd' && "dev tun"@.last() == 'n',
        "proto tcp-client"@.len() > 0 && "proto tcp-client"@[0] == 'p' && "proto tcp-client"@.last() == 't',
        "nobind"@.len() > 0 && "nobind"@[0] == 'n' && "nobind"@.last() == 'd',
        "persist-key"@.len() > 0 && "persist-key"@[0] == 'p' && "persist-key"@.last() == 'y',
        "persist-tun"@.len() > 0 && "persist-tun"@[0] == 'p' && "persist-tun"@.last() == 'n',
        "auth-nocache"@.len() > 0 && "auth-nocache"@[0] == 'a' && "auth-nocache"@.last() == 'e',
        "verb 3"@.len() > 0 && "verb 3"@[0] == 'v' && "verb 3"@.last() == '3',
{
    reveal_strlit("client");
    reveal_strlit("dev tun");
    reveal_strlit("proto tcp-client");
    reveal_strlit("nobind");
    reveal_strlit("persist-key");
    reveal_strlit("persist-tun");
    reveal_strlit("auth-nocache");
    reveal_strlit("verb 3");
}

/// The header of a rendered profile is read back: the client settings, the
/// tunnel device, the protocol and the remote.
proof fn lemma_scan_header(ls: Seq<Seq<char>>, remote: (Ipv4Addr, u16), st: ProfileState, e: Ipv4Addr)
    requires
        ls.len() >= 9,
        forall|m: int| 0 <= m < 9 ==> ls[m] == #[trigger] header_lines(remote)[m],
        st.remote is None,
        remote.0 == e,
        remote.1 != 0,
    ensures
        scan(ls, 0, st, LineMode::Top, e) == scan(ls, 9,
            ProfileState { remote: Some(remote), saw_tcp: true, saw_tun: true, ..st }, LineMode::Top, e),
{
    let h = header_lines(remote);
    lemma_header_words();
    lemma_fixed_line_shape();
    let s1 = ProfileState { saw_tun: true, ..st };
    let s2 = ProfileState { saw_tcp: true, ..s1 };
    let s3 = ProfileState { remote: Some(remote), ..s2 };
    lemma_flag_lines(st, e);
    lemma_flag_lines(s3, e);
    lemma_setting_lines(st, e);
    lemma_setting_lines(s1, e);
    lemma_setting_lines(s3, e);
    assert(ls[0] == "client"@);
    lemma_top_directive("client"@, seq!["client"@], st, e);
    assert(ls[1] == "dev tun"@);
    lemma_top_directive("dev tun"@, seq!["dev"@, "tun"@], st, e);
    assert(ls[2] == "proto tcp-client"@);
    lemma_top_directive("proto tcp-client"@, seq!["proto"@, "tcp-client"@], s1, e);
    assert(ls[3] == remote_line(remote));
    lemma_remote_line(s2, e, remote);
    assert(ls[4] == "nobind"@);
    lemma_top_directive("nobind"@, seq!["nobind"@], s3, e);
    assert(ls[5] == "persist-key"@);
    lemma_top_directive("persist-key"@, seq!["persist-key"@], s3, e);
    assert(ls[6] == "persist-tun"@);
    lemma_top_directive("persist-tun"@, seq!["persist-tun"@], s3, e);
    assert(ls[7] == "auth-nocache"@);
    lemma_top_directive("auth-nocache"@, seq!["auth-nocache"@], s3, e);
    assert(ls[8] == "verb 3"@);
    lemma_top_directive("verb 3"@, seq!["verb"@, "3"@], s3, e);
    assert(s3 == ProfileState { remote: Some(remote), saw_tcp: true, saw_tun: true, ..st });
    assert(scan(ls, 8, s3, LineMode::Top, e) == scan(ls, 9, s3, LineMode::Top, e));
    assert(scan(ls, 7, s3, LineMode::Top, e) == scan(ls, 9, s3, LineMode::Top, e));
    assert(scan(ls, 6, s3, LineMode::Top, e) == scan(ls, 9, s3, LineMode::Top, e));
    assert(scan(ls, 5, s3, LineMode::Top, e) == scan(ls, 9, s3, LineMode::Top, e));
    assert(scan(ls, 4, s3, LineMode::Top, e) == scan(ls, 9, s3, LineMode::Top, e));
    assert(scan(ls, 3, s2, LineMode::Top, e) == scan(ls, 9, s3, LineMode::Top, e));
    assert(scan(ls, 2, s1, LineMode::Top, e) == scan(ls, 9, s3, LineMode::Top, e));
    assert(scan(ls, 1, st, LineMode::Top, e) == scan(ls, 9, s3, LineMode::Top, e));
}

pub open spec fn all_plain(ls: Seq<Seq<char>>) -> bool {
    forall|m: int| 0 <= m < ls.len() ==> plain_line(#[trigger] ls[m])
}

proof fn lemma_all_plain_add(a: Seq<Seq<char>>, b: Seq<Seq<char>>)
    requires
        all_plain(a),
        all_plain(b),
    ensures
        all_plain(a + b),
{
    assert forall|m: int| 0 <= m < (a + b).len() implies plain_line(#[trigger] (a + b)[m]) by {
        if m < a.len() {
            assert((a + b)[m] == a[m]);
        } else {
            assert((a + b)[m] == b[m - a.len()]);
        }
    }
}

proof fn lemma_tag_all_plain(blocks: Seq<Option<Seq<char>>>, bodies: Seq<Seq<Seq<char>>>, k: int)
    requires
        0 <= k < 5,
        blocks[k] is Some ==> body_ok(bodies[k], k),
    ensures
        all_plain(tag_lines(blocks, bodies, k)),
{
    if blocks[k] is Some {
        lemma_tag_plain(k);
        let bls = bodies[k];
        assert forall|m: int| 0 <= m < bls.len() implies plain_line(#[trigger] bls[m]) by {
            assert(body_line_ok(bls[m], k));
            lemma_body_plain(bls[m], k);
        }
        lemma_all_plain_add(seq![open_tag(k)], bls);
        lemma_all_plain_add(seq![open_tag(k)] + bls, seq![close_tag(k)]);
    }
}

proof fn lemma_at<A>(a: Seq<A>, b: Seq<A>, m: int)
    requires
        0 <= m < b.len(),
    ensures
        (a + b)[a.len() + m] == b[m],
{
}

proof fn lemma_prefix_at<A>(a: Seq<A>, b: Seq<A>, m: int)
    requires
        0 <= m < a.len(),
    ensures
        (a + b)[m] == a[m],
{
}

/// Every line of a rendered profile is plain.
proof fn lemma_rendered_plain(st: ProfileState, remote: (Ipv4Addr, u16), bodies: Seq<Seq<Seq<char>>>)
    requires
        forall|m: int| 0 <= m < st.options.len() ==> good_option(#[trigger] st.options[m]),
        bodies_match(st, bodies),
    ensures
        all_plain(rendered_lines(st, remote, bodies)),
{
    reveal_strlit("remote-cert-tls server");
    reveal_strlit("remote-cert-tls");
    reveal_strlit("server");
    let h = header_lines(remote);
    let c = cert_tls_lines(st.options);
    let o = st.options;
    let os = c + o;
    let rcts = "remote-cert-tls server"@;
    assert(rcts == "remote-cert-tls"@ + seq![' '] + "server"@);
    assert(option_parts("remote-cert-tls"@, "server"@));
    assert(good_option(rcts));
    lemma_header_plain(remote);
    assert forall|m: int| 0 <= m < os.len() implies plain_line(#[trigger] os[m]) by {
        if m < c.len() {
            assert(os[m] == rcts);
        } else {
            assert(os[m] == o[m - c.len()]);
        }
        lemma_option_plain(os[m]);
    }
    lemma_all_plain_add(h, os);
    assert forall|k: int| 0 <= k < 5 implies (st.blocks[k] is Some ==> body_ok(bodies[k], k)) by {
        assert(st.blocks[k] matches Some(b) ==> body_ok(bodies[k], k));
    }
    let t0 = tag_lines(st.blocks, bodies, 0);
    let t1 = tag_lines(st.blocks, bodies, 1);
    let t2 = tag_lines(st.blocks, bodies, 2);
    let t3 = tag_lines(st.blocks, bodies, 3);
    let t4 = tag_lines(st.blocks, bodies, 4);
    lemma_tag_all_plain(st.blocks, bodies, 0);
    lemma_tag_all_plain(st.blocks, bodies, 1);
    lemma_tag_all_plain(st.blocks, bodies, 2);
    lemma_tag_all_plain(st.blocks, bodies, 3);
    lemma_tag_all_plain(st.blocks, bodies, 4);
    lemma_all_plain_add(h + os, t0);
    lemma_all_plain_add(h + os + t0, t1);
    lemma_all_plain_add(h + os + t0 + t1, t2);
    lemma_all_plain_add(h + os + t0 + t1 + t2, t3);
    lemma_all_plain_add(h + os + t0 + t1 + t2 + t3, t4);
    assert(h + os + t0 + t1 + t2 + t3 + t4 =~= rendered_lines(st, remote, bodies));
}

/// A rendered profile is read back: it is accepted line by line, with the
/// same remote, the client settings and the same inline blocks present.
#[verifier::rlimit(60)]
proof fn lemma_rescan(st: ProfileState, remote: (Ipv4Addr, u16), bodies: Seq<Seq<Seq<char>>>, e: Ipv4Addr)
    requires
        st.blocks.len() == 5,
        forall|m: int| 0 <= m < st.options.len() ==> good_option(#[trigger] st.options[m]),
        bodies_match(st, bodies),
        remote.0 == e,
        remote.1 != 0,
    ensures
        scan(rendered_lines(st, remote, bodies), 0, initial_state(), LineMode::Top, e) matches Ok(s)
            && s.remote == Some(remote) && s.saw_tcp && s.saw_tun
            && (forall|k: int| 0 <= k < 5 ==> (#[trigger] s.blocks[k] is Some <==> st.blocks[k] is Some)),
{
    reveal_strlit("remote-cert-tls server");
    reveal_strlit("remote-cert-tls");
    reveal_strlit("server");
    let h = header_lines(remote);
    let c = cert_tls_lines(st.options);
    let o = st.options;
    let t0 = tag_lines(st.blocks, bodies, 0);
    let t1 = tag_lines(st.blocks, bodies, 1);
    let t2 = tag_lines(st.blocks, bodies, 2);
    let t3 = tag_lines(st.blocks, bodies, 3);
    let t4 = tag_lines(st.blocks, bodies, 4);
    let os = c + o;
    let p0 = h + os;
    let p1 = p0 + t0;
    let p2 = p1 + t1;
    let p3 = p2 + t2;
    let p4 = p3 + t3;
    let r = p4 + t4;
    assert(r =~= rendered_lines(st, remote, bodies));
    assert(h.len() == 9);
    let rcts = "remote-cert-tls server"@;
    assert(rcts == "remote-cert-tls"@ + seq![' '] + "server"@);
    assert(option_parts("remote-cert-tls"@, "server"@));
    assert(good_option(rcts));
    assert forall|m: int| 0 <= m < os.len() implies good_option(#[trigger] os[m]) by {
        if m < c.len() {
            assert(os[m] == c[m]);
            assert(c[m] == rcts);
        } else {
            assert(os[m] == o[m - c.len()]);
        }
    }
    // header
    let init = initial_state();
    assert forall|m: int| 0 <= m < 9 implies r[m] == #[trigger] h[m] by {
        lemma_prefix_at(h, os, m);
        lemma_prefix_at(p0, t0, m);
        lemma_prefix_at(p1, t1, m);
        lemma_prefix_at(p2, t2, m);
        lemma_prefix_at(p3, t3, m);
        lemma_prefix_at(p4, t4, m);
    }
    lemma_scan_header(r, remote, init, e);
    let sh = ProfileState { remote: Some(remote), saw_tcp: true, saw_tun: true, ..init };
    // options
    assert forall|m: int| 0 <= m < os.len() implies r[9 + m] == #[trigger] os[m] by {
        lemma_at(h, os, m);
        lemma_prefix_at(p0, t0, 9 + m);
        lemma_prefix_at(p1, t1, 9 + m);
        lemma_prefix_at(p2, t2, 9 + m);
        lemma_prefix_at(p3, t3, 9 + m);
        lemma_prefix_at(p4, t4, 9 + m);
    }
    lemma_scan_options(r, 9, os, sh, e);
    let so = add_all(sh, os);
    lemma_add_all_keeps(sh, os);
    // blocks
    let b0 = match st.blocks[0] { Some(b) => ProfileState { blocks: so.blocks.update(0, Some(b)), ..so }, None => so };
    let b1 = match st.blocks[1] { Some(b) => ProfileState { blocks: b0.blocks.update(1, Some(b)), ..b0 }, None => b0 };
    let b2 = match st.blocks[2] { Some(b) => ProfileState { blocks: b1.blocks.update(2, Some(b)), ..b1 }, None => b1 };
    let b3 = match st.blocks[3] { Some(b) => ProfileState { blocks: b2.blocks.update(3, Some(b)), ..b2 }, None => b2 };
    let b4 = match st.blocks[4] { Some(b) => ProfileState { blocks: b3.blocks.update(4, Some(b)), ..b3 }, None => b3 };
    assert(so.blocks == seq![None::<Seq<char>>, None, None, None, None]);
    assert forall|m: int| 0 <= m < t0.len() implies r[p0.len() + m] == #[trigger] t0[m] by {
        lemma_at(p0, t0, m);
        lemma_prefix_at(p1, t1, p0.len() + m);
        lemma_prefix_at(p2, t2, p0.len() + m);
        lemma_prefix_at(p3, t3, p0.len() + m);
        lemma_prefix_at(p4, t4, p0.len() + m);
    }
    assert(st.blocks[0] matches Some(b) ==> b == join_lines(bodies[0]) && body_ok(bodies[0], 0) && byte_len(b) <= MAX_BLOCK_BYTES && trim(b).len() > 0);
    lemma_scan_tag(r, p0.len() as int, st.blocks, bodies, 0, so, e);
    assert forall|m: int| 0 <= m < t1.len() implies r[p1.len() + m] == #[trigger] t1[m] by {
        lemma_at(p1, t1, m);
        lemma_prefix_at(p2, t2, p1.len() + m);
        lemma_prefix_at(p3, t3, p1.len() + m);
        lemma_prefix_at(p4, t4, p1.len() + m);
    }
    assert(st.blocks[1] matches Some(b) ==> b == join_lines(bodies[1]) && body_ok(bodies[1], 1) && byte_len(b) <= MAX_BLOCK_BYTES && trim(b).len() > 0);
    lemma_scan_tag(r, p1.len() as int, st.blocks, bodies, 1, b0, e);
    assert forall|m: int| 0 <= m < t2.len() implies r[p2.len() + m] == #[trigger] t2[m] by {
        lemma_at(p2, t2, m);
        lemma_prefix_at(p3, t3, p2.len() + m);
        lemma_prefix_at(p4, t4, p2.len() + m);
    }
    assert(st.blocks[2] matches Some(b) ==> b == join_lines(bodies[2]) && body_ok(bodies[2], 2) && byte_len(b) <= MAX_BLOCK_BYTES && trim(b).len() > 0);
    lemma_scan_tag(r, p2.len() as int, st.blocks, bodies, 2, b1, e);
    assert forall|m: int| 0 <= m < t3.len() implies r[p3.len() + m] == #[trigger] t3[m] by {
        lemma_at(p3, t3, m);
        lemma_prefix_at(p4, t4, p3.len() + m);
    }
    assert(st.blocks[3] matches Some(b) ==> b == join_lines(bodies[3]) && body_ok(bodies[3], 3) && byte_len(b) <= MAX_BLOCK_BYTES && trim(b).len() > 0);
    lemma_scan_tag(r, p3.len() as int, st.blocks, bodies, 3, b2, e);
    assert forall|m: int| 0 <= m < t4.len() implies r[p4.len() + m] == #[trigger] t4[m] by {
        lemma_at(p4, t4, m);
    }
    assert(st.blocks[4] matches Some(b) ==> b == join_lines(bodies[4]) && body_ok(bodies[4], 4) && byte_len(b) <= MAX_BLOCK_BYTES && trim(b).len() > 0);
    lemma_scan_tag(r, p4.len() as int, st.blocks, bodies, 4, b3, e);
    assert(scan(r, r.len() as int, b4, LineMode::Top, e) == Ok::<ProfileState, ProfileError>(b4));
    assert forall|k: int| 0 <= k < 5 implies (#[trigger] b4.blocks[k] is Some <==> st.blocks[k] is Some) by {}
}

/// A kept inline block body: joined lines that are all acceptable body
/// lines, within the block limit and not blank.
pub open spec fn good_body(b: Seq<char>, k: int) -> bool {
    exists|bls: Seq<Seq<char>>| b == join_lines(bls) && body_ok(bls, k) && byte_len(b) <= MAX_BLOCK_BYTES
        && trim(b).len() > 0
}

/// What every state of a scan satisfies.
pub open spec fn good_state(st: ProfileState, e: Ipv4Addr) -> bool {
    &&& st.blocks.len() == 5
    &&& forall|m: int| 0 <= m < st.options.len() ==> good_option(#[trigger] st.options[m])
    &&& forall|k: int| 0 <= k < 5 ==> (#[trigger] st.blocks[k] matches Some(b) ==> good_body(b, k))
    &&& remote_ok(st.remote, e)
}

pub open spec fn good_mode(mode: LineMode) -> bool {
    match mode {
        LineMode::Top => true,
        LineMode::Block { kind, name, body } => {
            &&& 0 <= kind < 5
            &&& name == block_name(kind)
            &&& exists|bls: Seq<Seq<char>>| body == join_lines(bls) && body_ok(bls, kind) && byte_len(body) <= MAX_BLOCK_BYTES
        },
    }
}

proof fn lemma_insert_good(s: Seq<Seq<char>>, x: Seq<char>)
    requires
        forall|m: int| 0 <= m < s.len() ==> good_option(#[trigger] s[m]),
        good_option(x),
    ensures
        forall|m: int| 0 <= m < insert_sorted(s, x).len() ==> good_option(#[trigger] insert_sorted(s, x)[m]),
    decreases s.len(),
{
    let r = insert_sorted(s, x);
    if s.len() == 0 {
        assert(r == seq![x]);
    } else if s[0] == x {
    } else if crate::text::chars_less(x, s[0]) {
        assert forall|m: int| 0 <= m < r.len() implies good_option(#[trigger] r[m]) by {
            if m > 0 {
                assert(r[m] == s[m - 1]);
            }
        }
    } else {
        let t = s.drop_first();
        assert forall|m: int| 0 <= m < t.len() implies good_option(#[trigger] t[m]) by {
            assert(t[m] == s[m + 1]);
        }
        lemma_insert_good(t, x);
        assert forall|m: int| 0 <= m < r.len() implies good_option(#[trigger] r[m]) by {
            if m > 0 {
                assert(r[m] == insert_sorted(t, x)[m - 1]);
            }
        }
    }
}

proof fn lemma_with_option_good(st: ProfileState, l: Seq<char>, e: Ipv4Addr)
    requires
        good_state(st, e),
        good_option(l),
    ensures
        good_state(with_option(st, l), e),
{
    lemma_insert_good(st.options, l);
}

/// Each accepted directive keeps the state good.
proof fn lemma_directive_good(t: Seq<Seq<char>>, st: ProfileState, e: Ipv4Addr)
    requires
        good_state(st, e),
    ensures
        directive_step(t, st, e) matches Ok(n) ==> good_state(n, e),
{
    reveal_strlit("key-direction ");
    reveal_strlit("key-direction");
    reveal_strlit("remote-cert-tls server");
    reveal_strlit("remote-cert-tls");
    reveal_strlit("server");
    if t.len() > 0 {
        let d = to_ascii_lowercase(t[0]);
        if d == "remote"@ {
            assert(remote_step(t, st, e) matches Ok(n) ==> remote_ok(n.remote, e));
        } else if crypto_directive(d) {
            if t.len() == 2 && safe_crypto_value(t[1]) {
                assert(option_parts(d, t[1]));
                assert(good_option(d + seq![' '] + t[1]));
                lemma_with_option_good(st, d + seq![' '] + t[1], e);
            }
        } else if d == "key-direction"@ {
            if t.len() == 2 && (t[1] == "0"@ || t[1] == "1"@) {
                assert("key-direction "@ + t[1] =~= "key-direction"@ + seq![' '] + t[1]);
                assert(option_parts("key-direction"@, t[1]));
                assert(good_option("key-direction "@ + t[1]));
                lemma_with_option_good(st, "key-direction "@ + t[1], e);
            }
        } else if d == "remote-cert-tls"@ {
            assert("remote-cert-tls server"@ =~= "remote-cert-tls"@ + seq![' '] + "server"@);
            assert(option_parts("remote-cert-tls"@, "server"@));
            assert(good_option("remote-cert-tls server"@));
            lemma_with_option_good(st, "remote-cert-tls server"@, e);
        }
    }
}

proof fn lemma_block_kind_name(name: Seq<char>)
    ensures
        block_kind(name) matches Some(k) ==> 0 <= k < 5 && name == block_name(k),
{
}

proof fn lemma_top_good(raw: Seq<char>, st: ProfileState, e: Ipv4Addr)
    requires
        good_state(st, e),
    ensures
        top_line_step(raw, st, e) matches Ok((n, m)) ==> good_state(n, e) && good_mode(m),
{
    let line = trim(raw);
    if !(line.len() == 0 || line[0] == '#' || line[0] == ';') {
        match opening_block_name(line) {
            Some(name) => {
                lemma_block_kind_name(name);
                assert(join_lines(Seq::<Seq<char>>::empty()) == Seq::<char>::empty());
                assert(body_ok(Seq::<Seq<char>>::empty(), 0));
                assert(byte_len(Seq::<char>::empty()) == 0);
                if let Some(kind) = block_kind(name) {
                    assert(body_ok(Seq::<Seq<char>>::empty(), kind));
                }
            },
            None => {
                lemma_directive_good(tokens(line), st, e);
            },
        }
    }
}

proof fn lemma_prefix_byte_len(s: Seq<char>, n: int)
    requires
        0 <= n <= s.len(),
    ensures
        byte_len(s.subrange(0, n)) <= byte_len(s),
{
    assert(s =~= s.subrange(0, n) + s.subrange(n, s.len() as int));
    lemma_byte_len_add(s.subrange(0, n), s.subrange(n, s.len() as int));
}

proof fn lemma_block_good(raw: Seq<char>, kind: int, name: Seq<char>, body: Seq<char>, st: ProfileState, e: Ipv4Addr)
    requires
        good_state(st, e),
        good_mode(LineMode::Block { kind, name, body }),
        no_newline(raw),
        byte_len(raw) <= MAX_LINE_BYTES,
    ensures
        block_line_step(raw, kind, name, body, st) matches Ok((n, m)) ==> good_state(n, e) && good_mode(m),
{
    let line = trim_end_cr(raw);
    let bls = choose|bls: Seq<Seq<char>>| body == join_lines(bls) && body_ok(bls, kind) && byte_len(body) <= MAX_BLOCK_BYTES;
    if trim(line) == "</"@ + name + ">"@ {
        if !(trim(body).len() == 0 || st.blocks[kind] is Some) {
            assert(good_body(body, kind));
            let n = ProfileState { blocks: st.blocks.update(kind, Some(body)), ..st };
            assert forall|k: int| 0 <= k < 5 implies (#[trigger] n.blocks[k] matches Some(b) ==> good_body(b, k)) by {
                if k != kind {
                    assert(n.blocks[k] == st.blocks[k]);
                }
            }
        }
    } else if !(opening_block_name(trim(line)) is Some || line.contains('\0')) {
        if byte_len(body) + byte_len(line) + 1 <= MAX_BLOCK_BYTES {
            lemma_trim_end_cr_shorter(raw);
            lemma_trim_end_cr_shorter(line);
            assert(line == raw.subrange(0, line.len() as int));
            lemma_prefix_byte_len(raw, line.len() as int);
            assert(no_newline(line)) by {
                assert forall|k: int| 0 <= k < line.len() implies line[k] != '\n' by {
                    assert(line[k] == raw[k]);
                }
            }
            assert(trim_end_cr(line) == line) by {
                if line.len() > 0 {
                    assert(line.last() != '\r');
                }
            }
            assert(body_line_ok(line, kind));
            let nb = bls.push(line);
            assert(nb.take(nb.len() - 1) =~= bls);
            assert(nb.take(nb.len() as int) =~= nb);
            lemma_join_push(nb, nb.len() - 1);
            assert(body_ok(nb, kind)) by {
                assert forall|j: int| 0 <= j < nb.len() implies body_line_ok(#[trigger] nb[j], kind) by {
                    if j < bls.len() {
                        assert(nb[j] == bls[j]);
                    }
                }
            }
            lemma_byte_len_add(body, line);
            lemma_byte_len_add(body + line, seq!['\n']);
            assert(byte_len(seq!['\n']) == 1) by {
                reveal_with_fuel(byte_len, 2);
                assert(seq!['\n'].drop_last() =~= Seq::<char>::empty());
            }
            assert(join_lines(nb) == body + line + seq!['\n']);
        }
    }
}

/// Every state a scan reaches is good.
proof fn lemma_scan_good(ls: Seq<Seq<char>>, i: int, st: ProfileState, mode: LineMode, e: Ipv4Addr)
    requires
        0 <= i,
        good_state(st, e),
        good_mode(mode),
        forall|m: int| 0 <= m < ls.len() ==> no_newline(#[trigger] ls[m]) && byte_len(ls[m]) <= MAX_LINE_BYTES,
    ensures
        scan(ls, i, st, mode, e) matches Ok(s) ==> good_state(s, e),
    decreases ls.len() - i,
{
    if i < ls.len() {
        assert(no_newline(ls[i]) && byte_len(ls[i]) <= MAX_LINE_BYTES);
        match mode {
            LineMode::Top => {
                lemma_top_good(ls[i], st, e);
                if let Ok((n, m)) = top_line_step(ls[i], st, e) {
                    lemma_scan_good(ls, i + 1, n, m, e);
                }
            },
            LineMode::Block { kind, name, body } => {
                lemma_block_good(ls[i], kind, name, body, st, e);
                if let Ok((n, m)) = block_line_step(ls[i], kind, name, body, st) {
                    lemma_scan_good(ls, i + 1, n, m, e);
                }
            },
        }
    }
}

proof fn lemma_lines_scan_plain(s: Seq<char>, start: int, i: int)
    requires
        0 <= start <= i <= s.len(),
        forall|k: int| start <= k < i ==> s[k] != '\n',
    ensures
        forall|m: int| 0 <= m < lines_scan(s, start, i).len() ==> no_newline(#[trigger] lines_scan(s, start, i)[m]),
    decreases s.len() - i,
{
    let r = lines_scan(s, start, i);
    if i >= s.len() {
        if start < s.len() {
            let l = s.subrange(start, s.len() as int);
            assert forall|k: int| 0 <= k < l.len() implies l[k] != '\n' by {
                assert(l[k] == s[start + k]);
            }
            assert(no_newline(l));
            assert(r == seq![l]);
            assert(r[0] == l);
        }
    } else if s[i] == '\n' {
        let l = s.subrange(start, i);
        assert forall|k: int| 0 <= k < strip_cr(l).len() implies strip_cr(l)[k] != '\n' by {
            assert(strip_cr(l)[k] == l[k]);
            assert(l[k] == s[start + k]);
        }
        lemma_lines_scan_plain(s, i + 1, i + 1);
        let rest = lines_scan(s, i + 1, i + 1);
        assert(no_newline(strip_cr(l)));
        assert(r == seq![strip_cr(l)] + rest);
        assert forall|m: int| 0 <= m < r.len() implies no_newline(#[trigger] r[m]) by {
            if m == 0 {
                assert(r[0] == strip_cr(l));
            } else {
                assert(r[m] == rest[m - 1]);
            }
        }
    } else {
        lemma_lines_scan_plain(s, start, i + 1);
        assert(r == lines_scan(s, start, i + 1));
    }
}

/// Sanitizing a sanitized profile succeeds and keeps its remote, as long as
/// the rendered profile is itself within the size limit.
#[verifier::rlimit(80)]
pub proof fn sanitized_profile_is_accepted_again(input: Seq<u8>, expected: Ipv4Addr)
    requires
        sanitized(input, expected) is Ok,
        encode_utf8(sanitized(input, expected)->Ok_0.0).len() <= MAX_PROFILE_BYTES,
    ensures
        sanitized(encode_utf8(sanitized(input, expected)->Ok_0.0), expected) matches Ok((_, remote))
            && remote == sanitized(input, expected)->Ok_0.1,
{
    let ls = lines(decode_utf8(input));
    lemma_lines_scan_plain(decode_utf8(input), 0, 0);
    assert forall|m: int| 0 <= m < ls.len() implies no_newline(#[trigger] ls[m]) && byte_len(ls[m]) <= MAX_LINE_BYTES by {
        if byte_len(ls[m]) > MAX_LINE_BYTES {
            assert(exists|k: int| 0 <= k < ls.len() && byte_len(#[trigger] ls[k]) > MAX_LINE_BYTES);
        }
    }
    let init = initial_state();
    assert(good_state(init, expected));
    lemma_scan_good(ls, 0, init, LineMode::Top, expected);
    let st = scan(ls, 0, init, LineMode::Top, expected)->Ok_0;
    let (text, remote) = sanitized(input, expected)->Ok_0;
    assert(finish(st) == Ok::<(Seq<char>, (Ipv4Addr, u16)), ProfileError>((text, remote)));
    assert(good_state(st, expected));
    let bodies = Seq::new(5, |k: int| choose|bls: Seq<Seq<char>>| #![trigger join_lines(bls)] st.blocks[k] matches Some(b) && b == join_lines(bls)
        && body_ok(bls, k) && byte_len(b) <= MAX_BLOCK_BYTES && trim(b).len() > 0);
    assert forall|k: int| 0 <= k < 5 implies (#[trigger] st.blocks[k] matches Some(b) ==> {
        &&& b == join_lines(bodies[k])
        &&& body_ok(bodies[k], k)
        &&& byte_len(b) <= MAX_BLOCK_BYTES
        &&& trim(b).len() > 0
    }) by {
        if let Some(b) = st.blocks[k] {
            assert(good_body(b, k));
        }
    }
    assert(bodies_match(st, bodies));
    lemma_render_lines(st, remote, bodies);
    let r = rendered_lines(st, remote, bodies);
    lemma_rendered_plain(st, remote, bodies);
    lemma_rescan(st, remote, bodies, expected);
    let bytes = encode_utf8(text);
    vstd::utf8::encode_utf8_valid_utf8(text);
    vstd::utf8::encode_utf8_decode_utf8(text);
    assert(forall|m: int| 0 <= m < r.len() ==> no_newline(#[trigger] r[m])) by {
        assert forall|m: int| 0 <= m < r.len() implies no_newline(#[trigger] r[m]) by {
            assert(plain_line(r[m]));
        }
    }
    lemma_lines_join(r, Seq::empty());
    assert(join_lines(r) + Seq::<char>::empty() =~= text);
    assert(lines(Seq::<char>::empty()) =~= Seq::<Seq<char>>::empty());
    let mapped = r.map_values(|l: Seq<char>| strip_cr(l));
    assert(mapped =~= r) by {
        assert forall|m: int| 0 <= m < r.len() implies #[trigger] mapped[m] == r[m] by {
            assert(plain_line(r[m]));
        }
    }
    assert(lines(decode_utf8(bytes)) =~= r);
    assert(!(exists|k: int| 0 <= k < r.len() && byte_len(#[trigger] r[k]) > MAX_LINE_BYTES)) by {
        assert forall|k: int| 0 <= k < r.len() implies byte_len(#[trigger] r[k]) <= MAX_LINE_BYTES by {
            assert(plain_line(r[k]));
        }
    }
}

/// A value a tuning directive may carry: 1 to 16 bytes of ASCII letters,
/// digits and `-`.
pub open spec fn tuning_value(w: Seq<char>) -> bool {
    &&& w.len() > 0
    &&& byte_len(w) <= 16
    &&& forall|k: int| 0 <= k < w.len() ==> (is_ascii_alnum(#[trigger] w[k]) || w[k] == '-')
}

/// The connection-tuning directives of VPN Gate profiles (`resolv-retry`,
/// `connect-retry`, `connect-retry-max`, `connect-timeout`,
/// `server-poll-timeout`, `verb`, `mute`) with a short value are accepted and
/// dropped: outside an inline block such a line leaves the sanitizer's state
/// as it was, whatever that state is.
pub proof fn tuning_directives_are_ignored(d: Seq<char>, w: Seq<char>, st: ProfileState, e: Ipv4Addr)
    requires
        d == "resolv-retry"@ || d == "connect-retry"@ || d == "connect-retry-max"@ || d == "connect-timeout"@
            || d == "server-poll-timeout"@ || d == "verb"@ || d == "mute"@,
        tuning_value(w),
    ensures
        top_line_step(d + seq![' '] + w, st, e) == Ok::<(ProfileState, LineMode), ProfileError>((st, LineMode::Top)),
{
    reveal_strlit("auth");
    reveal_strlit("auth-nocache");
    reveal_strlit("auth-user-pass");
    reveal_strlit("auth-user-pass-verify");
    reveal_strlit("ca");
    reveal_strlit("cd");
    reveal_strlit("cert");
    reveal_strlit("chroot");
    reveal_strlit("cipher");
    reveal_strlit("client");
    reveal_strlit("client-connect");
    reveal_strlit("client-disconnect");
    reveal_strlit("connect-retry");
    reveal_strlit("connect-retry-max");
    reveal_strlit("connect-timeout");
    reveal_strlit("daemon");
    reveal_strlit("data-ciphers");
    reveal_strlit("data-ciphers-fallback");
    reveal_strlit("dev");
    reveal_strlit("dev-type");
    reveal_strlit("down");
    reveal_strlit("group");
    reveal_strlit("http-proxy");
    reveal_strlit("ifconfig");
    reveal_strlit("ifconfig-ipv6");
    reveal_strlit("ipchange");
    reveal_strlit("key");
    reveal_strlit("key-direction");
    reveal_strlit("learn-address");
    reveal_strlit("log");
    reveal_strlit("log-append");
    reveal_strlit("management");
    reveal_strlit("management-client");
    reveal_strlit("management-external-cert");
    reveal_strlit("management-external-key");
    reveal_strlit("management-hold");
    reveal_strlit("management-query-passwords");
    reveal_strlit("mute");
    reveal_strlit("nobind");
    reveal_strlit("persist-key");
    reveal_strlit("persist-tun");
    reveal_strlit("pkcs12");
    reveal_strlit("plugin");
    reveal_strlit("proto");
    reveal_strlit("pull");
    reveal_strlit("redirect-gateway");
    reveal_strlit("remote");
    reveal_strlit("remote-cert-tls");
    reveal_strlit("resolv-retry");
    reveal_strlit("route");
    reveal_strlit("route-ipv6");
    reveal_strlit("route-pre-down");
    reveal_strlit("route-up");
    reveal_strlit("script-security");
    reveal_strlit("server-poll-timeout");
    reveal_strlit("setenv");
    reveal_strlit("socks-proxy");
    reveal_strlit("status");
    reveal_strlit("tcp");
    reveal_strlit("tcp-client");
    reveal_strlit("tcp4");
    reveal_strlit("tcp4-client");
    reveal_strlit("tls-auth");
    reveal_strlit("tls-cipher");
    reveal_strlit("tls-client");
    reveal_strlit("tls-crypt");
    reveal_strlit("tls-verify");
    reveal_strlit("tls-version-min");
    reveal_strlit("up");
    reveal_strlit("user");
    reveal_strlit("verb");
    reveal_strlit("writepid");

    if d == "resolv-retry"@ {
        assert("resolv-retry"@[0] == 'r' && "resolv-retry"@[1] == 'e' && "resolv-retry"@[2] == 's' && "resolv-retry"@[3] == 'o' && "resolv-retry"@[4] == 'l' && "resolv-retry"@[5] == 'v' && "resolv-retry"@[6] == '-' && "resolv-retry"@[7] == 'r' && "resolv-retry"@[8] == 'e' && "resolv-retry"@[9] == 't' && "resolv-retry"@[10] == 'r' && "resolv-retry"@[11] == 'y');
        assert(to_ascii_lowercase("resolv-retry"@) =~= "resolv-retry"@);
    }
    if d == "connect-retry"@ {
        assert("connect-retry"@[0] == 'c' && "connect-retry"@[1] == 'o' && "connect-retry"@[2] == 'n' && "connect-retry"@[3] == 'n' && "connect-retry"@[4] == 'e' && "connect-retry"@[5] == 'c' && "connect-retry"@[6] == 't' && "connect-retry"@[7] == '-' && "connect-retry"@[8] == 'r' && "connect-retry"@[9] == 'e' && "connect-retry"@[10] == 't' && "connect-retry"@[11] == 'r' && "connect-retry"@[12] == 'y');
        assert(to_ascii_lowercase("connect-retry"@) =~= "connect-retry"@);
    }
    if d == "connect-retry-max"@ {
        assert("connect-retry-max"@[0] == 'c' && "connect-retry-max"@[1] == 'o' && "connect-retry-max"@[2] == 'n' && "connect-retry-max"@[3] == 'n' && "connect-retry-max"@[4] == 'e' && "connect-retry-max"@[5] == 'c' && "connect-retry-max"@[6] == 't' && "connect-retry-max"@[7] == '-' && "connect-retry-max"@[8] == 'r' && "connect-retry-max"@[9] == 'e' && "connect-retry-max"@[10] == 't' && "connect-retry-max"@[11] == 'r' && "connect-retry-max"@[12] == 'y' && "connect-retry-max"@[13] == '-' && "connect-retry-max"@[14] == 'm' && "connect-retry-max"@[15] == 'a' && "connect-retry-max"@[16] == 'x');
        assert(to_ascii_lowercase("connect-retry-max"@) =~= "connect-retry-max"@);
    }
    if d == "connect-timeout"@ {
        assert("connect-timeout"@[0] == 'c' && "connect-timeout"@[1] == 'o' && "connect-timeout"@[2] == 'n' && "connect-timeout"@[3] == 'n' && "connect-timeout"@[4] == 'e' && "connect-timeout"@[5] == 'c' && "connect-timeout"@[6] == 't' && "connect-timeout"@[7] == '-' && "connect-timeout"@[8] == 't' && "connect-timeout"@[9] == 'i' && "connect-timeout"@[10] == 'm' && "connect-timeout"@[11] == 'e' && "connect-timeout"@[12] == 'o' && "connect-timeout"@[13] == 'u' && "connect-timeout"@[14] == 't');
        assert(to_ascii_lowercase("connect-timeout"@) =~= "connect-timeout"@);
    }
    if d == "server-poll-timeout"@ {
        assert("server-poll-timeout"@[0] == 's' && "server-poll-timeout"@[1] == 'e' && "server-poll-timeout"@[2] == 'r' && "server-poll-timeout"@[3] == 'v' && "server-poll-timeout"@[4] == 'e' && "server-poll-timeout"@[5] == 'r' && "server-poll-timeout"@[6] == '-' && "server-poll-timeout"@[7] == 'p' && "server-poll-timeout"@[8] == 'o' && "server-poll-timeout"@[9] == 'l' && "server-poll-timeout"@[10] == 'l' && "server-poll-timeout"@[11] == '-' && "server-poll-timeout"@[12] == 't' && "server-poll-timeout"@[13] == 'i' && "server-poll-timeout"@[14] == 'm' && "server-poll-timeout"@[15] == 'e' && "server-poll-timeout"@[16] == 'o' && "server-poll-timeout"@[17] == 'u' && "server-poll-timeout"@[18] == 't');
        assert(to_ascii_lowercase("server-poll-timeout"@) =~= "server-poll-timeout"@);
    }
    if d == "verb"@ {
        assert("verb"@[0] == 'v' && "verb"@[1] == 'e' && "verb"@[2] == 'r' && "verb"@[3] == 'b');
        assert(to_ascii_lowercase("verb"@) =~= "verb"@);
    }
    if d == "mute"@ {
        assert("mute"@[0] == 'm' && "mute"@[1] == 'u' && "mute"@[2] == 't' && "mute"@[3] == 'e');
        assert(to_ascii_lowercase("mute"@) =~= "mute"@);
    }

    assert(plain_word(d));
    assert forall|k: int| 0 <= k < w.len() implies !is_ascii_ws(#[trigger] w[k]) by {
        assert(is_ascii_alnum(w[k]) || w[k] == '-');
    }
    assert(is_ascii_alnum(w[w.len() - 1]) || w[w.len() - 1] == '-');
    lemma_tokens_two(d, w);
    let l = d + seq![' '] + w;
    assert(l[0] == d[0]);
    assert(l.last() == w.last());
    lemma_top_directive(l, seq![d, w], st, e);
    assert(seq![d, w][1] == w);
}

proof fn lemma_scan_shift(l: Seq<char>, ls: Seq<Seq<char>>, i: int, st: ProfileState, mode: LineMode, e: Ipv4Addr)
    requires
        0 <= i,
    ensures
        scan(seq![l] + ls, i + 1, st, mode, e) == scan(ls, i, st, mode, e),
    decreases ls.len() - i,
{
    let full = seq![l] + ls;
    if i < ls.len() {
        assert(full[i + 1] == ls[i]);
        let step = match mode {
            LineMode::Top => top_line_step(ls[i], st, e),
            LineMode::Block { kind, name, body } => block_line_step(ls[i], kind, name, body, st),
        };
        if let Ok((n, m)) = step {
            lemma_scan_shift(l, ls, i + 1, n, m, e);
        }
    }
}

proof fn lemma_encode_len_suffix(a: Seq<char>, b: Seq<char>)
    ensures
        encode_utf8(b).len() <= encode_utf8(a + b).len(),
    decreases a.len(),
{
    if a.len() > 0 {
        assert((a + b).drop_first() =~= a.drop_first() + b);
        assert((a + b)[0] == a[0]);
        lemma_encode_len_suffix(a.drop_first(), b);
    } else {
        assert(a + b =~= b);
    }
}

/// Adding a tuning directive line at the head of any profile text changes
/// nothing in what sanitizing it gives, as long as the longer profile is
/// within the size limit.
pub proof fn tuning_line_changes_nothing(d: Seq<char>, w: Seq<char>, text: Seq<char>, e: Ipv4Addr)
    requires
        d == "resolv-retry"@ || d == "connect-retry"@ || d == "connect-retry-max"@ || d == "connect-timeout"@
            || d == "server-poll-timeout"@ || d == "verb"@ || d == "mute"@,
        tuning_value(w),
        encode_utf8(d + seq![' '] + w + seq!['\n'] + text).len() <= MAX_PROFILE_BYTES,
    ensures
        sanitized(encode_utf8(d + seq![' '] + w + seq!['\n'] + text), e) == sanitized(encode_utf8(text), e),
{
    let l = d + seq![' '] + w;
    let full = l + seq!['\n'] + text;
    vstd::utf8::encode_utf8_valid_utf8(full);
    vstd::utf8::encode_utf8_decode_utf8(full);
    vstd::utf8::encode_utf8_valid_utf8(text);
    vstd::utf8::encode_utf8_decode_utf8(text);
    reveal_strlit("resolv-retry");
    reveal_strlit("connect-retry");
    reveal_strlit("connect-retry-max");
    reveal_strlit("connect-timeout");
    reveal_strlit("server-poll-timeout");
    reveal_strlit("verb");
    reveal_strlit("mute");
    assert(d.len() <= 19);
    assert(forall|k: int| 0 <= k < d.len() ==> d[k] != '\n' && d[k] != '\r');
    assert forall|k: int| 0 <= k < l.len() implies l[k] != '\n' by {
        if k < d.len() {
            assert(l[k] == d[k]);
        } else if k > d.len() {
            assert(l[k] == w[k - d.len() - 1]);
            assert(is_ascii_alnum(w[k - d.len() - 1]) || w[k - d.len() - 1] == '-');
        }
    }
    assert(l.last() == w.last());
    assert(is_ascii_alnum(w[w.len() - 1]) || w[w.len() - 1] == '-');
    assert(strip_cr(l) == l);
    lemma_lines_cons(l, text);
    let ls = lines(text);
    assert(lines(full) == seq![l] + ls);
    // the added line is short
    lemma_byte_len_add(d + seq![' '], w);
    lemma_byte_len_bound(d + seq![' ']);
    assert(byte_len(l) <= MAX_LINE_BYTES);
    let lsf = seq![l] + ls;
    assert((exists|k: int| 0 <= k < lsf.len() && byte_len(#[trigger] lsf[k]) > MAX_LINE_BYTES)
        <==> (exists|k: int| 0 <= k < ls.len() && byte_len(#[trigger] ls[k]) > MAX_LINE_BYTES)) by {
        if exists|k: int| 0 <= k < lsf.len() && byte_len(#[trigger] lsf[k]) > MAX_LINE_BYTES {
            let k = choose|k: int| 0 <= k < lsf.len() && byte_len(#[trigger] lsf[k]) > MAX_LINE_BYTES;
            assert(k > 0);
            assert(lsf[k] == ls[k - 1]);
        }
        if exists|k: int| 0 <= k < ls.len() && byte_len(#[trigger] ls[k]) > MAX_LINE_BYTES {
            let k = choose|k: int| 0 <= k < ls.len() && byte_len(#[trigger] ls[k]) > MAX_LINE_BYTES;
            assert(lsf[k + 1] == ls[k]);
        }
    }
    // the scan skips it
    tuning_directives_are_ignored(d, w, initial_state(), e);
    assert(lsf[0] == l);
    lemma_scan_shift(l, ls, 0, initial_state(), LineMode::Top, e);
    assert(scan(lsf, 0, initial_state(), LineMode::Top, e) == scan(lsf, 1, initial_state(), LineMode::Top, e));
    // sizes
    assert(encode_utf8(text).len() <= encode_utf8(full).len()) by {
        lemma_encode_len_suffix(l + seq!['\n'], text);
    }
}
} // verus!
