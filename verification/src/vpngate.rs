//! Defensive parsing of the VPN Gate node list.
//!
//! The document is a marker-prefixed CSV. The CSV grammar itself is read by
//! the `csv` crate; this module checks the header, enforces the limits and
//! validates every field of every row.

use vstd::prelude::*;
use vstd::utf8::{decode_utf8, encode_utf8, valid_utf8};

use base64::engine::general_purpose::STANDARD;
use base64::Engine;

use crate::domain::{
    blake3_digest, blake3_hash, is_public_ipv4, parse_ipv4, public_ipv4, Ipv4Addr,
    NodeAvailability, NodeId, VpnNode,
};
use crate::openvpn::{sanitize_openvpn, sanitized, OpenVpnConfigError, ProfileError, SanitizedOpenVpn};
use crate::text::{
    byte_len, byte_len_of, chars_to_string, copy_range, eq_str, find_chars, find_from, hex,
    parse_decimal, parse_unsigned, str_chars, trim, trim_bounds, utf8_text,
};

verus! {

/// Defensive input limits for the public CSV endpoint.
#[derive(Clone, Copy, Debug)]
pub struct CsvLimits {
    pub max_body_bytes: usize,
    pub max_rows: usize,
    pub max_profile_bytes: usize,
}

impl Default for CsvLimits {
    fn default() -> (r: CsvLimits)
        ensures
            r.max_body_bytes == 16777216,
            r.max_rows == 20000,
            r.max_profile_bytes == 262144,
    {
        CsvLimits { max_body_bytes: 16777216, max_rows: 20000, max_profile_bytes: 262144 }
    }
}

/// Counts from a tolerant CSV refresh.
#[derive(Clone, Copy, Debug, Default, PartialEq, Eq)]
pub struct ParseStats {
    pub rows_seen: usize,
    pub accepted: usize,
    pub rejected: usize,
    pub unsupported: usize,
}

/// A successfully parsed snapshot and its row-level statistics.
#[derive(Debug)]
pub struct ParsedSnapshot {
    pub nodes: Vec<VpnNode>,
    pub stats: ParseStats,
}

/// Failure of the complete refresh; individual bad rows are counted in `ParseStats`.
#[derive(Clone, Copy, Debug, PartialEq, Eq, Structural)]
pub enum VpnGateError {
    InvalidProxy,
    Client,
    Request,
    Http(u16),
    BodyTooLarge,
    InvalidUtf8,
    MissingHeader,
    InvalidHeader,
    TooManyRows,
}

/// The CSV document as the `csv` crate reads it: the header record, if it
/// could be read, and every following record (`None` for a record the reader
/// refused).
pub struct CsvTable {
    pub header: Option<Vec<String>>,
    pub rows: Vec<Option<Vec<String>>>,
}

pub open spec fn strings_view(v: Seq<String>) -> Seq<Seq<char>> {
    v.map_values(|s: String| s@)
}

pub open spec fn record_view(r: Option<Vec<String>>) -> Option<Seq<Seq<char>>> {
    match r {
        Some(v) => Some(strings_view(v@)),
        None => None,
    }
}

impl CsvTable {
    pub open spec fn header_view(&self) -> Option<Seq<Seq<char>>> {
        record_view(self.header)
    }

    pub open spec fn rows_view(&self) -> Seq<Option<Seq<Seq<char>>>> {
        self.rows@.map_values(|r: Option<Vec<String>>| record_view(r))
    }
}

/// The header and records that a flexible `csv::Reader` yields for a document.
pub uninterp spec fn csv_records(data: Seq<u8>) -> (Option<Seq<Seq<char>>>, Seq<Option<Seq<Seq<char>>>>);

/// Reads a whole document with `csv::ReaderBuilder::new().flexible(true)`:
/// `headers()` and then every item of `records()`, each record as its fields.
/// The records are a function of the bytes alone, named by `csv_records`.
#[verifier::external_body]
fn read_csv(data: &[u8]) -> (r: CsvTable)
    ensures
        (r.header_view(), r.rows_view()) == csv_records(data@),
{
    let mut reader = csv::ReaderBuilder::new().flexible(true).from_reader(data);
    let header = reader.headers().ok().map(|h| h.iter().map(|f| f.to_owned()).collect());
    let rows = reader.records().map(|rec| rec.ok().map(|rec| rec.iter().map(|f| f.to_owned()).collect())).collect();
    CsvTable { header, rows }
}

/// The bytes that standard Base64 (with padding) decodes the text to.
pub uninterp spec fn base64_decoded(text: Seq<char>) -> Option<Seq<u8>>;

/// Decodes with `base64::engine::general_purpose::STANDARD.decode`; the
/// outcome is a function of the text alone, named by `base64_decoded`.
#[verifier::external_body]
fn base64_decode(text: &str) -> (r: Option<Vec<u8>>)
    ensures
        match base64_decoded(text@) {
            Some(v) => r matches Some(x) && x@ == v,
            None => r is None,
        },
{
    STANDARD.decode(text).ok()
}

/// The column names of the expected header.
pub open spec fn expected_header(k: int) -> Seq<char> {
    if k == 0 {
        "HostName"@
    } else if k == 1 {
        "IP"@
    } else if k == 2 {
        "Score"@
    } else if k == 3 {
        "Ping"@
    } else if k == 4 {
        "Speed"@
    } else if k == 5 {
        "CountryLong"@
    } else if k == 6 {
        "CountryShort"@
    } else if k == 7 {
        "NumVpnSessions"@
    } else if k == 8 {
        "Uptime"@
    } else if k == 9 {
        "TotalUsers"@
    } else if k == 10 {
        "TotalTraffic"@
    } else if k == 11 {
        "LogType"@
    } else if k == 12 {
        "Operator"@
    } else if k == 13 {
        "Message"@
    } else {
        "OpenVPN_ConfigData_Base64"@
    }
}

pub open spec fn header_ok(h: Option<Seq<Seq<char>>>) -> bool {
    h matches Some(fs) && fs.len() == 15 && forall|k: int| 0 <= k < 15 ==> #[trigger] fs[k] == expected_header(k)
}

fn expected_header_str(k: usize) -> (r: &'static str)
    requires
        k < 15,
    ensures
        r@ == expected_header(k as int),
{
    if k == 0 {
        "HostName"
    } else if k == 1 {
        "IP"
    } else if k == 2 {
        "Score"
    } else if k == 3 {
        "Ping"
    } else if k == 4 {
        "Speed"
    } else if k == 5 {
        "CountryLong"
    } else if k == 6 {
        "CountryShort"
    } else if k == 7 {
        "NumVpnSessions"
    } else if k == 8 {
        "Uptime"
    } else if k == 9 {
        "TotalUsers"
    } else if k == 10 {
        "TotalTraffic"
    } else if k == 11 {
        "LogType"
    } else if k == 12 {
        "Operator"
    } else if k == 13 {
        "Message"
    } else {
        "OpenVPN_ConfigData_Base64"
    }
}

/// A text field is kept trimmed when it fits in `max` bytes and has no NUL.
pub open spec fn text_ok(v: Seq<char>, max: nat) -> bool {
    byte_len(trim(v)) <= max && !trim(v).contains('\0')
}

/// An optional ping: blank or `-` is none, otherwise a `u32`.
pub open spec fn optional_u32(v: Seq<char>) -> Option<Option<u32>> {
    let t = trim(v);
    if t.len() == 0 || t == "-"@ {
        Some(None)
    } else {
        match parse_unsigned(t, u32::MAX as nat) {
            Some(x) => Some(Some(x as u32)),
            None => None,
        }
    }
}

pub open spec fn u64_field(v: Seq<char>, max: nat) -> Option<nat> {
    parse_unsigned(trim(v), max)
}

/// Longest Base64 text accepted for a profile of at most `max_profile` bytes.
pub open spec fn max_encoded_len(max_profile: nat) -> int {
    let padded: int = if max_profile + 2 > usize::MAX { usize::MAX as int } else { max_profile + 2int };
    padded / 3 * 4 + 4
}

/// All checks of one 15-field row.
pub open spec fn fields_accepted(f: Seq<Seq<char>>, max_profile: nat) -> bool {
    &&& text_ok(f[0], 255)
    &&& parse_ipv4(f[1]) matches Some(ip) && public_ipv4(ip)
    &&& u64_field(f[2], u64::MAX as nat) is Some
    &&& optional_u32(f[3]) is Some
    &&& u64_field(f[4], u64::MAX as nat) is Some
    &&& text_ok(f[5], 128)
    &&& text_ok(f[6], 8)
    &&& u64_field(f[7], u32::MAX as nat) is Some
    &&& u64_field(f[8], u64::MAX as nat) is Some
    &&& u64_field(f[9], u64::MAX as nat) is Some
    &&& u64_field(f[10], u64::MAX as nat) is Some
    &&& text_ok(f[11], 64)
    &&& text_ok(f[12], 512)
    &&& text_ok(f[13], 4096)
    &&& profile_field_ok(f[14], max_profile)
}

/// The Base64 profile field fits the limits and decodes.
pub open spec fn profile_field_ok(field: Seq<char>, max_profile: nat) -> bool {
    &&& byte_len(trim(field)) <= max_encoded_len(max_profile)
    &&& base64_decoded(trim(field)) matches Some(p) && p.len() <= max_profile
}

/// Bytes hashed for a node's stable identity.
pub open spec fn node_id_input(hostname: Seq<char>, ip: Ipv4Addr, port: u16, digest: Seq<u8>) -> Seq<u8> {
    encode_utf8(hostname) + seq![0u8] + seq![ip.a, ip.b, ip.c, ip.d] + seq![(port / 256) as u8, (port % 256) as u8] + digest
}

/// Availability, profile, port and identity of a node follow the sanitizer's
/// verdict on its decoded profile.
pub open spec fn profile_outcome(n: VpnNode, profile: Seq<u8>) -> bool {
    profile_parts(n.hostname@, n.ip, profile, n.availability, n.openvpn, n.tcp_port, n.id@)
}

pub open spec fn profile_parts(
    hostname: Seq<char>,
    ip: Ipv4Addr,
    profile: Seq<u8>,
    availability: NodeAvailability,
    openvpn: Option<SanitizedOpenVpn>,
    tcp_port: Option<u16>,
    id: Seq<char>,
) -> bool {
    match sanitized(profile, ip) {
        Ok((text, remote)) => {
            let digest = blake3_digest(encode_utf8(text));
            &&& availability == NodeAvailability::Available
            &&& openvpn matches Some(p) && p.spec_text() == text && p.spec_remote() == remote
                && p.spec_digest() == digest
            &&& tcp_port == (if remote.1 == 0 { None } else { Some(remote.1) })
            &&& id == hex(blake3_digest(node_id_input(hostname, ip, remote.1, digest)))
        },
        Err(e) => {
            &&& availability == (if e is UnsupportedProtocol {
                NodeAvailability::UnsupportedProtocol
            } else {
                NodeAvailability::InvalidConfig
            })
            &&& openvpn is None
            &&& tcp_port is None
            &&& id == hex(blake3_digest(node_id_input(hostname, ip, 0, blake3_digest(profile))))
        },
    }
}

/// The node built from an accepted row.
pub open spec fn node_matches(n: VpnNode, f: Seq<Seq<char>>) -> bool {
    &&& n.hostname@ == trim(f[0])
    &&& Some(n.ip) == parse_ipv4(f[1])
    &&& Some(n.score as nat) == u64_field(f[2], u64::MAX as nat)
    &&& Some(n.ping_ms) == optional_u32(f[3])
    &&& Some(n.speed_bps as nat) == u64_field(f[4], u64::MAX as nat)
    &&& n.country_long@ == trim(f[5])
    &&& n.country_short@ == trim(f[6])
    &&& Some(n.sessions as nat) == u64_field(f[7], u32::MAX as nat)
    &&& Some(n.uptime_ms as nat) == u64_field(f[8], u64::MAX as nat)
    &&& Some(n.total_users as nat) == u64_field(f[9], u64::MAX as nat)
    &&& Some(n.total_traffic_bytes as nat) == u64_field(f[10], u64::MAX as nat)
    &&& n.log_type@ == trim(f[11])
    &&& n.operator@ == trim(f[12])
    &&& n.message@ == trim(f[13])
    &&& profile_outcome(n, base64_decoded(trim(f[14])).unwrap())
}

/// Whether an accepted row's profile sanitized successfully.
pub open spec fn row_available(f: Seq<Seq<char>>) -> bool {
    sanitized(base64_decoded(trim(f[14])).unwrap(), parse_ipv4(f[1]).unwrap()) is Ok
}

/// A single-field record starting with `*` ends the node list.
pub open spec fn is_end_marker(row: Option<Seq<Seq<char>>>) -> bool {
    row matches Some(fs) && fs.len() == 1 && fs[0].len() > 0 && fs[0][0] == '*'
}

/// Row counters of a scan.
pub struct RowCounts {
    pub seen: nat,
    pub accepted: nat,
    pub rejected: nat,
    pub unsupported: nat,
}

pub open spec fn rejected_row(c: RowCounts) -> RowCounts {
    RowCounts { seen: c.seen + 1, rejected: c.rejected + 1, ..c }
}

pub open spec fn accepted_row(c: RowCounts, available: bool) -> RowCounts {
    RowCounts {
        seen: c.seen + 1,
        accepted: c.accepted + 1,
        unsupported: if available { c.unsupported } else { c.unsupported + 1 },
        ..c
    }
}

/// The records from `i` on: the counters and the indices of the rows that
/// became nodes, or `None` when the row limit is exceeded.
pub open spec fn rows_scan(rows: Seq<Option<Seq<Seq<char>>>>, i: int, limits: CsvLimits, c: RowCounts, kept: Seq<int>) -> Option<(RowCounts, Seq<int>)>
    decreases rows.len() - i,
{
    if i < 0 || i >= rows.len() || is_end_marker(rows[i]) {
        Some((c, kept))
    } else if c.seen >= limits.max_rows {
        None
    } else {
        match rows[i] {
            Some(fs) => if fs.len() == 15 && fields_accepted(fs, limits.max_profile_bytes as nat) {
                rows_scan(rows, i + 1, limits, accepted_row(c, row_available(fs)), kept.push(i))
            } else {
                rows_scan(rows, i + 1, limits, rejected_row(c), kept)
            },
            None => rows_scan(rows, i + 1, limits, rejected_row(c), kept),
        }
    }
}

pub open spec fn zero_counts() -> RowCounts {
    RowCounts { seen: 0, accepted: 0, rejected: 0, unsupported: 0 }
}

pub open spec fn counts_of(s: ParseStats) -> RowCounts {
    RowCounts {
        seen: s.rows_seen as nat,
        accepted: s.accepted as nat,
        rejected: s.rejected as nat,
        unsupported: s.unsupported as nat,
    }
}

pub open spec fn stats_match(s: ParseStats, c: RowCounts) -> bool {
    s.rows_seen == c.seen && s.accepted == c.accepted && s.rejected == c.rejected && s.unsupported == c.unsupported
}

/// What the records of a read CSV document give.
pub open spec fn snapshot_from(
    header: Option<Seq<Seq<char>>>,
    rows: Seq<Option<Seq<Seq<char>>>>,
    limits: CsvLimits,
    r: Result<ParsedSnapshot, VpnGateError>,
) -> bool {
    if !header_ok(header) {
        r == Err::<ParsedSnapshot, VpnGateError>(VpnGateError::InvalidHeader)
    } else {
        match rows_scan(rows, 0, limits, zero_counts(), Seq::empty()) {
            None => r == Err::<ParsedSnapshot, VpnGateError>(VpnGateError::TooManyRows),
            Some((c, kept)) => r matches Ok(s) && stats_match(s.stats, c) && s.nodes@.len() == kept.len()
                && forall|k: int| 0 <= k < kept.len() ==> node_matches(#[trigger] s.nodes@[k], rows[kept[k]].unwrap()),
        }
    }
}

/// Limits under which the encoded-length bound is computed without overflow.
pub open spec fn limits_ok(limits: CsvLimits) -> bool {
    max_encoded_len(limits.max_profile_bytes as nat) <= usize::MAX
}

fn trimmed_str(s: &str) -> (r: Vec<char>)
    ensures
        r@ == trim(s@),
{
    let v = str_chars(s);
    let (a, b) = trim_bounds(v.as_slice());
    copy_range(v.as_slice(), a, b)
}

fn has_nul(s: &[char]) -> (r: bool)
    ensures
        r == s@.contains('\0'),
{
    let mut i: usize = 0;
    while i < s.len()
        invariant
            i <= s@.len(),
            forall|k: int| 0 <= k < i ==> s@[k] != '\0',
        decreases s.len() - i,
    {
        if s[i] == '\0' {
            assert(s@[i as int] == '\0');
            return true;
        }
        i = i + 1;
    }
    false
}

/// A trimmed text field of at most `maximum` bytes without NUL.
fn bounded_text(value: &str, maximum: usize) -> (r: Result<String, ()>)
    requires
        maximum < usize::MAX,
    ensures
        r is Ok <==> text_ok(value@, maximum as nat),
        r matches Ok(s) ==> s@ == trim(value@),
{
    let t = trimmed_str(value);
    if byte_len_of(t.as_slice()) <= maximum && !has_nul(t.as_slice()) {
        Ok(chars_to_string(t.as_slice()))
    } else {
        Err(())
    }
}

/// A trimmed unsigned integer of at most `maximum`.
fn parse_bounded_u64(value: &str, maximum: u64) -> (r: Result<u64, ()>)
    ensures
        match u64_field(value@, maximum as nat) {
            Some(x) => r == Ok::<u64, ()>(x as u64),
            None => r is Err,
        },
{
    let t = trimmed_str(value);
    match parse_decimal(t.as_slice(), maximum) {
        Some(x) => Ok(x),
        None => Err(()),
    }
}

/// A ping in milliseconds; blank or `-` means it was not measured.
fn parse_optional_u32(value: &str) -> (r: Result<Option<u32>, ()>)
    ensures
        match optional_u32(value@) {
            Some(x) => r == Ok::<Option<u32>, ()>(x),
            None => r is Err,
        },
{
    let t = trimmed_str(value);
    if t.len() == 0 || eq_str(t.as_slice(), "-") {
        return Ok(None);
    }
    match parse_decimal(t.as_slice(), 4294967295) {
        Some(x) => Ok(Some(x as u32)),
        None => Err(()),
    }
}

/// The stable identity of a node.
fn stable_node_id(hostname: &str, ip: Ipv4Addr, port: u16, digest: &[u8; 32]) -> (r: NodeId)
    ensures
        r@ == hex(blake3_digest(node_id_input(hostname@, ip, port, digest@))),
{
    let mut bytes: Vec<u8> = Vec::new();
    let h = hostname.as_bytes();
    let mut i: usize = 0;
    while i < h.len()
        invariant
            i <= h@.len(),
            bytes@ == h@.subrange(0, i as int),
        decreases h.len() - i,
    {
        bytes.push(h[i]);
        i = i + 1;
    }
    assert(h@.subrange(0, h@.len() as int) =~= h@);
    bytes.push(0u8);
    bytes.push(ip.a);
    bytes.push(ip.b);
    bytes.push(ip.c);
    bytes.push(ip.d);
    bytes.push((port / 256) as u8);
    bytes.push((port % 256) as u8);
    let ghost before_digest = bytes@;
    let mut k: usize = 0;
    while k < 32
        invariant
            k <= 32,
            bytes@ == before_digest + digest@.subrange(0, k as int),
        decreases 32 - k,
    {
        bytes.push(digest[k]);
        k = k + 1;
    }
    assert(digest@.subrange(0, 32) =~= digest@);
    assert(bytes@ =~= node_id_input(hostname@, ip, port, digest@));
    let d = blake3_hash(bytes.as_slice());
    NodeId::from_digest(&d)
}

/// The availability, sanitized profile, port and identity of a node, from its
/// Base64 profile field.
fn node_profile(hostname: &str, ip: Ipv4Addr, field: &str, max_profile_bytes: usize) -> (r: Result<(NodeAvailability, Option<SanitizedOpenVpn>, Option<u16>, NodeId), ()>)
    requires
        max_encoded_len(max_profile_bytes as nat) <= usize::MAX,
    ensures
        r is Ok <==> profile_field_ok(field@, max_profile_bytes as nat),
        r matches Ok((availability, openvpn, tcp_port, id)) ==> profile_parts(hostname@, ip, base64_decoded(trim(field@)).unwrap(), availability, openvpn, tcp_port, id@),
{
    let encoded = trimmed_str(field);
    let padded = max_profile_bytes.saturating_add(2);
    let max_encoded = padded / 3 * 4 + 4;
    if byte_len_of(encoded.as_slice()) > max_encoded {
        return Err(());
    }
    let encoded_text = chars_to_string(encoded.as_slice());
    let profile = match base64_decode(encoded_text.as_str()) {
        Some(p) => p,
        None => {
            return Err(());
        },
    };
    if profile.len() > max_profile_bytes {
        return Err(());
    }
    let raw_digest = blake3_hash(profile.as_slice());
    let (availability, openvpn, tcp_port, id) = match sanitize_openvpn(profile.as_slice(), ip) {
        Ok(p) => {
            let remote = p.remote();
            let digest = p.digest();
            let id = stable_node_id(hostname, ip, remote.1, &digest);
            let port = if remote.1 == 0 {
                None
            } else {
                Some(remote.1)
            };
            (NodeAvailability::Available, Some(p), port, id)
        },
        Err(e) => {
            let availability = match e {
                OpenVpnConfigError::UnsupportedProtocol => NodeAvailability::UnsupportedProtocol,
                _ => NodeAvailability::InvalidConfig,
            };
            let id = stable_node_id(hostname, ip, 0, &raw_digest);
            (availability, None, None, id)
        },
    };
    Ok((availability, openvpn, tcp_port, id))
}

/// Builds a node from the 15 fields of a row.
fn parse_node(record: &Vec<String>, max_profile_bytes: usize) -> (r: Result<VpnNode, ()>)
    requires
        record@.len() == 15,
        max_encoded_len(max_profile_bytes as nat) <= usize::MAX,
    ensures
        r is Ok <==> fields_accepted(strings_view(record@), max_profile_bytes as nat),
        r matches Ok(n) ==> node_matches(n, strings_view(record@)),
{
    let ghost f = strings_view(record@);
    assert(forall|k: int| 0 <= k < 15 ==> #[trigger] f[k] == record@[k]@);
    let hostname = match bounded_text(record[0].as_str(), 255) {
        Ok(v) => v,
        Err(()) => {
            return Err(());
        },
    };
    let ip = match Ipv4Addr::parse(record[1].as_str()) {
        Some(ip) => ip,
        None => {
            return Err(());
        },
    };
    if !is_public_ipv4(ip) {
        return Err(());
    }
    let score = match parse_bounded_u64(record[2].as_str(), u64::MAX) {
        Ok(v) => v,
        Err(()) => {
            return Err(());
        },
    };
    let ping_ms = match parse_optional_u32(record[3].as_str()) {
        Ok(v) => v,
        Err(()) => {
            return Err(());
        },
    };
    let speed_bps = match parse_bounded_u64(record[4].as_str(), u64::MAX) {
        Ok(v) => v,
        Err(()) => {
            return Err(());
        },
    };
    let country_long = match bounded_text(record[5].as_str(), 128) {
        Ok(v) => v,
        Err(()) => {
            return Err(());
        },
    };
    let country_short = match bounded_text(record[6].as_str(), 8) {
        Ok(v) => v,
        Err(()) => {
            return Err(());
        },
    };
    let sessions = match parse_bounded_u64(record[7].as_str(), 4294967295) {
        Ok(v) => v,
        Err(()) => {
            return Err(());
        },
    };
    let uptime_ms = match parse_bounded_u64(record[8].as_str(), u64::MAX) {
        Ok(v) => v,
        Err(()) => {
            return Err(());
        },
    };
    let total_users = match parse_bounded_u64(record[9].as_str(), u64::MAX) {
        Ok(v) => v,
        Err(()) => {
            return Err(());
        },
    };
    let total_traffic_bytes = match parse_bounded_u64(record[10].as_str(), u64::MAX) {
        Ok(v) => v,
        Err(()) => {
            return Err(());
        },
    };
    let log_type = match bounded_text(record[11].as_str(), 64) {
        Ok(v) => v,
        Err(()) => {
            return Err(());
        },
    };
    let operator = match bounded_text(record[12].as_str(), 512) {
        Ok(v) => v,
        Err(()) => {
            return Err(());
        },
    };
    let message = match bounded_text(record[13].as_str(), 4096) {
        Ok(v) => v,
        Err(()) => {
            return Err(());
        },
    };
    let (availability, openvpn, tcp_port, id) = match node_profile(hostname.as_str(), ip, record[14].as_str(), max_profile_bytes) {
        Ok(parts) => parts,
        Err(()) => {
            return Err(());
        },
    };
    Ok(
        VpnNode {
            id,
            hostname,
            ip,
            score,
            ping_ms,
            speed_bps,
            country_long,
            country_short,
            sessions: sessions as u32,
            uptime_ms,
            total_users,
            total_traffic_bytes,
            log_type,
            operator,
            message,
            tcp_port,
            availability,
            openvpn,
        },
    )
}

fn header_matches(header: &Option<Vec<String>>) -> (r: bool)
    ensures
        r == header_ok(record_view(*header)),
{
    match header {
        None => false,
        Some(fields) => {
            if fields.len() != 15 {
                return false;
            }
            let ghost f = strings_view(fields@);
            assert(record_view(*header) == Some(f));
            let mut k: usize = 0;
            while k < 15
                invariant
                    k <= 15,
                    record_view(*header) == Some(f),
                    fields@.len() == 15,
                    f == strings_view(fields@),
                    forall|m: int| 0 <= m < k ==> #[trigger] f[m] == expected_header(m),
                decreases 15 - k,
            {
                let name = str_chars(fields[k].as_str());
                assert(f[k as int] == fields@[k as int]@);
                if !eq_str(name.as_slice(), expected_header_str(k)) {
                    assert(f[k as int] != expected_header(k as int));
                    assert(record_view(*header) == Some(f));
                    return false;
                }
                assert(f[k as int] == fields@[k as int]@);
                k = k + 1;
            }
            assert(record_view(*header) == Some(f));
            true
        },
    }
}

fn is_end_row(row: &Option<Vec<String>>) -> (r: bool)
    ensures
        r == is_end_marker(record_view(*row)),
{
    match row {
        Some(fields) => {
            if fields.len() != 1 {
                return false;
            }
            let first = str_chars(fields[0].as_str());
            assert(strings_view(fields@)[0] == fields@[0]@);
            first.len() > 0 && first[0] == '*'
        },
        None => false,
    }
}

/// Turns the records of a read CSV document into nodes and statistics.
pub fn parse_records(table: CsvTable, limits: CsvLimits) -> (r: Result<ParsedSnapshot, VpnGateError>)
    requires
        limits_ok(limits),
    ensures
        snapshot_from(table.header_view(), table.rows_view(), limits, r),
{
    if !header_matches(&table.header) {
        return Err(VpnGateError::InvalidHeader);
    }
    let ghost rows = table.rows_view();
    let ghost total = rows_scan(rows, 0, limits, zero_counts(), Seq::empty());
    let mut nodes: Vec<VpnNode> = Vec::new();
    let mut stats = ParseStats { rows_seen: 0, accepted: 0, rejected: 0, unsupported: 0 };
    let ghost mut kept: Seq<int> = Seq::empty();
    let mut i: usize = 0;
    while i < table.rows.len()
        invariant
            i <= table.rows@.len(),
            rows == table.rows_view(),
            header_ok(table.header_view()),
            limits_ok(limits),
            stats.rows_seen <= limits.max_rows,
            stats.accepted + stats.rejected == stats.rows_seen,
            stats.unsupported <= stats.accepted,
            nodes@.len() == kept.len(),
            forall|k: int| 0 <= k < kept.len() ==> 0 <= #[trigger] kept[k] < i && rows[kept[k]] is Some
                && rows[kept[k]].unwrap().len() == 15,
            forall|k: int| 0 <= k < kept.len() ==> node_matches(#[trigger] nodes@[k], rows[kept[k]].unwrap()),
            total == rows_scan(rows, i as int, limits, counts_of(stats), kept),
            total == rows_scan(rows, 0, limits, zero_counts(), Seq::<int>::empty()),
        ensures
            total == Some((counts_of(stats), kept)),
            nodes@.len() == kept.len(),
            forall|k: int| 0 <= k < kept.len() ==> node_matches(#[trigger] nodes@[k], rows[kept[k]].unwrap()),
        decreases table.rows.len() - i,
    {
        let row = &table.rows[i];
        assert(rows[i as int] == record_view(*row));
        if is_end_row(row) {
            break;
        }
        if stats.rows_seen >= limits.max_rows {
            return Err(VpnGateError::TooManyRows);
        }
        stats.rows_seen = stats.rows_seen + 1;
        match row {
            None => {
                stats.rejected = stats.rejected + 1;
            },
            Some(fields) => {
                if fields.len() != 15 {
                    stats.rejected = stats.rejected + 1;
                } else {
                    match parse_node(fields, limits.max_profile_bytes) {
                        Ok(node) => {
                            proof {
                                assert(sanitized(
                                    base64_decoded(trim(strings_view(fields@)[14])).unwrap(),
                                    parse_ipv4(strings_view(fields@)[1]).unwrap(),
                                ) is Ok <==> node.availability == NodeAvailability::Available);
                            }
                            if node.availability != NodeAvailability::Available {
                                stats.unsupported = stats.unsupported + 1;
                            }
                            stats.accepted = stats.accepted + 1;
                            nodes.push(node);
                            proof {
                                kept = kept.push(i as int);
                            }
                        },
                        Err(()) => {
                            stats.rejected = stats.rejected + 1;
                        },
                    }
                }
            },
        }
        i = i + 1;
    }
    let snapshot = ParsedSnapshot { nodes, stats };
    Ok(snapshot)
}

/// Where the CSV starts: just after the `#` of the first `#HostName,`.
pub open spec fn header_start(text: Seq<char>) -> Option<int> {
    match find_from(text, "#HostName,"@, 0) {
        Some(k) => Some(k + 1),
        None => None,
    }
}

/// Parses the marker-prefixed CSV returned by VPN Gate.
pub fn parse_snapshot(input: &[u8], limits: CsvLimits) -> (r: Result<ParsedSnapshot, VpnGateError>)
    requires
        limits_ok(limits),
    ensures
        input@.len() > limits.max_body_bytes ==> r == Err::<ParsedSnapshot, VpnGateError>(VpnGateError::BodyTooLarge),
        input@.len() <= limits.max_body_bytes && !valid_utf8(input@) ==> r == Err::<ParsedSnapshot, VpnGateError>(VpnGateError::InvalidUtf8),
        input@.len() <= limits.max_body_bytes && valid_utf8(input@) ==> match header_start(decode_utf8(input@)) {
            None => r == Err::<ParsedSnapshot, VpnGateError>(VpnGateError::MissingHeader),
            Some(start) => {
                let t = csv_records(encode_utf8(decode_utf8(input@).skip(start)));
                snapshot_from(t.0, t.1, limits, r)
            },
        },
{
    if input.len() > limits.max_body_bytes {
        return Err(VpnGateError::BodyTooLarge);
    }
    let text = match utf8_text(input) {
        Some(t) => t,
        None => {
            return Err(VpnGateError::InvalidUtf8);
        },
    };
    let chars = str_chars(text);
    let marker = str_chars("#HostName,");
    let offset = match find_chars(chars.as_slice(), marker.as_slice()) {
        Some(k) => k,
        None => {
            return Err(VpnGateError::MissingHeader);
        },
    };
    proof {
        reveal_strlit("#HostName,");
        lemma_find_bounds(chars@, marker@, 0);
    }
    assert(marker@.len() == 10);
    let n = chars.len();
    assert(offset + 10 <= n);
    let csv_chars = copy_range(chars.as_slice(), offset + 1, n);
    assert(csv_chars@ =~= decode_utf8(input@).skip(offset + 1));
    let csv_text = chars_to_string(csv_chars.as_slice());
    let table = read_csv(csv_text.as_str().as_bytes());
    parse_records(table, limits)
}

proof fn lemma_find_bounds(hay: Seq<char>, needle: Seq<char>, i: int)
    ensures
        find_from(hay, needle, i) matches Some(k) ==> i <= k && k + needle.len() <= hay.len(),
    decreases hay.len() + 1 - i,
{
    if !(i < 0 || i + needle.len() > hay.len()) && hay.subrange(i, i + needle.len()) != needle {
        lemma_find_bounds(hay, needle, i + 1);
    }
}


/// How many of the nodes are not available.
pub open spec fn unavailable_nodes(nodes: Seq<VpnNode>) -> nat
    decreases nodes.len(),
{
    if nodes.len() == 0 {
        0
    } else {
        unavailable_nodes(nodes.drop_last()) + if nodes.last().availability == NodeAvailability::Available { 0nat } else { 1nat }
    }
}

/// How many of the kept rows have a profile that does not sanitize.
spec fn unavailable_rows(rows: Seq<Option<Seq<Seq<char>>>>, kept: Seq<int>) -> nat
    decreases kept.len(),
{
    if kept.len() == 0 {
        0
    } else {
        unavailable_rows(rows, kept.drop_last()) + if row_available(rows[kept.last()].unwrap()) { 0nat } else { 1nat }
    }
}

proof fn lemma_rows_scan_counts(rows: Seq<Option<Seq<Seq<char>>>>, i: int, limits: CsvLimits, c: RowCounts, kept: Seq<int>)
    requires
        c.accepted == kept.len(),
        c.unsupported == unavailable_rows(rows, kept),
    ensures
        rows_scan(rows, i, limits, c, kept) matches Some((c2, k2)) ==> c2.accepted == k2.len()
            && c2.unsupported == unavailable_rows(rows, k2),
    decreases rows.len() - i,
{
    if !(i < 0 || i >= rows.len() || is_end_marker(rows[i])) && c.seen < limits.max_rows {
        match rows[i] {
            Some(fs) => {
                if fs.len() == 15 && fields_accepted(fs, limits.max_profile_bytes as nat) {
                    let k2 = kept.push(i);
                    assert(k2.drop_last() =~= kept);
                    lemma_rows_scan_counts(rows, i + 1, limits, accepted_row(c, row_available(fs)), k2);
                } else {
                    lemma_rows_scan_counts(rows, i + 1, limits, rejected_row(c), kept);
                }
            },
            None => {
                lemma_rows_scan_counts(rows, i + 1, limits, rejected_row(c), kept);
            },
        }
    }
}

proof fn lemma_unavailable_match(nodes: Seq<VpnNode>, rows: Seq<Option<Seq<Seq<char>>>>, kept: Seq<int>)
    requires
        nodes.len() == kept.len(),
        forall|k: int| 0 <= k < kept.len() ==> node_matches(#[trigger] nodes[k], rows[kept[k]].unwrap()),
    ensures
        unavailable_nodes(nodes) == unavailable_rows(rows, kept),
    decreases nodes.len(),
{
    if nodes.len() > 0 {
        let n = nodes.len() - 1;
        assert forall|k: int| 0 <= k < kept.drop_last().len() implies node_matches(#[trigger] nodes.drop_last()[k], rows[kept.drop_last()[k]].unwrap()) by {
            assert(nodes.drop_last()[k] == nodes[k]);
            assert(node_matches(nodes[k], rows[kept[k]].unwrap()));
        }
        lemma_unavailable_match(nodes.drop_last(), rows, kept.drop_last());
        assert(node_matches(nodes[n], rows[kept[n]].unwrap()));
    }
}

/// A refresh counts as unsupported exactly the returned nodes that are not
/// available, and as accepted exactly the returned nodes.
pub proof fn unsupported_counts_unavailable_nodes(
    header: Option<Seq<Seq<char>>>,
    rows: Seq<Option<Seq<Seq<char>>>>,
    limits: CsvLimits,
    r: Result<ParsedSnapshot, VpnGateError>,
)
    requires
        snapshot_from(header, rows, limits, r),
    ensures
        r matches Ok(s) ==> s.stats.unsupported == unavailable_nodes(s.nodes@) && s.stats.accepted == s.nodes@.len(),
{
    if header_ok(header) {
        lemma_rows_scan_counts(rows, 0, limits, zero_counts(), Seq::empty());
        if let Some((c, kept)) = rows_scan(rows, 0, limits, zero_counts(), Seq::empty()) {
            if let Ok(s) = r {
                lemma_unavailable_match(s.nodes@, rows, kept);
            }
        }
    }
}
} // verus!
