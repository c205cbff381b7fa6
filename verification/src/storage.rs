//! What the test store writes and reads back: the invariants of a stored test
//! record and of the stored automatic-connection policy.

use vstd::prelude::*;

use crate::automatic_tests::listed;
use crate::domain::{
    canonical_node_id, ipv4_text, ipv4_text_parses_back, normalized_region, opt_view, parse_ipv4, valid_region_code,
    AutoConnectConfig, IpPureResult, IpTypeFilter, Ipv4Addr, NodeId, ResidentialFilter,
    TestRecord, Timestamp,
};
use crate::text::{chars_to_string, str_chars};

verus! {

/// Persistence failure, including validation of values loaded from disk.
#[derive(Clone, Copy, PartialEq, Eq, Structural, Debug)]
pub enum StoreError {
    Sql,
    Migration,
    InvalidNodeId,
    InvalidIp,
    DurationOverflow,
    InvalidRecord,
    InvalidAutoConnectConfig,
}

pub open spec fn store_error_text(e: StoreError) -> Seq<char> {
    match e {
        StoreError::Sql => "SQLite operation failed"@,
        StoreError::Migration => "database migration failed"@,
        StoreError::InvalidNodeId => "database contains an invalid node id"@,
        StoreError::InvalidIp => "database contains an invalid IP address"@,
        StoreError::DurationOverflow => "duration does not fit in SQLite INTEGER"@,
        StoreError::InvalidRecord => "test record violates persistence invariants"@,
        StoreError::InvalidAutoConnectConfig => "automatic connection configuration violates persistence invariants"@,
    }
}

impl StoreError {
    /// The error's description.
    pub fn message(&self) -> (r: &'static str)
        ensures
            r@ == store_error_text(*self),
    {
        match self {
            StoreError::Sql => "SQLite operation failed",
            StoreError::Migration => "database migration failed",
            StoreError::InvalidNodeId => "database contains an invalid node id",
            StoreError::InvalidIp => "database contains an invalid IP address",
            StoreError::DurationOverflow => "duration does not fit in SQLite INTEGER",
            StoreError::InvalidRecord => "test record violates persistence invariants",
            StoreError::InvalidAutoConnectConfig => "automatic connection configuration violates persistence invariants",
        }
    }
}

/// One `node_tests` row. The fraud score is kept as the bit pattern of its
/// `f64` value; `fraud_score_in_range` tells whether that value is a finite
/// number from 0 to 100.
#[derive(Debug)]
pub struct StoredTest {
    pub node_id: String,
    pub fraud_score_bits: Option<u64>,
    pub fraud_score_in_range: bool,
    pub is_residential: Option<bool>,
    pub is_broadcast: Option<bool>,
    pub exit_ip: Option<String>,
    pub duration_ms: i64,
    pub tested_at: Timestamp,
    pub error: Option<String>,
}

/// The failure, if any, of rebuilding a record from a row: an invalid node
/// id, then an invalid exit address, then an out-of-range score or a partial
/// result, then a negative duration, then a row that has both or neither of
/// a result and an error.
pub open spec fn row_error(row: StoredTest) -> Option<StoreError> {
    let has_result = row.fraud_score_bits is Some && row.is_residential is Some && row.is_broadcast is Some;
    let no_result = row.fraud_score_bits is None && row.is_residential is None && row.is_broadcast is None;
    if !canonical_node_id(row.node_id@) {
        Some(StoreError::InvalidNodeId)
    } else if (row.exit_ip matches Some(t) && parse_ipv4(t@) is None) {
        Some(StoreError::InvalidIp)
    } else if has_result && !row.fraud_score_in_range {
        Some(StoreError::InvalidRecord)
    } else if !has_result && !(no_result && row.exit_ip is None) {
        Some(StoreError::InvalidRecord)
    } else if row.duration_ms < 0 {
        Some(StoreError::DurationOverflow)
    } else if has_result == row.error is Some {
        Some(StoreError::InvalidRecord)
    } else {
        None
    }
}

/// The quality result that a valid row holds.
pub open spec fn row_result(row: StoredTest) -> Option<IpPureResult> {
    if row.fraud_score_bits is Some {
        Some(
            IpPureResult {
                fraud_score_bits: row.fraud_score_bits.unwrap(),
                is_residential: row.is_residential.unwrap(),
                is_broadcast: row.is_broadcast.unwrap(),
                exit_ip: match row.exit_ip {
                    Some(t) => parse_ipv4(t@),
                    None => None,
                },
            },
        )
    } else {
        None
    }
}

/// Rebuilds one record from a row, validating every value loaded from disk.
pub fn record_from_row(row: &StoredTest) -> (r: Result<TestRecord, StoreError>)
    ensures
        match row_error(*row) {
            Some(e) => r == Err::<TestRecord, StoreError>(e),
            None => r matches Ok(rec) && rec.node_id@ == row.node_id@ && rec.result == row_result(*row)
                && rec.duration_ms == row.duration_ms && rec.tested_at == row.tested_at
                && opt_view(rec.error) == opt_view(row.error),
        },
{
    let node_id = match NodeId::parse(row.node_id.as_str()) {
        Ok(id) => id,
        Err(_) => {
            return Err(StoreError::InvalidNodeId);
        },
    };
    let exit_ip: Option<Ipv4Addr> = match &row.exit_ip {
        None => None,
        Some(text) => match Ipv4Addr::parse(text.as_str()) {
            Some(ip) => Some(ip),
            None => {
                return Err(StoreError::InvalidIp);
            },
        },
    };
    let result = match (row.fraud_score_bits, row.is_residential, row.is_broadcast) {
        (Some(bits), Some(is_residential), Some(is_broadcast)) => {
            if !row.fraud_score_in_range {
                return Err(StoreError::InvalidRecord);
            }
            Some(IpPureResult { fraud_score_bits: bits, is_residential, is_broadcast, exit_ip })
        },
        (None, None, None) => {
            if exit_ip.is_some() {
                return Err(StoreError::InvalidRecord);
            }
            None
        },
        _ => {
            return Err(StoreError::InvalidRecord);
        },
    };
    if row.duration_ms < 0 {
        return Err(StoreError::DurationOverflow);
    }
    let duration_ms = row.duration_ms as u64;
    if result.is_some() == row.error.is_some() {
        return Err(StoreError::InvalidRecord);
    }
    let error = match &row.error {
        Some(e) => Some(e.clone()),
        None => None,
    };
    Ok(TestRecord { node_id, result, duration_ms, tested_at: row.tested_at, error })
}

/// The failure, if any, of storing a record: it must hold either an in-range
/// result or an error message, and its duration must fit in `i64`.
pub open spec fn save_error(record: TestRecord, fraud_score_in_range: bool) -> Option<StoreError> {
    let shape_ok = match (record.result, record.error) {
        (Some(_), None) => fraud_score_in_range,
        (None, Some(_)) => true,
        _ => false,
    };
    if !shape_ok {
        Some(StoreError::InvalidRecord)
    } else if record.duration_ms > i64::MAX {
        Some(StoreError::DurationOverflow)
    } else {
        None
    }
}

/// The row that stores a record.
pub open spec fn stored_row(row: StoredTest, record: TestRecord, fraud_score_in_range: bool) -> bool {
    &&& row.node_id@ == record.node_id@
    &&& row.fraud_score_in_range == fraud_score_in_range
    &&& row.duration_ms == record.duration_ms
    &&& row.tested_at == record.tested_at
    &&& opt_view(row.error) == opt_view(record.error)
    &&& match record.result {
        Some(res) => {
            &&& row.fraud_score_bits == Some(res.fraud_score_bits)
            &&& row.is_residential == Some(res.is_residential)
            &&& row.is_broadcast == Some(res.is_broadcast)
            &&& opt_view(row.exit_ip) == match res.exit_ip {
                Some(ip) => Some(ipv4_text(ip)),
                None => None,
            }
        },
        None => {
            &&& row.fraud_score_bits is None
            &&& row.is_residential is None
            &&& row.is_broadcast is None
            &&& row.exit_ip is None
        },
    }
}

/// Checks a record before it is stored and gives the row to write.
pub fn row_for_record(record: &TestRecord, fraud_score_in_range: bool) -> (r: Result<StoredTest, StoreError>)
    ensures
        match save_error(*record, fraud_score_in_range) {
            Some(e) => r matches Err(x) && x == e,
            None => r matches Ok(row) && stored_row(row, *record, fraud_score_in_range),
        },
{
    match (&record.result, &record.error) {
        (Some(_), None) => {
            if !fraud_score_in_range {
                return Err(StoreError::InvalidRecord);
            }
        },
        (None, Some(_)) => {},
        _ => {
            return Err(StoreError::InvalidRecord);
        },
    }
    if record.duration_ms > 9223372036854775807u64 {
        return Err(StoreError::DurationOverflow);
    }
    let (fraud_score_bits, is_residential, is_broadcast, exit_ip) = match &record.result {
        Some(res) => {
            let ip = match res.exit_ip {
                Some(a) => {
                    let t = a.to_chars();
                    Some(chars_to_string(t.as_slice()))
                },
                None => None,
            };
            (Some(res.fraud_score_bits), Some(res.is_residential), Some(res.is_broadcast), ip)
        },
        None => (None, None, None, None),
    };
    let error = match &record.error {
        Some(e) => Some(e.clone()),
        None => None,
    };
    Ok(
        StoredTest {
            node_id: record.node_id.as_str().to_owned(),
            fraud_score_bits,
            fraud_score_in_range,
            is_residential,
            is_broadcast,
            exit_ip,
            duration_ms: record.duration_ms as i64,
            tested_at: record.tested_at,
            error,
        },
    )
}

/// A record that could be stored reads back unchanged from its row: the row
/// passes every check, and the result, duration, time and error are those of
/// the record.
pub proof fn stored_record_reads_back(record: TestRecord, fraud_score_in_range: bool, row: StoredTest)
    requires
        canonical_node_id(record.node_id@),
        save_error(record, fraud_score_in_range) is None,
        stored_row(row, record, fraud_score_in_range),
    ensures
        row_error(row) is None,
        row.node_id@ == record.node_id@,
        row_result(row) == record.result,
        row.duration_ms == record.duration_ms,
        row.tested_at == record.tested_at,
        opt_view(row.error) == opt_view(record.error),
{
    if let Some(res) = record.result {
        if let Some(ip) = res.exit_ip {
            ipv4_text_parses_back(ip);
            let t = row.exit_ip.unwrap();
            assert(t@ == ipv4_text(ip));
        }
    }
}

/// The filter that a stored IP-type name denotes.
pub open spec fn ip_type_named(v: Seq<char>) -> Option<IpTypeFilter> {
    if v == "any"@ {
        Some(IpTypeFilter::Any)
    } else if v == "native"@ {
        Some(IpTypeFilter::Native)
    } else if v == "broadcast"@ {
        Some(IpTypeFilter::Broadcast)
    } else {
        None
    }
}

/// The filter that a stored residential name denotes.
pub open spec fn residential_named(v: Seq<char>) -> Option<ResidentialFilter> {
    if v == "any"@ {
        Some(ResidentialFilter::Any)
    } else if v == "residential"@ {
        Some(ResidentialFilter::Residential)
    } else if v == "nonResidential"@ {
        Some(ResidentialFilter::NonResidential)
    } else {
        None
    }
}

/// The stored policy, validated: both filter names must be known and the
/// region must normalize.
pub fn config_from_stored(
    enabled: bool,
    region: Option<String>,
    ip_type: &str,
    residential: &str,
) -> (r: Result<AutoConnectConfig, StoreError>)
    ensures
        match (ip_type_named(ip_type@), residential_named(residential@)) {
            (Some(i), Some(s)) => if (normalized_region(opt_view(region)) matches Some(code) && !valid_region_code(code)) {
                r == Err::<AutoConnectConfig, StoreError>(StoreError::InvalidAutoConnectConfig)
            } else {
                r matches Ok(c) && c.enabled == enabled && c.ip_type == i && c.residential == s
                    && opt_view(c.region) == normalized_region(opt_view(region))
            },
            _ => r == Err::<AutoConnectConfig, StoreError>(StoreError::InvalidAutoConnectConfig),
        },
{
    let i = match IpTypeFilter::from_stored(ip_type) {
        Some(i) => i,
        None => {
            return Err(StoreError::InvalidAutoConnectConfig);
        },
    };
    let s = match ResidentialFilter::from_stored(residential) {
        Some(s) => s,
        None => {
            return Err(StoreError::InvalidAutoConnectConfig);
        },
    };
    match (AutoConnectConfig { enabled, region, ip_type: i, residential: s }).normalized() {
        Ok(c) => Ok(c),
        Err(_) => Err(StoreError::InvalidAutoConnectConfig),
    }
}

/// The stored results to delete: those older than the cutoff whose node id is
/// not valid or not in the current catalog, in the order given.
pub open spec fn stale_ids(candidates: Seq<String>, current: Seq<NodeId>) -> Seq<Seq<char>>
    decreases candidates.len(),
{
    if candidates.len() == 0 {
        Seq::empty()
    } else {
        let rest = stale_ids(candidates.drop_last(), current);
        let c = candidates.last()@;
        if !canonical_node_id(c) || !listed(current, c) {
            rest.push(c)
        } else {
            rest
        }
    }
}

/// Selects the node ids among `candidates` whose results are stale.
pub fn stale_node_ids(candidates: &[String], current: &[NodeId]) -> (r: Vec<String>)
    ensures
        r@.map_values(|s: String| s@) == stale_ids(candidates@, current@),
{
    let mut out: Vec<String> = Vec::new();
    let mut i: usize = 0;
    while i < candidates.len()
        invariant
            i <= candidates@.len(),
            out@.map_values(|s: String| s@) == stale_ids(candidates@.subrange(0, i as int), current@),
        decreases candidates.len() - i,
    {
        assert(candidates@.subrange(0, i + 1).drop_last() =~= candidates@.subrange(0, i as int));
        let stale = match NodeId::parse(candidates[i].as_str()) {
            Err(_) => true,
            Ok(id) => !is_current(current, &id),
        };
        if stale {
            out.push(candidates[i].clone());
            assert(out@.map_values(|s: String| s@) =~= stale_ids(candidates@.subrange(0, i as int), current@).push(
                candidates@[i as int]@,
            ));
        }
        i = i + 1;
    }
    assert(candidates@.subrange(0, candidates@.len() as int) =~= candidates@);
    out
}

fn is_current(current: &[NodeId], id: &NodeId) -> (r: bool)
    ensures
        r == listed(current@, id@),
{
    let mut k: usize = 0;
    while k < current.len()
        invariant
            k <= current@.len(),
            forall|m: int| 0 <= m < k ==> (#[trigger] current@[m])@ != id@,
        decreases current.len() - k,
    {
        if current[k].same(id) {
            return true;
        }
        k = k + 1;
    }
    false
}

} // verus!
