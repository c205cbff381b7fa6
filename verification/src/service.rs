//! Decisions of the control plane: node checks, connection switching,
//! automatic reconnection, retry timing, test outcomes and region lists.

use vstd::prelude::*;

use crate::domain::{
    ConnectionState, IpPureResult, NodeAvailability, NodeId, StateView, TestRecord, TestState,
    Timestamp, UpstreamState, VpnNode, WorkerId,
};
use crate::netd::protocol::NetdClientError;
use crate::openvpn::{insert_sorted, lemma_insert_sorted_at, strictly_sorted, SanitizedOpenVpn};
use crate::socks::UpstreamProbeError;
use crate::text::{
    chars_eq, chars_less, chars_lt, chars_to_string, copy_range, push_str, str_chars, to_uppercase,
    trim, trim_bounds, unicode_uppercase, views,
};
use crate::vpngate::{ParseStats, VpnGateError};

verus! {

/// Capacity of the bounded test queue.
pub const TEST_QUEUE_CAPACITY: usize = 256;

/// Finished test operations kept for status queries.
pub const COMPLETED_OPERATION_HISTORY: usize = 1024;

/// How long a replaced worker keeps serving open connections.
pub const OLD_WORKER_DRAIN_MS: u64 = 30000;

/// First delay before an automatic reconnection attempt.
pub const AUTO_RECONNECT_INITIAL_MS: u64 = 1000;

/// Longest delay between automatic reconnection attempts.
pub const AUTO_RECONNECT_MAX_MS: u64 = 30000;

/// How long a failed node is skipped by automatic connection.
pub const AUTO_NODE_COOLDOWN_MS: u64 = 60000;

/// First delay after a failed catalog refresh.
pub const REFRESH_RETRY_INITIAL_MS: u64 = 5000;

/// Expected service failure mapped to a stable API error code.
#[derive(Debug)]
pub enum ServiceError {
    NodeNotFound,
    NodeUnavailable,
    RefreshBusy,
    QueueFull,
    OperationNotFound,
    ShuttingDown,
    InvalidAutoConnectConfig(&'static str),
    Refresh(VpnGateError),
    Worker(NetdClientError),
    Store,
}

pub open spec fn service_error_text(e: ServiceError) -> Seq<char> {
    match e {
        ServiceError::NodeNotFound => "node was not found"@,
        ServiceError::NodeUnavailable => "node is not usable by this version"@,
        ServiceError::RefreshBusy => "node refresh is already running"@,
        ServiceError::QueueFull => "test queue is full"@,
        ServiceError::OperationNotFound => "test operation was not found"@,
        ServiceError::ShuttingDown => "background service is shutting down"@,
        ServiceError::InvalidAutoConnectConfig(m) => "invalid automatic connection configuration: "@ + m@,
        ServiceError::Refresh(_) => "VPN Gate refresh failed"@,
        ServiceError::Worker(_) => "worker operation failed"@,
        ServiceError::Store => "persistence failed"@,
    }
}

impl ServiceError {
    /// The human-readable description.
    pub fn message(&self) -> (r: String)
        ensures
            r@ == service_error_text(*self),
    {
        match self {
            ServiceError::NodeNotFound => "node was not found".to_owned(),
            ServiceError::NodeUnavailable => "node is not usable by this version".to_owned(),
            ServiceError::RefreshBusy => "node refresh is already running".to_owned(),
            ServiceError::QueueFull => "test queue is full".to_owned(),
            ServiceError::OperationNotFound => "test operation was not found".to_owned(),
            ServiceError::ShuttingDown => "background service is shutting down".to_owned(),
            ServiceError::InvalidAutoConnectConfig(m) => {
                let mut v = str_chars("invalid automatic connection configuration: ");
                push_str(&mut v, m);
                chars_to_string(v.as_slice())
            },
            ServiceError::Refresh(_) => "VPN Gate refresh failed".to_owned(),
            ServiceError::Worker(_) => "worker operation failed".to_owned(),
            ServiceError::Store => "persistence failed".to_owned(),
        }
    }
}

/// A node can be connected to or tested: it is in the catalog, available,
/// and has a sanitized profile.
pub fn check_node(node: Option<&VpnNode>) -> (r: Result<&SanitizedOpenVpn, ServiceError>)
    ensures
        match node {
            None => r matches Err(ServiceError::NodeNotFound),
            Some(n) => if n.availability == NodeAvailability::Available && n.openvpn is Some {
                r matches Ok(p) && Some(*p) == n.openvpn
            } else {
                r matches Err(ServiceError::NodeUnavailable)
            },
        },
{
    match node {
        None => Err(ServiceError::NodeNotFound),
        Some(n) => {
            if n.availability != NodeAvailability::Available {
                return Err(ServiceError::NodeUnavailable);
            }
            match &n.openvpn {
                Some(p) => Ok(p),
                None => Err(ServiceError::NodeUnavailable),
            }
        },
    }
}

/// The profile a queued test runs with: the node must still be in the
/// catalog and have a sanitized profile (its availability was checked when
/// the test was queued).
pub fn test_profile(node: Option<&VpnNode>) -> (r: Result<&SanitizedOpenVpn, ServiceError>)
    ensures
        match node {
            None => r matches Err(ServiceError::NodeNotFound),
            Some(n) => match n.openvpn {
                Some(p) => r matches Ok(q) && *q == p,
                None => r matches Err(ServiceError::NodeUnavailable),
            },
        },
{
    match node {
        None => Err(ServiceError::NodeNotFound),
        Some(n) => match &n.openvpn {
            Some(p) => Ok(p),
            None => Err(ServiceError::NodeUnavailable),
        },
    }
}

/// The relay currently serving local clients.
#[derive(Debug)]
pub struct ActiveConnection {
    pub worker_id: WorkerId,
    pub node_id: NodeId,
    pub connected_at: Timestamp,
}

/// Switching to the node that is already active changes nothing: the
/// current connection is reported as it is.
pub fn reuse_active(active: &Option<ActiveConnection>, node_id: &NodeId) -> (r: Option<ConnectionState>)
    ensures
        match active {
            Some(a) => if a.node_id@ == node_id@ {
                r matches Some(ConnectionState::Connected { node_id: n, worker_id: w, since: s })
                    && n@ == a.node_id@ && w == a.worker_id && s == a.connected_at
            } else {
                r is None
            },
            None => r is None,
        },
{
    match active {
        Some(a) => {
            if a.node_id.same(node_id) {
                Some(ConnectionState::Connected { node_id: a.node_id.duplicate(), worker_id: a.worker_id, since: a.connected_at })
            } else {
                None
            }
        },
        None => None,
    }
}

/// After a failed switch the previous connection, if any, stays reported as
/// connected; otherwise the attempt is reported as failed.
pub fn failed_switch_state(active: &Option<ActiveConnection>, node_id: NodeId, message: String, at: Timestamp) -> (r: ConnectionState)
    ensures
        match active {
            Some(a) => r matches ConnectionState::Connected { node_id: n, worker_id: w, since: s }
                && n@ == a.node_id@ && w == a.worker_id && s == a.connected_at,
            None => r matches ConnectionState::Failed { node_id: n, message: m, at: t }
                && n@ == node_id@ && m@ == message@ && t == at,
        },
{
    match active {
        Some(a) => ConnectionState::Connected { node_id: a.node_id.duplicate(), worker_id: a.worker_id, since: a.connected_at },
        None => ConnectionState::Failed { node_id, message, at },
    }
}

/// The next retry delay: doubled, but at most `maximum`.
pub fn next_backoff_ms(delay: u64, maximum: u64) -> (r: u64)
    ensures
        r == if 2 * delay < maximum { 2 * delay } else { maximum as int },
{
    if delay <= u64::MAX / 2 && delay * 2 < maximum {
        delay * 2
    } else {
        maximum
    }
}

/// The outcome of one catalog refresh attempt.
#[derive(Clone, Copy, Debug, PartialEq, Eq, Structural)]
pub enum RefreshOutcome {
    Done,
    Busy,
    Failed,
}

/// How long the refresh loop waits, and the retry delay after that: the
/// configured interval after a success, a second while another refresh
/// runs, and a doubling retry (capped by the interval) after failures.
pub fn refresh_delay(outcome: RefreshOutcome, retry_ms: u64, interval_ms: u64) -> (r: (u64, u64))
    ensures
        match outcome {
            RefreshOutcome::Done => r == (interval_ms, REFRESH_RETRY_INITIAL_MS),
            RefreshOutcome::Busy => r == (1000u64, retry_ms),
            RefreshOutcome::Failed => r == (retry_ms, (if 2 * retry_ms < interval_ms { 2 * retry_ms } else { interval_ms as int }) as u64),
        },
{
    match outcome {
        RefreshOutcome::Done => (interval_ms, REFRESH_RETRY_INITIAL_MS),
        RefreshOutcome::Busy => (1000, retry_ms),
        RefreshOutcome::Failed => (retry_ms, next_backoff_ms(retry_ms, interval_ms)),
    }
}

/// What the upstream probe means for the upstream state.
pub fn upstream_state_for(probe: Result<(), UpstreamProbeError>) -> (r: UpstreamState)
    ensures
        match probe {
            Ok(()) => r == UpstreamState::Ready,
            Err(UpstreamProbeError::Authentication) => r == UpstreamState::AuthenticationFailed,
            Err(_) => r == UpstreamState::Unreachable,
        },
{
    match probe {
        Ok(()) => UpstreamState::Ready,
        Err(UpstreamProbeError::Authentication) => UpstreamState::AuthenticationFailed,
        Err(_) => UpstreamState::Unreachable,
    }
}

/// The upstream state shown in the status: unknown helper reachability
/// overrides the probe result.
pub fn shown_upstream_state(netd_reachable: bool, probed: UpstreamState) -> (r: UpstreamState)
    ensures
        r == if netd_reachable { probed } else { UpstreamState::NetdUnavailable },
{
    if netd_reachable {
        probed
    } else {
        UpstreamState::NetdUnavailable
    }
}

/// The service is ready when the helper and the store answer and the
/// upstream is ready.
pub fn service_ready(netd_reachable: bool, store_healthy: bool, upstream: UpstreamState) -> (r: bool)
    ensures
        r == (netd_reachable && store_healthy && upstream == UpstreamState::Ready),
{
    netd_reachable && store_healthy && upstream == UpstreamState::Ready
}

/// Last successful node refresh.
#[derive(Clone, Copy, Debug)]
pub struct RefreshInfo {
    pub at: Timestamp,
    pub accepted: usize,
    pub rejected: usize,
    pub unsupported: usize,
}

pub fn refresh_info(stats: ParseStats, at: Timestamp) -> (r: RefreshInfo)
    ensures
        r.at == at,
        r.accepted == stats.accepted,
        r.rejected == stats.rejected,
        r.unsupported == stats.unsupported,
{
    RefreshInfo { at, accepted: stats.accepted, rejected: stats.rejected, unsupported: stats.unsupported }
}

/// Why a quality test produced no result.
#[derive(Debug)]
pub enum TestFailure {
    Service(ServiceError),
    Quality(String),
}

pub open spec fn test_failure_text(e: TestFailure) -> Seq<char> {
    match e {
        TestFailure::Service(s) => service_error_text(s),
        TestFailure::Quality(m) => "IPPure check failed: "@ + m@,
    }
}

pub fn test_failure_message(e: &TestFailure) -> (r: String)
    ensures
        r@ == test_failure_text(*e),
{
    match e {
        TestFailure::Service(s) => s.message(),
        TestFailure::Quality(m) => {
            let mut v = str_chars("IPPure check failed: ");
            push_str(&mut v, m.as_str());
            chars_to_string(v.as_slice())
        },
    }
}

/// The final state and stored record of a finished test.
pub fn test_outcome(node_id: &NodeId, result: Result<IpPureResult, TestFailure>, duration_ms: u64, tested_at: Timestamp) -> (r: (TestState, TestRecord))
    ensures
        r.1.node_id@ == node_id@,
        r.1.duration_ms == duration_ms,
        r.1.tested_at == tested_at,
        match result {
            Ok(res) => r.1.result == Some(res) && r.1.error is None
                && r.0@ == (StateView::Succeeded { node_id: node_id@, record: r.1@ }),
            Err(e) => r.1.result is None && r.1@.error == Some(test_failure_text(e))
                && r.0@ == (StateView::Failed { node_id: node_id@, record: r.1@ }),
        },
{
    match result {
        Ok(res) => {
            let record = TestRecord { node_id: node_id.duplicate(), result: Some(res), duration_ms, tested_at, error: None };
            let copy = record.duplicate();
            (TestState::Succeeded { node_id: node_id.duplicate(), record: copy }, record)
        },
        Err(e) => {
            let message = test_failure_message(&e);
            let record = TestRecord { node_id: node_id.duplicate(), result: None, duration_ms, tested_at, error: Some(message) };
            let copy = record.duplicate();
            (TestState::Failed { node_id: node_id.duplicate(), record: copy }, record)
        },
    }
}

/// What one attempt to queue an automatic test means for the scheduler.
#[derive(Clone, Copy, Debug, PartialEq, Eq, Structural)]
pub enum ScheduleStep {
    Scheduled,
    Skipped,
    Stop,
    Fail,
}

/// A newly queued test counts; an existing one or a vanished node is skipped;
/// a full queue ends the round; any other failure ends it with an error.
pub fn schedule_step(result: &Result<bool, ServiceError>) -> (r: ScheduleStep)
    ensures
        match result {
            Ok(true) => r == ScheduleStep::Scheduled,
            Ok(false) => r == ScheduleStep::Skipped,
            Err(ServiceError::NodeNotFound) => r == ScheduleStep::Skipped,
            Err(ServiceError::NodeUnavailable) => r == ScheduleStep::Skipped,
            Err(ServiceError::QueueFull) => r == ScheduleStep::Stop,
            Err(_) => r == ScheduleStep::Fail,
        },
{
    match result {
        Ok(true) => ScheduleStep::Scheduled,
        Ok(false) => ScheduleStep::Skipped,
        Err(ServiceError::NodeNotFound) => ScheduleStep::Skipped,
        Err(ServiceError::NodeUnavailable) => ScheduleStep::Skipped,
        Err(ServiceError::QueueFull) => ScheduleStep::Stop,
        Err(_) => ScheduleStep::Fail,
    }
}

/// Region offered by the automatic connection configuration UI.
#[derive(Clone, Debug)]
pub struct RegionOption {
    pub code: String,
    pub name: String,
}

/// A node's region code: its trimmed country code in upper case.
pub open spec fn region_code(n: VpnNode) -> Seq<char> {
    unicode_uppercase(trim(n.country_short@))
}

pub open spec fn offers_region(n: VpnNode) -> bool {
    n.availability == NodeAvailability::Available && region_code(n).len() > 0
}

/// The first usable node that offers `code`, by position.
pub open spec fn first_offer(nodes: Seq<VpnNode>, code: Seq<char>, i: int) -> bool {
    &&& 0 <= i < nodes.len()
    &&& offers_region(nodes[i]) && region_code(nodes[i]) == code
    &&& forall|j: int| 0 <= j < i ==> !(offers_region(#[trigger] nodes[j]) && region_code(nodes[j]) == code)
}

pub open spec fn named_before(nodes: Seq<VpnNode>, o: RegionOption, bound: int) -> bool {
    exists|m: int| #[trigger] first_offer(nodes, o.code@, m) && m < bound && o.name@ == nodes[m].country_long@
}

/// The option's code is offered, and its name is that of the first node
/// offering the code.
pub open spec fn named_by_first_offer(nodes: Seq<VpnNode>, o: RegionOption) -> bool {
    exists|i: int| #[trigger] first_offer(nodes, o.code@, i) && o.name@ == nodes[i].country_long@
}

pub open spec fn region_codes(v: Seq<RegionOption>) -> Seq<Seq<char>> {
    v.map_values(|r: RegionOption| r.code@)
}

/// The regions a list of options covers, each named after its first node.
pub open spec fn regions_of(nodes: Seq<VpnNode>, out: Seq<RegionOption>) -> bool {
    &&& strictly_sorted(region_codes(out))
    &&& forall|k: int| 0 <= k && k < out.len() ==> #[trigger] named_by_first_offer(nodes, out[k])
    &&& forall|i: int| 0 <= i < nodes.len() && #[trigger] offers_region(nodes[i]) ==> region_codes(out).contains(region_code(nodes[i]))
}

fn offer_of(n: &VpnNode) -> (r: Option<String>)
    ensures
        offers_region(*n) ==> (r matches Some(c) && c@ == region_code(*n)),
        !offers_region(*n) ==> r is None,
{
    if n.availability != NodeAvailability::Available {
        return None;
    }
    let v = str_chars(n.country_short.as_str());
    let (a, b) = trim_bounds(v.as_slice());
    let t = copy_range(v.as_slice(), a, b);
    let trimmed = chars_to_string(t.as_slice());
    let upper = to_uppercase(trimmed.as_str());
    if str_chars(upper.as_str()).len() == 0 {
        return None;
    }
    Some(upper)
}

/// The distinct regions of usable nodes, in code order, each named after
/// the first node that offers it.
pub fn auto_connect_regions(nodes: &[VpnNode]) -> (r: Vec<RegionOption>)
    ensures
        regions_of(nodes@, r@),
{
    let mut out: Vec<RegionOption> = Vec::new();
    let mut i: usize = 0;
    while i < nodes.len()
        invariant
            i <= nodes@.len(),
            strictly_sorted(region_codes(out@)),
            forall|k: int| 0 <= k && k < out@.len() ==> #[trigger] named_before(nodes@, out@[k], i as int),
            forall|m: int| 0 <= m < i && #[trigger] offers_region(nodes@[m]) ==> region_codes(out@).contains(region_code(nodes@[m])),
        decreases nodes.len() - i,
    {
        match offer_of(&nodes[i]) {
            None => {
                assert forall|k: int| 0 <= k && k < out@.len() implies #[trigger] named_before(nodes@, out@[k], i + 1) by {
                    assert(named_before(nodes@, out@[k], i as int));
                    let m = choose|m: int| #[trigger] first_offer(nodes@, out@[k].code@, m) && m < i && out@[k].name@ == nodes@[m].country_long@;
                    assert(first_offer(nodes@, out@[k].code@, m));
                }
            },
            Some(code) => {
                let ghost codes = region_codes(out@);
                let mut p: usize = 0;
                while p < out.len() && chars_lt(str_chars(out[p].code.as_str()).as_slice(), str_chars(code.as_str()).as_slice())
                    invariant
                        p <= out@.len(),
                        codes == region_codes(out@),
                        forall|k: int| 0 <= k < p ==> chars_less(#[trigger] codes[k], code@),
                    decreases out.len() - p,
                {
                    p = p + 1;
                }
                proof {
                    lemma_insert_sorted_at(codes, code@, p as int);
                }
                let present = p < out.len() && chars_eq(str_chars(out[p].code.as_str()).as_slice(), str_chars(code.as_str()).as_slice());
                if !present {
                    let ghost before = out@;
                    let ghost cv = code@;
                    let name = nodes[i].country_long.clone();
                    out.insert(p, RegionOption { code, name });
                    proof {
                        assert(region_codes(out@) =~= codes.insert(p as int, cv));
                        assert(first_offer(nodes@, cv, i as int)) by {
                            assert forall|j: int| 0 <= j < i implies !(offers_region(#[trigger] nodes@[j]) && region_code(nodes@[j]) == cv) by {
                                if offers_region(nodes@[j]) && region_code(nodes@[j]) == cv {
                                    assert(codes.contains(cv));
                                    let k = choose|k: int| 0 <= k < codes.len() && codes[k] == cv;
                                    if k < p {
                                        assert(chars_less(codes[k], cv));
                                        crate::text::lemma_chars_less_order(cv, cv, cv);
                                    } else {
                                        if k > p {
                                            assert(chars_less(codes[p as int], codes[k]));
                                            crate::text::lemma_chars_less_order(codes[p as int], cv, cv);
                                        }
                                    }
                                }
                            }
                        }
                        assert forall|k: int| 0 <= k && k < out@.len() implies #[trigger] named_before(nodes@, out@[k], i + 1) by {
                            if k < p {
                                assert(out@[k] == before[k]);
                                assert(named_before(nodes@, before[k], i as int));
                                let m = choose|m: int| #[trigger] first_offer(nodes@, before[k].code@, m) && m < i && before[k].name@ == nodes@[m].country_long@;
                                assert(first_offer(nodes@, out@[k].code@, m));
                            } else if k > p {
                                assert(out@[k] == before[k - 1]);
                                assert(named_before(nodes@, before[k - 1], i as int));
                                let m = choose|m: int| #[trigger] first_offer(nodes@, before[k - 1].code@, m) && m < i && before[k - 1].name@ == nodes@[m].country_long@;
                                assert(first_offer(nodes@, out@[k].code@, m));
                            } else {
                                assert(first_offer(nodes@, out@[k].code@, i as int));
                            }
                        }
                        assert forall|m: int| 0 <= m < i + 1 && #[trigger] offers_region(nodes@[m]) implies region_codes(out@).contains(region_code(nodes@[m])) by {
                            if m < i {
                                let c = region_code(nodes@[m]);
                                assert(codes.contains(c));
                                let k = choose|k: int| 0 <= k < codes.len() && codes[k] == c;
                                if k < p {
                                    assert(region_codes(out@)[k] == c);
                                } else {
                                    assert(region_codes(out@)[k + 1] == c);
                                }
                            } else {
                                assert(region_codes(out@)[p as int] == cv);
                            }
                        }
                    }
                } else {
                    proof {
                        assert(codes[p as int] == code@);
                        assert forall|m: int| 0 <= m < i + 1 && #[trigger] offers_region(nodes@[m]) implies region_codes(out@).contains(region_code(nodes@[m])) by {
                            if m == i {
                                assert(region_codes(out@)[p as int] == code@);
                            }
                        }
                        assert forall|k: int| 0 <= k && k < out@.len() implies #[trigger] named_before(nodes@, out@[k], i + 1) by {
                            assert(named_before(nodes@, out@[k], i as int));
                            let m = choose|m: int| #[trigger] first_offer(nodes@, out@[k].code@, m) && m < i && out@[k].name@ == nodes@[m].country_long@;
                            assert(first_offer(nodes@, out@[k].code@, m));
                        }
                    }
                }
            },
        }
        i = i + 1;
    }
    assert forall|k: int| 0 <= k && k < out@.len() implies #[trigger] named_by_first_offer(nodes@, out@[k]) by {
        assert(named_before(nodes@, out@[k], i as int));
        let m = choose|m: int| #[trigger] first_offer(nodes@, out@[k].code@, m) && m < i && out@[k].name@ == nodes@[m].country_long@;
        assert(first_offer(nodes@, out@[k].code@, m));
    }
    out
}

/// When a node that failed at `now_ms` may be tried again.
pub open spec fn cooldown_until(now_ms: u64) -> u64 {
    (if now_ms + AUTO_NODE_COOLDOWN_MS > u64::MAX { u64::MAX as int } else { now_ms + AUTO_NODE_COOLDOWN_MS }) as u64
}

/// The message shown when the active tunnel disappears.
pub open spec fn tunnel_lost_message() -> Seq<char> {
    "VPN 隧道已断开；代理已闭锁"@
}

/// What follows the loss of the active worker: the worker to stop, the state
/// to publish and, with automatic connection on, when to try again.
#[derive(Debug)]
pub struct WorkerLoss {
    pub worker_id: WorkerId,
    pub state: ConnectionState,
    pub retry_at: Option<u64>,
}

/// Nodes that recently failed under automatic connection, with when they
/// may be tried again, and the current retry delay.
pub struct AutoConnectPlanner {
    failures: Vec<(NodeId, u64)>,
    retry_delay_ms: u64,
}

pub open spec fn failure_view(f: Seq<(NodeId, u64)>) -> Seq<(Seq<char>, u64)> {
    f.map_values(|e: (NodeId, u64)| (e.0@, e.1))
}

pub open spec fn earliest(f: Seq<(Seq<char>, u64)>) -> Option<u64>
    decreases f.len(),
{
    if f.len() == 0 {
        None
    } else {
        match earliest(f.drop_last()) {
            None => Some(f.last().1),
            Some(m) => Some(if f.last().1 < m { f.last().1 } else { m }),
        }
    }
}

/// What automatic connection does next.
#[derive(Debug)]
pub enum AutoConnectStep {
    /// Automatic connection is off.
    Disabled,
    /// Nothing to do now; try again at the given time, if any.
    Wait(Option<u64>),
    /// Switch to this node.
    Connect(NodeId),
}

impl AutoConnectPlanner {
    pub closed spec fn failures(&self) -> Seq<(Seq<char>, u64)> {
        failure_view(self.failures@)
    }

    pub closed spec fn retry_delay(&self) -> u64 {
        self.retry_delay_ms
    }

    pub fn new() -> (r: AutoConnectPlanner)
        ensures
            r.failures() == Seq::<(Seq<char>, u64)>::empty(),
            r.retry_delay() == AUTO_RECONNECT_INITIAL_MS,
    {
        let r = AutoConnectPlanner { failures: Vec::new(), retry_delay_ms: AUTO_RECONNECT_INITIAL_MS };
        assert(r.failures() =~= Seq::<(Seq<char>, u64)>::empty());
        r
    }

    /// Forgets all failures and restarts the retry delay (manual connection,
    /// disconnection or a configuration change).
    pub fn reset(&mut self)
        ensures
            final(self).failures() == Seq::<(Seq<char>, u64)>::empty(),
            final(self).retry_delay() == AUTO_RECONNECT_INITIAL_MS,
    {
        self.failures = Vec::new();
        self.retry_delay_ms = AUTO_RECONNECT_INITIAL_MS;
        assert(self.failures() =~= Seq::<(Seq<char>, u64)>::empty());
    }

    /// Drops failures whose cooldown has passed.
    pub fn prune(&mut self, now_ms: u64)
        ensures
            final(self).retry_delay() == old(self).retry_delay(),
            final(self).failures() == old(self).failures().filter(|e: (Seq<char>, u64)| e.1 > now_ms),
    {
        let ghost start = self.failures();
        let mut kept: Vec<(NodeId, u64)> = Vec::new();
        let mut i: usize = 0;
        while i < self.failures.len()
            invariant
                i <= self.failures@.len(),
                start == failure_view(self.failures@),
                failure_view(kept@) == start.take(i as int).filter(|e: (Seq<char>, u64)| e.1 > now_ms),
            decreases self.failures.len() - i,
        {
            proof {
                assert(start.take(i + 1).drop_last() =~= start.take(i as int));
                assert(start.take(i + 1).last() == start[i as int]);
                reveal(Seq::filter);
            }
            if self.failures[i].1 > now_ms {
                let ghost before = kept@;
                kept.push((self.failures[i].0.duplicate(), self.failures[i].1));
                assert(failure_view(kept@) =~= failure_view(before).push(start[i as int]));
            }
            i = i + 1;
        }
        assert(start.take(i as int) =~= start);
        self.failures = kept;
    }

    /// The nodes to skip.
    pub fn excluded(&self) -> (r: Vec<NodeId>)
        ensures
            r@.len() == self.failures().len(),
            forall|k: int| 0 <= k < r@.len() ==> (#[trigger] r@[k])@ == self.failures()[k].0,
    {
        let mut out: Vec<NodeId> = Vec::new();
        let mut i: usize = 0;
        while i < self.failures.len()
            invariant
                i <= self.failures@.len(),
                out@.len() == i,
                forall|k: int| 0 <= k < i ==> (#[trigger] out@[k])@ == failure_view(self.failures@)[k].0,
            decreases self.failures.len() - i,
        {
            out.push(self.failures[i].0.duplicate());
            i = i + 1;
        }
        out
    }

    /// The earliest time a skipped node may be tried again.
    pub fn earliest_retry(&self) -> (r: Option<u64>)
        ensures
            r == earliest(self.failures()),
    {
        let ghost f = self.failures();
        let mut best: Option<u64> = None;
        let mut i: usize = 0;
        while i < self.failures.len()
            invariant
                i <= self.failures@.len(),
                f == failure_view(self.failures@),
                best == earliest(f.take(i as int)),
            decreases self.failures.len() - i,
        {
            assert(f.take(i + 1).drop_last() =~= f.take(i as int));
            assert(f.take(i + 1).last() == f[i as int]);
            let t = self.failures[i].1;
            best = match best {
                None => Some(t),
                Some(m) => Some(if t < m { t } else { m }),
            };
            i = i + 1;
        }
        assert(f.take(i as int) =~= f);
        best
    }

    /// Records a failed attempt on a node: it is skipped for the cooldown,
    /// the next attempt comes after the current delay, and the delay doubles
    /// up to its maximum.
    pub fn record_failure(&mut self, node_id: NodeId, now_ms: u64) -> (retry_at: u64)
        ensures
            retry_at == (if now_ms + old(self).retry_delay() > u64::MAX { u64::MAX as int } else { now_ms + old(self).retry_delay() }),
            final(self).retry_delay() == (if 2 * old(self).retry_delay() < AUTO_RECONNECT_MAX_MS { 2 * old(self).retry_delay() } else { AUTO_RECONNECT_MAX_MS as int }),
            final(self).failures() == old(self).failures().push((node_id@, (if now_ms + AUTO_NODE_COOLDOWN_MS > u64::MAX { u64::MAX as int } else { now_ms + AUTO_NODE_COOLDOWN_MS }) as u64)),
    {
        let ghost before = self.failures@;
        let ghost id = node_id@;
        let until = now_ms.saturating_add(AUTO_NODE_COOLDOWN_MS);
        self.failures.push((node_id, until));
        assert(failure_view(self.failures@) =~= failure_view(before).push((id, until)));
        let retry_at = now_ms.saturating_add(self.retry_delay_ms);
        self.retry_delay_ms = next_backoff_ms(self.retry_delay_ms, AUTO_RECONNECT_MAX_MS);
        retry_at
    }

    /// Skips a node for the cooldown without touching the retry delay.
    pub fn skip_node(&mut self, node_id: NodeId, now_ms: u64)
        ensures
            final(self).retry_delay() == old(self).retry_delay(),
            final(self).failures() == old(self).failures().push((node_id@, cooldown_until(now_ms))),
    {
        let ghost before = self.failures@;
        let ghost id = node_id@;
        let until = now_ms.saturating_add(AUTO_NODE_COOLDOWN_MS);
        self.failures.push((node_id, until));
        assert(failure_view(self.failures@) =~= failure_view(before).push((id, until)));
    }

    /// Schedules a retry after a transient failure, doubling the delay.
    pub fn retry_later(&mut self, now_ms: u64) -> (retry_at: u64)
        ensures
            retry_at == (if now_ms + old(self).retry_delay() > u64::MAX { u64::MAX as int } else { now_ms + old(self).retry_delay() }),
            final(self).retry_delay() == (if 2 * old(self).retry_delay() < AUTO_RECONNECT_MAX_MS { 2 * old(self).retry_delay() } else { AUTO_RECONNECT_MAX_MS as int }),
            final(self).failures() == old(self).failures(),
    {
        let retry_at = now_ms.saturating_add(self.retry_delay_ms);
        self.retry_delay_ms = next_backoff_ms(self.retry_delay_ms, AUTO_RECONNECT_MAX_MS);
        retry_at
    }

    /// Restarts the retry delay after a success.
    pub fn succeeded(&mut self)
        ensures
            final(self).retry_delay() == AUTO_RECONNECT_INITIAL_MS,
            final(self).failures() == old(self).failures(),
    {
        self.retry_delay_ms = AUTO_RECONNECT_INITIAL_MS;
    }

    /// Decides the next step from the selection with recently failed nodes
    /// excluded (`selected`), whether any node would qualify without the
    /// exclusions, and the active node.
    pub fn plan(&mut self, enabled: bool, selected: Option<NodeId>, any_without_cooldown: bool, active: Option<&NodeId>) -> (r: AutoConnectStep)
        ensures
            !enabled ==> r is Disabled && final(self).failures() == Seq::<(Seq<char>, u64)>::empty()
                && final(self).retry_delay() == AUTO_RECONNECT_INITIAL_MS,
            enabled ==> match selected {
                None => final(self).failures() == old(self).failures() && final(self).retry_delay() == old(self).retry_delay()
                    && r == AutoConnectStep::Wait(if any_without_cooldown { earliest(old(self).failures()) } else { None }),
                Some(n) => if active matches Some(a) && a@ == n@ {
                    final(self).failures() == old(self).failures() && final(self).retry_delay() == AUTO_RECONNECT_INITIAL_MS
                        && r == AutoConnectStep::Wait(earliest(old(self).failures()))
                } else {
                    final(self).failures() == old(self).failures() && final(self).retry_delay() == old(self).retry_delay()
                        && (r matches AutoConnectStep::Connect(c) && c@ == n@)
                },
            },
    {
        if !enabled {
            self.reset();
            return AutoConnectStep::Disabled;
        }
        match selected {
            None => {
                if any_without_cooldown {
                    AutoConnectStep::Wait(self.earliest_retry())
                } else {
                    AutoConnectStep::Wait(None)
                }
            },
            Some(n) => {
                let same = match active {
                    Some(a) => a.same(&n),
                    None => false,
                };
                if same {
                    self.succeeded();
                    AutoConnectStep::Wait(self.earliest_retry())
                } else {
                    AutoConnectStep::Connect(n)
                }
            },
        }
    }
}


/// The health check found the active worker not ready: the relay fails
/// closed. Nothing stays active, so new SOCKS requests fail; the state
/// becomes `Failed` for the lost node; the node is skipped for the cooldown;
/// with automatic connection on, a retry comes after the current delay, which
/// then doubles up to its maximum. Without an active connection nothing
/// changes.
pub fn worker_lost(
    active: &mut Option<ActiveConnection>,
    planner: &mut AutoConnectPlanner,
    auto_enabled: bool,
    now_ms: u64,
    at: Timestamp,
) -> (r: Option<WorkerLoss>)
    ensures
        *final(active) is None,
        match *old(active) {
            None => r is None && final(planner).failures() == old(planner).failures()
                && final(planner).retry_delay() == old(planner).retry_delay(),
            Some(a) => r matches Some(loss)
                && loss.worker_id == a.worker_id
                && (loss.state matches ConnectionState::Failed { node_id: n, message: m, at: t }
                    && n@ == a.node_id@ && m@ == tunnel_lost_message() && t == at)
                && final(planner).failures() == old(planner).failures().push((a.node_id@, cooldown_until(now_ms)))
                && if auto_enabled {
                    &&& loss.retry_at == Some((if now_ms + old(planner).retry_delay() > u64::MAX { u64::MAX as int } else { now_ms + old(planner).retry_delay() }) as u64)
                    &&& final(planner).retry_delay() == (if 2 * old(planner).retry_delay() < AUTO_RECONNECT_MAX_MS { 2 * old(planner).retry_delay() } else { AUTO_RECONNECT_MAX_MS as int })
                } else {
                    loss.retry_at is None && final(planner).retry_delay() == old(planner).retry_delay()
                },
        },
{
    match active.take() {
        None => None,
        Some(failed) => {
            let node_id = failed.node_id;
            let copy = node_id.duplicate();
            let retry_at = if auto_enabled {
                Some(planner.record_failure(copy, now_ms))
            } else {
                planner.skip_node(copy, now_ms);
                None
            };
            proof {
                reveal_strlit("VPN 隧道已断开；代理已闭锁");
            }
            Some(WorkerLoss {
                worker_id: failed.worker_id,
                state: ConnectionState::Failed { node_id, message: "VPN 隧道已断开；代理已闭锁".to_string(), at },
                retry_at,
            })
        },
    }
}

} // verus!
