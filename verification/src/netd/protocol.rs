//! Requests, responses and framing shared by the control plane and the
//! privileged helper.

use vstd::prelude::*;

use crate::domain::{Ipv4Addr, NodeId, WorkerId};

verus! {

/// Largest accepted frame body.
pub const MAX_FRAME_BYTES: usize = 524288;

/// Time allowed for quick control requests.
pub const CONTROL_REQUEST_TIMEOUT_MS: u64 = 2000;

/// Time allowed for stopping a worker.
pub const STOP_REQUEST_TIMEOUT_MS: u64 = 10000;

/// Commands accepted by the narrowly scoped privileged helper.
#[derive(Debug)]
pub enum NetdRequest {
    Ping,
    StartWorker {
        worker_id: WorkerId,
        node_id: NodeId,
        expected_remote: (Ipv4Addr, u16),
        openvpn_config: String,
        connect_timeout_ms: u64,
    },
    StopWorker { worker_id: WorkerId },
    WorkerStatus { worker_id: WorkerId },
}

/// Responses from the privileged helper.
#[derive(Debug)]
pub enum NetdResponse {
    /// The helper is alive; it carries the upstream IPv4 address that the
    /// helper resolved once at startup and pinned.
    Pong { upstream: Ipv4Addr },
    WorkerStarted { socks_socket: String },
    Stopped,
    WorkerStatus { ready: bool },
    Error { code: String, message: String },
}

/// Communication failure or a typed helper rejection.
#[derive(Debug)]
pub enum NetdClientError {
    Unavailable,
    Timeout,
    Protocol,
    Rejected { code: String, message: String },
    UnexpectedResponse,
}

/// Control-plane client for the helper: where it listens and how long a
/// worker start may take.
#[derive(Clone, Debug)]
pub struct NetdClient {
    socket_path: String,
    request_timeout_ms: u64,
}

impl NetdClient {
    pub closed spec fn spec_socket_path(&self) -> Seq<char> {
        self.socket_path@
    }

    pub closed spec fn spec_timeout(&self) -> u64 {
        self.request_timeout_ms
    }

    /// Creates a client. Each request uses a fresh connection.
    pub fn new(socket_path: String, request_timeout_ms: u64) -> (r: NetdClient)
        ensures
            r.spec_socket_path() == socket_path@,
            r.spec_timeout() == request_timeout_ms,
    {
        NetdClient { socket_path, request_timeout_ms }
    }

    pub fn socket_path(&self) -> (r: &str)
        ensures
            r@ == self.spec_socket_path(),
    {
        self.socket_path.as_str()
    }

    pub fn request_timeout_ms(&self) -> (r: u64)
        ensures
            r == self.spec_timeout(),
    {
        self.request_timeout_ms
    }

    /// The request that starts a worker, and the time allowed for it.
    pub fn start_worker_request(
        &self,
        worker_id: WorkerId,
        node_id: NodeId,
        expected_remote: (Ipv4Addr, u16),
        openvpn_config: String,
        connect_timeout_ms: u64,
    ) -> (r: (NetdRequest, u64))
        ensures
            r.1 == self.spec_timeout(),
            r.0 matches NetdRequest::StartWorker { worker_id: w, node_id: n, expected_remote: e, openvpn_config: c, connect_timeout_ms: t }
                && w == worker_id && n@ == node_id@ && e == expected_remote && c@ == openvpn_config@
                && t == connect_timeout_ms,
    {
        (
            NetdRequest::StartWorker { worker_id, node_id, expected_remote, openvpn_config, connect_timeout_ms },
            self.request_timeout_ms,
        )
    }
}

/// A duration in milliseconds as a `u64`, saturating.
pub fn millis_u64(ms: u128) -> (r: u64)
    ensures
        r == if ms > u64::MAX as u128 { u64::MAX } else { ms as u64 },
{
    if ms > u64::MAX as u128 {
        u64::MAX
    } else {
        ms as u64
    }
}

/// A frame body must be non-empty and at most `MAX_FRAME_BYTES` long.
pub fn frame_length_ok(length: usize) -> (r: bool)
    ensures
        r == (0 < length && length <= MAX_FRAME_BYTES),
{
    length != 0 && length <= MAX_FRAME_BYTES
}

/// The outcome of a ping: the upstream address the helper pinned.
pub fn ping_outcome(response: NetdResponse) -> (r: Result<Ipv4Addr, NetdClientError>)
    ensures
        match response {
            NetdResponse::Pong { upstream } => r == Ok::<Ipv4Addr, NetdClientError>(upstream),
            _ => r matches Err(NetdClientError::UnexpectedResponse),
        },
{
    match response {
        NetdResponse::Pong { upstream } => Ok(upstream),
        _ => Err(NetdClientError::UnexpectedResponse),
    }
}

/// The outcome of a worker start: the worker's SOCKS socket.
pub fn start_outcome(response: NetdResponse) -> (r: Result<String, NetdClientError>)
    ensures
        match response {
            NetdResponse::WorkerStarted { socks_socket } => r matches Ok(s) && s@ == socks_socket@,
            NetdResponse::Error { code, message } => r matches Err(NetdClientError::Rejected { code: c, message: m })
                && c@ == code@ && m@ == message@,
            _ => r matches Err(NetdClientError::UnexpectedResponse),
        },
{
    match response {
        NetdResponse::WorkerStarted { socks_socket } => Ok(socks_socket),
        NetdResponse::Error { code, message } => Err(NetdClientError::Rejected { code, message }),
        _ => Err(NetdClientError::UnexpectedResponse),
    }
}

/// The outcome of a worker stop.
pub fn stop_outcome(response: NetdResponse) -> (r: Result<(), NetdClientError>)
    ensures
        match response {
            NetdResponse::Stopped => r is Ok,
            NetdResponse::Error { code, message } => r matches Err(NetdClientError::Rejected { code: c, message: m })
                && c@ == code@ && m@ == message@,
            _ => r matches Err(NetdClientError::UnexpectedResponse),
        },
{
    match response {
        NetdResponse::Stopped => Ok(()),
        NetdResponse::Error { code, message } => Err(NetdClientError::Rejected { code, message }),
        _ => Err(NetdClientError::UnexpectedResponse),
    }
}

/// The outcome of a worker status query.
pub fn status_outcome(response: NetdResponse) -> (r: Result<bool, NetdClientError>)
    ensures
        match response {
            NetdResponse::WorkerStatus { ready } => r == Ok::<bool, NetdClientError>(ready),
            NetdResponse::Error { code, message } => r matches Err(NetdClientError::Rejected { code: c, message: m })
                && c@ == code@ && m@ == message@,
            _ => r matches Err(NetdClientError::UnexpectedResponse),
        },
{
    match response {
        NetdResponse::WorkerStatus { ready } => Ok(ready),
        NetdResponse::Error { code, message } => Err(NetdClientError::Rejected { code, message }),
        _ => Err(NetdClientError::UnexpectedResponse),
    }
}

} // verus!
