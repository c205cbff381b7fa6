//! Decisions of the Web API: error envelopes, node listing order and pages.

pub mod auth;
pub mod listing;

use vstd::prelude::*;

use crate::service::{service_error_text, ServiceError};
use crate::text::{chars_to_string, str_chars};

verus! {

/// A JSON error response: HTTP status, stable code and message.
#[derive(Debug)]
pub struct ApiError {
    pub status: u16,
    pub code: &'static str,
    pub message: String,
}

impl ApiError {
    pub fn new(status: u16, code: &'static str, message: &str) -> (r: ApiError)
        ensures
            r.status == status,
            r.code@ == code@,
            r.message@ == message@,
    {
        ApiError { status, code, message: message.to_owned() }
    }

    /// The generic failure.
    pub fn internal() -> (r: ApiError)
        ensures
            r.status == 500,
            r.code@ == "internalError"@,
            r.message@ == "内部错误"@,
    {
        ApiError::new(500, "internalError", "内部错误")
    }
}

pub open spec fn service_status(e: ServiceError) -> u16 {
    match e {
        ServiceError::NodeNotFound => 404,
        ServiceError::OperationNotFound => 404,
        ServiceError::NodeUnavailable => 409,
        ServiceError::RefreshBusy => 409,
        ServiceError::QueueFull => 429,
        ServiceError::ShuttingDown => 503,
        ServiceError::InvalidAutoConnectConfig(_) => 400,
        ServiceError::Refresh(_) => 502,
        ServiceError::Worker(_) => 502,
        ServiceError::Store => 500,
    }
}

pub open spec fn service_code(e: ServiceError) -> Seq<char> {
    match e {
        ServiceError::NodeNotFound => "notFound"@,
        ServiceError::OperationNotFound => "notFound"@,
        ServiceError::NodeUnavailable => "nodeUnavailable"@,
        ServiceError::RefreshBusy => "refreshBusy"@,
        ServiceError::QueueFull => "testQueueFull"@,
        ServiceError::ShuttingDown => "shuttingDown"@,
        ServiceError::InvalidAutoConnectConfig(_) => "invalidAutoConnectConfig"@,
        ServiceError::Refresh(_) => "refreshFailed"@,
        ServiceError::Worker(_) => "workerFailed"@,
        ServiceError::Store => "storageFailed"@,
    }
}

/// The API response for a service failure: a stable status and code, and
/// the failure's description.
pub fn api_error_for(e: &ServiceError) -> (r: ApiError)
    ensures
        r.status == service_status(*e),
        r.code@ == service_code(*e),
        r.message@ == service_error_text(*e),
{
    let (status, code): (u16, &'static str) = match e {
        ServiceError::NodeNotFound => (404, "notFound"),
        ServiceError::OperationNotFound => (404, "notFound"),
        ServiceError::NodeUnavailable => (409, "nodeUnavailable"),
        ServiceError::RefreshBusy => (409, "refreshBusy"),
        ServiceError::QueueFull => (429, "testQueueFull"),
        ServiceError::ShuttingDown => (503, "shuttingDown"),
        ServiceError::InvalidAutoConnectConfig(_) => (400, "invalidAutoConnectConfig"),
        ServiceError::Refresh(_) => (502, "refreshFailed"),
        ServiceError::Worker(_) => (502, "workerFailed"),
        ServiceError::Store => (500, "storageFailed"),
    };
    ApiError { status, code, message: e.message() }
}

/// The first page, when the query names none.
pub fn default_page() -> (r: usize)
    ensures
        r == 1,
{
    1
}

/// Fifty nodes per page, when the query names no size.
pub fn default_page_size() -> (r: usize)
    ensures
        r == 50,
{
    50
}

} // verus!
