//! Requests of the management interface.

use crate::api::core_manager::StartCoreRequest;
use vstd::prelude::*;

verus! {

/// How many lines of log are shown unless a request asks for a number.
pub fn default_log_tail() -> (n: usize)
    ensures
        n == 200,
{
    200
}

/// A request for the log.
#[derive(Debug)]
pub struct LogsQuery {
    pub tail: Option<usize>,
    pub position: Option<u64>,
}

/// What a request for the log asks for.
#[derive(Debug, Clone, Copy, PartialEq, Eq, Structural)]
pub enum LogsRequest {
    /// What the log file holds from that byte on.
    FileFrom(u64),
    /// That many of the latest lines.
    Latest(usize),
}

/// Reads a request for the log. A position goes before a number of lines.
pub fn logs_request(query: &LogsQuery) -> (r: LogsRequest)
    ensures
        r == match query.position {
            Some(position) => LogsRequest::FileFrom(position),
            None => LogsRequest::Latest(
                match query.tail {
                    Some(n) => n,
                    None => 200,
                },
            ),
        },
{
    match query.position {
        Some(position) => LogsRequest::FileFrom(position),
        None => LogsRequest::Latest(
            match query.tail {
                Some(n) => n,
                None => default_log_tail(),
            },
        ),
    }
}

/// The request to start that an empty body stands for; any other body has to be read.
pub fn start_request(body: &[u8]) -> (r: Option<StartCoreRequest>)
    ensures
        match r {
            Some(request) => body@.len() == 0 && !request.is_need_elevate,
            None => body@.len() > 0,
        },
{
    if body.len() == 0 {
        Some(StartCoreRequest::default())
    } else {
        None
    }
}

} // verus!
