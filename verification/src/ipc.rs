//! The loopback control channel: what a request may ask, who may ask it,
//! and the bounds of what travels over it. Sockets belong to the caller.
use crate::domain::{Event, SyncOutcome};
use crate::text::same_text;
use vstd::prelude::*;

verus! {

/// A request line may hold at most this many bytes.
pub const MAX_REQUEST_BYTES: usize = 4096;

/// A response line may hold at most this many bytes.
pub const MAX_RESPONSE_BYTES: usize = 65536;

/// The events answer carries at most this many of the latest events.
pub const MAX_EVENTS: usize = 100;

/// The event log is rotated once it would grow past this many bytes.
pub const EVENT_LOG_LIMIT: u64 = 1048576;

/// What a client may ask, each with the agent's token.
pub enum Request {
    Status { token: String },
    Events { token: String },
    Trigger { token: String, binding_id: String },
}

/// What the agent answers.
pub enum Response {
    Status { applied: Vec<String> },
    Events { events: Vec<Event> },
    Trigger { outcome: SyncOutcome },
    Failed,
    Unauthorized,
    Invalid,
}

/// What the agent does with a request.
#[derive(Debug, PartialEq, Eq)]
pub enum Action {
    ReportStatus,
    ReportEvents,
    Sync(String),
    Refuse,
}

/// A request is served only with the agent's own token.
pub fn decide(req: &Request, token: &str) -> (r: Action)
    ensures
        match *req {
            Request::Status { token: t } => if t@ == token@ { r == Action::ReportStatus } else { r == Action::Refuse },
            Request::Events { token: t } => if t@ == token@ { r == Action::ReportEvents } else { r == Action::Refuse },
            Request::Trigger { token: t, binding_id } => if t@ == token@ {
                r matches Action::Sync(id) && id@ == binding_id@
            } else {
                r == Action::Refuse
            },
        },
{
    match req {
        Request::Status { token: t } => if same_text(t.as_str(), token) {
            Action::ReportStatus
        } else {
            Action::Refuse
        },
        Request::Events { token: t } => if same_text(t.as_str(), token) {
            Action::ReportEvents
        } else {
            Action::Refuse
        },
        Request::Trigger { token: t, binding_id } => if same_text(t.as_str(), token) {
            Action::Sync(binding_id.clone())
        } else {
            Action::Refuse
        },
    }
}

/// Where the latest events start in a log of `total` lines.
pub fn events_window(total: usize) -> (r: usize)
    ensures
        r == (if total > MAX_EVENTS { total - MAX_EVENTS } else { 0 }),
        total - r <= MAX_EVENTS,
{
    if total > MAX_EVENTS {
        total - MAX_EVENTS
    } else {
        0
    }
}

/// Appending a record of `record_len` bytes and its newline to a log of
/// `current_len` bytes would pass the limit, so the log is rotated first.
pub fn event_log_full(current_len: u64, record_len: u64) -> (r: bool)
    ensures
        r == (current_len + record_len + 1 > EVENT_LOG_LIMIT),
{
    current_len > EVENT_LOG_LIMIT || record_len > EVENT_LOG_LIMIT - current_len || record_len + current_len + 1 > EVENT_LOG_LIMIT
}

} // verus!
