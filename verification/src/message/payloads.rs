//! What the nodes tell each other.

use vstd::prelude::*;

verus! {

/// Asks whether a tool may be used.
#[derive(Debug)]
pub struct PermissionRequest {
    pub agent_id: String,
    pub tool_call_id: String,
    pub tool_name: String,
    /// The tool's arguments, as JSON text.
    pub arguments: String,
    pub reason: Option<String>,
}

/// Says whether a tool may be used.
#[derive(Debug)]
pub struct PermissionResponse {
    pub agent_id: String,
    pub tool_call_id: String,
    pub allowed: bool,
    /// Whether the answer holds for later uses too.
    pub remember: bool,
}

/// Asks an agent to stop.
#[derive(Debug)]
pub struct CancelRequest {
    pub agent_id: String,
    pub reason: Option<String>,
}

/// Asks for a session to be compacted.
#[derive(Debug)]
pub struct CompactRequest {
    pub session_id: String,
    /// Whether to compact although it is not due.
    pub force: bool,
}

/// Says what a compaction has done.
#[derive(Debug)]
pub struct CompactResult {
    pub session_id: String,
    pub ok: bool,
    pub tokens_before: u64,
    pub tokens_after: u64,
    pub error: Option<String>,
}

} // verus!
