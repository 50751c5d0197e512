//! Stream initialization framing.
//!
//! Every non-control stream opens with a `StreamInit` message that
//! identifies what the stream carries. Sent as a single JSON-RPC request
//! (method `stream.init`) — server replies with an ack, then the
//! stream-specific protocol takes over (for PTY: raw bytes both ways).
use vstd::prelude::*;

use crate::proto::types::{TabId, WorkspaceId};

verus! {

pub const STREAM_INIT: &'static str = "stream.init";

pub enum StreamInit {
    /// A terminal stream attached to a specific tab.
    Pty { workspace_id: WorkspaceId, tab_id: TabId, cols: u16, rows: u16 },
    /// A status event stream (host → client, unidirectional).
    Status,
}

} // verus!
