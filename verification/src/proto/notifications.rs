//! JSON-RPC notification names (host → client push) and their param shapes.
use vstd::prelude::*;

use crate::proto::types::{AgentState, BlobHandle, FileStatus, TabId, TabInfo, WorkspaceId, WorkspaceInfo};

verus! {

/// Catch-all "the workspaces/tabs snapshot you hold is stale — call
/// `workspaces.list` + `tabs.list`". No params.
pub const SNAPSHOT_INVALIDATED: &'static str = "snapshot.invalidated";

pub const WORKSPACES_ADDED: &'static str = "workspaces.added";
pub const WORKSPACES_REMOVED: &'static str = "workspaces.removed";

pub struct WorkspacesAddedParams {
    pub workspace: WorkspaceInfo,
}

pub struct WorkspacesRemovedParams {
    pub workspace_id: WorkspaceId,
}

pub const TABS_ADDED: &'static str = "tabs.added";
pub const TABS_REMOVED: &'static str = "tabs.removed";
pub const TABS_UPDATED: &'static str = "tabs.updated";

pub struct TabsAddedParams {
    pub tab: TabInfo,
}

pub struct TabsRemovedParams {
    pub workspace_id: WorkspaceId,
    pub tab_id: TabId,
}

pub struct TabsUpdatedParams {
    pub tab: TabInfo,
}

pub const DIFF_FILE_CHANGED: &'static str = "diff.file_changed";
pub const DIFF_FILE_REMOVED: &'static str = "diff.file_removed";
pub const DIFF_FULL_DIFF: &'static str = "diff.full_diff";

pub struct DiffFileChangedParams {
    pub workspace_id: WorkspaceId,
    pub path: String,
    pub status: FileStatus,
    pub additions: u32,
    pub deletions: u32,
}

pub struct DiffFileRemovedParams {
    pub workspace_id: WorkspaceId,
    pub path: String,
}

/// Full diff content delivered as a blob (could be large).
pub struct DiffFullDiffParams {
    pub workspace_id: WorkspaceId,
    pub path: String,
    /// JSON-encoded hunks blob.
    pub blob: BlobHandle,
}

pub const STATUS_AGENT_STATE: &'static str = "status.agent_state";

/// On the wire the state's fields are flattened into the params object.
pub struct StatusAgentStateParams {
    pub workspace_id: WorkspaceId,
    pub tab_id: TabId,
    pub state: AgentState,
}

} // verus!
