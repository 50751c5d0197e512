//! Shared wire types: workspaces, tabs, agents, file status and blobs.
use vstd::prelude::*;

verus! {

/// Workspace id (the host database's row id).
pub type WorkspaceId = i64;

/// Tab id, unique within a workspace.
pub type TabId = u64;

pub struct WorkspaceInfo {
    pub workspace_id: WorkspaceId,
    pub label: String,
    pub is_active: bool,
    pub repo_name: Option<String>,
    pub branch: Option<String>,
    pub github_owner: Option<String>,
}

#[derive(Clone, Copy, PartialEq, Eq, Structural, Debug)]
pub enum TabKind {
    Agent,
    Shell,
    HostShell,
}

pub enum AgentState {
    Unknown,
    Idle,
    Running { tool: Option<String> },
    NeedsInput { message: Option<String> },
}

pub struct TabInfo {
    pub workspace_id: WorkspaceId,
    pub tab_id: TabId,
    pub label: String,
    pub kind: TabKind,
    pub agent_state: AgentState,
    pub pty_ready: bool,
    pub setup_error: Option<String>,
}

pub struct AgentInfo {
    pub id: i64,
    pub display_name: String,
    pub slug: Option<String>,
    pub icon_svg: Option<String>,
    pub color: Option<String>,
}

#[derive(Clone, Copy, PartialEq, Eq, Structural, Debug)]
pub enum FileStatus {
    Added,
    Modified,
    Deleted,
}

/// A handle to a large payload delivered out of band.
pub struct BlobHandle {
    pub blob_id: String,
    pub size: u64,
}

} // verus!
