//! JSON-RPC method names and their typed param/result shapes.
//!
//! Method names are dot-separated: `namespace.action`.
use vstd::prelude::*;

use crate::proto::types::{AgentInfo, BlobHandle, TabId, TabInfo, WorkspaceId, WorkspaceInfo};

verus! {

// ── Session ─────────────────────────────────────────────────────

pub const SESSION_HELLO: &'static str = "session.hello";
pub const SESSION_CHALLENGE: &'static str = "session.challenge";
pub const SESSION_PING: &'static str = "session.ping";
pub const SESSION_CLOSE: &'static str = "session.close";
pub const PAIRING_REQUEST: &'static str = "pairing.request";

/// Request a one-shot nonce that the client will bind into its
/// session.hello HMAC transcript. Must be called before session.hello.
pub struct SessionChallengeParams {}

pub struct SessionChallengeResult {
    /// Base64-encoded 32 random bytes, valid for one session.hello on the
    /// connection that asked for it.
    pub nonce: String,
}

pub struct SessionHelloParams {
    /// Highest protocol version the client supports.
    pub protocol_version: u32,
    /// Human-readable device label (for the paired-devices UI).
    pub device_label: String,
    /// Resume token from a prior session, if any.
    pub resume_token: Option<String>,
    /// Auth proof; hosts that require auth reject `None` with
    /// `PERMISSION_DENIED`.
    pub auth: Option<SessionAuth>,
}

/// Proof of pairing, included on every `session.hello`.
///
/// The `proof` is HMAC-SHA256, keyed with the device key, over
/// `"superhq:v1:" || host_node_id || ":" || device_id || ":" || nonce`.
pub struct SessionAuth {
    pub device_id: String,
    /// Base64-encoded HMAC-SHA256 output (32 bytes).
    pub proof: String,
}

pub struct PairingRequestParams {
    pub device_label: String,
    /// 6-digit TOTP code for the no-host-access pairing path.
    pub totp_code: Option<String>,
}

pub struct PairingRequestResult {
    pub device_id: String,
    /// Base64-encoded 32-byte random key. Client stores this securely.
    pub device_key: String,
}

pub struct SessionHelloResult {
    /// Protocol version both sides agreed to use.
    pub protocol_version: u32,
    /// Server-assigned session id (opaque).
    pub session_id: String,
    /// Resume token for this session.
    pub resume_token: String,
    /// Host app info (for display / compatibility).
    pub host_info: HostInfo,
    /// Initial snapshot of workspaces on the host.
    pub workspaces: Vec<WorkspaceInfo>,
    /// Initial snapshot of tabs across all workspaces.
    pub tabs: Vec<TabInfo>,
    /// Agents configured on the host, for the client's new-tab menu.
    pub agents: Vec<AgentInfo>,
    /// Whether remote clients may use the (unsandboxed) host shell; off by
    /// default.
    pub allow_host_shell: bool,
}

pub struct HostInfo {
    pub app_version: String,
    pub os: String,
    pub hostname: String,
}

pub struct SessionCloseParams {
    pub reason: Option<String>,
}

// ── Workspaces ─────────────────────────────────────────────────

pub const WORKSPACES_LIST: &'static str = "workspaces.list";
pub const WORKSPACE_ACTIVATE: &'static str = "workspace.activate";

pub struct WorkspacesListParams {}

pub type WorkspacesListResult = Vec<WorkspaceInfo>;

pub struct WorkspaceActivateParams {
    pub workspace_id: WorkspaceId,
}

/// Result of `workspace.activate` — the freshly-activated workspace plus
/// the tabs live inside it right after activation.
pub struct WorkspaceActivateResult {
    pub workspace: WorkspaceInfo,
    pub tabs: Vec<TabInfo>,
}

// ── Tabs ───────────────────────────────────────────────────────

pub const TABS_LIST: &'static str = "tabs.list";
pub const TABS_CREATE: &'static str = "tabs.create";
pub const TABS_CLOSE: &'static str = "tabs.close";

pub struct TabsListParams {}

pub type TabsListResult = Vec<TabInfo>;

pub struct TabsCreateParams {
    pub workspace_id: WorkspaceId,
    pub spec: TabCreateSpec,
}

/// What kind of tab to create: a host-machine shell, a guest (sandbox)
/// shell attached to an existing agent tab, or a fresh agent tab.
pub enum TabCreateSpec {
    /// Run a shell on the host machine (not the sandbox).
    HostShell,
    /// Attach a guest shell to an existing agent tab's sandbox.
    GuestShell { parent_tab_id: TabId },
    /// Spawn a new agent tab. `agent_id: None` → use the default.
    Agent { agent_id: Option<i64> },
}

/// Identifiers of a tab that is being created.
pub struct TabsCreateResult {
    pub workspace_id: WorkspaceId,
    pub tab_id: TabId,
}

/// How to close a tab: `Checkpoint` snapshots the sandbox and keeps a
/// stopped row; `Force` tears the tab down entirely.
#[derive(Clone, Copy, PartialEq, Eq, Structural, Debug)]
pub enum TabCloseMode {
    Checkpoint,
    Force,
}

pub struct TabsCloseParams {
    pub workspace_id: WorkspaceId,
    pub tab_id: TabId,
    pub mode: TabCloseMode,
}

// ── PTY ─────────────────────────────────────────────────────────

pub const PTY_ATTACH: &'static str = "pty.attach";
pub const PTY_DETACH: &'static str = "pty.detach";
pub const PTY_RESIZE: &'static str = "pty.resize";

pub struct PtyAttachParams {
    pub workspace_id: WorkspaceId,
    pub tab_id: TabId,
    /// The client's local terminal size; the host sizes the PTY to the
    /// minimum across attached clients.
    pub cols: Option<u16>,
    pub rows: Option<u16>,
}

pub struct PtyAttachResult {
    /// The effective PTY dimensions after the server considered this client.
    pub cols: u16,
    pub rows: u16,
    /// Recent scrollback delivered as a blob handle.
    pub initial_buffer: Option<BlobHandle>,
}

pub struct PtyDetachParams {
    pub workspace_id: WorkspaceId,
    pub tab_id: TabId,
}

pub struct PtyResizeParams {
    pub workspace_id: WorkspaceId,
    pub tab_id: TabId,
    pub cols: u16,
    pub rows: u16,
}

// ── Diff ───────────────────────────────────────────────────────

pub const DIFF_SUBSCRIBE: &'static str = "diff.subscribe";
pub const DIFF_UNSUBSCRIBE: &'static str = "diff.unsubscribe";
pub const DIFF_KEEP: &'static str = "diff.keep";
pub const DIFF_DISCARD: &'static str = "diff.discard";
pub const DIFF_APPLY_PARTIAL: &'static str = "diff.apply_partial";
pub const DIFF_ASK_AGENT: &'static str = "diff.ask_agent";

pub struct DiffSubscribeParams {
    pub workspace_id: WorkspaceId,
}

pub struct DiffPathParams {
    pub workspace_id: WorkspaceId,
    pub path: String,
}

pub struct DiffApplyPartialParams {
    pub workspace_id: WorkspaceId,
    pub path: String,
    /// (hunk_idx, line_idx_within_hunk) pairs the user discarded.
    pub discarded_lines: Vec<(usize, usize)>,
}

pub struct DiffAskAgentParams {
    pub workspace_id: WorkspaceId,
    pub path: String,
    pub selected_text: String,
    pub instruction: String,
}

// ── Status ─────────────────────────────────────────────────────

pub const STATUS_SUBSCRIBE: &'static str = "status.subscribe";
pub const STATUS_UNSUBSCRIBE: &'static str = "status.unsubscribe";

pub struct StatusSubscribeParams {}

// ── Ack ────────────────────────────────────────────────────────

/// Generic ack used as the result for many methods that just confirm success.
#[derive(PartialEq, Eq, Structural, Debug, Clone, Copy)]
pub struct Ack {
    pub ok: bool,
}

impl Default for Ack {
    fn default() -> (r: Self)
        ensures
            r.ok,
    {
        Self { ok: true }
    }
}

impl Ack {
    /// A successful ack.
    pub fn ok() -> (r: Self)
        ensures
            r.ok,
    {
        Self { ok: true }
    }
}

} // verus!
