//! `RemoteStateSnapshot`: the point-in-time view of workspaces and tabs
//! that the remote handler serves to clients, and the agent list with its
//! icons.
//!
//! Workspaces come from the database, tabs from the loaded sessions. Both
//! lists are sorted (workspaces by id, tabs by workspace then tab id) so
//! that clients see the same order between renders.
use vstd::prelude::*;

use crate::proto::types::{AgentInfo, AgentState, TabId, TabInfo, TabKind, WorkspaceId, WorkspaceInfo};
use crate::stable_sort::{keys_identify, law_sort_ignores_input_order, law_sorted_by_key, sort_by_key, sorted_by_key, SortKey};
use crate::text::{clone_opt, opt_view};

verus! {

pub struct RemoteStateSnapshot {
    pub workspaces: Vec<WorkspaceInfo>,
    pub tabs: Vec<TabInfo>,
    /// Whether the user opted in to remote host-shell access. When false,
    /// remote clients can neither open a host-shell tab nor attach to one.
    pub allow_host_shell: bool,
}

impl Default for RemoteStateSnapshot {
    fn default() -> (r: Self)
        ensures
            r.workspaces@.len() == 0,
            r.tabs@.len() == 0,
            !r.allow_host_shell,
    {
        RemoteStateSnapshot { workspaces: Vec::new(), tabs: Vec::new(), allow_host_shell: false }
    }
}

/// The kind of a tab as the desktop's sessions hold it.
#[derive(Clone, Copy, PartialEq, Eq, Structural, Debug)]
pub enum LocalTabKind {
    Agent,
    Shell,
    HostShell,
}

/// An agent's status as the desktop's sessions hold it.
pub enum LocalAgentStatus {
    Unknown,
    Idle,
    Running { tool: Option<String> },
    NeedsInput { message: Option<String> },
}

/// A tab of a loaded session.
pub struct LocalTab {
    pub tab_id: TabId,
    pub label: String,
    /// The title the running program set, which wins over `label`.
    pub dynamic_title: Option<String>,
    pub kind: LocalTabKind,
    pub agent_status: LocalAgentStatus,
    pub setup_error: Option<String>,
}

/// The wire kind of a local tab kind.
pub open spec fn wire_tab_kind(kind: LocalTabKind) -> TabKind {
    match kind {
        LocalTabKind::Agent => TabKind::Agent,
        LocalTabKind::Shell => TabKind::Shell,
        LocalTabKind::HostShell => TabKind::HostShell,
    }
}

pub fn map_tab_kind(kind: &LocalTabKind) -> (r: TabKind)
    ensures
        r == wire_tab_kind(*kind),
{
    match kind {
        LocalTabKind::Agent => TabKind::Agent,
        LocalTabKind::Shell => TabKind::Shell,
        LocalTabKind::HostShell => TabKind::HostShell,
    }
}

/// `wire` is the wire form of `status`: same variant, same text.
pub open spec fn wire_agent_state(status: LocalAgentStatus, wire: AgentState) -> bool {
    match status {
        LocalAgentStatus::Unknown => wire is Unknown,
        LocalAgentStatus::Idle => wire is Idle,
        LocalAgentStatus::Running { tool } => wire matches AgentState::Running { tool: t } && opt_view(t) == opt_view(tool),
        LocalAgentStatus::NeedsInput { message } => wire matches AgentState::NeedsInput { message: m } && opt_view(m) == opt_view(message),
    }
}

pub fn map_agent_state(status: &LocalAgentStatus) -> (r: AgentState)
    ensures
        wire_agent_state(*status, r),
        (*status is Running <==> r is Running) && (*status is NeedsInput <==> r is NeedsInput),
        wire_state_text(r) == local_status_text(*status),
{
    match status {
        LocalAgentStatus::Unknown => AgentState::Unknown,
        LocalAgentStatus::Idle => AgentState::Idle,
        LocalAgentStatus::Running { tool } => AgentState::Running { tool: clone_opt(tool) },
        LocalAgentStatus::NeedsInput { message } => AgentState::NeedsInput { message: clone_opt(message) },
    }
}

/// The text a local status carries: the running tool's name, or the
/// question the agent is waiting on.
pub open spec fn local_status_text(status: LocalAgentStatus) -> Option<Seq<char>> {
    match status {
        LocalAgentStatus::Running { tool } => opt_view(tool),
        LocalAgentStatus::NeedsInput { message } => opt_view(message),
        _ => None,
    }
}

/// The text a wire agent state carries.
pub open spec fn wire_state_text(state: AgentState) -> Option<Seq<char>> {
    match state {
        AgentState::Running { tool } => opt_view(tool),
        AgentState::NeedsInput { message } => opt_view(message),
        _ => None,
    }
}

/// Clients see the agent's state as the desktop holds it: the same kind of
/// state (unknown, idle, running, waiting for input), and the same tool
/// name or question text, whatever it is.
pub proof fn law_wire_state_keeps_status(status: LocalAgentStatus, wire: AgentState)
    requires
        wire_agent_state(status, wire),
    ensures
        (status is Unknown <==> wire is Unknown),
        (status is Idle <==> wire is Idle),
        (status is Running <==> wire is Running),
        (status is NeedsInput <==> wire is NeedsInput),
        wire_state_text(wire) == local_status_text(status),
{
}

/// `info` describes `tab` of workspace `ws`: its title wins over its
/// label, and its PTY is ready once a bus is registered for it.
pub open spec fn describes_tab(ws: WorkspaceId, tab: LocalTab, ready_ptys: Seq<(WorkspaceId, TabId)>, info: TabInfo) -> bool {
    &&& info.workspace_id == ws
    &&& info.tab_id == tab.tab_id
    &&& info.label@ == match tab.dynamic_title {
        Some(t) => t@,
        None => tab.label@,
    }
    &&& info.kind == wire_tab_kind(tab.kind)
    &&& wire_agent_state(tab.agent_status, info.agent_state)
    &&& info.pty_ready == ready_ptys.contains((ws, tab.tab_id))
    &&& opt_view(info.setup_error) == opt_view(tab.setup_error)
}

fn contains_pty(ready_ptys: &Vec<(WorkspaceId, TabId)>, ws: WorkspaceId, tab: TabId) -> (r: bool)
    ensures
        r == ready_ptys@.contains((ws, tab)),
{
    let mut i: usize = 0;
    while i < ready_ptys.len()
        invariant
            i <= ready_ptys@.len(),
            forall|j: int| 0 <= j < i ==> ready_ptys@[j] != (ws, tab),
        decreases ready_ptys@.len() - i,
    {
        let (w, t) = ready_ptys[i];
        if w == ws && t == tab {
            proof {
                assert(ready_ptys@[i as int] == (ws, tab));
            }
            return true;
        }
        i += 1;
    }
    false
}

/// The wire description of one tab.
pub fn tab_info(workspace_id: WorkspaceId, tab: &LocalTab, ready_ptys: &Vec<(WorkspaceId, TabId)>) -> (r: TabInfo)
    ensures
        describes_tab(workspace_id, *tab, ready_ptys@, r),
{
    let label = match &tab.dynamic_title {
        Some(t) => t.clone(),
        None => tab.label.clone(),
    };
    TabInfo {
        workspace_id,
        tab_id: tab.tab_id,
        label,
        kind: map_tab_kind(&tab.kind),
        agent_state: map_agent_state(&tab.agent_status),
        pty_ready: contains_pty(ready_ptys, workspace_id, tab.tab_id),
        setup_error: clone_opt(&tab.setup_error),
    }
}

impl SortKey for WorkspaceInfo {
    open spec fn key_of(&self) -> int {
        self.workspace_id as int
    }

    fn sort_key(&self) -> (k: i128) {
        self.workspace_id as i128
    }
}

/// Tabs order by workspace id, then tab id: one integer that orders as the
/// pair does.
pub open spec fn tab_key(ws: WorkspaceId, tab: TabId) -> int {
    ws as int * 0x1_0000_0000_0000_0000 + tab as int
}

impl SortKey for TabInfo {
    open spec fn key_of(&self) -> int {
        tab_key(self.workspace_id, self.tab_id)
    }

    fn sort_key(&self) -> (k: i128) {
        let w = self.workspace_id as i128;
        let t = self.tab_id as i128;
        w * 0x1_0000_0000_0000_0000i128 + t
    }
}

/// The tab key orders as the pair (workspace id, tab id) does.
pub proof fn lemma_tab_key_order(w1: WorkspaceId, t1: TabId, w2: WorkspaceId, t2: TabId)
    ensures
        tab_key(w1, t1) <= tab_key(w2, t2) <==> (w1 < w2 || (w1 == w2 && t1 <= t2)),
{
}

/// The tabs of the sessions, each with its workspace, in session order.
pub open spec fn session_tabs(sessions: Seq<(WorkspaceId, Vec<LocalTab>)>) -> Seq<(WorkspaceId, LocalTab)>
    decreases sessions.len(),
{
    if sessions.len() == 0 {
        Seq::empty()
    } else {
        session_tabs(sessions.drop_last()) + sessions.last().1@.map_values(
            |t: LocalTab| (sessions.last().0, t),
        )
    }
}

/// `infos` describes the tabs of `flat`, one for one and in order.
pub open spec fn describes_tabs(flat: Seq<(WorkspaceId, LocalTab)>, ready_ptys: Seq<(WorkspaceId, TabId)>, infos: Seq<TabInfo>) -> bool {
    &&& infos.len() == flat.len()
    &&& forall|k: int| 0 <= k < flat.len() ==> describes_tab(flat[k].0, flat[k].1, ready_ptys, #[trigger] infos[k])
}

/// Builds the snapshot from the database's workspaces, the loaded
/// sessions' tabs, the registered PTY buses and the stored host-shell
/// setting (`None` when the settings cannot be read): every tab is
/// described, then both lists are sorted stably by key. Remote host-shell
/// access is off unless the setting says it is on.
pub fn build_snapshot(
    workspaces: Vec<WorkspaceInfo>,
    sessions: &Vec<(WorkspaceId, Vec<LocalTab>)>,
    ready_ptys: &Vec<(WorkspaceId, TabId)>,
    host_shell_setting: Option<bool>,
) -> (r: RemoteStateSnapshot)
    ensures
        r.workspaces@ == sorted_by_key(workspaces@),
        exists|infos: Seq<TabInfo>|
            describes_tabs(session_tabs(sessions@), ready_ptys@, infos) && #[trigger] sorted_by_key(infos) == r.tabs@,
        r.allow_host_shell <==> host_shell_setting == Some(true),
{
    let allow_host_shell = match host_shell_setting {
        Some(on) => on,
        None => false,
    };
    let mut tabs: Vec<TabInfo> = Vec::new();
    let mut i: usize = 0;
    while i < sessions.len()
        invariant
            i <= sessions@.len(),
            describes_tabs(session_tabs(sessions@.take(i as int)), ready_ptys@, tabs@),
        decreases sessions@.len() - i,
    {
        let ghost before = tabs@;
        let ghost prefix = session_tabs(sessions@.take(i as int));
        let ws = sessions[i].0;
        let list = &sessions[i].1;
        let mut j: usize = 0;
        while j < list.len()
            invariant
                j <= list@.len(),
                tabs@.len() == before.len() + j,
                tabs@.take(before.len() as int) == before,
                forall|k: int| 0 <= k < j ==> describes_tab(ws, list@[k], ready_ptys@, #[trigger] tabs@[before.len() + k]),
            decreases list@.len() - j,
        {
            let info = tab_info(ws, &list[j], ready_ptys);
            tabs.push(info);
            proof {
                assert(tabs@.take(before.len() as int) == before);
            }
            j += 1;
        }
        proof {
            let next = sessions@.take(i + 1);
            assert(next.drop_last() == sessions@.take(i as int));
            assert(next.last() == sessions@[i as int]);
            let flat = session_tabs(next);
            let added = list@.map_values(|t: LocalTab| (ws, t));
            assert(flat == prefix + added);
            assert forall|k: int| 0 <= k < flat.len() implies describes_tab(
                flat[k].0,
                flat[k].1,
                ready_ptys@,
                #[trigger] tabs@[k],
            ) by {
                if k < prefix.len() {
                    assert(tabs@[k] == before[k]);
                } else {
                    let m = k - prefix.len();
                    assert(flat[k] == added[m]);
                    assert(added[m] == (ws, list@[m]));
                    assert(describes_tab(ws, list@[m], ready_ptys@, tabs@[before.len() + m]));
                }
            }
        }
        i += 1;
    }
    proof {
        assert(sessions@.take(sessions@.len() as int) == sessions@);
    }
    let ghost infos = tabs@;
    let sorted_workspaces = sort_by_key(workspaces);
    let sorted_tabs = sort_by_key(tabs);
    proof {
        assert(sorted_by_key(infos) == sorted_tabs@);
    }
    RemoteStateSnapshot { workspaces: sorted_workspaces, tabs: sorted_tabs, allow_host_shell }
}

/// What the desktop knows of a workspace's git repository.
pub struct RepoDetails {
    pub repo_name: Option<String>,
    pub branch: Option<String>,
    pub github_owner: Option<String>,
}

/// The wire description of a database workspace: it is active when a
/// session for it is loaded, and carries repository details only when its
/// mount path is a git repository (`repo`).
pub fn workspace_info(id: WorkspaceId, name: String, loaded: &Vec<WorkspaceId>, repo: Option<RepoDetails>) -> (r: WorkspaceInfo)
    ensures
        r.workspace_id == id,
        r.label == name,
        r.is_active == loaded@.contains(id),
        match repo {
            Some(d) => r.repo_name == d.repo_name && r.branch == d.branch && r.github_owner == d.github_owner,
            None => r.repo_name is None && r.branch is None && r.github_owner is None,
        },
{
    let mut is_active = false;
    let mut i: usize = 0;
    while i < loaded.len()
        invariant
            i <= loaded@.len(),
            is_active == exists|j: int| 0 <= j < i && loaded@[j] == id,
        decreases loaded@.len() - i,
    {
        if loaded[i] == id {
            is_active = true;
        }
        i += 1;
    }
    let (repo_name, branch, github_owner) = match repo {
        Some(d) => (d.repo_name, d.branch, d.github_owner),
        None => (None, None, None),
    };
    WorkspaceInfo { workspace_id: id, label: name, is_active, repo_name, branch, github_owner }
}

/// An agent as the database lists it.
pub struct AgentRecord {
    pub id: i64,
    pub name: String,
    pub display_name: String,
    /// Path of the agent's icon among the embedded assets, such as
    /// `icons/agents/cursor.svg`.
    pub icon: Option<String>,
    /// The embedded SVG found for `icon`, when the assets have one (only
    /// read when `icon` is there).
    pub icon_svg: Option<String>,
    pub color: Option<String>,
    pub tab_order: i32,
}

impl SortKey for AgentRecord {
    open spec fn key_of(&self) -> int {
        self.tab_order as int
    }

    fn sort_key(&self) -> (k: i128) {
        self.tab_order as i128
    }
}

/// The file stem of a path (`cursor` for `icons/agents/cursor.svg`), with
/// `std::path::Path::file_stem`.
///
/// Nothing is stated of the result: how a path splits into components
/// depends on the platform's separators.
#[verifier::external_body]
fn path_file_stem(path: &str) -> Option<String> {
    match std::path::Path::new(path).file_stem() {
        Some(stem) => match stem.to_str() {
            Some(s) => Some(s.to_string()),
            None => None,
        },
        None => None,
    }
}

/// The wire form of an agent, given the stem of its icon path (`None`
/// when it has no icon or the path has no stem): the slug is the stem, or
/// else the agent's name; the inlined SVG is the one found for its icon,
/// and none without an icon.
pub fn agent_info(agent: AgentRecord, icon_stem: Option<String>) -> (r: AgentInfo)
    ensures
        r.id == agent.id,
        r.display_name == agent.display_name,
        r.slug == match icon_stem {
            Some(s) => Some(s),
            None => Some(agent.name),
        },
        r.icon_svg == if agent.icon is Some { agent.icon_svg } else { None },
        r.color == agent.color,
{
    let slug = match icon_stem {
        Some(s) => Some(s),
        None => Some(agent.name),
    };
    let icon_svg = match agent.icon {
        Some(_) => agent.icon_svg,
        None => None,
    };
    AgentInfo { id: agent.id, display_name: agent.display_name, slug, icon_svg, color: agent.color }
}

/// `info` is the wire form of `agent`, whatever the stem of its icon path.
pub open spec fn describes_agent(agent: AgentRecord, info: AgentInfo) -> bool {
    &&& info.id == agent.id
    &&& info.display_name == agent.display_name
    &&& info.icon_svg == if agent.icon is Some { agent.icon_svg } else { None }
    &&& info.color == agent.color
    &&& info.slug is Some
    &&& agent.icon is None ==> info.slug == Some(agent.name)
}

/// The agents list served to clients: in tab order (stably), each with
/// its slug and inlined icon.
pub fn build_agent_infos(agents: Vec<AgentRecord>) -> (r: Vec<AgentInfo>)
    ensures
        r@.len() == agents@.len(),
        forall|k: int| 0 <= k < r@.len() ==> describes_agent(sorted_by_key(agents@)[k], #[trigger] r@[k]),
{
    let ghost sorted = sorted_by_key(agents@);
    proof {
        law_sorted_by_key(agents@);
    }
    let mut rest = sort_by_key(agents);
    let n = rest.len();
    let mut out: Vec<AgentInfo> = Vec::new();
    while out.len() < n
        invariant
            n == sorted.len(),
            out@.len() <= n,
            rest@ == sorted.skip(out@.len() as int),
            forall|k: int| 0 <= k < out@.len() ==> describes_agent(sorted[k], #[trigger] out@[k]),
        decreases n - out@.len(),
    {
        let a = rest.remove(0);
        let stem = match &a.icon {
            Some(p) => path_file_stem(p.as_str()),
            None => None,
        };
        let info = agent_info(a, stem);
        out.push(info);
    }
    out
}

/// A snapshot lists workspaces in increasing id order and tabs in
/// increasing (workspace id, tab id) order, and holds exactly the
/// workspaces and tabs it was built from.
pub proof fn law_snapshot_order(workspaces: Seq<WorkspaceInfo>, tabs: Seq<TabInfo>)
    ensures
        forall|i: int, j: int|
            0 <= i <= j < workspaces.len() ==> #[trigger] sorted_by_key(workspaces)[i].workspace_id
                <= #[trigger] sorted_by_key(workspaces)[j].workspace_id,
        forall|i: int, j: int|
            0 <= i <= j < tabs.len() ==> {
                let a = #[trigger] sorted_by_key(tabs)[i];
                let b = #[trigger] sorted_by_key(tabs)[j];
                a.workspace_id < b.workspace_id || (a.workspace_id == b.workspace_id && a.tab_id <= b.tab_id)
            },
        sorted_by_key(workspaces).to_multiset() == workspaces.to_multiset(),
        sorted_by_key(tabs).to_multiset() == tabs.to_multiset(),
{
    law_sorted_by_key(workspaces);
    law_sorted_by_key(tabs);
    let s = sorted_by_key(workspaces);
    assert forall|i: int, j: int| 0 <= i <= j < workspaces.len() implies #[trigger] s[i].workspace_id
        <= #[trigger] s[j].workspace_id by {
        assert(s[i].key_of() <= s[j].key_of());
    }
    let t = sorted_by_key(tabs);
    assert forall|i: int, j: int| 0 <= i <= j < tabs.len() implies {
        let a = #[trigger] t[i];
        let b = #[trigger] t[j];
        a.workspace_id < b.workspace_id || (a.workspace_id == b.workspace_id && a.tab_id <= b.tab_id)
    } by {
        assert(t[i].key_of() <= t[j].key_of());
        lemma_tab_key_order(t[i].workspace_id, t[i].tab_id, t[j].workspace_id, t[j].tab_id);
    }
}

/// Clients see the same lists between renders: workspaces listed in any
/// order by the database, or tabs gathered in any order from the
/// sessions, come out in the same order, as long as no two different
/// workspaces share an id and no two different tabs share a (workspace,
/// tab) id.
pub proof fn law_snapshot_ignores_gathering_order(
    ws1: Seq<WorkspaceInfo>,
    ws2: Seq<WorkspaceInfo>,
    tabs1: Seq<TabInfo>,
    tabs2: Seq<TabInfo>,
)
    requires
        ws1.to_multiset() == ws2.to_multiset(),
        keys_identify(ws1.to_multiset()),
        tabs1.to_multiset() == tabs2.to_multiset(),
        keys_identify(tabs1.to_multiset()),
    ensures
        sorted_by_key(ws1) == sorted_by_key(ws2),
        sorted_by_key(tabs1) == sorted_by_key(tabs2),
{
    law_sort_ignores_input_order(ws1, ws2);
    law_sort_ignores_input_order(tabs1, tabs2);
}

} // verus!
