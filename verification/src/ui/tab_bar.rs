//! The agent tabs of the active workspace, as the menu that hands a change
//! to an agent lists them.
use vstd::prelude::*;

verus! {

/// An agent tab that a change can be handed to.
pub struct AgentTabInfo {
    pub tab_id: u64,
    pub name: String,
}

/// What the tab bar reads of a tab of the active session.
pub struct SessionTab {
    pub tab_id: u64,
    pub label: String,
    pub is_agent: bool,
    /// Whether the tab's sandbox is up.
    pub has_sandbox: bool,
}

/// An agent tab whose sandbox is up.
pub open spec fn is_live_agent(t: SessionTab) -> bool {
    t.is_agent && t.has_sandbox
}

/// The id and label of each live agent tab, in tab order.
pub open spec fn live_agent_tabs(tabs: Seq<SessionTab>) -> Seq<(u64, Seq<char>)>
    decreases tabs.len(),
{
    if tabs.len() == 0 {
        Seq::empty()
    } else {
        let rest = live_agent_tabs(tabs.drop_last());
        let t = tabs.last();
        if is_live_agent(t) {
            rest.push((t.tab_id, t.label@))
        } else {
            rest
        }
    }
}

pub open spec fn info_view(v: Seq<AgentTabInfo>) -> Seq<(u64, Seq<char>)> {
    v.map_values(|i: AgentTabInfo| (i.tab_id, i.name@))
}

/// The agent tabs of the active session whose sandbox is up, in tab order;
/// none when no workspace is active or its session is not loaded
/// (`session_tabs` is `None`).
pub fn active_agent_tabs(session_tabs: Option<&[SessionTab]>) -> (r: Vec<AgentTabInfo>)
    ensures
        info_view(r@) == match session_tabs {
            Some(t) => live_agent_tabs(t@),
            None => Seq::empty(),
        },
{
    let mut out: Vec<AgentTabInfo> = Vec::new();
    let tabs = match session_tabs {
        Some(t) => t,
        None => {
            assert(info_view(out@) =~= Seq::empty());
            return out;
        },
    };
    let mut i: usize = 0;
    while i < tabs.len()
        invariant
            0 <= i <= tabs@.len(),
            info_view(out@) == live_agent_tabs(tabs@.take(i as int)),
        decreases tabs@.len() - i,
    {
        let t = &tabs[i];
        proof {
            assert(tabs@.take(i as int + 1).drop_last() =~= tabs@.take(i as int));
            assert(tabs@.take(i as int + 1).last() == tabs@[i as int]);
        }
        if t.is_agent && t.has_sandbox {
            let name = t.label.clone();
            let ghost prev = out@;
            out.push(AgentTabInfo { tab_id: t.tab_id, name });
            proof {
                assert(info_view(out@) =~= info_view(prev).push((t.tab_id, t.label@)));
            }
        }
        i = i + 1;
    }
    assert(tabs@.take(tabs@.len() as int) =~= tabs@);
    out
}

} // verus!
