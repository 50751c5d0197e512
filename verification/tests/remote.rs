use std::cell::RefCell;
use superhq::proto::types::{AgentState, TabKind, WorkspaceInfo};
use superhq::remote::approval::{approval_decision, ApprovalOutcome, APPROVAL_TIMEOUT_SECS};
use superhq::remote::audit::{account_write, rotation_moves, sidecar_path, MAX_FILES, ROTATE_BYTES};
use superhq::remote::pairing::{
    count_removed, device_from_lookup, devices_from_rows, find_row, paired_device, store_device, DeviceDatabase,
    DeviceRow,
    PairedDevice, PairingStore,
};
use superhq::remote::pty_bus::{apply_resize, current_dimensions, initial_dimensions, PtyInput};
use superhq::remote::snapshot::{
    agent_info, build_agent_infos, build_snapshot, map_agent_state, map_tab_kind, tab_info,
    workspace_info, AgentRecord, LocalAgentStatus, LocalTab, LocalTabKind, RemoteStateSnapshot,
    RepoDetails,
};
use superhq::stable_sort::sort_by_key;

#[test]
fn only_explicit_approval_approves() {
    assert!(approval_decision(&ApprovalOutcome::Answered(true)));
    assert!(!approval_decision(&ApprovalOutcome::Answered(false)));
    assert!(!approval_decision(&ApprovalOutcome::TimedOut));
    assert!(!approval_decision(&ApprovalOutcome::Dropped));
    assert!(!approval_decision(&ApprovalOutcome::NotDelivered));
    assert_eq!(APPROVAL_TIMEOUT_SECS, 120);
}

#[test]
fn audit_rotates_at_five_megabytes() {
    assert_eq!(ROTATE_BYTES, 5 * 1024 * 1024);
    assert_eq!(account_write(0, 100), (100, false));
    assert_eq!(account_write(ROTATE_BYTES - 10, 9), (ROTATE_BYTES - 1, false));
    assert_eq!(account_write(ROTATE_BYTES - 10, 10), (ROTATE_BYTES, true));
    assert_eq!(account_write(ROTATE_BYTES, 1), (ROTATE_BYTES + 1, true));
}

#[test]
fn sidecar_names() {
    assert_eq!(sidecar_path("/d/logs/remote-audit.log", 1), "/d/logs/remote-audit.log.1");
    assert_eq!(sidecar_path("x", 12), "x.12");
}

#[test]
fn rotation_shifts_backups_oldest_first() {
    let moves = rotation_moves("a.log");
    let expected = vec![
        ("a.log.4", "a.log.5"),
        ("a.log.3", "a.log.4"),
        ("a.log.2", "a.log.3"),
        ("a.log.1", "a.log.2"),
        ("a.log", "a.log.1"),
    ];
    assert_eq!(moves.len(), MAX_FILES);
    for (m, e) in moves.iter().zip(expected.iter()) {
        assert_eq!(m.0, e.0);
        assert_eq!(m.1, e.1);
    }
}

fn row(id: &str, label: &str, at: u64) -> DeviceRow {
    DeviceRow { device_id: id.to_string(), device_label: label.to_string(), created_at: at }
}

#[test]
fn device_lookup_finds_first_row() {
    let rows = vec![row("a", "A", 1), row("b", "B", 2), row("b", "B2", 3)];
    assert_eq!(find_row(&rows, "b"), Some(1));
    assert_eq!(find_row(&rows, "c"), None);
    let d = device_from_lookup(Some(vec![0, 1, 2]), rows, "b").unwrap();
    assert_eq!(d.device_id, "b");
    assert_eq!(d.device_label, "B");
    assert_eq!(d.created_at, 2);
    assert_eq!(d.device_key_b64, "AAEC");
    assert!(device_from_lookup(None, vec![row("b", "B", 2)], "b").is_none());
    assert!(device_from_lookup(Some(vec![1]), vec![row("a", "A", 1)], "b").is_none());
    let p = paired_device(row("z", "Z", 9), &[255]);
    assert_eq!(p.device_key_b64, "/w==");
}

#[test]
fn removals_are_counted() {
    assert_eq!(count_removed(&vec![true, false, true]), 2);
    assert_eq!(count_removed(&vec![]), 0);
}

struct FakeDb {
    rows: RefCell<Vec<(DeviceRow, Vec<u8>)>>,
    fail_remove: String,
}

impl DeviceDatabase for FakeDb {
    fn get_paired_device_key(&self, device_id: &str) -> Result<Option<Vec<u8>>, String> {
        Ok(self.rows.borrow().iter().find(|(r, _)| r.device_id == device_id).map(|(_, k)| k.clone()))
    }
    fn list_paired_devices(&self) -> Result<Vec<DeviceRow>, String> {
        Ok(self.rows.borrow().iter().map(|(r, _)| row(&r.device_id, &r.device_label, r.created_at)).collect())
    }
    fn save_paired_device(&self, device_id: &str, device_label: &str, key: &[u8], created_at: u64) -> Result<(), String> {
        self.rows.borrow_mut().push((row(device_id, device_label, created_at), key.to_vec()));
        Ok(())
    }
    fn remove_paired_device(&self, device_id: &str) -> Result<(), String> {
        if device_id == self.fail_remove {
            return Err("locked".to_string());
        }
        self.rows.borrow_mut().retain(|(r, _)| r.device_id != device_id);
        Ok(())
    }
    fn touch_paired_device(&self, device_id: &str, now: u64) -> Result<(), String> {
        for (r, _) in self.rows.borrow_mut().iter_mut() {
            if r.device_id == device_id {
                r.created_at = now;
            }
        }
        Ok(())
    }
}

#[test]
fn pairing_store_round_trip() {
    let store = PairingStore::new(FakeDb { rows: RefCell::new(Vec::new()), fail_remove: "locked".to_string() });
    store.insert(PairedDevice {
        device_id: "phone".to_string(),
        device_label: "iPhone".to_string(),
        device_key_b64: "AAECAw==".to_string(),
        created_at: 5,
    });
    store.insert(PairedDevice {
        device_id: "bad".to_string(),
        device_label: "Bad".to_string(),
        device_key_b64: "***".to_string(),
        created_at: 6,
    });
    let d = store.get("phone").unwrap();
    assert_eq!(d.device_key_b64, "AAECAw==");
    assert_eq!(d.device_label, "iPhone");
    assert!(store.get("bad").is_none());
    assert_eq!(store.list().len(), 1);
    store.touch("phone", 99);
    assert_eq!(store.get("phone").unwrap().created_at, 99);
    assert!(store.remove("phone"));
    assert!(store.get("phone").is_none());
}

#[test]
fn clear_all_counts_successful_removals() {
    let db = FakeDb { rows: RefCell::new(Vec::new()), fail_remove: "b".to_string() };
    db.save_paired_device("a", "A", &[1], 1).unwrap();
    db.save_paired_device("b", "B", &[2], 2).unwrap();
    db.save_paired_device("c", "C", &[3], 3).unwrap();
    let store = PairingStore::new(db);
    assert_eq!(store.clear_all(), 2);
    assert_eq!(store.list().len(), 1);
}

struct RecordingWriter {
    last: RefCell<Option<(u16, u16)>>,
}

impl PtyInput for RecordingWriter {
    fn send_input(&self, _data: &[u8]) -> Result<(), String> {
        Ok(())
    }
    fn resize(&self, rows: u16, cols: u16) -> Result<(), String> {
        *self.last.borrow_mut() = Some((rows, cols));
        Ok(())
    }
}

#[test]
fn resize_records_cols_rows() {
    let w = RecordingWriter { last: RefCell::new(None) };
    let mut dims = initial_dimensions();
    assert_eq!(dims, (80, 24));
    assert_eq!(apply_resize(&w, &mut dims, 120, 40), Ok(()));
    assert_eq!(dims, (120, 40));
    assert_eq!(*w.last.borrow(), Some((40, 120)));
    assert_eq!(current_dimensions(Some(dims)), (120, 40));
    assert_eq!(current_dimensions(None), (80, 24));
}

fn tab(id: u64, label: &str, title: Option<&str>) -> LocalTab {
    LocalTab {
        tab_id: id,
        label: label.to_string(),
        dynamic_title: title.map(|t| t.to_string()),
        kind: LocalTabKind::Shell,
        agent_status: LocalAgentStatus::Idle,
        setup_error: None,
    }
}

fn ws(id: i64) -> WorkspaceInfo {
    WorkspaceInfo {
        workspace_id: id,
        label: format!("w{id}"),
        is_active: false,
        repo_name: None,
        branch: None,
        github_owner: None,
    }
}

#[test]
fn tab_kinds_and_states_map() {
    assert_eq!(map_tab_kind(&LocalTabKind::Agent), TabKind::Agent);
    assert_eq!(map_tab_kind(&LocalTabKind::Shell), TabKind::Shell);
    assert_eq!(map_tab_kind(&LocalTabKind::HostShell), TabKind::HostShell);
    match map_agent_state(&LocalAgentStatus::Running { tool: Some("bash".to_string()) }) {
        AgentState::Running { tool } => assert_eq!(tool.as_deref(), Some("bash")),
        _ => panic!("expected running"),
    }
    match map_agent_state(&LocalAgentStatus::NeedsInput { message: None }) {
        AgentState::NeedsInput { message } => assert!(message.is_none()),
        _ => panic!("expected needs input"),
    }
    assert!(matches!(map_agent_state(&LocalAgentStatus::Unknown), AgentState::Unknown));
    assert!(matches!(map_agent_state(&LocalAgentStatus::Idle), AgentState::Idle));
}

#[test]
fn tab_title_wins_and_pty_readiness() {
    let ready = vec![(1i64, 2u64)];
    let t = tab_info(1, &tab(2, "shell", Some("vim")), &ready);
    assert_eq!(t.label, "vim");
    assert!(t.pty_ready);
    let t = tab_info(3, &tab(2, "shell", None), &ready);
    assert_eq!(t.label, "shell");
    assert!(!t.pty_ready);
    assert_eq!(t.workspace_id, 3);
}

#[test]
fn snapshot_is_sorted() {
    let sessions = vec![(5i64, vec![tab(3, "c", None), tab(1, "a", None)]), (-2i64, vec![tab(9, "z", None)])];
    let snap: RemoteStateSnapshot = build_snapshot(vec![ws(3), ws(-1), ws(2)], &sessions, &vec![(5, 1)], Some(true));
    let ids: Vec<i64> = snap.workspaces.iter().map(|w| w.workspace_id).collect();
    assert_eq!(ids, vec![-1, 2, 3]);
    let keys: Vec<(i64, u64)> = snap.tabs.iter().map(|t| (t.workspace_id, t.tab_id)).collect();
    assert_eq!(keys, vec![(-2, 9), (5, 1), (5, 3)]);
    assert!(snap.tabs[1].pty_ready);
    assert!(!snap.tabs[2].pty_ready);
    assert!(snap.allow_host_shell);
    assert!(!build_snapshot(vec![], &vec![], &vec![], Some(false)).allow_host_shell);
    assert!(!build_snapshot(vec![], &vec![], &vec![], None).allow_host_shell);
    let empty = RemoteStateSnapshot::default();
    assert!(empty.workspaces.is_empty() && empty.tabs.is_empty() && !empty.allow_host_shell);
}

#[test]
fn stable_sort_keeps_equal_keys_in_order() {
    let mut a = ws(1);
    a.label = "first".to_string();
    let mut b = ws(1);
    b.label = "second".to_string();
    let sorted = sort_by_key(vec![ws(2), a, ws(0), b]);
    let labels: Vec<String> = sorted.iter().map(|w| w.label.clone()).collect();
    assert_eq!(labels, vec!["w0", "first", "second", "w2"]);
}

#[test]
fn workspace_info_marks_loaded() {
    let w = workspace_info(4, "repo".to_string(), &vec![1, 4], Some(RepoDetails {
        repo_name: Some("superhq".to_string()),
        branch: Some("main".to_string()),
        github_owner: None,
    }));
    assert!(w.is_active);
    assert_eq!(w.repo_name.as_deref(), Some("superhq"));
    assert_eq!(w.branch.as_deref(), Some("main"));
    let w = workspace_info(7, "x".to_string(), &vec![1, 4], None);
    assert!(!w.is_active);
    assert!(w.repo_name.is_none() && w.branch.is_none() && w.github_owner.is_none());
}

fn agent(id: i64, name: &str, icon: Option<&str>, order: i32) -> AgentRecord {
    AgentRecord {
        id,
        name: name.to_string(),
        display_name: name.to_uppercase(),
        icon: icon.map(|s| s.to_string()),
        icon_svg: icon.map(|_| "<svg/>".to_string()),
        color: None,
        tab_order: order,
    }
}

#[test]
fn agent_infos_in_tab_order_with_slugs() {
    let infos = build_agent_infos(vec![
        agent(1, "cursor", Some("icons/agents/cursor.svg"), 2),
        agent(2, "codex", Some("icons/agents/codex.svg"), 0),
        agent(3, "custom", None, 1),
    ]);
    let ids: Vec<i64> = infos.iter().map(|a| a.id).collect();
    assert_eq!(ids, vec![2, 3, 1]);
    assert_eq!(infos[0].slug.as_deref(), Some("codex"));
    assert_eq!(infos[1].slug.as_deref(), Some("custom"));
    assert!(infos[1].icon_svg.is_none());
    assert_eq!(infos[2].display_name, "CURSOR");
    let i = agent_info(agent(4, "n", None, 0), Some("stem".to_string()));
    assert_eq!(i.slug.as_deref(), Some("stem"));
    let mut stray = agent(5, "s", None, 0);
    stray.icon_svg = Some("<svg/>".to_string());
    assert!(agent_info(stray, None).icon_svg.is_none());
    assert_eq!(infos[0].icon_svg.as_deref(), Some("<svg/>"));
}

#[test]
fn devices_of_rows_with_keys() {
    let rows = vec![row("a", "A", 1), row("b", "B", 2), row("c", "C", 3)];
    let keys = vec![Some(vec![0u8; 32]), None, Some(vec![255u8, 1])];
    let ds = devices_from_rows(&rows, &keys);
    let got: Vec<(String, String, String, u64)> =
        ds.into_iter().map(|d| (d.device_id, d.device_label, d.device_key_b64, d.created_at)).collect();
    assert_eq!(
        got,
        vec![
            ("a".to_string(), "A".to_string(), "AAAAAAAAAAAAAAAAAAAAAAAAAAAAAAAAAAAAAAAAAAA=".to_string(), 1),
            ("c".to_string(), "C".to_string(), "/wE=".to_string(), 3),
        ]
    );
}

#[test]
fn storing_a_device_hands_its_decoded_key() {
    let db = FakeDb { rows: RefCell::new(Vec::new()), fail_remove: "x".to_string() };
    let bad = PairedDevice {
        device_id: "bad".to_string(),
        device_label: "Bad".to_string(),
        device_key_b64: "***".to_string(),
        created_at: 6,
    };
    assert!(store_device(&db, bad).is_none());
    assert!(db.rows.borrow().is_empty());
    let good = PairedDevice {
        device_id: "phone".to_string(),
        device_label: "iPhone".to_string(),
        device_key_b64: "AAECAw==".to_string(),
        created_at: 5,
    };
    assert_eq!(store_device(&db, good), Some(Ok(())));
    let rows = db.rows.borrow();
    assert_eq!(rows.len(), 1);
    assert_eq!(rows[0].0.device_id, "phone");
    assert_eq!(rows[0].0.device_label, "iPhone");
    assert_eq!(rows[0].0.created_at, 5);
    assert_eq!(rows[0].1, vec![0u8, 1, 2, 3]);
}
