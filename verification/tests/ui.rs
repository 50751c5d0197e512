use std::ops::Range;
use superhq::ui::hex_color::{parse_hex_rgb, parse_hex_rgba};
use superhq::ui::highlight::{highlight_ranges, merge_styles, style_for_capture, syntax_theme};
use superhq::ui::remote_button::{devices_label, qr_cells, qr_grid, QR_DARK_RGB, QR_LIGHT_RGB};
use superhq::ui::settings::{host_id_display, relative_time, rotate_step, short_id, RotateEvent};
use superhq::ui::setup_view::{logs_link_label, split_setup_error, step_indicator, StepStatus};
use superhq::ui::languages::{grammar_for, Grammar};
use superhq::ui::tab_bar::{active_agent_tabs, SessionTab};

#[test]
fn hex_rgb_parsing() {
    assert_eq!(parse_hex_rgb("#1a1b26"), Some((0x1a, 0x1b, 0x26)));
    assert_eq!(parse_hex_rgb("##FFfF00"), Some((255, 255, 0)));
    assert_eq!(parse_hex_rgb("1a1b26"), Some((0x1a, 0x1b, 0x26)));
    assert_eq!(parse_hex_rgb("+f+f+f"), Some((15, 15, 15)));
    assert_eq!(parse_hex_rgb("#1a1b2"), None);
    assert_eq!(parse_hex_rgb("#1a1b2g"), None);
    assert_eq!(parse_hex_rgb("#ffffff0a"), None);
    assert_eq!(parse_hex_rgb("-1a1b2"), None);
}

#[test]
fn hex_rgba_parsing() {
    assert_eq!(parse_hex_rgba("#ffffff0a"), Some((255, 255, 255, 10)));
    assert_eq!(parse_hex_rgba("#000000"), Some((0, 0, 0, 255)));
    assert_eq!(parse_hex_rgba("#0000000"), None);
    assert_eq!(parse_hex_rgba("#\u{e9}\u{e9}"), None);
    assert_eq!(parse_hex_rgba(""), None);
}

fn theme() -> Vec<(String, u32)> {
    syntax_theme(vec![
        ("keyword".to_string(), "#ff0000".to_string()),
        ("keyword.function".to_string(), "#00ff00".to_string()),
        ("bad".to_string(), "zz".to_string()),
        ("type".to_string(), "#0000ff".to_string()),
    ])
}

#[test]
fn theme_drops_bad_colors() {
    let t = theme();
    let names: Vec<&str> = t.iter().map(|(n, _)| n.as_str()).collect();
    assert_eq!(names, vec!["keyword", "keyword.function", "type"]);
    assert_eq!(t[0].1, 0xff0000);
    assert_eq!(t[1].1, 0x00ff00);
    assert_eq!(t[2].1, 0x0000ff);
}

#[test]
fn capture_styles_walk_up_hierarchy() {
    let t = theme();
    assert_eq!(style_for_capture("keyword.function", &t), Some(0x00ff00));
    assert_eq!(style_for_capture("keyword.function.builtin", &t), Some(0x00ff00));
    assert_eq!(style_for_capture("keyword.operator", &t), Some(0xff0000));
    assert_eq!(style_for_capture("string", &t), None);
    assert_eq!(style_for_capture("bad", &t), None);
    assert_eq!(style_for_capture("", &t), None);
}

fn runs(v: &[(Range<usize>, u32)]) -> Vec<(usize, usize, u32)> {
    v.iter().map(|(r, s)| (r.start, r.end, *s)).collect()
}

#[test]
fn later_captures_win_overlaps() {
    let merged = merge_styles(&(0..10), vec![(0..5, 1), (3..8, 2)]);
    assert_eq!(runs(&merged), vec![(0, 3, 1), (3, 8, 2)]);
}

#[test]
fn touching_runs_of_one_style_merge() {
    let merged = merge_styles(&(0..10), vec![(0..4, 1), (4..6, 1)]);
    assert_eq!(runs(&merged), vec![(0, 6, 1)]);
    let nested = merge_styles(&(0..10), vec![(0..10, 1), (2..4, 2)]);
    assert_eq!(runs(&nested), vec![(0, 2, 1), (2, 4, 2), (4, 10, 1)]);
    let gap = merge_styles(&(0..10), vec![(0..2, 1), (5..7, 1)]);
    assert_eq!(runs(&gap), vec![(0, 2, 1), (5, 7, 1)]);
    assert!(merge_styles(&(0..10), vec![]).is_empty());
}

#[test]
fn highlight_drops_unstyled_and_empty_captures() {
    let t = theme();
    let captures = vec![
        (0..5, "keyword".to_string()),
        (5..5, "keyword".to_string()),
        (6..9, "string".to_string()),
        (3..8, "type".to_string()),
    ];
    assert_eq!(runs(&highlight_ranges(10, &captures, &t)), vec![(0, 3, 0xff0000), (3, 8, 0x0000ff)]);
    assert!(highlight_ranges(10, &vec![(1..2, "string".to_string())], &t).is_empty());
}

#[test]
fn short_ids() {
    assert_eq!(short_id("abcdefghijklmnopqrstuvwxyz"), "abcdefgh\u{2026}wxyz");
    assert_eq!(short_id("short"), "short");
    assert_eq!(short_id("0123456789abcdef"), "0123456789abcdef");
}

#[test]
fn paired_ago_labels() {
    assert_eq!(relative_time(1000, 1000), "paired just now");
    assert_eq!(relative_time(1059, 1000), "paired just now");
    assert_eq!(relative_time(1060, 1000), "paired 1 min ago");
    assert_eq!(relative_time(1000 + 3599, 1000), "paired 59 min ago");
    assert_eq!(relative_time(1000 + 3600, 1000), "paired 1 hr ago");
    assert_eq!(relative_time(1000 + 86400 * 3, 1000), "paired 3 days ago");
    assert_eq!(relative_time(5, 1000), "paired just now");
}

#[test]
fn device_count_labels() {
    assert_eq!(devices_label(0), "No paired devices");
    assert_eq!(devices_label(1), "1 paired device");
    assert_eq!(devices_label(12), "12 paired devices");
}

#[test]
fn qr_code_cells() {
    let rows = qr_grid("superhq://pair?host=abc").unwrap();
    let w = rows.len();
    assert!(w >= 21);
    assert!(rows.iter().all(|r| r.len() == w));
    assert_eq!(rows[0][0], QR_DARK_RGB);
    assert!(rows.iter().flatten().all(|c| *c == QR_DARK_RGB || *c == QR_LIGHT_RGB));
    let too_long = "x".repeat(4000);
    assert!(qr_grid(&too_long).is_none());
    let cells = qr_cells(2, &vec![true, false, false, true]);
    assert_eq!(cells, vec![vec![QR_DARK_RGB, QR_LIGHT_RGB], vec![QR_LIGHT_RGB, QR_DARK_RGB]]);
}

#[test]
fn setup_error_splits_log_path() {
    let (msg, path) = split_setup_error("Install failed \u{2014} logs saved to /tmp/setup.log\n");
    assert_eq!(msg, "Install failed");
    assert_eq!(path.as_deref(), Some("/tmp/setup.log"));
    let (msg, path) = split_setup_error("boom");
    assert_eq!(msg, "boom");
    assert!(path.is_none());
    assert_eq!(logs_link_label("/tmp/setup.log"), "View logs: /tmp/setup.log");
}

#[test]
fn step_glyphs() {
    assert_eq!(step_indicator(StepStatus::Done), "\u{2713}");
    assert_eq!(step_indicator(StepStatus::Active), "\u{25CF}");
    assert_eq!(step_indicator(StepStatus::Pending), "\u{25CB}");
    assert_eq!(step_indicator(StepStatus::Failed), "\u{2717}");
}

#[test]
fn agent_tabs_of_active_session() {
    let tab = |tab_id: u64, label: &str, is_agent: bool, has_sandbox: bool| SessionTab {
        tab_id,
        label: label.to_string(),
        is_agent,
        has_sandbox,
    };
    let tabs = vec![
        tab(1, "Codex", true, true),
        tab(2, "Shell", false, true),
        tab(3, "Pi", true, false),
        tab(4, "Cursor", true, true),
    ];
    let r = active_agent_tabs(Some(tabs.as_slice()));
    let got: Vec<(u64, String)> = r.into_iter().map(|i| (i.tab_id, i.name)).collect();
    assert_eq!(got, vec![(1, "Codex".to_string()), (4, "Cursor".to_string())]);
    assert!(active_agent_tabs(None).is_empty());
    assert!(active_agent_tabs(Some(&[])).is_empty());
}

#[test]
fn language_registry() {
    assert_eq!(grammar_for("rust"), Some(Grammar::Rust));
    assert_eq!(grammar_for("typescript"), Some(Grammar::TypeScript));
    assert_eq!(grammar_for("markdown"), Some(Grammar::Markdown));
    assert_eq!(grammar_for("sql"), Some(Grammar::Sql));
    assert_eq!(grammar_for("elixir"), Some(Grammar::Elixir));
    assert_eq!(grammar_for("Rust"), None);
    assert_eq!(grammar_for("tsx"), None);
    assert_eq!(grammar_for(""), None);
}

#[test]
fn host_id_rotation_asks_first() {
    assert_eq!(rotate_step(false, RotateEvent::Rotate), (true, false));
    assert_eq!(rotate_step(false, RotateEvent::Confirm), (false, false));
    assert_eq!(rotate_step(false, RotateEvent::Cancel), (false, false));
    assert_eq!(rotate_step(true, RotateEvent::Cancel), (false, false));
    assert_eq!(rotate_step(true, RotateEvent::Confirm), (true, true));
    assert_eq!(rotate_step(true, RotateEvent::Rotate), (true, false));
}

#[test]
fn host_id_block_shows_a_dash_without_id() {
    assert_eq!(host_id_display(Some("abc123")), ("abc123".to_string(), true));
    assert_eq!(host_id_display(None), ("\u{2014}".to_string(), false));
}
