use std::collections::HashSet;
use superhq::diff::{effective_stats, find_replacement_pairs, DiffHunk, DiffLine, DiffLineKind, FileDiff};
use superhq::line_diff::{compute_file_diff, compute_file_stats, is_binary};
use superhq::partial::reconstruct_partial;
use superhq::workspace_paths::{join_path, write_targets};

fn line(kind: DiffLineKind, content: &str) -> DiffLine {
    DiffLine { kind, old_lineno: None, new_lineno: None, content: content.to_string() }
}

fn hunk(old_start: usize, lines: Vec<DiffLine>) -> DiffHunk {
    DiffHunk { old_start, old_count: 0, new_start: old_start, new_count: 0, lines }
}

use DiffLineKind::{Addition as A, Context as C, Deletion as D};

#[test]
fn replacement_pairs_match_runs() {
    let lines = vec![line(D, "x"), line(D, "y"), line(A, "z"), line(C, "c"), line(A, "w"), line(D, "u"), line(A, "v"), line(A, "t")];
    assert_eq!(find_replacement_pairs(&lines), vec![(0, 2), (5, 6)]);
    assert_eq!(find_replacement_pairs(&[line(D, "a"), line(C, "b"), line(A, "c")]), vec![]);
    assert_eq!(find_replacement_pairs(&[line(D, "a"), line(A, "b"), line(A, "c")]), vec![(0, 1)]);
}

fn sample_hunk() -> DiffHunk {
    hunk(1, vec![line(C, "a\n"), line(D, "b\n"), line(D, "c\n"), line(A, "B\n"), line(C, "d\n"), line(A, "e\n")])
}

#[test]
fn stats_count_kept_lines() {
    let hunks = vec![sample_hunk()];
    let none = HashSet::new();
    let s = effective_stats(&hunks, &none);
    assert_eq!((s.additions, s.deletions), (2, 2));
    let mut d = HashSet::new();
    d.insert((0, 3));
    let s = effective_stats(&hunks, &d);
    assert_eq!((s.additions, s.deletions), (1, 1));
    let mut d = HashSet::new();
    d.insert((0, 2));
    let s = effective_stats(&hunks, &d);
    assert_eq!((s.additions, s.deletions), (2, 1));
    let mut d = HashSet::new();
    d.insert((0, 1));
    let s = effective_stats(&hunks, &d);
    assert_eq!((s.additions, s.deletions), (2, 2));
}

#[test]
fn undiscarded_stats_count_every_change() {
    let hunks = vec![sample_hunk(), hunk(9, vec![line(D, "q\n"), line(D, "r\n")])];
    let s = effective_stats(&hunks, &HashSet::new());
    assert_eq!((s.additions, s.deletions), (2, 4));
}

#[test]
fn partial_apply_keeps_and_restores() {
    let old = "a\nb\nc\nd";
    let hunks = vec![hunk(2, vec![line(C, "b\n"), line(D, "c\n"), line(A, "C\n")])];
    assert_eq!(reconstruct_partial(old, &hunks, &HashSet::new()), "a\nb\nC\nd");
    let mut d = HashSet::new();
    d.insert((0, 2));
    assert_eq!(reconstruct_partial(old, &hunks, &d), "a\nb\nc\nd");
}

#[test]
fn partial_apply_unpaired_lines() {
    let old = "a\nb\nc";
    let hunks = vec![hunk(1, vec![line(C, "a\n"), line(D, "b\n"), line(C, "c\n"), line(A, "n\n")])];
    assert_eq!(reconstruct_partial(old, &hunks, &HashSet::new()), "a\nc\nn");
    let mut d = HashSet::new();
    d.insert((0, 1));
    d.insert((0, 3));
    assert_eq!(reconstruct_partial(old, &hunks, &d), "a\nb\nc");
}

#[test]
fn partial_apply_discarding_everything_restores_old() {
    let old = "a\nb\nc\nd\ne\nf";
    let hunks = vec![
        hunk(1, vec![line(C, "a\n"), line(D, "b\n"), line(A, "B\n"), line(A, "X\n")]),
        hunk(4, vec![line(D, "d\n"), line(D, "e\n"), line(A, "D\n"), line(A, "E\n"), line(C, "f")]),
    ];
    let mut d = HashSet::new();
    for (h, hk) in hunks.iter().enumerate() {
        for i in 0..hk.lines.len() {
            d.insert((h, i));
        }
    }
    assert_eq!(reconstruct_partial(old, &hunks, &d), old);
    assert_eq!(reconstruct_partial(old, &hunks, &HashSet::new()), "a\nB\nX\nc\nD\nE\nf");
}

#[test]
fn partial_apply_discarded_block_with_fewer_additions() {
    let old = "a\nb\nc";
    let hunks = vec![hunk(1, vec![line(D, "a\n"), line(D, "b\n"), line(A, "x\n")])];
    let mut d = HashSet::new();
    d.insert((0, 0));
    d.insert((0, 1));
    d.insert((0, 2));
    assert_eq!(reconstruct_partial(old, &hunks, &d), "a\nb\nc");
    assert_eq!(reconstruct_partial(old, &hunks, &HashSet::new()), "x\nc");
}

#[test]
fn partial_apply_keeps_file_order_around_excess_deletions() {
    let old = "a\nb\nc";
    let hunks =
        vec![hunk(1, vec![line(D, "a\n"), line(D, "b\n"), line(D, "c\n"), line(A, "x\n"), line(A, "y\n")])];
    let mut d = HashSet::new();
    d.insert((0, 2));
    d.insert((0, 3));
    d.insert((0, 4));
    assert_eq!(reconstruct_partial(old, &hunks, &d), "a\nb\nc");
    let mut d = HashSet::new();
    d.insert((0, 2));
    assert_eq!(reconstruct_partial(old, &hunks, &d), "x\ny\nc");
    let mut d = HashSet::new();
    d.insert((0, 3));
    assert_eq!(reconstruct_partial(old, &hunks, &d), "a\ny");
}

#[test]
fn partial_apply_of_computed_diff_discarding_everything() {
    let old = "a\nb\nc\n";
    let diff = compute_file_diff(old.as_bytes(), "x\n".as_bytes());
    let mut d = HashSet::new();
    for (h, hk) in diff.hunks.iter().enumerate() {
        for (i, l) in hk.lines.iter().enumerate() {
            if l.kind != C {
                d.insert((h, i));
            }
        }
    }
    assert_eq!(reconstruct_partial(old, &diff.hunks, &d), old);
}

#[test]
fn partial_apply_without_hunks_is_identity() {
    assert_eq!(reconstruct_partial("x\ny\n", &[], &HashSet::new()), "x\ny\n");
}

#[test]
fn file_diff_of_one_changed_line() {
    let d: FileDiff = compute_file_diff(b"a\nb\nc\n", b"a\nB\nc\n");
    assert!(!d.is_binary);
    assert_eq!((d.additions, d.deletions), (1, 1));
    assert_eq!(d.hunks.len(), 1);
    let h = &d.hunks[0];
    assert_eq!((h.old_start, h.old_count, h.new_start, h.new_count), (1, 3, 1, 3));
    let kinds: Vec<DiffLineKind> = h.lines.iter().map(|l| l.kind).collect();
    assert_eq!(kinds, vec![C, D, A, C]);
    assert_eq!(h.lines[1].content, "b\n");
    assert_eq!(h.lines[2].content, "B\n");
    assert_eq!(h.lines[1].old_lineno, Some(2));
    assert_eq!(h.lines[2].new_lineno, Some(2));
    assert!(!d.is_empty());
}

#[test]
fn file_diff_of_equal_text_is_empty() {
    let d = compute_file_diff(b"same\n", b"same\n");
    assert!(d.is_empty());
    assert!(d.hunks.is_empty());
}

#[test]
fn binary_content_gives_binary_diff() {
    let d = compute_file_diff(&[1, 0, 2], b"text\n");
    assert!(d.is_binary);
    assert!(!d.is_empty());
    assert_eq!((d.additions, d.deletions), (0, 0));
    let (s, bin) = compute_file_stats(b"x\n", &[0]);
    assert!(bin);
    assert_eq!((s.additions, s.deletions), (0, 0));
}

#[test]
fn file_stats_count_lines() {
    let (s, bin) = compute_file_stats(b"a\nb\nc\n", b"a\nB\nc\nd\n");
    assert!(!bin);
    assert_eq!((s.additions, s.deletions), (2, 1));
}

#[test]
fn binary_detection_window() {
    assert!(is_binary(&[1, 2, 0]));
    assert!(!is_binary(&[1, 2, 3]));
    let mut late = vec![b'a'; 8192];
    late.push(0);
    assert!(!is_binary(&late));
    let mut edge = vec![b'a'; 8191];
    edge.push(0);
    assert!(is_binary(&edge));
}

#[test]
fn write_targets_refuse_escapes() {
    let (host, sandbox) = write_targets("src/main.rs", "/host/repo").unwrap();
    assert_eq!(host, "/host/repo/src/main.rs");
    assert_eq!(sandbox, "/workspace/src/main.rs");
    assert_eq!(write_targets("../etc/passwd", "/h"), Err("path contains '..'".to_string()));
    assert_eq!(write_targets("a..b", "/h"), Err("path contains '..'".to_string()));
    assert_eq!(write_targets(".git/config", "/h"), Err("refusing to write to .git".to_string()));
    assert_eq!(write_targets(".git", "/h"), Err("refusing to write to .git".to_string()));
    assert!(write_targets(".github/workflows/ci.yml", "/h").is_ok());
    assert_eq!(join_path("/workspace", "x"), "/workspace/x");
}
