use lihaaf::diff::{diff_to_verdict, unified_diff, DiffResult, HARD_LINE_CEILING, SOFT_LINE_CEILING};
use lihaaf::verdict::Verdict;


#[test]
fn equal_inputs_no_change() {
    match unified_diff("a\nb\nc", "a\nb\nc") {
        DiffResult::NoChange => {}
        other => panic!("expected NoChange, got {other:?}"),
    }
}

#[test]
fn single_line_change_renders_unified_diff() {
    let a = "alpha\nbeta\ngamma";
    let b = "alpha\nBETA\ngamma";
    match unified_diff(a, b) {
        DiffResult::Diff { diff, warn } => {
            assert!(!warn);
            assert!(diff.starts_with("--- expected\n+++ actual\n"));
            assert!(diff.contains("-beta"));
            assert!(diff.contains("+BETA"));
            assert!(diff.contains("@@"));
        }
        other => panic!("expected Diff, got {other:?}"),
    }
}

#[test]
fn pure_insertion_renders() {
    let a = "alpha\ngamma";
    let b = "alpha\nbeta\ngamma";
    match unified_diff(a, b) {
        DiffResult::Diff { diff, .. } => {
            assert!(diff.contains("+beta"));
        }
        other => panic!("expected Diff, got {other:?}"),
    }
}

#[test]
fn pure_deletion_renders() {
    let a = "alpha\nbeta\ngamma";
    let b = "alpha\ngamma";
    match unified_diff(a, b) {
        DiffResult::Diff { diff, .. } => {
            assert!(diff.contains("-beta"));
        }
        other => panic!("expected Diff, got {other:?}"),
    }
}

#[test]
fn over_hard_ceiling_returns_too_large() {
    let large_a: String = (0..(HARD_LINE_CEILING + 1))
        .map(|i| format!("line{i}"))
        .collect::<Vec<_>>()
        .join("\n");
    let large_b = format!("changed\n{large_a}");
    match unified_diff(&large_a, &large_b) {
        DiffResult::TooLarge {
            actual_lines,
            expected_lines,
            actual_head,
            expected_head,
        } => {
            assert!(actual_lines >= HARD_LINE_CEILING);
            assert!(expected_lines >= HARD_LINE_CEILING);
            assert!(actual_head.lines().count() <= 100);
            assert!(expected_head.lines().count() <= 100);
        }
        other => panic!("expected TooLarge, got {other:?}"),
    }
}

#[test]
fn between_soft_and_hard_emits_warn() {
    let a: String = (0..(SOFT_LINE_CEILING + 1000))
        .map(|i| format!("line{i}"))
        .collect::<Vec<_>>()
        .join("\n");
    let mut b = a.clone();
    b.push_str("\nextra");
    match unified_diff(&a, &b) {
        DiffResult::Diff { warn, .. } => {
            assert!(warn);
        }
        other => panic!("expected Diff with warn=true, got {other:?}"),
    }
}

#[test]
fn diff_format_has_gnu_compatible_header() {
    let a = "x\ny";
    let b = "x\nY";
    match unified_diff(a, b) {
        DiffResult::Diff { diff, .. } => {
            assert!(diff.starts_with("--- expected\n+++ actual\n"));
            let header_line = diff
                .lines()
                .find(|l| l.starts_with("@@"))
                .expect("hunk header present");
            assert!(header_line.starts_with("@@ -"));
            assert!(header_line.ends_with("@@"));
        }
        other => panic!("expected Diff, got {other:?}"),
    }
}


#[test]
fn no_change_gives_no_verdict() {
    assert!(diff_to_verdict(unified_diff("x\ny", "x\ny\n")).is_none());
}

#[test]
fn changed_snapshot_gives_diff_verdict() {
    let r = unified_diff("one\ntwo", "one\nthree");
    let rendered = match &r {
        DiffResult::Diff { diff, .. } => diff.clone(),
        other => panic!("expected Diff, got {other:?}"),
    };
    match diff_to_verdict(r) {
        Some(Verdict::SnapshotDiff { diff }) => assert_eq!(diff, rendered),
        other => panic!("expected SnapshotDiff, got {other:?}"),
    }
}

#[test]
fn too_large_carries_counts_and_heads() {
    let v = diff_to_verdict(DiffResult::TooLarge {
        actual_lines: 7,
        expected_lines: 9,
        actual_head: "a".to_string(),
        expected_head: "e".to_string(),
    });
    match v {
        Some(Verdict::SnapshotDiffTooLarge { actual_lines, expected_lines, actual_head, expected_head }) => {
            assert_eq!(actual_lines, 7);
            assert_eq!(expected_lines, 9);
            assert_eq!(actual_head, "a");
            assert_eq!(expected_head, "e");
        }
        other => panic!("expected SnapshotDiffTooLarge, got {other:?}"),
    }
}

#[test]
fn empty_expected_side_starts_at_zero() {
    match unified_diff("", "x") {
        DiffResult::Diff { diff, .. } => assert_eq!(diff, "--- expected\n+++ actual\n@@ -0,0 +1,1 @@\n+x\n"),
        other => panic!("expected Diff, got {other:?}"),
    }
}

#[test]
fn empty_actual_side_starts_at_zero() {
    match unified_diff("x", "") {
        DiffResult::Diff { diff, .. } => assert_eq!(diff, "--- expected\n+++ actual\n@@ -1,1 +0,0 @@\n-x\n"),
        other => panic!("expected Diff, got {other:?}"),
    }
}

#[test]
fn single_changed_line_exact_text() {
    match unified_diff("alpha\nbeta\ngamma", "alpha\nBETA\ngamma") {
        DiffResult::Diff { diff, warn } => {
            assert!(!warn);
            assert_eq!(diff, "--- expected\n+++ actual\n@@ -1,3 +1,3 @@\n alpha\n-beta\n+BETA\n gamma\n");
        }
        other => panic!("expected Diff, got {other:?}"),
    }
}

#[test]
fn deletions_come_before_insertions() {
    match unified_diff("a\nb", "c\nd") {
        DiffResult::Diff { diff, .. } => assert_eq!(diff, "--- expected\n+++ actual\n@@ -1,2 +1,2 @@\n-a\n-b\n+c\n+d\n"),
        other => panic!("expected Diff, got {other:?}"),
    }
}

fn apply_unified(expected: &str, diff: &str) -> Vec<String> {
    let old: Vec<&str> = expected.lines().collect();
    let mut out: Vec<String> = Vec::new();
    let mut next_old = 0usize;
    for line in diff.lines().skip(2) {
        if let Some(h) = line.strip_prefix("@@ -") {
            let start: usize = h.split(',').next().unwrap().parse().unwrap();
            let from = if start == 0 { 0 } else { start - 1 };
            while next_old < from {
                out.push(old[next_old].to_string());
                next_old += 1;
            }
        } else if let Some(t) = line.strip_prefix(' ') {
            assert_eq!(old[next_old], t);
            out.push(t.to_string());
            next_old += 1;
        } else if let Some(t) = line.strip_prefix('-') {
            assert_eq!(old[next_old], t);
            next_old += 1;
        } else if let Some(t) = line.strip_prefix('+') {
            out.push(t.to_string());
        }
    }
    while next_old < old.len() {
        out.push(old[next_old].to_string());
        next_old += 1;
    }
    out
}

#[test]
fn applying_the_hunks_rebuilds_actual() {
    let expected = "a\nb\nc\nd\ne\nf\ng\nh\ni\nj\nk\nl\nm\nn";
    let actual = "a\nB\nc\nd\ne\nf\ng\nh\ni\nj\nk\nl\nM\nn\no";
    match unified_diff(expected, actual) {
        DiffResult::Diff { diff, .. } => {
            assert_eq!(apply_unified(expected, &diff), actual.lines().map(str::to_string).collect::<Vec<_>>());
        }
        other => panic!("expected Diff, got {other:?}"),
    }
}
