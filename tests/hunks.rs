use stepdiff::diff::{diff_runs, loner_hunk, matched_hunk};
use stepdiff::models::{Step, TestCaseWithSteps};
use stepdiff::side::Side;

fn step(id: i64, name: &str, children: Vec<Step>) -> Step {
    Step {
        id,
        name: name.to_string(),
        data_uri: String::new(),
        created_at: 0,
        test_case_id: 1,
        children_steps: children,
    }
}

fn case(name: &str, steps: Vec<Step>) -> TestCaseWithSteps {
    TestCaseWithSteps {
        id: 1,
        run_id: 1,
        name: name.to_string(),
        created_at: 0,
        steps,
    }
}

#[test]
fn removed_child_shows_as_minus_line() {
    let left = case("flow", vec![step(1, "A", vec![step(2, "B", vec![]), step(3, "C", vec![])])]);
    let right = case("flow", vec![step(4, "A", vec![step(5, "B", vec![])])]);
    let out = diff_runs(&[], &[], &[(left, right)]);
    assert_eq!(out.diff, "--- flow\n+++ flow\n@@ -1,3 +1,2 @@\n A\n     B\n-    C\n");
    assert_eq!(out.line_ids.len(), 1);
    let entry = &out.line_ids[0];
    assert_eq!(entry.name, "flow");
    let l = entry.left.as_ref().unwrap();
    let r = entry.right.as_ref().unwrap();
    assert_eq!((l[&1], l[&2], l[&3]), (1, 2, 3));
    assert_eq!((r[&1], r[&2]), (4, 5));
}

#[test]
fn left_loner_lines_all_removed() {
    let loner = case("gone", vec![step(1, "A", vec![step(2, "B", vec![step(3, "C", vec![])])])]);
    let out = diff_runs(&[loner], &[], &[]);
    assert_eq!(out.diff, "--- gone\n+++ gone\n@@ @@\n- A\n-     B\n-         C\n");
    for line in out.diff.lines().skip(3) {
        assert!(line.starts_with('-'));
    }
    let entry = &out.line_ids[0];
    assert_eq!(entry.name, "gone");
    assert!(entry.right.is_none());
    let l = entry.left.as_ref().unwrap();
    assert_eq!(l.len(), 3);
    assert_eq!((l[&1], l[&2], l[&3]), (1, 2, 3));
}

#[test]
fn right_loner_lines_all_added() {
    let loner = case("new", vec![step(9, "X", vec![])]);
    let out = diff_runs(&[], &[loner], &[]);
    assert_eq!(out.diff, "--- new\n+++ new\n@@ @@\n+ X\n");
    assert!(out.line_ids[0].left.is_none());
    assert_eq!(out.line_ids[0].right.as_ref().unwrap()[&1], 9);
}

#[test]
fn same_tree_gives_all_context_hunk() {
    let make = || case("same", vec![step(1, "A", vec![step(2, "B", vec![])]), step(3, "C", vec![])]);
    let out = diff_runs(&[], &[], &[(make(), make())]);
    assert_eq!(out.diff, "--- same\n+++ same\n@@ @@\n A\n     B\n C\n");
    for line in out.diff.lines().skip(3) {
        assert!(line.starts_with(' '));
    }
}

#[test]
fn hunks_come_left_loners_right_loners_then_matches() {
    let out = diff_runs(
        &[case("l", vec![step(1, "a", vec![])])],
        &[case("r", vec![step(2, "b", vec![])])],
        &[(case("m", vec![step(3, "c", vec![])]), case("m", vec![step(4, "c", vec![])]))],
    );
    assert_eq!(
        out.diff,
        "--- l\n+++ l\n@@ @@\n- a\n--- r\n+++ r\n@@ @@\n+ b\n--- m\n+++ m\n@@ @@\n c\n"
    );
    let names: Vec<&str> = out.line_ids.iter().map(|e| e.name.as_str()).collect();
    assert_eq!(names, vec!["l", "r", "m"]);
}

#[test]
fn loner_hunk_splits_lines() {
    assert_eq!(loner_hunk("t", "a\nb\r\nc", Side::Left), "--- t\n+++ t\n@@ @@\n- a\n- b\n- c\n");
    assert_eq!(loner_hunk("t", "", Side::Right), "--- t\n+++ t\n@@ @@\n");
}

#[test]
fn matched_hunk_with_different_names_and_added_line() {
    let out = matched_hunk("old", "new", "a\n", "a\nb\n");
    assert_eq!(out, "--- old\n+++ new\n@@ -1 +1,2 @@\n a\n+b\n");
}

#[test]
fn name_with_newline_reads_back_as_two_lines() {
    let loner = case("odd", vec![step(1, "two\nlines", vec![])]);
    let out = diff_runs(&[loner], &[], &[]);
    assert_eq!(out.diff, "--- odd\n+++ odd\n@@ @@\n- two\n- lines\n");
    let l = out.line_ids[0].left.as_ref().unwrap();
    assert_eq!(l.len(), 1);
    assert_eq!(l[&1], 1);
}
