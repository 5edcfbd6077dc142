use stepdiff::models::{Step, TestCaseWithSteps};
use stepdiff::serialize::{case_to_string, serialize_steps};

fn step(id: i64, name: &str, children: Vec<Step>) -> Step {
    Step {
        id,
        name: name.to_string(),
        data_uri: String::new(),
        created_at: 0,
        test_case_id: 1,
        children_steps: children,
    }
}

fn case(name: &str, steps: Vec<Step>) -> TestCaseWithSteps {
    TestCaseWithSteps {
        id: 1,
        run_id: 1,
        name: name.to_string(),
        created_at: 0,
        steps,
    }
}

fn sample() -> TestCaseWithSteps {
    case(
        "checkout",
        vec![
            step(10, "A", vec![step(11, "B", vec![step(12, "D", vec![])]), step(13, "C", vec![])]),
            step(20, "E", vec![]),
        ],
    )
}

#[test]
fn serializes_depth_first_with_indent() {
    let (text, map) = case_to_string(&sample());
    assert_eq!(text, "A\n    B\n        D\n    C\nE\n");
    assert_eq!(map.len(), 5);
    assert_eq!(map[&1], 10);
    assert_eq!(map[&2], 11);
    assert_eq!(map[&3], 12);
    assert_eq!(map[&4], 13);
    assert_eq!(map[&5], 20);
}

#[test]
fn line_numbers_follow_start_line() {
    let steps = vec![step(7, "x", vec![step(8, "y", vec![])])];
    let (text, map, last) = serialize_steps(&steps, 40);
    assert_eq!(text, "x\n    y\n");
    assert_eq!(last, 42);
    assert_eq!(map[&41], 7);
    assert_eq!(map[&42], 8);
    assert!(!map.contains_key(&40));
}

#[test]
fn empty_forest_serializes_to_nothing() {
    let (text, map) = case_to_string(&case("empty", vec![]));
    assert_eq!(text, "");
    assert!(map.is_empty());
}

#[test]
fn serializing_twice_gives_identical_results() {
    let first = case_to_string(&sample());
    let second = case_to_string(&sample());
    assert_eq!(first.0, second.0);
    assert_eq!(first.1, second.1);
}

#[test]
fn every_line_maps_to_the_step_named_on_it() {
    let (text, map) = case_to_string(&sample());
    let names = [(10, "A"), (11, "B"), (12, "D"), (13, "C"), (20, "E")];
    for (n, line) in text.lines().enumerate() {
        let id = map[&(n + 1)];
        let name = names.iter().find(|(i, _)| *i == id).unwrap().1;
        assert_eq!(line.trim_start(), name);
    }
}

#[test]
fn step_text_indents_children() {
    let s = step(1, "root", vec![step(2, "child", vec![])]);
    assert_eq!(s.to_text(), "root\n    child\n\n");
}
