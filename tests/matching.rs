use stepdiff::matcher::match_test_cases;
use stepdiff::models::TestCase;

fn case(id: i64, name: &str) -> TestCase {
    TestCase {
        id,
        run_id: 1,
        name: name.to_string(),
        ignore_ranges: vec![],
        created_at: 0,
    }
}

fn names(cases: &[TestCase]) -> Vec<String> {
    cases.iter().map(|c| c.name.clone()).collect()
}

#[test]
fn matches_by_name_and_keeps_loners_in_order() {
    let left = vec![case(1, "login"), case(2, "search"), case(3, "logout")];
    let right = vec![case(4, "logout"), case(5, "cart"), case(6, "login")];
    let (matches, left_loners, right_loners) = match_test_cases(left, right);
    assert_eq!(matches.len(), 2);
    assert_eq!((matches[0].0.id, matches[0].1.id), (1, 6));
    assert_eq!((matches[1].0.id, matches[1].1.id), (3, 4));
    assert_eq!(names(&left_loners), vec!["search".to_string()]);
    assert_eq!(names(&right_loners), vec!["cart".to_string()]);
}

#[test]
fn counts_add_up_on_both_sides() {
    let left = vec![case(1, "a"), case(2, "b"), case(3, "c"), case(4, "d")];
    let right = vec![case(5, "c"), case(6, "x"), case(7, "a")];
    let (matches, left_loners, right_loners) = match_test_cases(left, right);
    assert_eq!(matches.len() + left_loners.len(), 4);
    assert_eq!(matches.len() + right_loners.len(), 3);
    for (l, r) in &matches {
        assert_eq!(l.name, r.name);
    }
    for (l, _) in &matches {
        assert!(left_loners.iter().all(|c| c.name != l.name));
    }
    for (_, r) in &matches {
        assert!(right_loners.iter().all(|c| c.name != r.name));
    }
}

#[test]
fn duplicate_names_take_first_remaining() {
    let left = vec![case(1, "a"), case(2, "a"), case(3, "a")];
    let right = vec![case(4, "a"), case(5, "b"), case(6, "a")];
    let (matches, left_loners, right_loners) = match_test_cases(left, right);
    assert_eq!(matches.len(), 2);
    assert_eq!((matches[0].0.id, matches[0].1.id), (1, 4));
    assert_eq!((matches[1].0.id, matches[1].1.id), (2, 6));
    assert_eq!(left_loners.len(), 1);
    assert_eq!(left_loners[0].id, 3);
    assert_eq!(right_loners.len(), 1);
    assert_eq!(right_loners[0].id, 5);
}

#[test]
fn empty_sides() {
    let (m, l, r) = match_test_cases(vec![], vec![case(1, "a")]);
    assert!(m.is_empty() && l.is_empty());
    assert_eq!(r.len(), 1);
    let (m, l, r) = match_test_cases(vec![case(1, "a")], vec![]);
    assert!(m.is_empty() && r.is_empty());
    assert_eq!(l.len(), 1);
}
