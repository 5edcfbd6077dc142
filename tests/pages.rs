use stepdiff::case_picker::{IndexPage, QueryParams as CaseQuery};
use stepdiff::compare::{comparison_panels, Panel};
use stepdiff::run_picker::RunLink;
use stepdiff::run_picker::QueryParams as RunQuery;
use stepdiff::side::Side;

fn q(lr: Option<i64>, ltc: Option<i64>, rr: Option<i64>, rtc: Option<i64>) -> CaseQuery {
    CaseQuery { left_run: lr, left_test_case: ltc, right_run: rr, right_test_case: rtc }
}

#[test]
fn side_opposite_and_name() {
    assert_eq!(Side::Left.opposite(), Side::Right);
    assert_eq!(Side::Right.opposite(), Side::Left);
    assert_eq!(Side::Left.name(), "left");
    assert_eq!(Side::Right.name(), "right");
}

#[test]
fn run_picker_reads_each_side() {
    let p = RunQuery { left_run: Some(3), right_run: None };
    assert_eq!(p.run_of(Side::Left), Some(3));
    assert_eq!(p.run_of(Side::Right), None);
}

#[test]
fn case_picker_pages() {
    assert_eq!(
        q(None, Some(1), None, Some(2)).page(),
        IndexPage::DiffTestCases { left_test_case: 1, right_test_case: 2 }
    );
    assert_eq!(
        q(None, Some(1), Some(7), None).page(),
        IndexPage::PickRightTestCase { left_test_case: 1, right_run: 7 }
    );
    assert_eq!(
        q(Some(5), None, None, Some(2)).page(),
        IndexPage::PickLeftTestCase { right_test_case: 2, left_run: 5 }
    );
    assert_eq!(q(Some(5), None, Some(7), None).page(), IndexPage::PickTestCases { left_run: 5, right_run: 7 });
    assert_eq!(q(Some(5), None, None, None).page(), IndexPage::PickRightRun { left_run: 5 });
    assert_eq!(q(None, None, Some(7), None).page(), IndexPage::PickLeftRun { right_run: 7 });
    assert_eq!(q(None, None, None, None).page(), IndexPage::PickRuns);
    assert_eq!(q(Some(5), Some(1), None, None).page(), IndexPage::Invalid);
}

#[test]
fn run_links_depend_on_other_side() {
    let none = RunQuery { left_run: None, right_run: None };
    assert_eq!(none.run_link(Side::Left, 4), RunLink::Choose { run: 4 });
    let right_chosen = RunQuery { left_run: None, right_run: Some(9) };
    assert_eq!(right_chosen.run_link(Side::Left, 9), RunLink::Hidden);
    assert_eq!(right_chosen.run_link(Side::Left, 4), RunLink::Compare { left_run: 4, right_run: 9 });
    let left_chosen = RunQuery { left_run: Some(2), right_run: None };
    assert_eq!(left_chosen.run_link(Side::Right, 5), RunLink::Compare { left_run: 2, right_run: 5 });
    assert_eq!(left_chosen.run_link(Side::Right, 2), RunLink::Hidden);
}

#[test]
fn diff_panel_only_when_changed() {
    assert_eq!(comparison_panels(true), vec![Panel::Left, Panel::Diff, Panel::Right]);
    assert_eq!(comparison_panels(false), vec![Panel::Left, Panel::Right]);
}
