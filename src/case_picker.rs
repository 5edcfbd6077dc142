use vstd::prelude::*;

verus! {

/// The runs and test cases chosen so far on the test-case-picking page.
pub struct QueryParams {
    pub left_run: Option<i64>,
    pub left_test_case: Option<i64>,
    pub right_run: Option<i64>,
    pub right_test_case: Option<i64>,
}

/// What the test-case-picking page shows for a set of choices.
#[derive(Clone, Copy, Debug, PartialEq, Eq, Structural)]
pub enum IndexPage {
    /// Both test cases chosen: compare them.
    DiffTestCases { left_test_case: i64, right_test_case: i64 },
    /// Left test case chosen, right run chosen: pick the right test case.
    PickRightTestCase { left_test_case: i64, right_run: i64 },
    /// Right test case chosen, left run chosen: pick the left test case.
    PickLeftTestCase { right_test_case: i64, left_run: i64 },
    /// Both runs chosen: pick a test case on each side.
    PickTestCases { left_run: i64, right_run: i64 },
    /// Left run chosen only: pick the right run.
    PickRightRun { left_run: i64 },
    /// Right run chosen only: pick the left run.
    PickLeftRun { right_run: i64 },
    /// Nothing chosen: pick both runs.
    PickRuns,
    /// Any other combination of choices.
    Invalid,
}

/// The page for a set of choices.
pub open spec fn page_for(q: QueryParams) -> IndexPage {
    match (q.left_test_case, q.right_test_case, q.left_run, q.right_run) {
        (Some(l), Some(r), None, None) => IndexPage::DiffTestCases {
            left_test_case: l,
            right_test_case: r,
        },
        (Some(l), None, None, Some(rr)) => IndexPage::PickRightTestCase {
            left_test_case: l,
            right_run: rr,
        },
        (None, Some(r), Some(lr), None) => IndexPage::PickLeftTestCase {
            right_test_case: r,
            left_run: lr,
        },
        (None, None, Some(lr), Some(rr)) => IndexPage::PickTestCases { left_run: lr, right_run: rr },
        (None, None, Some(lr), None) => IndexPage::PickRightRun { left_run: lr },
        (None, None, None, Some(rr)) => IndexPage::PickLeftRun { right_run: rr },
        (None, None, None, None) => IndexPage::PickRuns,
        _ => IndexPage::Invalid,
    }
}

impl QueryParams {
    /// Which page to show for these choices.
    pub fn page(&self) -> (r: IndexPage)
        ensures
            r == page_for(*self),
    {
        match (self.left_test_case, self.right_test_case, self.left_run, self.right_run) {
            (Some(l), Some(r), None, None) => IndexPage::DiffTestCases {
                left_test_case: l,
                right_test_case: r,
            },
            (Some(l), None, None, Some(rr)) => IndexPage::PickRightTestCase {
                left_test_case: l,
                right_run: rr,
            },
            (None, Some(r), Some(lr), None) => IndexPage::PickLeftTestCase {
                right_test_case: r,
                left_run: lr,
            },
            (None, None, Some(lr), Some(rr)) => IndexPage::PickTestCases {
                left_run: lr,
                right_run: rr,
            },
            (None, None, Some(lr), None) => IndexPage::PickRightRun { left_run: lr },
            (None, None, None, Some(rr)) => IndexPage::PickLeftRun { right_run: rr },
            (None, None, None, None) => IndexPage::PickRuns,
            _ => IndexPage::Invalid,
        }
    }
}

} // verus!
