use vstd::prelude::*;

use crate::side::Side;

verus! {

/// The runs chosen so far on the run-picking page.
pub struct QueryParams {
    pub left_run: Option<i64>,
    pub right_run: Option<i64>,
}

impl QueryParams {
    /// The run chosen on `side`, if one is.
    pub fn run_of(&self, side: Side) -> (r: Option<i64>)
        ensures
            r == (match side {
                Side::Left => self.left_run,
                Side::Right => self.right_run,
            }),
    {
        match side {
            Side::Left => self.left_run,
            Side::Right => self.right_run,
        }
    }
}

/// Where a run listed on one side of the run picker leads.
#[derive(Clone, Copy, Debug, PartialEq, Eq, Structural)]
pub enum RunLink {
    /// The run is already chosen on the other side: it is not listed.
    Hidden,
    /// The other side has a run: compare the two runs.
    Compare { left_run: i64, right_run: i64 },
    /// The other side has no run yet: record this run as the side's choice.
    Choose { run: i64 },
}

/// The link of `run` listed on `side`, given the run chosen on the other
/// side.
pub open spec fn run_link_for(side: Side, run: i64, other_run: Option<i64>) -> RunLink {
    match other_run {
        Some(other) => if other == run {
            RunLink::Hidden
        } else {
            match side {
                Side::Left => RunLink::Compare { left_run: run, right_run: other },
                Side::Right => RunLink::Compare { left_run: other, right_run: run },
            }
        },
        None => RunLink::Choose { run },
    }
}

impl QueryParams {
    /// The link of `run` listed on `side`: hidden when the other side already
    /// chose it, a comparison when the other side chose another run, else a
    /// choice for `side`.
    pub fn run_link(&self, side: Side, run: i64) -> (r: RunLink)
        ensures
            r == run_link_for(
                side,
                run,
                match side {
                    Side::Left => self.right_run,
                    Side::Right => self.left_run,
                },
            ),
    {
        let other_side = side.opposite();
        match self.run_of(other_side) {
            Some(other) => {
                if other == run {
                    RunLink::Hidden
                } else {
                    match side {
                        Side::Left => RunLink::Compare { left_run: run, right_run: other },
                        Side::Right => RunLink::Compare { left_run: other, right_run: run },
                    }
                }
            },
            None => RunLink::Choose { run },
        }
    }
}

} // verus!
