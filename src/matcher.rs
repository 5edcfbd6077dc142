use vstd::prelude::*;

use crate::models::TestCase;

verus! {

/// The index of the first case in `cases` named `name`, if any.
pub open spec fn first_named(cases: Seq<TestCase>, name: Seq<char>) -> Option<int>
    decreases cases.len(),
{
    if cases.len() == 0 {
        None
    } else if cases[0].name@ == name {
        Some(0)
    } else {
        match first_named(cases.drop_first(), name) {
            Some(j) => Some(j + 1),
            None => None,
        }
    }
}

/// What matching `left` against `right` yields: the matched pairs, the left
/// cases without a partner, and the right cases left over. Each left case,
/// in order, takes the first remaining right case of the same name.
pub open spec fn partition(left: Seq<TestCase>, right: Seq<TestCase>) -> (
    Seq<(TestCase, TestCase)>,
    Seq<TestCase>,
    Seq<TestCase>,
)
    decreases left.len(),
{
    if left.len() == 0 {
        (Seq::empty(), Seq::empty(), right)
    } else {
        let l = left[0];
        match first_named(right, l.name@) {
            Some(j) => {
                let rest = partition(left.drop_first(), right.remove(j));
                (seq![(l, right[j])] + rest.0, rest.1, rest.2)
            },
            None => {
                let rest = partition(left.drop_first(), right);
                (rest.0, seq![l] + rest.1, rest.2)
            },
        }
    }
}

proof fn lemma_first_named_at(cases: Seq<TestCase>, name: Seq<char>, j: int)
    requires
        0 <= j <= cases.len(),
        forall|k: int| 0 <= k < j ==> (#[trigger] cases[k]).name@ != name,
        j < cases.len() ==> cases[j].name@ == name,
    ensures
        first_named(cases, name) == (if j < cases.len() {
            Some(j)
        } else {
            None
        }),
    decreases j,
{
    if cases.len() > 0 && j > 0 {
        assert(cases[0].name@ != name);
        assert forall|k: int| 0 <= k < j - 1 implies (#[trigger] cases.drop_first()[k]).name@
            != name by {
            assert(cases.drop_first()[k] == cases[k + 1]);
        }
        lemma_first_named_at(cases.drop_first(), name, j - 1);
    }
}

proof fn lemma_first_named_valid(cases: Seq<TestCase>, name: Seq<char>)
    ensures
        first_named(cases, name) matches Some(j) ==> 0 <= j < cases.len() && cases[j].name@
            == name,
    decreases cases.len(),
{
    if cases.len() > 0 {
        lemma_first_named_valid(cases.drop_first(), name);
    }
}

/// Pairs test cases of two runs by name. Walks `left` in order; each case
/// takes the first remaining case of `right` with the same name, or else
/// becomes a left loner. What remains of `right` are the right loners.
pub fn match_test_cases(left: Vec<TestCase>, right: Vec<TestCase>) -> (r: (
    Vec<(TestCase, TestCase)>,
    Vec<TestCase>,
    Vec<TestCase>,
))
    ensures
        (r.0@, r.1@, r.2@) == partition(left@, right@),
        r.0@.len() + r.1@.len() == left@.len(),
        r.0@.len() + r.2@.len() == right@.len(),
        forall|i: int| 0 <= i < r.0@.len() ==> (#[trigger] r.0@[i]).0.name@ == r.0@[i].1.name@,
{
    let ghost left0 = left@;
    let ghost right0 = right@;
    let mut left = left;
    let mut right = right;
    let mut matches: Vec<(TestCase, TestCase)> = Vec::new();
    let mut left_loners: Vec<TestCase> = Vec::new();
    while left.len() > 0
        invariant
            partition(left0, right0) == ({
                let rest = partition(left@, right@);
                (matches@ + rest.0, left_loners@ + rest.1, rest.2)
            }),
        decreases left@.len(),
    {
        let ghost cur_left = left@;
        let ghost cur_right = right@;
        let l = left.remove(0);
        assert(left@ == cur_left.drop_first());
        let mut j: usize = 0;
        let mut found = false;
        while j < right.len()
            invariant_except_break
                !found,
            invariant
                right@ == cur_right,
                j <= right@.len(),
                forall|k: int| 0 <= k < j ==> (#[trigger] right@[k]).name@ != l.name@,
            ensures
                right@ == cur_right,
                j <= right@.len(),
                forall|k: int| 0 <= k < j ==> (#[trigger] right@[k]).name@ != l.name@,
                found ==> j < right@.len() && right@[j as int].name@ == l.name@,
                !found ==> j == right@.len(),
            decreases right@.len() - j,
        {
            if l.name == right[j].name {
                found = true;
                break;
            }
            j = j + 1;
        }
        proof {
            lemma_first_named_at(cur_right, l.name@, j as int);
        }
        if found {
            let r = right.remove(j);
            let ghost rest = partition(left@, right@);
            proof {
                assert(matches@.push((l, r)) + rest.0 =~= matches@ + (seq![(l, r)] + rest.0));
            }
            matches.push((l, r));
        } else {
            let ghost rest = partition(left@, right@);
            proof {
                assert(left_loners@.push(l) + rest.1 =~= left_loners@ + (seq![l] + rest.1));
            }
            left_loners.push(l);
        }
    }
    proof {
        assert(matches@ + Seq::<(TestCase, TestCase)>::empty() =~= matches@);
        assert(left_loners@ + Seq::<TestCase>::empty() =~= left_loners@);
        lemma_partition_counts(left0, right0);
    }
    (matches, left_loners, right)
}

/// Matching accounts for every case once: matched pairs and left loners
/// together are as many as the left cases, matched pairs and right loners as
/// many as the right cases; and every matched pair shares its name.
pub proof fn lemma_partition_counts(left: Seq<TestCase>, right: Seq<TestCase>)
    ensures
        ({
            let p = partition(left, right);
            &&& p.0.len() + p.1.len() == left.len()
            &&& p.0.len() + p.2.len() == right.len()
            &&& forall|i: int| 0 <= i < p.0.len() ==> (#[trigger] p.0[i]).0.name@ == p.0[i].1.name@
        }),
    decreases left.len(),
{
    if left.len() > 0 {
        let l = left[0];
        lemma_first_named_valid(right, l.name@);
        match first_named(right, l.name@) {
            Some(j) => {
                lemma_partition_counts(left.drop_first(), right.remove(j));
                let rest = partition(left.drop_first(), right.remove(j));
                let p = partition(left, right);
                assert forall|i: int| 0 <= i < p.0.len() implies (#[trigger] p.0[i]).0.name@
                    == p.0[i].1.name@ by {
                    if i > 0 {
                        assert(p.0[i] == rest.0[i - 1]);
                    }
                }
            },
            None => {
                lemma_partition_counts(left.drop_first(), right);
            },
        }
    }
}

/// No two cases of `cases` share a name.
pub open spec fn names_distinct(cases: Seq<TestCase>) -> bool {
    forall|i: int, j: int|
        0 <= i < j < cases.len() ==> (#[trigger] cases[i]).name@ != (#[trigger] cases[j]).name@
}

/// Some case of `cases` is named `name`.
pub open spec fn has_name(cases: Seq<TestCase>, name: Seq<char>) -> bool {
    exists|i: int| 0 <= i < cases.len() && (#[trigger] cases[i]).name@ == name
}

proof fn lemma_has_name_tail(cases: Seq<TestCase>, name: Seq<char>)
    requires
        cases.len() > 0,
        has_name(cases.drop_first(), name),
    ensures
        has_name(cases, name),
{
    let i = choose|i: int| 0 <= i < cases.drop_first().len() && (#[trigger] cases.drop_first()[i]).name@ == name;
    assert(cases[i + 1] == cases.drop_first()[i]);
}

proof fn lemma_has_name_removed(cases: Seq<TestCase>, j: int, name: Seq<char>)
    requires
        0 <= j < cases.len(),
        has_name(cases.remove(j), name),
    ensures
        has_name(cases, name),
{
    let i = choose|i: int| 0 <= i < cases.remove(j).len() && (#[trigger] cases.remove(j)[i]).name@ == name;
    if i < j {
        assert(cases[i] == cases.remove(j)[i]);
    } else {
        assert(cases[i + 1] == cases.remove(j)[i]);
    }
}

/// Every name in what matching yields comes from the side it is on.
proof fn lemma_partition_names(left: Seq<TestCase>, right: Seq<TestCase>)
    ensures
        ({
            let p = partition(left, right);
            &&& forall|i: int| 0 <= i < p.0.len() ==> has_name(left, (#[trigger] p.0[i]).0.name@)
            &&& forall|i: int| 0 <= i < p.0.len() ==> has_name(right, (#[trigger] p.0[i]).1.name@)
            &&& forall|k: int| 0 <= k < p.1.len() ==> has_name(left, (#[trigger] p.1[k]).name@)
            &&& forall|k: int| 0 <= k < p.2.len() ==> has_name(right, (#[trigger] p.2[k]).name@)
        }),
    decreases left.len(),
{
    let p = partition(left, right);
    if left.len() == 0 {
        assert forall|k: int| 0 <= k < p.2.len() implies has_name(right, (#[trigger] p.2[k]).name@) by {
            assert(right[k] == p.2[k]);
        }
    } else {
        let l = left[0];
        let tail = left.drop_first();
        lemma_first_named_valid(right, l.name@);
        assert(has_name(left, l.name@)) by {
            assert(left[0].name@ == l.name@);
        }
        match first_named(right, l.name@) {
            Some(j) => {
                let rr = right.remove(j);
                lemma_partition_names(tail, rr);
                let rest = partition(tail, rr);
                assert(has_name(right, right[j].name@)) by {
                    assert(right[j].name@ == right[j].name@);
                }
                assert forall|i: int| 0 <= i < p.0.len() implies has_name(left, (#[trigger] p.0[i]).0.name@)
                    && has_name(right, p.0[i].1.name@) by {
                    if i > 0 {
                        assert(p.0[i] == rest.0[i - 1]);
                        lemma_has_name_tail(left, p.0[i].0.name@);
                        lemma_has_name_removed(right, j, p.0[i].1.name@);
                    }
                }
                assert forall|k: int| 0 <= k < p.1.len() implies has_name(left, (#[trigger] p.1[k]).name@) by {
                    lemma_has_name_tail(left, p.1[k].name@);
                }
                assert forall|k: int| 0 <= k < p.2.len() implies has_name(right, (#[trigger] p.2[k]).name@) by {
                    lemma_has_name_removed(right, j, p.2[k].name@);
                }
            },
            None => {
                lemma_partition_names(tail, right);
                let rest = partition(tail, right);
                assert forall|i: int| 0 <= i < p.0.len() implies has_name(left, (#[trigger] p.0[i]).0.name@) by {
                    lemma_has_name_tail(left, p.0[i].0.name@);
                }
                assert forall|k: int| 0 <= k < p.1.len() implies has_name(left, (#[trigger] p.1[k]).name@) by {
                    if k > 0 {
                        assert(p.1[k] == rest.1[k - 1]);
                        lemma_has_name_tail(left, p.1[k].name@);
                    }
                }
            },
        }
    }
}

/// When names are unique on each side, no name is both matched and a
/// loner on the same side.
pub proof fn lemma_partition_disjoint(left: Seq<TestCase>, right: Seq<TestCase>)
    requires
        names_distinct(left),
        names_distinct(right),
    ensures
        ({
            let p = partition(left, right);
            &&& forall|i: int, k: int|
                0 <= i < p.0.len() && 0 <= k < p.1.len() ==> (#[trigger] p.0[i]).0.name@
                    != (#[trigger] p.1[k]).name@
            &&& forall|i: int, k: int|
                0 <= i < p.0.len() && 0 <= k < p.2.len() ==> (#[trigger] p.0[i]).1.name@
                    != (#[trigger] p.2[k]).name@
        }),
    decreases left.len(),
{
    let p = partition(left, right);
    if left.len() > 0 {
        let l = left[0];
        let tail = left.drop_first();
        assert(names_distinct(tail)) by {
            assert forall|i: int, j: int| 0 <= i < j < tail.len() implies (#[trigger] tail[i]).name@
                != (#[trigger] tail[j]).name@ by {
                assert(tail[i] == left[i + 1] && tail[j] == left[j + 1]);
            }
        }
        assert(!has_name(tail, l.name@)) by {
            if has_name(tail, l.name@) {
                let i = choose|i: int| 0 <= i < tail.len() && (#[trigger] tail[i]).name@ == l.name@;
                assert(tail[i] == left[i + 1]);
            }
        }
        lemma_first_named_valid(right, l.name@);
        match first_named(right, l.name@) {
            Some(j) => {
                let rr = right.remove(j);
                assert(names_distinct(rr)) by {
                    assert forall|a: int, b: int| 0 <= a < b < rr.len() implies (#[trigger] rr[a]).name@
                        != (#[trigger] rr[b]).name@ by {
                        let a2 = if a < j { a } else { a + 1 };
                        let b2 = if b < j { b } else { b + 1 };
                        assert(rr[a] == right[a2] && rr[b] == right[b2]);
                    }
                }
                assert(!has_name(rr, right[j].name@)) by {
                    if has_name(rr, right[j].name@) {
                        let i = choose|i: int| 0 <= i < rr.len() && (#[trigger] rr[i]).name@ == right[j].name@;
                        let i2 = if i < j { i } else { i + 1 };
                        assert(rr[i] == right[i2]);
                    }
                }
                lemma_partition_disjoint(tail, rr);
                lemma_partition_names(tail, rr);
                let rest = partition(tail, rr);
                assert forall|i: int, k: int| 0 <= i < p.0.len() && 0 <= k < p.1.len() implies (#[trigger] p.0[i]).0.name@
                    != (#[trigger] p.1[k]).name@ by {
                    assert(p.1[k] == rest.1[k]);
                    if i > 0 {
                        assert(p.0[i] == rest.0[i - 1]);
                    } else {
                        assert(has_name(tail, rest.1[k].name@));
                    }
                }
                assert forall|i: int, k: int| 0 <= i < p.0.len() && 0 <= k < p.2.len() implies (#[trigger] p.0[i]).1.name@
                    != (#[trigger] p.2[k]).name@ by {
                    assert(p.2[k] == rest.2[k]);
                    if i > 0 {
                        assert(p.0[i] == rest.0[i - 1]);
                    } else {
                        assert(has_name(rr, rest.2[k].name@));
                    }
                }
            },
            None => {
                lemma_partition_disjoint(tail, right);
                lemma_partition_names(tail, right);
                let rest = partition(tail, right);
                assert forall|i: int, k: int| 0 <= i < p.0.len() && 0 <= k < p.1.len() implies (#[trigger] p.0[i]).0.name@
                    != (#[trigger] p.1[k]).name@ by {
                    assert(p.0[i] == rest.0[i]);
                    if k > 0 {
                        assert(p.1[k] == rest.1[k - 1]);
                    } else {
                        assert(has_name(tail, rest.0[i].0.name@));
                    }
                }
            },
        }
    }
}

} // verus!
