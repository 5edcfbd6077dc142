use std::collections::HashMap;
use vstd::prelude::*;

use crate::models::TestCaseWithSteps;
use crate::serialize::{case_ids, case_text, case_to_string, preorder};
use crate::side::Side;
use crate::text::{lines_of, text_lines};

verus! {

/// The unified-diff hunks that `similar` renders for two texts compared
/// line by line, with all lines kept as context.
pub uninterp spec fn unified_hunk_of(old: Seq<char>, new: Seq<char>) -> Seq<char>;

/// Relies on `similar::TextDiff::from_lines` (Myers' algorithm, no deadline)
/// rendered by `similar::udiff::UnifiedDiff` without header, with a context
/// radius of half of `usize::MAX` and no missing-newline hint: the result
/// depends on the two texts alone.
#[verifier::external_body]
fn unified_hunk(old: &str, new: &str) -> (r: String)
    ensures
        r@ == unified_hunk_of(old@, new@),
{
    similar::TextDiff::from_lines(old, new)
        .unified_diff()
        .context_radius(usize::MAX / 2)
        .missing_newline_hint(false)
        .to_string()
}

/// `--- old_name`, `+++ new_name`, each on its own line.
pub open spec fn hunk_header(old_name: Seq<char>, new_name: Seq<char>) -> Seq<char> {
    seq!['-', '-', '-', ' '] + old_name + seq!['\n'] + seq!['+', '+', '+', ' '] + new_name + seq![
        '\n',
    ]
}

/// The bare hunk marker line `@@ @@`.
pub open spec fn bare_marker() -> Seq<char> {
    seq!['@', '@', ' ', '@', '@', '\n']
}

/// Each line with `prefix` in front and a newline after it.
pub open spec fn prefixed_lines(lines: Seq<Seq<char>>, prefix: Seq<char>) -> Seq<char>
    decreases lines.len(),
{
    if lines.len() == 0 {
        Seq::empty()
    } else {
        prefixed_lines(lines.drop_last(), prefix) + prefix + lines.last() + seq!['\n']
    }
}

/// What marks a loner's lines: `- ` on the left, `+ ` on the right.
pub open spec fn loner_prefix(side: Side) -> Seq<char> {
    match side {
        Side::Left => seq!['-', ' '],
        Side::Right => seq!['+', ' '],
    }
}

/// The hunk of a test case present on one side only: every line of its
/// serialized text, marked as removed (left) or added (right).
pub open spec fn loner_hunk_text(name: Seq<char>, content: Seq<char>, side: Side) -> Seq<char> {
    hunk_header(name, name) + bare_marker() + prefixed_lines(lines_of(content), loner_prefix(side))
}

/// The hunk of a matched pair: all context when the texts are equal, else
/// the unified diff of the two texts.
pub open spec fn matched_hunk_text(
    left_name: Seq<char>,
    right_name: Seq<char>,
    left: Seq<char>,
    right: Seq<char>,
) -> Seq<char> {
    hunk_header(left_name, right_name) + if left == right {
        bare_marker() + prefixed_lines(lines_of(left), seq![' '])
    } else {
        unified_hunk_of(left, right)
    }
}

fn push_header(w: &mut String, old_name: &str, new_name: &str)
    ensures
        final(w)@ == old(w)@ + hunk_header(old_name@, new_name@),
{
    proof {
        reveal_strlit("--- ");
        reveal_strlit("+++ ");
        reveal_strlit("\n");
    }
    w.append("--- ");
    w.append(old_name);
    w.append("\n");
    w.append("+++ ");
    w.append(new_name);
    w.append("\n");
    proof {
        assert(final(w)@ =~= old(w)@ + hunk_header(old_name@, new_name@));
    }
}

fn push_prefixed_lines(w: &mut String, content: &str, prefix: &str)
    ensures
        final(w)@ == old(w)@ + bare_marker() + prefixed_lines(lines_of(content@), prefix@),
{
    proof {
        reveal_strlit("@@ @@\n");
        reveal_strlit("\n");
    }
    w.append("@@ @@\n");
    let ghost start = w@;
    let lines = text_lines(content);
    let ghost all = lines_of(content@);
    let mut i: usize = 0;
    while i < lines.len()
        invariant
            i <= lines@.len(),
            lines@.len() == all.len(),
            forall|k: int| 0 <= k < lines@.len() ==> #[trigger] lines@[k]@ == all[k],
            w@ == start + prefixed_lines(all.subrange(0, i as int), prefix@),
        decreases lines@.len() - i,
    {
        let ghost before = w@;
        w.append(prefix);
        w.append(lines[i].as_str());
        w.append("\n");
        proof {
            reveal_strlit("\n");
            assert(w@ =~= before + prefix@ + lines@[i as int]@ + seq!['\n']);
            let next = all.subrange(0, i + 1);
            assert(next.drop_last() =~= all.subrange(0, i as int));
            assert(next.last() == lines@[i as int]@);
            assert(w@ =~= start + prefixed_lines(next, prefix@));
        }
        i = i + 1;
    }
    proof {
        assert(all.subrange(0, all.len() as int) =~= all);
    }
}

/// The hunk of a test case present on one side only: header, bare marker,
/// then each line of `content` marked `- ` (left) or `+ ` (right).
pub fn loner_hunk(name: &str, content: &str, side: Side) -> (r: String)
    ensures
        r@ == loner_hunk_text(name@, content@, side),
{
    let mut hunk = String::new();
    push_header(&mut hunk, name, name);
    let prefix = match side {
        Side::Left => "- ",
        Side::Right => "+ ",
    };
    proof {
        reveal_strlit("- ");
        reveal_strlit("+ ");
        assert(prefix@ =~= loner_prefix(side));
    }
    push_prefixed_lines(&mut hunk, content, prefix);
    proof {
        assert(hunk@ =~= loner_hunk_text(name@, content@, side));
    }
    hunk
}

/// The hunk of a matched pair of test cases: header, then every line as
/// context when the two texts are equal, else the line diff of the texts as
/// one hunk spanning both.
pub fn matched_hunk(left_name: &str, right_name: &str, left: &str, right: &str) -> (r: String)
    ensures
        r@ == matched_hunk_text(left_name@, right_name@, left@, right@),
{
    let mut hunk = String::new();
    push_header(&mut hunk, left_name, right_name);
    let same = left.to_owned() == right.to_owned();
    if same {
        proof {
            reveal_strlit(" ");
        }
        push_prefixed_lines(&mut hunk, left, " ");
        proof {
            assert(" "@ =~= seq![' ']);
            assert(hunk@ =~= matched_hunk_text(left_name@, right_name@, left@, right@));
        }
    } else {
        let body = unified_hunk(left, right);
        hunk.append(body.as_str());
        proof {
            assert(hunk@ =~= matched_hunk_text(left_name@, right_name@, left@, right@));
        }
    }
    hunk
}

/// The line-id maps recorded for one test case: the serialized line number
/// to step id map of each side the case was serialized on.
pub struct CaseLineIds {
    pub name: String,
    pub left: Option<HashMap<usize, i64>>,
    pub right: Option<HashMap<usize, i64>>,
}

/// The comparison of two runs: all hunks in one document, and the line-id
/// maps per test case in the order the hunks were made. Where two entries
/// share a name, the later one stands for that name.
pub struct RunDiff {
    pub diff: String,
    pub line_ids: Vec<CaseLineIds>,
}

/// A test case small enough that its lines can be numbered in a `usize`.
pub open spec fn serializable(test_case: TestCaseWithSteps) -> bool {
    preorder(test_case.steps@, 0).len() <= usize::MAX
}

/// The hunks of loner test cases on one side, in order.
pub open spec fn loners_diff(cases: Seq<TestCaseWithSteps>, side: Side) -> Seq<char>
    decreases cases.len(),
{
    if cases.len() == 0 {
        Seq::empty()
    } else {
        loners_diff(cases.drop_last(), side) + loner_hunk_text(
            cases.last().name@,
            case_text(cases.last()),
            side,
        )
    }
}

/// The hunks of matched pairs of test cases, in order.
pub open spec fn matches_diff(pairs: Seq<(TestCaseWithSteps, TestCaseWithSteps)>) -> Seq<char>
    decreases pairs.len(),
{
    if pairs.len() == 0 {
        Seq::empty()
    } else {
        let (l, r) = pairs.last();
        matches_diff(pairs.drop_last()) + matched_hunk_text(
            l.name@,
            r.name@,
            case_text(l),
            case_text(r),
        )
    }
}

/// The line-id entry of a loner: its name, its map under its side only.
pub open spec fn loner_entry(e: CaseLineIds, test_case: TestCaseWithSteps, side: Side) -> bool {
    &&& e.name@ == test_case.name@
    &&& match side {
        Side::Left => e.right is None && (e.left matches Some(m) && m@ == case_ids(test_case)),
        Side::Right => e.left is None && (e.right matches Some(m) && m@ == case_ids(test_case)),
    }
}

/// The line-id entry of a matched pair: the left case's name, the left map
/// under the left side and the right map under the right side.
pub open spec fn matched_entry(
    e: CaseLineIds,
    left: TestCaseWithSteps,
    right: TestCaseWithSteps,
) -> bool {
    &&& e.name@ == left.name@
    &&& e.left matches Some(m) && m@ == case_ids(left)
    &&& e.right matches Some(m) && m@ == case_ids(right)
}

fn push_loners(
    diff: &mut String,
    line_ids: &mut Vec<CaseLineIds>,
    cases: &[TestCaseWithSteps],
    side: Side,
)
    requires
        forall|k: int| 0 <= k < cases@.len() ==> serializable(#[trigger] cases@[k]),
    ensures
        final(diff)@ == old(diff)@ + loners_diff(cases@, side),
        final(line_ids)@.len() == old(line_ids)@.len() + cases@.len(),
        forall|k: int|
            0 <= k < old(line_ids)@.len() ==> #[trigger] final(line_ids)@[k] == old(line_ids)@[k],
        forall|k: int|
            0 <= k < cases@.len() ==> loner_entry(
                #[trigger] final(line_ids)@[old(line_ids)@.len() + k],
                cases@[k],
                side,
            ),
{
    let ghost d0 = diff@;
    let ghost ids0 = line_ids@;
    let mut i: usize = 0;
    while i < cases.len()
        invariant
            i <= cases@.len(),
            forall|k: int| 0 <= k < cases@.len() ==> serializable(#[trigger] cases@[k]),
            diff@ == d0 + loners_diff(cases@.subrange(0, i as int), side),
            line_ids@.len() == ids0.len() + i,
            forall|k: int| 0 <= k < ids0.len() ==> #[trigger] line_ids@[k] == ids0[k],
            forall|k: int|
                0 <= k < i ==> loner_entry(#[trigger] line_ids@[ids0.len() + k], cases@[k], side),
        decreases cases@.len() - i,
    {
        let test_case = &cases[i];
        assert(serializable(cases@[i as int]));
        let (content, map) = case_to_string(test_case);
        let hunk = loner_hunk(test_case.name.as_str(), content.as_str(), side);
        diff.append(hunk.as_str());
        let entry = match side {
            Side::Left => CaseLineIds { name: test_case.name.clone(), left: Some(map), right: None },
            Side::Right => CaseLineIds { name: test_case.name.clone(), left: None, right: Some(map) },
        };
        line_ids.push(entry);
        proof {
            let next = cases@.subrange(0, i + 1);
            assert(next.drop_last() =~= cases@.subrange(0, i as int));
            assert(next.last() == *test_case);
            assert(diff@ =~= d0 + loners_diff(next, side));
        }
        i = i + 1;
    }
    proof {
        assert(cases@.subrange(0, cases@.len() as int) =~= cases@);
    }
}

fn push_matches(
    diff: &mut String,
    line_ids: &mut Vec<CaseLineIds>,
    pairs: &[(TestCaseWithSteps, TestCaseWithSteps)],
)
    requires
        forall|k: int|
            0 <= k < pairs@.len() ==> serializable((#[trigger] pairs@[k]).0) && serializable(
                pairs@[k].1,
            ),
    ensures
        final(diff)@ == old(diff)@ + matches_diff(pairs@),
        final(line_ids)@.len() == old(line_ids)@.len() + pairs@.len(),
        forall|k: int|
            0 <= k < old(line_ids)@.len() ==> #[trigger] final(line_ids)@[k] == old(line_ids)@[k],
        forall|k: int|
            0 <= k < pairs@.len() ==> matched_entry(
                #[trigger] final(line_ids)@[old(line_ids)@.len() + k],
                pairs@[k].0,
                pairs@[k].1,
            ),
{
    let ghost d0 = diff@;
    let ghost ids0 = line_ids@;
    let mut i: usize = 0;
    while i < pairs.len()
        invariant
            i <= pairs@.len(),
            forall|k: int|
                0 <= k < pairs@.len() ==> serializable((#[trigger] pairs@[k]).0) && serializable(
                    pairs@[k].1,
                ),
            diff@ == d0 + matches_diff(pairs@.subrange(0, i as int)),
            line_ids@.len() == ids0.len() + i,
            forall|k: int| 0 <= k < ids0.len() ==> #[trigger] line_ids@[k] == ids0[k],
            forall|k: int|
                0 <= k < i ==> matched_entry(
                    #[trigger] line_ids@[ids0.len() + k],
                    pairs@[k].0,
                    pairs@[k].1,
                ),
        decreases pairs@.len() - i,
    {
        let pair = &pairs[i];
        assert(serializable(pairs@[i as int].0) && serializable(pairs@[i as int].1));
        let (l, l_map) = case_to_string(&pair.0);
        let (r, r_map) = case_to_string(&pair.1);
        let hunk = matched_hunk(pair.0.name.as_str(), pair.1.name.as_str(), l.as_str(), r.as_str());
        diff.append(hunk.as_str());
        line_ids.push(CaseLineIds { name: pair.0.name.clone(), left: Some(l_map), right: Some(r_map) });
        proof {
            let next = pairs@.subrange(0, i + 1);
            assert(next.drop_last() =~= pairs@.subrange(0, i as int));
            assert(next.last() == *pair);
            assert(diff@ =~= d0 + matches_diff(next));
        }
        i = i + 1;
    }
    proof {
        assert(pairs@.subrange(0, pairs@.len() as int) =~= pairs@);
    }
}

/// Assembles the comparison of two runs from the matcher's output, each
/// case carrying its steps: the hunks of the left loners, then of the right
/// loners, then of the matched pairs, and one line-id entry per hunk in the
/// same order.
pub fn diff_runs(
    left_loners: &[TestCaseWithSteps],
    right_loners: &[TestCaseWithSteps],
    matches: &[(TestCaseWithSteps, TestCaseWithSteps)],
) -> (r: RunDiff)
    requires
        forall|k: int| 0 <= k < left_loners@.len() ==> serializable(#[trigger] left_loners@[k]),
        forall|k: int| 0 <= k < right_loners@.len() ==> serializable(#[trigger] right_loners@[k]),
        forall|k: int|
            0 <= k < matches@.len() ==> serializable((#[trigger] matches@[k]).0) && serializable(
                matches@[k].1,
            ),
    ensures
        r.diff@ == loners_diff(left_loners@, Side::Left) + loners_diff(right_loners@, Side::Right)
            + matches_diff(matches@),
        r.line_ids@.len() == left_loners@.len() + right_loners@.len() + matches@.len(),
        forall|k: int|
            0 <= k < left_loners@.len() ==> loner_entry(
                #[trigger] r.line_ids@[k],
                left_loners@[k],
                Side::Left,
            ),
        forall|k: int|
            0 <= k < right_loners@.len() ==> loner_entry(
                #[trigger] r.line_ids@[left_loners@.len() + k],
                right_loners@[k],
                Side::Right,
            ),
        forall|k: int|
            0 <= k < matches@.len() ==> matched_entry(
                #[trigger] r.line_ids@[left_loners@.len() + right_loners@.len() + k],
                matches@[k].0,
                matches@[k].1,
            ),
{
    let mut diff = String::new();
    let mut line_ids: Vec<CaseLineIds> = Vec::new();
    push_loners(&mut diff, &mut line_ids, left_loners, Side::Left);
    let ghost after_left = line_ids@;
    push_loners(&mut diff, &mut line_ids, right_loners, Side::Right);
    let ghost after_right = line_ids@;
    push_matches(&mut diff, &mut line_ids, matches);
    proof {
        assert(diff@ =~= loners_diff(left_loners@, Side::Left) + loners_diff(right_loners@, Side::Right)
            + matches_diff(matches@));
        assert forall|k: int| 0 <= k < left_loners@.len() implies loner_entry(
            #[trigger] line_ids@[k],
            left_loners@[k],
            Side::Left,
        ) by {
            assert(line_ids@[k] == after_right[k]);
            assert(after_right[k] == after_left[k]);
            assert(after_left[0 + k] == after_left[k]);
        }
        assert forall|k: int| 0 <= k < right_loners@.len() implies loner_entry(
            #[trigger] line_ids@[left_loners@.len() + k],
            right_loners@[k],
            Side::Right,
        ) by {
            assert(line_ids@[left_loners@.len() + k] == after_right[left_loners@.len() + k]);
        }
    }
    RunDiff { diff, line_ids }
}

/// Comparing a test case with itself gives an all-context hunk: the header,
/// the bare marker, and every serialized line behind a single space, so no
/// line is marked removed or added.
pub proof fn lemma_self_diff_all_context(test_case: TestCaseWithSteps)
    ensures
        matched_hunk_text(
            test_case.name@,
            test_case.name@,
            case_text(test_case),
            case_text(test_case),
        ) == hunk_header(test_case.name@, test_case.name@) + bare_marker() + prefixed_lines(
            lines_of(case_text(test_case)),
            seq![' '],
        ),
{
    let n = test_case.name@;
    let t = case_text(test_case);
    assert(matched_hunk_text(n, n, t, t) =~= hunk_header(n, n) + bare_marker() + prefixed_lines(
        lines_of(t),
        seq![' '],
    ));
}

} // verus!
