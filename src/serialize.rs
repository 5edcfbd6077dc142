use std::collections::HashMap;
use vstd::prelude::*;

use crate::models::{Step, TestCaseWithSteps};
use crate::text::{is_plain_line, join_lines, lemma_join_lines_concat, lemma_lines_of_join, lines_of};

verus! {

broadcast use vstd::std_specs::hash::group_hash_axioms;

/// `depth` repetitions of the four-space indent unit.
pub open spec fn indent(depth: nat) -> Seq<char>
    decreases depth,
{
    if depth == 0 {
        Seq::empty()
    } else {
        indent((depth - 1) as nat) + seq![' ', ' ', ' ', ' ']
    }
}

/// The steps of a forest in depth-first pre-order, each with its depth.
pub open spec fn preorder(steps: Seq<Step>, depth: nat) -> Seq<(Step, nat)>
    decreases steps,
{
    if steps.len() == 0 {
        Seq::empty()
    } else {
        seq![(steps[0], depth)] + preorder(steps[0].children_steps@, depth + 1)
            + preorder(steps.drop_first(), depth)
    }
}


/// The serialized line of a pre-order entry: its indent, then the step's name.
pub open spec fn line_text(e: (Step, nat)) -> Seq<char> {
    indent(e.1) + e.0.name@
}

/// The text of a sequence of pre-order entries: one line each, every line
/// ended by a newline.
pub open spec fn entries_text(es: Seq<(Step, nat)>) -> Seq<char> {
    join_lines(es.map_values(|e: (Step, nat)| line_text(e)))
}

/// The line-id map of a sequence of pre-order entries whose first line
/// follows line `start`: line `start + k + 1` holds entry `k`.
pub open spec fn entries_ids(es: Seq<(Step, nat)>, start: nat) -> Map<usize, i64> {
    Map::new(
        |n: usize| start < n <= start + es.len(),
        |n: usize| es[n - start - 1].0.id,
    )
}

/// The serialized text of a forest whose roots stand at `depth`.
pub open spec fn forest_text(steps: Seq<Step>, depth: nat) -> Seq<char> {
    entries_text(preorder(steps, depth))
}

/// The line-id map of a forest whose roots stand at `depth` and whose first
/// line follows line `start`.
pub open spec fn forest_ids(steps: Seq<Step>, depth: nat, start: nat) -> Map<usize, i64> {
    entries_ids(preorder(steps, depth), start)
}

/// Pre-order traversal distributes over concatenation of forests.
pub proof fn lemma_preorder_concat(a: Seq<Step>, b: Seq<Step>, depth: nat)
    ensures
        preorder(a + b, depth) == preorder(a, depth) + preorder(b, depth),
    decreases a.len(),
{
    if a.len() == 0 {
        assert(a + b =~= b);
    } else {
        assert((a + b).drop_first() =~= a.drop_first() + b);
        lemma_preorder_concat(a.drop_first(), b, depth);
        assert((a + b)[0] == a[0]);
    }
}

/// The text of concatenated entries is the concatenation of their texts.
pub proof fn lemma_entries_text_concat(a: Seq<(Step, nat)>, b: Seq<(Step, nat)>)
    ensures
        entries_text(a + b) == entries_text(a) + entries_text(b),
{
    let f = |e: (Step, nat)| line_text(e);
    assert((a + b).map_values(f) =~= a.map_values(f) + b.map_values(f));
    lemma_join_lines_concat(a.map_values(f), b.map_values(f));
}

/// The line-id map of concatenated entries joins the two maps.
pub proof fn lemma_entries_ids_concat(a: Seq<(Step, nat)>, b: Seq<(Step, nat)>, start: nat)
    ensures
        entries_ids(a + b, start) == entries_ids(a, start).union_prefer_right(
            entries_ids(b, start + a.len()),
        ),
{
    assert(entries_ids(a + b, start) =~= entries_ids(a, start).union_prefer_right(
        entries_ids(b, start + a.len()),
    ));
}

/// Appends the lines of `steps` (roots at depth `ident`) to `w`, numbering
/// them after `*line` and recording each line's step id.
fn write_in_steps(
    w: &mut String,
    line_id_map: &mut HashMap<usize, i64>,
    line: &mut usize,
    steps: &[Step],
    ident: usize,
)
    requires
        *old(line) + preorder(steps@, ident as nat).len() <= usize::MAX,
        ident + preorder(steps@, ident as nat).len() <= usize::MAX,
    ensures
        final(w)@ == old(w)@ + forest_text(steps@, ident as nat),
        *final(line) == *old(line) + preorder(steps@, ident as nat).len(),
        final(line_id_map)@ == old(line_id_map)@.union_prefer_right(
            forest_ids(steps@, ident as nat, *old(line) as nat),
        ),
    decreases steps@,
{
    let ghost w0 = w@;
    let ghost m0 = line_id_map@;
    let ghost l0 = *line;
    let ghost d = ident as nat;
    let mut i: usize = 0;
    while i < steps.len()
        invariant
            0 <= i <= steps@.len(),
            l0 + preorder(steps@, d).len() <= usize::MAX,
            ident + preorder(steps@, d).len() <= usize::MAX,
            d == ident,
            w@ == w0 + forest_text(steps@.subrange(0, i as int), d),
            *line == l0 + preorder(steps@.subrange(0, i as int), d).len(),
            line_id_map@ == m0.union_prefer_right(
                forest_ids(steps@.subrange(0, i as int), d, l0 as nat),
            ),
        decreases steps@.len() - i,
    {
        let step = &steps[i];
        let ghost pre = steps@.subrange(0, i as int);
        let ghost one = seq![steps@[i as int]];
        let ghost kids = step.children_steps@;
        proof {
            assert(steps@.subrange(0, i + 1) =~= pre + one);
            assert(steps@ =~= (pre + one) + steps@.subrange(i + 1, steps@.len() as int));
            lemma_preorder_concat(pre + one, steps@.subrange(i + 1, steps@.len() as int), d);
            lemma_preorder_concat(pre, one, d);
            assert(one.drop_first() =~= Seq::<Step>::empty());
            assert(preorder(Seq::<Step>::empty(), d) =~= Seq::<(Step, nat)>::empty());
            assert(one[0] == *step);
            assert(preorder(one, d) =~= seq![(*step, d)] + preorder(kids, d + 1));
        }
        let mut k: usize = 0;
        while k < ident
            invariant
                k <= ident,
                w@ == w0 + forest_text(pre, d) + indent(k as nat),
            decreases ident - k,
        {
            proof {
                reveal_strlit("    ");
            }
            w.append("    ");
            k = k + 1;
        }
        w.append(step.name.as_str());
        proof {
            reveal_strlit("\n");
        }
        w.append("\n");
        *line = *line + 1;
        line_id_map.insert(*line, step.id);
        write_in_steps(w, line_id_map, line, step.children_steps.as_slice(), ident + 1);
        proof {
            let head = seq![(*step, d)];
            let kid_entries = preorder(kids, d + 1);
            assert(entries_text(head) =~= line_text((*step, d)) + seq!['\n']) by {
                let lines = head.map_values(|e: (Step, nat)| line_text(e));
                assert(lines.drop_first() =~= Seq::<Seq<char>>::empty());
                assert(lines[0] == line_text((*step, d)));
                assert(join_lines(lines.drop_first()) =~= Seq::<char>::empty());
                assert(entries_text(head) == join_lines(lines));
            }
            lemma_entries_text_concat(preorder(pre, d), head);
            lemma_entries_text_concat(preorder(pre, d) + head, kid_entries);
            assert(preorder(pre, d) + preorder(one, d) =~= preorder(pre, d) + head + kid_entries);
            assert(w@ =~= w0 + forest_text(pre + one, d));
            lemma_entries_ids_concat(preorder(pre, d), head, l0 as nat);
            lemma_entries_ids_concat(preorder(pre, d) + head, kid_entries, l0 as nat);
            assert(line_id_map@ =~= m0.union_prefer_right(forest_ids(pre + one, d, l0 as nat)));
        }
        i = i + 1;
    }
    proof {
        assert(steps@.subrange(0, steps@.len() as int) =~= steps@);
    }
}

/// The serialized text of a test case's step forest.
pub open spec fn case_text(test_case: TestCaseWithSteps) -> Seq<char> {
    forest_text(test_case.steps@, 0)
}

/// The line-id map of a test case's step forest, lines numbered from 1.
pub open spec fn case_ids(test_case: TestCaseWithSteps) -> Map<usize, i64> {
    forest_ids(test_case.steps@, 0, 0)
}

/// Serializes a forest of steps, roots first at depth 0, numbering its lines
/// after `start_line`. Returns the text, the map from each line number to
/// the id of the step on that line, and the number of the last line.
pub fn serialize_steps(steps: &[Step], start_line: usize) -> (r: (String, HashMap<usize, i64>, usize))
    requires
        start_line + preorder(steps@, 0).len() <= usize::MAX,
    ensures
        r.0@ == forest_text(steps@, 0),
        r.1@ == forest_ids(steps@, 0, start_line as nat),
        r.2 == start_line + preorder(steps@, 0).len(),
{
    let mut text = String::new();
    let mut line_id_map: HashMap<usize, i64> = HashMap::new();
    let mut line = start_line;
    write_in_steps(&mut text, &mut line_id_map, &mut line, steps, 0);
    proof {
        assert(Seq::<char>::empty() + forest_text(steps@, 0) =~= forest_text(steps@, 0));
        assert(Map::<usize, i64>::empty().union_prefer_right(
            forest_ids(steps@, 0, start_line as nat),
        ) =~= forest_ids(steps@, 0, start_line as nat));
    }
    (text, line_id_map, line)
}

/// Serializes a test case's steps: the text and the map from line number
/// (from 1) to step id.
pub fn case_to_string(test_case: &TestCaseWithSteps) -> (r: (String, HashMap<usize, i64>))
    requires
        preorder(test_case.steps@, 0).len() <= usize::MAX,
    ensures
        r.0@ == case_text(*test_case),
        r.1@ == case_ids(*test_case),
{
    let (text, line_id_map, _) = serialize_steps(test_case.steps.as_slice(), 0);
    (text, line_id_map)
}

proof fn lemma_indent_spaces(depth: nat)
    ensures
        forall|j: int| 0 <= j < indent(depth).len() ==> indent(depth)[j] == ' ',
    decreases depth,
{
    if depth > 0 {
        let p = indent((depth - 1) as nat);
        lemma_indent_spaces((depth - 1) as nat);
        assert forall|j: int| 0 <= j < indent(depth).len() implies indent(depth)[j] == ' ' by {
            if j < p.len() {
                assert(indent(depth)[j] == p[j]);
            }
        }
    }
}

/// Reading back the text of a forest gives, for every line number `n`, the
/// indent and name of the `n`-th step in pre-order, and the line-id map
/// sends `start + n` to that step's id; this holds when no step name holds
/// a newline or ends with a carriage return.
pub proof fn lemma_serialize_round_trip(steps: Seq<Step>, start: nat)
    requires
        start + preorder(steps, 0).len() <= usize::MAX,
        forall|k: int|
            0 <= k < preorder(steps, 0).len() ==> is_plain_line(
                #[trigger] preorder(steps, 0)[k].0.name@,
            ),
    ensures
        lines_of(forest_text(steps, 0)).len() == preorder(steps, 0).len(),
        forall|n: int|
            1 <= n <= preorder(steps, 0).len() ==> {
                let e = #[trigger] preorder(steps, 0)[n - 1];
                &&& lines_of(forest_text(steps, 0))[n - 1] == indent(e.1) + e.0.name@
                &&& forest_ids(steps, 0, start).contains_key((start + n) as usize)
                &&& forest_ids(steps, 0, start)[(start + n) as usize] == e.0.id
            },
{
    let order = preorder(steps, 0);
    let lines = order.map_values(|e: (Step, nat)| line_text(e));
    assert forall|k: int| 0 <= k < lines.len() implies is_plain_line(#[trigger] lines[k]) by {
        let e = order[k];
        assert(is_plain_line(e.0.name@));
        lemma_indent_spaces(e.1);
        let l = indent(e.1) + e.0.name@;
        assert(lines[k] == l);
        assert forall|j: int| 0 <= j < l.len() implies l[j] != '\n' by {
            if j < indent(e.1).len() {
                assert(l[j] == indent(e.1)[j]);
            } else {
                assert(l[j] == e.0.name@[j - indent(e.1).len()]);
            }
        }
        if l.len() > 0 {
            if e.0.name@.len() > 0 {
                assert(l.last() == e.0.name@.last());
            } else {
                assert(l.last() == indent(e.1)[indent(e.1).len() - 1]);
            }
        }
    }
    lemma_lines_of_join(lines);
    assert forall|n: int| 1 <= n <= order.len() implies {
        let e = #[trigger] preorder(steps, 0)[n - 1];
        &&& lines_of(forest_text(steps, 0))[n - 1] == indent(e.1) + e.0.name@
        &&& forest_ids(steps, 0, start).contains_key((start + n) as usize)
        &&& forest_ids(steps, 0, start)[(start + n) as usize] == e.0.id
    } by {
        assert(lines[n - 1] == line_text(order[n - 1]));
    }
}

/// Two forests alike in every step's id, name and children, in order.
pub open spec fn same_forest(a: Seq<Step>, b: Seq<Step>) -> bool
    decreases a,
{
    &&& a.len() == b.len()
    &&& a.len() > 0 ==> {
        &&& a[0].id == b[0].id
        &&& a[0].name@ == b[0].name@
        &&& same_forest(a[0].children_steps@, b[0].children_steps@)
        &&& same_forest(a.drop_first(), b.drop_first())
    }
}

/// Entry sequences alike in each entry's step id, step name and depth.
pub open spec fn same_entries(x: Seq<(Step, nat)>, y: Seq<(Step, nat)>) -> bool {
    &&& x.len() == y.len()
    &&& forall|k: int|
        0 <= k < x.len() ==> {
            &&& #[trigger] x[k].0.id == y[k].0.id
            &&& x[k].0.name@ == y[k].0.name@
            &&& x[k].1 == y[k].1
        }
}

proof fn lemma_same_forest_entries(a: Seq<Step>, b: Seq<Step>, depth: nat)
    requires
        same_forest(a, b),
    ensures
        same_entries(preorder(a, depth), preorder(b, depth)),
    decreases a,
{
    if a.len() > 0 {
        lemma_same_forest_entries(a[0].children_steps@, b[0].children_steps@, depth + 1);
        lemma_same_forest_entries(a.drop_first(), b.drop_first(), depth);
        let xa = preorder(a[0].children_steps@, depth + 1);
        let xb = preorder(b[0].children_steps@, depth + 1);
        let ya = preorder(a.drop_first(), depth);
        let yb = preorder(b.drop_first(), depth);
        let pa = seq![(a[0], depth)] + xa + ya;
        let pb = seq![(b[0], depth)] + xb + yb;
        assert forall|k: int| 0 <= k < pa.len() implies {
            &&& #[trigger] pa[k].0.id == pb[k].0.id
            &&& pa[k].0.name@ == pb[k].0.name@
            &&& pa[k].1 == pb[k].1
        } by {
            if k == 0 {
            } else if k < 1 + xa.len() {
                assert(pa[k] == xa[k - 1]);
                assert(pb[k] == xb[k - 1]);
            } else {
                assert(pa[k] == ya[k - 1 - xa.len()]);
                assert(pb[k] == yb[k - 1 - xa.len()]);
            }
        }
    }
}

/// Serialization depends on the steps' ids, names and tree shape alone:
/// forests alike in those give the same text and the same line-id map, so
/// serializing one forest twice gives identical results.
pub proof fn lemma_serialize_deterministic(a: Seq<Step>, b: Seq<Step>, start: nat)
    requires
        same_forest(a, b),
    ensures
        forest_text(a, 0) == forest_text(b, 0),
        forest_ids(a, 0, start) == forest_ids(b, 0, start),
{
    lemma_same_forest_entries(a, b, 0);
    let pa = preorder(a, 0);
    let pb = preorder(b, 0);
    let f = |e: (Step, nat)| line_text(e);
    assert forall|k: int| 0 <= k < pa.len() implies pa.map_values(f)[k] == pb.map_values(f)[k] by {
        assert(pa[k].0.id == pb[k].0.id);
    }
    assert(pa.map_values(f) =~= pb.map_values(f));
    assert(forest_ids(a, 0, start) =~= forest_ids(b, 0, start));
}

} // verus!
