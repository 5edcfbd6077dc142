use vstd::prelude::*;
use vstd::string::*;

verus! {

/// An axis-aligned pixel rectangle `((x1, y1), (x2, y2))`, both corners
/// inclusive, excluded from image comparison.
pub type IgnoreRange = ((u32, u32), (u32, u32));

/// A label attached to a run.
#[derive(Clone, Debug)]
pub struct Tag {
    pub id: i64,
    pub value: String,
}

/// A recorded session; `created_at` is in seconds since the Unix epoch (UTC).
#[derive(Clone, Debug)]
pub struct Run {
    pub id: i64,
    pub name: String,
    pub created_at: i64,
    pub tags: Vec<Tag>,
}

/// One screenshot event, a node of its test case's step tree.
/// `created_at` is in seconds since the Unix epoch (UTC).
#[derive(Debug)]
pub struct Step {
    pub id: i64,
    pub name: String,
    pub data_uri: String,
    pub created_at: i64,
    pub test_case_id: i64,
    pub children_steps: Vec<Step>,
}

/// A named scenario of a run, with the rectangles that image comparison
/// skips. `created_at` is in seconds since the Unix epoch (UTC).
#[derive(Clone, Debug)]
pub struct TestCase {
    pub id: i64,
    pub run_id: i64,
    pub name: String,
    pub ignore_ranges: Vec<IgnoreRange>,
    pub created_at: i64,
}

/// A test case together with its forest of steps, roots in stored order.
#[derive(Debug)]
pub struct TestCaseWithSteps {
    pub id: i64,
    pub run_id: i64,
    pub name: String,
    pub created_at: i64,
    pub steps: Vec<Step>,
}

/// A step's text form: its name on a line, then each child's text form
/// behind four spaces and followed by a newline.
pub open spec fn step_text(step: Step) -> Seq<char>
    decreases step,
{
    step.name@ + seq!['\n'] + children_text(step.children_steps@)
}

/// The text forms of sibling steps, each behind four spaces and followed by
/// a newline.
pub open spec fn children_text(children: Seq<Step>) -> Seq<char>
    decreases children,
{
    if children.len() == 0 {
        Seq::empty()
    } else {
        seq![' ', ' ', ' ', ' '] + step_text(children[0]) + seq!['\n'] + children_text(
            children.drop_first(),
        )
    }
}

proof fn lemma_children_text_snoc(children: Seq<Step>, i: int)
    requires
        0 <= i < children.len(),
    ensures
        children_text(children.subrange(0, i + 1)) == children_text(children.subrange(0, i))
            + seq![' ', ' ', ' ', ' '] + step_text(children[i]) + seq!['\n'],
    decreases i,
{
    let a = children.subrange(0, i + 1);
    let b = children.subrange(0, i);
    if i == 0 {
        assert(a.drop_first() =~= Seq::<Step>::empty());
        assert(b =~= Seq::<Step>::empty());
        assert(children_text(a) =~= seq![' ', ' ', ' ', ' '] + step_text(children[0]) + seq!['\n']);
    } else {
        lemma_children_text_snoc(children.drop_first(), i - 1);
        assert(a.drop_first() =~= children.drop_first().subrange(0, i));
        assert(b.drop_first() =~= children.drop_first().subrange(0, i - 1));
        assert(children.drop_first()[i - 1] == children[i]);
        assert(children_text(a) =~= children_text(b) + seq![' ', ' ', ' ', ' '] + step_text(
            children[i],
        ) + seq!['\n']);
    }
}

impl Step {
    fn write_text(&self, w: &mut String)
        ensures
            final(w)@ == old(w)@ + step_text(*self),
        decreases *self,
    {
        proof {
            reveal_strlit("\n");
        }
        w.append(self.name.as_str());
        w.append("\n");
        let ghost start = w@;
        let mut i: usize = 0;
        while i < self.children_steps.len()
            invariant
                i <= self.children_steps@.len(),
                w@ == start + children_text(self.children_steps@.subrange(0, i as int)),
            decreases self.children_steps@.len() - i,
        {
            proof {
                reveal_strlit("    ");
                reveal_strlit("\n");
                lemma_children_text_snoc(self.children_steps@, i as int);
            }
            w.append("    ");
            self.children_steps[i].write_text(w);
            w.append("\n");
            i = i + 1;
        }
        proof {
            assert(self.children_steps@.subrange(0, self.children_steps@.len() as int)
                =~= self.children_steps@);
            assert(w@ =~= old(w)@ + step_text(*self));
        }
    }

    /// The step's text form: its name on a line, then each child's text
    /// form behind four spaces, followed by a newline.
    pub fn to_text(&self) -> (r: String)
        ensures
            r@ == step_text(*self),
    {
        let mut text = String::new();
        self.write_text(&mut text);
        text
    }
}

/// The answer to storing a step: its id, or `None` when storing failed.
pub struct PostStepResBody {
    pub step_id: Option<i64>,
}

} // verus!
