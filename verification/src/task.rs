//! The task tree of a document: its nodes, their mathematical value, and the
//! counts taken over them.

use vstd::prelude::*;

verus! {

/// One checklist line. A top-level node holds the indented lines that follow
/// it as its children; a child holds none.
#[derive(Debug)]
pub struct TaskNode {
    pub id: String,
    pub description: String,
    pub checked: bool,
    pub children: Vec<TaskNode>,
}

/// The mathematical value of a `TaskNode`.
pub struct TaskTree {
    pub id: Seq<char>,
    pub description: Seq<char>,
    pub checked: bool,
    pub children: Seq<TaskTree>,
}

/// The value of one node.
pub open spec fn tree_of(t: TaskNode) -> TaskTree
    decreases t,
{
    TaskTree {
        id: t.id@,
        description: t.description@,
        checked: t.checked,
        children: forest_of(t.children@),
    }
}

/// The values of a sequence of nodes, in order.
pub open spec fn forest_of(ts: Seq<TaskNode>) -> Seq<TaskTree>
    decreases ts,
{
    if ts.len() == 0 {
        Seq::empty()
    } else {
        forest_of(ts.drop_last()).push(tree_of(ts.last()))
    }
}

impl View for TaskNode {
    type V = TaskTree;

    open spec fn view(&self) -> TaskTree {
        tree_of(*self)
    }
}

/// The value of a sequence of nodes has one tree for each node.
pub proof fn lemma_forest_of(ts: Seq<TaskNode>)
    ensures
        forest_of(ts).len() == ts.len(),
        forall|i: int| 0 <= i < ts.len() ==> #[trigger] forest_of(ts)[i] == tree_of(ts[i]),
    decreases ts.len(),
{
    if ts.len() > 0 {
        lemma_forest_of(ts.drop_last());
    }
}

/// Adding a node at the end adds its tree at the end.
pub proof fn lemma_forest_of_push(ts: Seq<TaskNode>, t: TaskNode)
    ensures
        forest_of(ts.push(t)) == forest_of(ts).push(tree_of(t)),
{
    assert(ts.push(t).drop_last() == ts);
}

// ---------------------------------------------------------------------------
// Counts
// ---------------------------------------------------------------------------

/// One for a checked task, nothing for an unchecked one.
pub open spec fn tick(checked: bool) -> nat {
    if checked {
        1
    } else {
        0
    }
}

/// How many of the trees `f` are checked, their children not looked at.
pub open spec fn checked_among(f: Seq<TaskTree>) -> nat
    decreases f.len(),
{
    if f.len() == 0 {
        0
    } else {
        checked_among(f.drop_last()) + tick(f.last().checked)
    }
}

/// The number of tasks of a forest: each top-level task counts once, and each
/// of its children once more.
pub open spec fn total_count(f: Seq<TaskTree>) -> nat
    decreases f.len(),
{
    if f.len() == 0 {
        0
    } else {
        total_count(f.drop_last()) + 1 + f.last().children.len()
    }
}

/// The number of checked tasks of a forest, counted as `total_count` counts.
pub open spec fn checked_count(f: Seq<TaskTree>) -> nat
    decreases f.len(),
{
    if f.len() == 0 {
        0
    } else {
        checked_count(f.drop_last()) + tick(f.last().checked) + checked_among(f.last().children)
    }
}

/// Whether no child in the forest has children of its own.
pub open spec fn two_level(f: Seq<TaskTree>) -> bool {
    forall|i: int, j: int|
        0 <= i < f.len() && 0 <= j < f[i].children.len() ==> (#[trigger] f[i].children[j]).children.len()
            == 0
}

/// No more trees are checked than there are.
pub proof fn lemma_checked_among_bound(f: Seq<TaskTree>)
    ensures
        checked_among(f) <= f.len(),
    decreases f.len(),
{
    if f.len() > 0 {
        lemma_checked_among_bound(f.drop_last());
    }
}

/// No more tasks are checked than there are, whatever the forest.
pub proof fn lemma_checked_le_total(f: Seq<TaskTree>)
    ensures
        checked_count(f) <= total_count(f),
    decreases f.len(),
{
    if f.len() > 0 {
        lemma_checked_le_total(f.drop_last());
        lemma_checked_among_bound(f.last().children);
    }
}

/// The counts of a prefix of a forest are no greater than those of the whole.
pub proof fn lemma_counts_prefix(f: Seq<TaskTree>, n: int)
    requires
        0 <= n <= f.len(),
    ensures
        total_count(f.take(n)) <= total_count(f),
        checked_among(f.take(n)) <= checked_among(f),
    decreases f.len() - n,
{
    if n < f.len() {
        lemma_counts_prefix(f, n + 1);
        assert(f.take(n + 1).drop_last() == f.take(n));
    } else {
        assert(f.take(n) == f);
    }
}

/// The total and the checked count of `tasks`, in this order. A task counts
/// once, and each of its children once more.
pub fn count_tasks(tasks: &[TaskNode]) -> (counts: (u32, u32))
    requires
        total_count(forest_of(tasks@)) <= u32::MAX,
    ensures
        counts.0 == total_count(forest_of(tasks@)),
        counts.1 == checked_count(forest_of(tasks@)),
        counts.1 <= counts.0,
{
    let ghost f = forest_of(tasks@);
    let mut total: u32 = 0;
    let mut checked: u32 = 0;
    let mut i: usize = 0;
    proof {
        lemma_forest_of(tasks@);
    }
    while i < tasks.len()
        invariant
            i <= tasks@.len(),
            f == forest_of(tasks@),
            f.len() == tasks@.len(),
            forall|k: int| 0 <= k < tasks@.len() ==> #[trigger] f[k] == tree_of(tasks@[k]),
            total_count(f) <= u32::MAX,
            total == total_count(f.take(i as int)),
            checked == checked_count(f.take(i as int)),
        decreases tasks@.len() - i,
    {
        let task = &tasks[i];
        let ghost kids = forest_of(task.children@);
        proof {
            lemma_counts_prefix(f, i + 1);
            lemma_checked_le_total(f.take(i as int));
            lemma_forest_of(task.children@);
            assert(f.take(i + 1).drop_last() == f.take(i as int));
            assert(f.take(i + 1).last() == f[i as int]);
            assert(f[i as int].children == kids);
        }
        total += 1;
        if task.checked {
            checked += 1;
        }
        let mut j: usize = 0;
        while j < task.children.len()
            invariant
                j <= task.children@.len(),
                kids == forest_of(task.children@),
                kids.len() == task.children@.len(),
                forall|k: int|
                    0 <= k < kids.len() ==> #[trigger] kids[k] == tree_of(task.children@[k]),
                total_count(f.take(i as int)) + 1 + kids.len() <= u32::MAX,
                checked_count(f.take(i as int)) <= total_count(f.take(i as int)),
                total == total_count(f.take(i as int)) + 1 + j,
                checked == checked_count(f.take(i as int)) + tick(task.checked) + checked_among(
                    kids.take(j as int),
                ),
            decreases task.children@.len() - j,
        {
            proof {
                lemma_checked_among_bound(kids.take(j as int));
                assert(kids.take(j + 1).drop_last() == kids.take(j as int));
            }
            total += 1;
            if task.children[j].checked {
                checked += 1;
            }
            j += 1;
        }
        assert(kids.take(j as int) == kids);
        i += 1;
    }
    assert(f.take(i as int) == f);
    proof {
        lemma_checked_le_total(f);
    }
    (total, checked)
}

/// Whether the number of tasks fits into a count: into 32 bits.
pub fn counts_fit(tasks: &[TaskNode]) -> (fits: bool)
    ensures
        fits == (total_count(forest_of(tasks@)) <= u32::MAX),
{
    let ghost f = forest_of(tasks@);
    let mut total: u64 = 0;
    let mut i: usize = 0;
    proof {
        lemma_forest_of(tasks@);
    }
    while i < tasks.len()
        invariant
            i <= tasks@.len(),
            f == forest_of(tasks@),
            f.len() == tasks@.len(),
            forall|k: int| 0 <= k < tasks@.len() ==> #[trigger] f[k] == tree_of(tasks@[k]),
            total == total_count(f.take(i as int)),
            total <= u32::MAX,
        decreases tasks@.len() - i,
    {
        let count: usize = tasks[i].children.len();
        proof {
            lemma_counts_prefix(f, i + 1);
            lemma_forest_of(tasks@[i as int].children@);
            assert(f.take(i + 1).drop_last() == f.take(i as int));
            assert(f.take(i + 1).last() == f[i as int]);
            assert(f[i as int].children.len() == count);
        }
        if count >= 0xffff_ffff {
            return false;
        }
        total = total + 1 + count as u64;
        if total > 0xffff_ffff {
            return false;
        }
        i += 1;
    }
    assert(f.take(i as int) == f);
    true
}

/// A copy of `t` with the same value.
pub fn clone_node(t: &TaskNode) -> (r: TaskNode)
    ensures
        r@ == t@,
    decreases *t,
{
    let mut children: Vec<TaskNode> = Vec::new();
    let mut i: usize = 0;
    while i < t.children.len()
        invariant
            i <= t.children@.len(),
            forest_of(children@) == forest_of(t.children@.take(i as int)),
        decreases t.children@.len() - i,
    {
        let c = clone_node(&t.children[i]);
        proof {
            lemma_forest_of_push(children@, c);
            lemma_forest_of_push(t.children@.take(i as int), t.children@[i as int]);
            assert(t.children@.take(i as int).push(t.children@[i as int]) == t.children@.take(
                i + 1,
            ));
        }
        children.push(c);
        i += 1;
    }
    assert(t.children@.take(i as int) == t.children@);
    TaskNode {
        id: t.id.clone(),
        description: t.description.clone(),
        checked: t.checked,
        children,
    }
}

impl Clone for TaskNode {
    fn clone(&self) -> (r: Self)
        ensures
            r@ == self@,
    {
        clone_node(self)
    }
}

} // verus!
