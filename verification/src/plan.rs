//! The task tree parser: from the text of a document to the forest of tasks
//! that its implementation plan lists.
//!
//! The plan is the run of lines after the first line that is, once trimmed,
//! exactly the plan heading, up to the next line that, once trimmed, starts
//! a top-level heading; a second plan heading is such a line. Each checklist
//! line in the plan is one task. A line without indentation starts a
//! top-level task; an indented one, however deep, is a child of the top-level
//! task before it.

use crate::task::{
    forest_of, lemma_forest_of, lemma_forest_of_push, total_count, two_level, TaskNode, TaskTree,
};
use crate::text::{
    chars_eq, chars_of, chars_start_with, count_leading_whitespace, find_char, find_char_in,
    leading_whitespace, lemma_lines_len, line_views, lines, split_lines, starts_with, string_of,
    trim, trim_chars,
};
use vstd::prelude::*;
use vstd::slice::slice_subrange;

verus! {

/// The heading that opens the plan.
pub open spec fn plan_heading() -> Seq<char> {
    "# Implementation Plan"@
}

/// What a top-level heading starts with.
pub open spec fn heading_mark() -> Seq<char> {
    "# "@
}

/// What a checked checklist line starts with.
pub open spec fn checked_mark() -> Seq<char> {
    "- [x] "@
}

/// What an unchecked checklist line starts with.
pub open spec fn unchecked_mark() -> Seq<char> {
    "- [ ] "@
}

/// Whether `line` is the plan heading.
pub open spec fn is_plan_heading(line: Seq<char>) -> bool {
    trim(line) == plan_heading()
}

/// Whether `line` ends the plan: once trimmed, it starts a top-level
/// heading. The plan heading itself is such a line.
pub open spec fn closes_plan(line: Seq<char>) -> bool {
    starts_with(trim(line), heading_mark())
}

/// The position of the first plan heading among `ls`, or their number where
/// there is none.
pub open spec fn plan_start(ls: Seq<Seq<char>>) -> int
    decreases ls.len(),
{
    if ls.len() == 0 || is_plan_heading(ls[0]) {
        0
    } else {
        1 + plan_start(ls.drop_first())
    }
}

/// The number of lines at the front of `ls` before the first one that ends
/// the plan.
pub open spec fn plan_length(ls: Seq<Seq<char>>) -> int
    decreases ls.len(),
{
    if ls.len() == 0 || closes_plan(ls[0]) {
        0
    } else {
        1 + plan_length(ls.drop_first())
    }
}

/// The lines of the plan: those after the plan heading and before the line
/// that ends the plan. Empty where there is no plan heading.
pub open spec fn plan_window(ls: Seq<Seq<char>>) -> Seq<Seq<char>> {
    let start = plan_start(ls);
    if 0 <= start < ls.len() {
        let after = ls.skip(start + 1);
        after.take(plan_length(after))
    } else {
        Seq::empty()
    }
}

/// What one checklist line states.
pub struct TaskLine {
    /// Whether the line has no indentation.
    pub top_level: bool,
    pub id: Seq<char>,
    pub description: Seq<char>,
    pub checked: bool,
}

/// The task that `line` states. A task line is, once trimmed, a checkbox
/// marker followed by an id, a colon and a description; id and description
/// are trimmed, and the first colon after the marker parts them. A line with
/// a marker and no colon states no task.
pub open spec fn task_line(line: Seq<char>) -> Option<TaskLine> {
    let t = trim(line);
    let is_checked = starts_with(t, checked_mark());
    if is_checked || starts_with(t, unchecked_mark()) {
        let rest = t.skip(6);
        let colon = find_char(rest, ':');
        if 0 <= colon < rest.len() {
            Some(
                TaskLine {
                    top_level: leading_whitespace(line) == 0,
                    id: trim(rest.take(colon)),
                    description: trim(rest.skip(colon + 1)),
                    checked: is_checked,
                },
            )
        } else {
            None
        }
    } else {
        None
    }
}

/// The tree of a task that was just read: it has no children yet.
pub open spec fn leaf(t: TaskLine) -> TaskTree {
    TaskTree { id: t.id, description: t.description, checked: t.checked, children: Seq::empty() }
}

/// The forest after the task `t` was read. A top-level task is added at the
/// end; an indented one becomes the last child of the last top-level task, and
/// is dropped where there is none.
pub open spec fn attach(f: Seq<TaskTree>, t: TaskLine) -> Seq<TaskTree> {
    if t.top_level {
        f.push(leaf(t))
    } else if f.len() > 0 {
        let parent = f.last();
        f.update(
            f.len() - 1,
            TaskTree {
                id: parent.id,
                description: parent.description,
                checked: parent.checked,
                children: parent.children.push(leaf(t)),
            },
        )
    } else {
        f
    }
}

/// The forest that the lines `ls` of a plan build, read from top to bottom.
/// Lines that state no task are passed over.
pub open spec fn forest_of_lines(ls: Seq<Seq<char>>) -> Seq<TaskTree>
    decreases ls.len(),
{
    if ls.len() == 0 {
        Seq::empty()
    } else {
        let before = forest_of_lines(ls.drop_last());
        match task_line(ls.last()) {
            Some(t) => attach(before, t),
            None => before,
        }
    }
}

/// The forest of tasks that the text `content` holds.
pub open spec fn parse_plan(content: Seq<char>) -> Seq<TaskTree> {
    forest_of_lines(plan_window(lines(content)))
}

/// `plan_start` is the least position of a plan heading.
pub proof fn lemma_plan_start(ls: Seq<Seq<char>>, n: int)
    requires
        0 <= n <= ls.len(),
        forall|k: int| 0 <= k < n ==> !is_plan_heading(#[trigger] ls[k]),
        n < ls.len() ==> is_plan_heading(ls[n]),
    ensures
        plan_start(ls) == n,
    decreases n,
{
    if n > 0 {
        let t = ls.drop_first();
        assert forall|k: int| 0 <= k < n - 1 implies !is_plan_heading(#[trigger] t[k]) by {
            assert(t[k] == ls[k + 1]);
        }
        lemma_plan_start(t, n - 1);
    }
}

/// `plan_length` is the least position of a line that ends the plan.
pub proof fn lemma_plan_length(ls: Seq<Seq<char>>, n: int)
    requires
        0 <= n <= ls.len(),
        forall|k: int| 0 <= k < n ==> !closes_plan(#[trigger] ls[k]),
        n < ls.len() ==> closes_plan(ls[n]),
    ensures
        plan_length(ls) == n,
    decreases n,
{
    if n > 0 {
        let t = ls.drop_first();
        assert forall|k: int| 0 <= k < n - 1 implies !closes_plan(#[trigger] t[k]) by {
            assert(t[k] == ls[k + 1]);
        }
        lemma_plan_length(t, n - 1);
    }
}

/// The forest that a plan builds has two levels, and as many top-level tasks
/// and children together as the plan has lines at most.
pub proof fn lemma_forest_of_lines(ls: Seq<Seq<char>>)
    ensures
        two_level(forest_of_lines(ls)),
        total_count(forest_of_lines(ls)) <= ls.len(),
    decreases ls.len(),
{
    if ls.len() > 0 {
        lemma_forest_of_lines(ls.drop_last());
        let before = forest_of_lines(ls.drop_last());
        match task_line(ls.last()) {
            Some(t) => {
                let after = attach(before, t);
                if t.top_level {
                    assert(after.drop_last() == before);
                } else if before.len() > 0 {
                    assert(after.drop_last() == before.drop_last());
                    assert forall|i: int, j: int|
                        0 <= i < after.len() && 0 <= j < after[i].children.len() implies (
                    #[trigger] after[i].children[j]).children.len() == 0 by {
                        if i < after.len() - 1 {
                            assert(after[i] == before[i]);
                        } else if j < before[i].children.len() {
                            assert(after[i].children[j] == before[i].children[j]);
                        }
                    }
                }
            },
            None => {},
        }
    }
}

/// Whether `line` is the plan heading.
fn is_heading_line(line: &[char], heading: &[char]) -> (r: bool)
    requires
        heading@ == plan_heading(),
    ensures
        r == is_plan_heading(line@),
{
    chars_eq(trim_chars(line), heading)
}

/// Whether `line` ends the plan.
fn is_closing_line(line: &[char], mark: &[char]) -> (r: bool)
    requires
        mark@ == heading_mark(),
    ensures
        r == closes_plan(line@),
{
    chars_start_with(trim_chars(line), mark)
}

/// The task that `line` states: whether it is a top-level one, and its node.
fn read_task_line(line: &[char], checked: &[char], unchecked: &[char]) -> (r: Option<
    (bool, TaskNode),
>)
    requires
        checked@ == checked_mark(),
        unchecked@ == unchecked_mark(),
    ensures
        match r {
            Some((top_level, node)) => task_line(line@) matches Some(t) && t.top_level == top_level
                && node@ == leaf(t),
            None => task_line(line@) is None,
        },
{
    proof {
        reveal_strlit("- [x] ");
        reveal_strlit("- [ ] ");
    }
    let trimmed = trim_chars(line);
    let is_checked = chars_start_with(trimmed, checked);
    if !is_checked && !chars_start_with(trimmed, unchecked) {
        return None;
    }
    let rest = slice_subrange(trimmed, 6, trimmed.len());
    let colon: usize = find_char_in(rest, ':');
    if colon >= rest.len() {
        return None;
    }
    let id = string_of(trim_chars(slice_subrange(rest, 0, colon)));
    let description = string_of(trim_chars(slice_subrange(rest, colon + 1, rest.len())));
    let indent: usize = count_leading_whitespace(line);
    let node = TaskNode { id, description, checked: is_checked, children: Vec::new() };
    Some((indent == 0, node))
}

/// Parses the implementation plan of a document into its forest of tasks.
///
/// Parsing never fails: text without a plan gives an empty forest, and lines
/// that are no task lines are passed over. An indented task line before any
/// top-level one is dropped.
pub fn parse_tasks(content: &str) -> (tasks: Vec<TaskNode>)
    ensures
        forest_of(tasks@) == parse_plan(content@),
        two_level(forest_of(tasks@)),
        total_count(forest_of(tasks@)) <= content@.len(),
{
    let chars = chars_of(content);
    let ls = split_lines(chars.as_slice());
    let heading = chars_of("# Implementation Plan");
    let mark = chars_of("# ");
    let checked = chars_of("- [x] ");
    let unchecked = chars_of("- [ ] ");
    let ghost all = lines(content@);
    let mut tasks: Vec<TaskNode> = Vec::new();

    let mut i: usize = 0;
    while i < ls.len() && !is_heading_line(ls[i], heading.as_slice())
        invariant
            i <= ls@.len(),
            line_views(ls@) == all,
            heading@ == plan_heading(),
            forall|k: int| 0 <= k < i ==> !is_plan_heading(#[trigger] all[k]),
        decreases ls@.len() - i,
    {
        i += 1;
    }
    proof {
        lemma_plan_start(all, i as int);
        lemma_lines_len(content@);
    }
    if i >= ls.len() {
        assert(forest_of(tasks@) == parse_plan(content@));
        return tasks;
    }
    let start: usize = i + 1;
    let ghost after = all.skip(start as int);
    let mut j: usize = start;
    assert(after.take(0) =~= Seq::<Seq<char>>::empty());
    while j < ls.len() && !is_closing_line(ls[j], mark.as_slice())
        invariant
            start <= j <= ls@.len(),
            line_views(ls@) == all,
            after == all.skip(start as int),
            mark@ == heading_mark(),
            checked@ == checked_mark(),
            unchecked@ == unchecked_mark(),
            forall|k: int| 0 <= k < j - start ==> !closes_plan(#[trigger] after[k]),
            forest_of(tasks@) == forest_of_lines(after.take(j - start)),
        decreases ls@.len() - j,
    {
        let ghost before = tasks@;
        let ghost seen = after.take(j - start);
        proof {
            assert(after.take(j + 1 - start).drop_last() == seen);
            assert(after.take(j + 1 - start).last() == ls@[j as int]@);
        }
        match read_task_line(ls[j], checked.as_slice(), unchecked.as_slice()) {
            Some((top_level, node)) => {
                if top_level {
                    proof {
                        lemma_forest_of_push(before, node);
                    }
                    tasks.push(node);
                } else if tasks.len() > 0 {
                    let mut parent = tasks.pop().unwrap();
                    proof {
                        lemma_forest_of(before);
                        lemma_forest_of_push(parent.children@, node);
                        lemma_forest_of_push(before.drop_last(), parent);
                        assert(before.drop_last().push(parent) == before);
                    }
                    parent.children.push(node);
                    proof {
                        lemma_forest_of_push(before.drop_last(), parent);
                    }
                    tasks.push(parent);
                    assert(forest_of(tasks@) =~= attach(forest_of(before), task_line(
                        ls@[j as int]@,
                    )->0));
                } else {
                    proof {
                        lemma_forest_of(before);
                    }
                }
            },
            None => {},
        }
        j += 1;
    }
    proof {
        lemma_plan_length(after, j - start);
        lemma_forest_of_lines(plan_window(all));
        assert(plan_window(all).len() <= all.len());
    }
    tasks
}

} // verus!
