//! The way back from a forest of tasks to the text of a plan, and the proof
//! that the parser reads its own writing: a forest that was parsed, written
//! out and parsed again is the forest that it was.

use crate::plan::{
    attach, checked_mark, closes_plan, forest_of_lines, heading_mark, is_plan_heading, leaf,
    lemma_plan_length, lemma_plan_start, parse_plan, plan_heading, plan_length, plan_start,
    plan_window, task_line, unchecked_mark, TaskLine,
};
use crate::task::{forest_of, lemma_forest_of, TaskNode, TaskTree};
use crate::text::{
    find_char, is_trimmed, is_whitespace, lacks, leading_whitespace, lemma_find_char,
    lemma_first_occurrence, lemma_leading_whitespace, lemma_lines_lack_newline, lemma_trim,
    lemma_trim_of_trimmed, lines, starts_with, strip_cr, trim,
};
use vstd::prelude::*;

verus! {

// ---------------------------------------------------------------------------
// Writing
// ---------------------------------------------------------------------------

/// The checkbox marker of a task.
pub open spec fn mark_of(checked: bool) -> Seq<char> {
    if checked {
        checked_mark()
    } else {
        unchecked_mark()
    }
}

/// The indentation of a child's line.
pub open spec fn child_indent() -> Seq<char> {
    seq![' ', ' ']
}

/// The line of a task: its indentation, its marker, its id, a colon and,
/// behind a space, its description if it has one.
pub open spec fn task_text(t: TaskTree, indent: Seq<char>) -> Seq<char> {
    indent + mark_of(t.checked) + t.id + seq![':'] + (if t.description.len() > 0 {
        seq![' '] + t.description
    } else {
        Seq::empty()
    })
}

/// The lines of the children `kids`, in their order.
pub open spec fn children_lines(kids: Seq<TaskTree>) -> Seq<Seq<char>>
    decreases kids.len(),
{
    if kids.len() == 0 {
        Seq::empty()
    } else {
        children_lines(kids.drop_last()).push(task_text(kids.last(), child_indent()))
    }
}

/// The lines of the forest `f`: the line of each top-level task, followed by
/// the lines of its children.
pub open spec fn forest_lines(f: Seq<TaskTree>) -> Seq<Seq<char>>
    decreases f.len(),
{
    if f.len() == 0 {
        Seq::empty()
    } else {
        forest_lines(f.drop_last()).push(task_text(f.last(), Seq::empty())) + children_lines(
            f.last().children,
        )
    }
}

/// The lines `ls`, each with a line feed behind it.
pub open spec fn text_of_lines(ls: Seq<Seq<char>>) -> Seq<char>
    decreases ls.len(),
{
    if ls.len() == 0 {
        Seq::empty()
    } else {
        ls[0] + seq!['\n'] + text_of_lines(ls.drop_first())
    }
}

/// The text of a plan with the tasks `f`: the plan heading and the lines of
/// the tasks.
pub open spec fn plan_text(f: Seq<TaskTree>) -> Seq<char> {
    text_of_lines(seq![plan_heading()] + forest_lines(f))
}

// ---------------------------------------------------------------------------
// What can be read again
// ---------------------------------------------------------------------------

/// Whether `s` can stand in a line as it is: it holds no line feed and
/// neither begins nor ends with whitespace.
pub open spec fn is_clean(s: Seq<char>) -> bool {
    is_trimmed(s) && lacks(s, '\n')
}

/// Whether the id and the description of `t` can be read again as they are:
/// both are clean, and the id holds no colon.
pub open spec fn readable_fields(t: TaskTree) -> bool {
    is_clean(t.id) && lacks(t.id, ':') && is_clean(t.description)
}

/// Whether the forest `f` can be read again as it is: it has two levels, and
/// the fields of every task and child can be read again.
pub open spec fn readable(f: Seq<TaskTree>) -> bool {
    forall|i: int|
        0 <= i < f.len() ==> readable_fields(#[trigger] f[i]) && forall|j: int|
            0 <= j < f[i].children.len() ==> readable_fields(#[trigger] f[i].children[j])
                && f[i].children[j].children.len() == 0
}

/// What the line of `t` states.
pub open spec fn stated(t: TaskTree, top_level: bool) -> TaskLine {
    TaskLine { top_level, id: t.id, description: t.description, checked: t.checked }
}

/// The forest `start` after the lines `ls` were read on top of it.
pub open spec fn read_on(start: Seq<TaskTree>, ls: Seq<Seq<char>>) -> Seq<TaskTree>
    decreases ls.len(),
{
    if ls.len() == 0 {
        start
    } else {
        let before = read_on(start, ls.drop_last());
        match task_line(ls.last()) {
            Some(t) => attach(before, t),
            None => before,
        }
    }
}

/// What the two markers and the headings are made of.
pub proof fn lemma_marks()
    ensures
        checked_mark() == seq!['-', ' ', '[', 'x', ']', ' '],
        unchecked_mark() == seq!['-', ' ', '[', ' ', ']', ' '],
        heading_mark() == seq!['#', ' '],
        plan_heading().len() == 21,
        plan_heading()[0] == '#',
        plan_heading()[20] == 'n',
        lacks(plan_heading(), '\n'),
{
    reveal_strlit("- [x] ");
    reveal_strlit("- [ ] ");
    reveal_strlit("# ");
    reveal_strlit("# Implementation Plan");
    assert(checked_mark() =~= seq!['-', ' ', '[', 'x', ']', ' ']);
    assert(unchecked_mark() =~= seq!['-', ' ', '[', ' ', ']', ' ']);
    assert(heading_mark() =~= seq!['#', ' ']);
}

/// What stands behind the colon of a task's line.
pub open spec fn tail_of(t: TaskTree) -> Seq<char> {
    if t.description.len() > 0 {
        seq![' '] + t.description
    } else {
        Seq::empty()
    }
}

/// The line of a task without its indentation.
pub open spec fn body_of_task(t: TaskTree) -> Seq<char> {
    mark_of(t.checked) + t.id + seq![':'] + tail_of(t)
}

/// The line of a task without its indentation is trimmed and holds no line
/// feed.
proof fn lemma_body_shape(t: TaskTree)
    requires
        readable_fields(t),
    ensures
        body_of_task(t).len() >= 7,
        body_of_task(t)[0] == '-',
        is_trimmed(body_of_task(t)),
        body_of_task(t).last() != '\r',
        lacks(body_of_task(t), '\n'),
{
    lemma_marks();
    let mark = mark_of(t.checked);
    let tail = tail_of(t);
    let body = body_of_task(t);
    let colon = 6 + t.id.len() as int;
    assert(mark.len() == 6);
    assert(body[0] == mark[0]);
    assert(body[colon] == ':');
    assert(is_whitespace('\r') && is_whitespace('\n'));
    if t.description.len() > 0 {
        assert(body.last() == t.description.last());
    } else {
        assert(body.last() == body[colon]);
    }
    assert forall|k: int| 0 <= k < body.len() implies #[trigger] body[k] != '\n' by {
        if k < 6 {
            assert(body[k] == mark[k]);
        } else if k < colon {
            assert(body[k] == t.id[k - 6]);
        } else if k == colon {
        } else {
            assert(body[k] == tail[k - colon - 1]);
            if k - colon - 1 > 0 {
                assert(tail[k - colon - 1] == t.description[k - colon - 2]);
            }
        }
    }
}

/// The line of a task, trimmed, is the line without its indentation.
proof fn lemma_line_shape(t: TaskTree, indent: Seq<char>)
    requires
        readable_fields(t),
        indent == Seq::<char>::empty() || indent == child_indent(),
    ensures
        task_text(t, indent) == indent + body_of_task(t),
        trim(task_text(t, indent)) == body_of_task(t),
        leading_whitespace(task_text(t, indent)) == indent.len(),
        lacks(task_text(t, indent), '\n'),
        task_text(t, indent).len() > 0,
        task_text(t, indent).last() != '\r',
{
    lemma_body_shape(t);
    let body = body_of_task(t);
    let line = task_text(t, indent);
    let n = indent.len() as int;
    assert(line =~= indent + body);
    assert(is_whitespace(' '));
    assert forall|k: int| 0 <= k < n implies is_whitespace(#[trigger] line[k]) by {
        assert(line[k] == indent[k]);
    }
    assert(line[n] == body[0]);
    lemma_leading_whitespace(line, n);
    assert(line.skip(n) =~= body);
    lemma_trim_of_trimmed(body);
    assert(line.last() == body.last());
    assert forall|k: int| 0 <= k < line.len() implies #[trigger] line[k] != '\n' by {
        if k < n {
            assert(line[k] == indent[k]);
        } else {
            assert(line[k] == body[k - n]);
        }
    }
}

/// The line of a task without its indentation begins with the marker of
/// the task, and id and description are read from it as they are.
proof fn lemma_body_fields(t: TaskTree)
    requires
        readable_fields(t),
    ensures
        starts_with(body_of_task(t), mark_of(t.checked)),
        starts_with(body_of_task(t), checked_mark()) == t.checked,
        !starts_with(body_of_task(t), heading_mark()),
        body_of_task(t) != plan_heading(),
        find_char(body_of_task(t).skip(6), ':') == t.id.len(),
        t.id.len() < body_of_task(t).skip(6).len(),
        trim(body_of_task(t).skip(6).take(t.id.len() as int)) == t.id,
        trim(body_of_task(t).skip(6).skip(t.id.len() as int + 1)) == t.description,
{
    lemma_marks();
    lemma_body_shape(t);
    let mark = mark_of(t.checked);
    let tail = tail_of(t);
    let body = body_of_task(t);
    assert(body.take(6) =~= mark);
    assert(body.take(6)[3] == mark[3]);
    assert(body.take(2)[0] == '-');
    let rest = body.skip(6);
    assert(rest =~= t.id + seq![':'] + tail);
    let colon = t.id.len() as int;
    assert forall|k: int| 0 <= k < colon implies #[trigger] rest[k] != ':' by {
        assert(rest[k] == t.id[k]);
    }
    assert(rest[colon] == ':');
    lemma_find_char(rest, ':', colon);
    assert(rest.take(colon) =~= t.id);
    assert(rest.skip(colon + 1) =~= tail);
    lemma_trim_of_trimmed(t.id);
    if t.description.len() > 0 {
        assert(is_whitespace(' '));
        assert(tail[0] == ' ');
        assert(tail[1] == t.description[0]);
        assert forall|k: int| 0 <= k < 1 implies is_whitespace(#[trigger] tail[k]) by {}
        lemma_leading_whitespace(tail, 1);
        assert(tail.skip(1) =~= t.description);
        lemma_trim_of_trimmed(t.description);
        assert(crate::text::trim_end(t.description) == t.description);
    } else {
        lemma_trim_of_trimmed(tail);
    }
}

/// The line of a task states the task, holds no line feed, ends with no
/// carriage return and does not end the plan.
pub proof fn lemma_task_text(t: TaskTree, indent: Seq<char>)
    requires
        readable_fields(t),
        indent == Seq::<char>::empty() || indent == child_indent(),
    ensures
        task_line(task_text(t, indent)) == Some(stated(t, indent.len() == 0)),
        lacks(task_text(t, indent), '\n'),
        task_text(t, indent).len() > 0,
        task_text(t, indent).last() != '\r',
        !closes_plan(task_text(t, indent)),
        !is_plan_heading(task_text(t, indent)),
{
    lemma_line_shape(t, indent);
    lemma_body_fields(t);
}

/// Lines that hold no line feed and end with no carriage return are the
/// lines of their text.
pub proof fn lemma_lines_of_text(ls: Seq<Seq<char>>)
    requires
        forall|i: int|
            0 <= i < ls.len() ==> lacks(#[trigger] ls[i], '\n') && (ls[i].len() > 0 ==> ls[i].last()
                != '\r'),
    ensures
        lines(text_of_lines(ls)) == ls,
    decreases ls.len(),
{
    if ls.len() > 0 {
        let first = ls[0];
        let rest = ls.drop_first();
        let text = text_of_lines(ls);
        let n = first.len() as int;
        assert forall|i: int| 0 <= i < rest.len() implies lacks(#[trigger] rest[i], '\n') && (
        rest[i].len() > 0 ==> rest[i].last() != '\r') by {
            assert(rest[i] == ls[i + 1]);
        }
        lemma_lines_of_text(rest);
        assert forall|k: int| 0 <= k < n implies #[trigger] text[k] != '\n' by {
            assert(text[k] == first[k]);
        }
        assert(text[n] == '\n');
        lemma_find_char(text, '\n', n);
        assert(text.take(n) =~= first);
        assert(text.skip(n + 1) =~= text_of_lines(rest));
        assert(strip_cr(first) == first);
        assert(lines(text) =~= seq![first] + rest);
        assert(seq![first] + rest =~= ls);
    }
}

/// Reading lines one after the other is reading them on top of what was
/// read before.
pub proof fn lemma_read_on(a: Seq<Seq<char>>, b: Seq<Seq<char>>)
    ensures
        forest_of_lines(a + b) == read_on(forest_of_lines(a), b),
    decreases b.len(),
{
    if b.len() == 0 {
        assert(a + b =~= a);
    } else {
        lemma_read_on(a, b.drop_last());
        assert((a + b).drop_last() =~= a + b.drop_last());
        assert((a + b).last() == b.last());
    }
}

/// The lines of children, read on top of a forest, become the children of
/// its last task.
pub proof fn lemma_read_children(f: Seq<TaskTree>, kids: Seq<TaskTree>)
    requires
        f.len() > 0,
        forall|j: int|
            0 <= j < kids.len() ==> readable_fields(#[trigger] kids[j]) && kids[j].children.len()
                == 0,
    ensures
        read_on(f, children_lines(kids)) == f.update(
            f.len() - 1,
            TaskTree {
                id: f.last().id,
                description: f.last().description,
                checked: f.last().checked,
                children: f.last().children + kids,
            },
        ),
    decreases kids.len(),
{
    let parent = f.last();
    if kids.len() == 0 {
        assert(parent.children + kids =~= parent.children);
        assert(f.update(f.len() - 1, parent) =~= f);
    } else {
        let before = kids.drop_last();
        let kid = kids.last();
        assert forall|j: int| 0 <= j < before.len() implies readable_fields(#[trigger] before[j])
            && before[j].children.len() == 0 by {
            assert(before[j] == kids[j]);
        }
        lemma_read_children(f, before);
        lemma_task_text(kid, child_indent());
        let ls = children_lines(kids);
        assert(ls.drop_last() =~= children_lines(before));
        assert(ls.last() == task_text(kid, child_indent()));
        let read = read_on(f, children_lines(before));
        assert(leaf(stated(kid, false)) == kid) by {
            assert(kid.children =~= Seq::<TaskTree>::empty());
        }
        assert((parent.children + before).push(kid) =~= parent.children + kids);
        assert(read_on(f, ls) =~= attach(read, stated(kid, false)));
    }
}

/// The lines of a forest that can be read again are read as that forest.
pub proof fn lemma_read_forest_lines(f: Seq<TaskTree>)
    requires
        readable(f),
    ensures
        forest_of_lines(forest_lines(f)) == f,
        forall|k: int|
            0 <= k < forest_lines(f).len() ==> lacks(#[trigger] forest_lines(f)[k], '\n')
                && forest_lines(f)[k].len() > 0 && forest_lines(f)[k].last() != '\r'
                && !closes_plan(forest_lines(f)[k]),
    decreases f.len(),
{
    if f.len() > 0 {
        let before = f.drop_last();
        let t = f.last();
        assert forall|i: int| 0 <= i < before.len() implies readable_fields(#[trigger] before[i])
            && forall|j: int|
            0 <= j < before[i].children.len() ==> readable_fields(#[trigger] before[i].children[j])
                && before[i].children[j].children.len() == 0 by {
            assert(before[i] == f[i]);
        }
        lemma_read_forest_lines(before);
        lemma_task_text(t, Seq::empty());
        let head = forest_lines(before).push(task_text(t, Seq::empty()));
        let kids = children_lines(t.children);
        assert(forest_lines(f) == head + kids);
        lemma_read_on(head, kids);
        assert(head.drop_last() =~= forest_lines(before));
        let top = leaf(stated(t, true));
        assert(forest_of_lines(head) == before.push(top));
        assert forall|j: int| 0 <= j < t.children.len() implies readable_fields(
            #[trigger] t.children[j],
        ) && t.children[j].children.len() == 0 by {
            assert(f[f.len() - 1] == t);
        }
        lemma_read_children(before.push(top), t.children);
        assert(top.children + t.children =~= t.children);
        assert(forest_of_lines(forest_lines(f)) =~= f);
        lemma_children_lines(t.children);
        assert forall|k: int| 0 <= k < forest_lines(f).len() implies lacks(
            #[trigger] forest_lines(f)[k],
            '\n',
        ) && forest_lines(f)[k].len() > 0 && forest_lines(f)[k].last() != '\r' && !closes_plan(
            forest_lines(f)[k],
        ) by {
            if k < forest_lines(before).len() {
                assert(forest_lines(f)[k] == forest_lines(before)[k]);
            } else if k < head.len() {
                assert(forest_lines(f)[k] == task_text(t, Seq::empty()));
            } else {
                assert(forest_lines(f)[k] == kids[k - head.len()]);
            }
        }
    }
}

/// The lines of children hold no line feed, end with no carriage return and
/// do not end the plan.
pub proof fn lemma_children_lines(kids: Seq<TaskTree>)
    requires
        forall|j: int| 0 <= j < kids.len() ==> readable_fields(#[trigger] kids[j]),
    ensures
        children_lines(kids).len() == kids.len(),
        forall|k: int|
            0 <= k < kids.len() ==> lacks(#[trigger] children_lines(kids)[k], '\n')
                && children_lines(kids)[k].len() > 0 && children_lines(kids)[k].last() != '\r'
                && !closes_plan(children_lines(kids)[k]),
    decreases kids.len(),
{
    if kids.len() > 0 {
        let before = kids.drop_last();
        assert forall|j: int| 0 <= j < before.len() implies readable_fields(#[trigger] before[j]) by {
            assert(before[j] == kids[j]);
        }
        lemma_children_lines(before);
        lemma_task_text(kids.last(), child_indent());
        assert forall|k: int| 0 <= k < kids.len() implies lacks(
            #[trigger] children_lines(kids)[k],
            '\n',
        ) && children_lines(kids)[k].len() > 0 && children_lines(kids)[k].last() != '\r'
            && !closes_plan(children_lines(kids)[k]) by {
            if k < before.len() {
                assert(children_lines(kids)[k] == children_lines(before)[k]);
            }
        }
    }
}

/// The text of a plan is read as the forest that it was written from.
pub proof fn lemma_parse_written(f: Seq<TaskTree>)
    requires
        readable(f),
    ensures
        parse_plan(plan_text(f)) == f,
{
    lemma_marks();
    let heading = plan_heading();
    let body = forest_lines(f);
    let all = seq![heading] + body;
    lemma_read_forest_lines(f);
    assert(is_whitespace('\n') && is_whitespace('\r'));
    assert(is_trimmed(heading));
    lemma_trim_of_trimmed(heading);
    assert(lacks(heading, '\n'));
    assert forall|i: int| 0 <= i < all.len() implies lacks(#[trigger] all[i], '\n') && (
    all[i].len() > 0 ==> all[i].last() != '\r') by {
        if i > 0 {
            assert(all[i] == body[i - 1]);
        }
    }
    lemma_lines_of_text(all);
    assert(is_plan_heading(all[0]));
    lemma_plan_start(all, 0);
    assert(all.skip(1) =~= body);
    lemma_plan_length(body, body.len() as int);
    assert(body.take(body.len() as int) =~= body);
    assert(plan_window(all) == body);
}

/// What a line states can be read again.
pub proof fn lemma_stated_readable(line: Seq<char>)
    requires
        lacks(line, '\n'),
        task_line(line) is Some,
    ensures
        readable_fields(leaf(task_line(line)->0)),
{
    lemma_marks();
    let t = trim(line);
    lemma_trim(line);
    assert(t.len() >= 6);
    let rest = t.skip(6);
    let colon = find_char(rest, ':');
    lemma_first_occurrence(rest, ':');
    let id_part = rest.take(colon);
    let text_part = rest.skip(colon + 1);
    assert(lacks(rest, '\n')) by {
        assert forall|k: int| 0 <= k < rest.len() implies #[trigger] rest[k] != '\n' by {
            assert(rest[k] == t[k + 6]);
        }
    }
    assert(lacks(id_part, '\n') && lacks(id_part, ':')) by {
        assert forall|k: int| 0 <= k < id_part.len() implies #[trigger] id_part[k] != '\n'
            && id_part[k] != ':' by {
            assert(id_part[k] == rest[k]);
        }
    }
    assert(lacks(text_part, '\n')) by {
        assert forall|k: int| 0 <= k < text_part.len() implies #[trigger] text_part[k] != '\n' by {
            assert(text_part[k] == rest[k + colon + 1]);
        }
    }
    lemma_trim(id_part);
    lemma_trim(text_part);
}

/// Reading lines leaves a forest that can be read again one that can.
pub proof fn lemma_forest_of_lines_readable(ls: Seq<Seq<char>>)
    requires
        forall|i: int| 0 <= i < ls.len() ==> lacks(#[trigger] ls[i], '\n'),
    ensures
        readable(forest_of_lines(ls)),
    decreases ls.len(),
{
    if ls.len() > 0 {
        let before = ls.drop_last();
        assert forall|i: int| 0 <= i < before.len() implies lacks(#[trigger] before[i], '\n') by {
            assert(before[i] == ls[i]);
        }
        lemma_forest_of_lines_readable(before);
        let f = forest_of_lines(before);
        match task_line(ls.last()) {
            Some(t) => {
                lemma_stated_readable(ls.last());
                let g = attach(f, t);
                assert forall|i: int| 0 <= i < g.len() implies readable_fields(#[trigger] g[i])
                    && forall|j: int|
                    0 <= j < g[i].children.len() ==> readable_fields(#[trigger] g[i].children[j])
                        && g[i].children[j].children.len() == 0 by {
                    if i < f.len() {
                        assert(readable_fields(f[i]));
                        assert forall|j: int| 0 <= j < g[i].children.len() implies readable_fields(
                            #[trigger] g[i].children[j],
                        ) && g[i].children[j].children.len() == 0 by {
                            if j < f[i].children.len() {
                                assert(g[i].children[j] == f[i].children[j]);
                            }
                        }
                    }
                }
            },
            None => {},
        }
    }
}

/// Whatever the text, the forest parsed from it can be read again.
pub proof fn lemma_parsed_readable(content: Seq<char>)
    ensures
        readable(parse_plan(content)),
{
    let all = lines(content);
    lemma_lines_lack_newline(content);
    let window = plan_window(all);
    let start = plan_start(all);
    if 0 <= start < all.len() {
        let after = all.skip(start + 1);
        lemma_plan_length_bounds(after);
        assert forall|i: int| 0 <= i < window.len() implies lacks(#[trigger] window[i], '\n') by {
            assert(window[i] == all[start + 1 + i]);
        }
    }
    lemma_forest_of_lines_readable(window);
}

/// The plan is no longer than the lines at hand.
pub proof fn lemma_plan_length_bounds(ls: Seq<Seq<char>>)
    ensures
        0 <= plan_length(ls) <= ls.len(),
    decreases ls.len(),
{
    if !(ls.len() == 0 || closes_plan(ls[0])) {
        lemma_plan_length_bounds(ls.drop_first());
    }
}

/// Parsing is idempotent: the forest parsed from a text, written out as a
/// plan and parsed again, is the same forest.
pub proof fn lemma_parse_round_trip(content: Seq<char>)
    ensures
        parse_plan(plan_text(parse_plan(content))) == parse_plan(content),
{
    lemma_parsed_readable(content);
    lemma_parse_written(parse_plan(content));
}

/// The text of lines with one more line is the text of the lines with
/// that line and a line feed behind it.
pub proof fn lemma_text_of_lines_push(ls: Seq<Seq<char>>, line: Seq<char>)
    ensures
        text_of_lines(ls.push(line)) == text_of_lines(ls) + line + seq!['\n'],
    decreases ls.len(),
{
    let all = ls.push(line);
    if ls.len() == 0 {
        assert(all.drop_first() =~= Seq::<Seq<char>>::empty());
        assert(text_of_lines(all.drop_first()) =~= Seq::<char>::empty());
        assert(all[0] == line);
        assert(text_of_lines(all) =~= line + seq!['\n']);
        assert(text_of_lines(ls) + line + seq!['\n'] =~= line + seq!['\n']);
    } else {
        lemma_text_of_lines_push(ls.drop_first(), line);
        assert(all.drop_first() =~= ls.drop_first().push(line));
        assert(text_of_lines(all) =~= text_of_lines(ls) + line + seq!['\n']);
    }
}

/// Adds the line of the task `task` to `text`.
fn push_task_line(text: &mut String, task: &TaskNode, child: bool)
    ensures
        final(text)@ == old(text)@ + task_text(
            task@,
            if child {
                child_indent()
            } else {
                Seq::empty()
            },
        ) + seq!['\n'],
{
    if child {
        text.push(' ');
        text.push(' ');
    }
    if task.checked {
        text.append("- [x] ");
    } else {
        text.append("- [ ] ");
    }
    text.append(task.id.as_str());
    text.push(':');
    if !task.description.as_str().is_empty() {
        text.push(' ');
        text.append(task.description.as_str());
    }
    text.push('\n');
    assert(text@ =~= old(text)@ + task_text(
        task@,
        if child {
            child_indent()
        } else {
            Seq::empty()
        },
    ) + seq!['\n']);
}

/// Writes the tasks `tasks` out as the text of a plan: the plan heading,
/// then one line for each task and, indented, for each of its children.
/// Children of children are not written.
pub fn write_plan(tasks: &[TaskNode]) -> (text: String)
    ensures
        text@ == plan_text(forest_of(tasks@)),
{
    let ghost f = forest_of(tasks@);
    let ghost heading = seq![plan_heading()];
    let mut text = String::from_str("# Implementation Plan");
    text.push('\n');
    proof {
        lemma_forest_of(tasks@);
        lemma_text_of_lines_push(Seq::empty(), plan_heading());
        assert(Seq::<Seq<char>>::empty().push(plan_heading()) =~= heading);
        assert(f.take(0) =~= Seq::<TaskTree>::empty());
        assert(heading + forest_lines(f.take(0)) =~= heading);
        assert(text@ =~= text_of_lines(heading));
    }
    let mut i: usize = 0;
    while i < tasks.len()
        invariant
            i <= tasks@.len(),
            f == forest_of(tasks@),
            f.len() == tasks@.len(),
            forall|k: int| 0 <= k < tasks@.len() ==> #[trigger] f[k] == tasks@[k]@,
            heading == seq![plan_heading()],
            text@ == text_of_lines(heading + forest_lines(f.take(i as int))),
        decreases tasks@.len() - i,
    {
        let task = &tasks[i];
        let ghost before = heading + forest_lines(f.take(i as int));
        let ghost top = before.push(task_text(task@, Seq::empty()));
        let ghost kids = forest_of(task.children@);
        proof {
            lemma_text_of_lines_push(before, task_text(task@, Seq::empty()));
            lemma_forest_of(task.children@);
            assert(kids.take(0) =~= Seq::<TaskTree>::empty());
            assert(top + children_lines(kids.take(0)) =~= top);
        }
        push_task_line(&mut text, task, false);
        let mut j: usize = 0;
        while j < task.children.len()
            invariant
                j <= task.children@.len(),
                kids == forest_of(task.children@),
                kids.len() == task.children@.len(),
                forall|k: int| 0 <= k < kids.len() ==> #[trigger] kids[k] == task.children@[k]@,
                text@ == text_of_lines(top + children_lines(kids.take(j as int))),
            decreases task.children@.len() - j,
        {
            let child = &task.children[j];
            proof {
                let done = top + children_lines(kids.take(j as int));
                lemma_text_of_lines_push(done, task_text(child@, child_indent()));
                assert(kids.take(j + 1).drop_last() =~= kids.take(j as int));
                assert(kids.take(j + 1).last() == child@);
                assert(done.push(task_text(child@, child_indent())) =~= top + children_lines(
                    kids.take(j + 1),
                ));
            }
            push_task_line(&mut text, child, true);
            j += 1;
        }
        proof {
            assert(kids.take(j as int) =~= kids);
            assert(f.take(i + 1).drop_last() =~= f.take(i as int));
            assert(f.take(i + 1).last() == task@);
            assert(task@.children == kids);
            assert(top + children_lines(kids) =~= heading + forest_lines(f.take(i + 1)));
        }
        i += 1;
    }
    assert(f.take(i as int) =~= f);
    text
}

} // verus!
