//! What the commands compute: the text of a document after a task was
//! checked or unchecked, the lines that report progress, and the answers to
//! the questions that a command asks.

use crate::plan::{checked_mark, unchecked_mark};
use crate::summary::SpecSummary;
use crate::text::{
    chars_of, chars_start_with, decimal, decimal_string, find_sub, find_sub_in, join_lines,
    line_views, lines, push_chars, split_lines, starts_with, trim, trim_chars,
};
use vstd::prelude::*;
use vstd::slice::slice_subrange;

verus! {

// ---------------------------------------------------------------------------
// Checking and unchecking a task
// ---------------------------------------------------------------------------

/// The marker of the lines that can be changed: the unchecked one for
/// checking, the checked one for unchecking.
pub open spec fn mark_before(check: bool) -> Seq<char> {
    if check {
        unchecked_mark()
    } else {
        checked_mark()
    }
}

/// The marker that the changed line gets.
pub open spec fn mark_after(check: bool) -> Seq<char> {
    if check {
        checked_mark()
    } else {
        unchecked_mark()
    }
}

/// Whether `line` is a line of the task `task_id` that can be changed: once
/// trimmed, it is the marker followed by the id and a colon.
pub open spec fn is_task_line(line: Seq<char>, task_id: Seq<char>, check: bool) -> bool {
    let t = trim(line);
    starts_with(t, mark_before(check)) && starts_with(t.skip(6), task_id.push(':'))
}

/// The position of the first line of `ls` that is a line of the task and can
/// be changed, or the number of lines where there is none.
pub open spec fn task_line_position(ls: Seq<Seq<char>>, task_id: Seq<char>, check: bool) -> int
    decreases ls.len(),
{
    if ls.len() == 0 || is_task_line(ls[0], task_id, check) {
        0
    } else {
        1 + task_line_position(ls.drop_first(), task_id, check)
    }
}

/// `line` with the first marker in it exchanged for the other one.
pub open spec fn switched(line: Seq<char>, check: bool) -> Seq<char> {
    let at = find_sub(line, mark_before(check));
    line.take(at) + mark_after(check) + line.skip(at + 6)
}

/// The text `content` with the task `task_id` checked (`check`) or
/// unchecked: the first line of the task that can be changed has its marker
/// exchanged, and the lines are put together again with line feeds, the text
/// ending with one if it did before. `None` where no line of the task can be
/// changed.
pub open spec fn with_task_set(content: Seq<char>, task_id: Seq<char>, check: bool) -> Option<
    Seq<char>,
> {
    let ls = lines(content);
    let at = task_line_position(ls, task_id, check);
    if 0 <= at < ls.len() {
        let text = join_lines(ls.update(at, switched(ls[at], check)));
        if content.len() > 0 && content.last() == '\n' {
            Some(text.push('\n'))
        } else {
            Some(text)
        }
    } else {
        None
    }
}

/// The message for a task of which no line can be changed.
pub open spec fn no_task_message(name: Seq<char>, task_id: Seq<char>, check: bool) -> Seq<char> {
    (if check {
        "No unchecked task '"@
    } else {
        "No checked task '"@
    }) + task_id + "' found in spec '"@ + name + "'"@
}

/// The message for a task that was checked or unchecked.
pub open spec fn task_set_message(task_id: Seq<char>, check: bool) -> Seq<char> {
    (if check {
        "Checked task "@
    } else {
        "Unchecked task "@
    }) + task_id
}

/// `task_line_position` is the least position of a line of that kind.
pub proof fn lemma_task_line_position(
    ls: Seq<Seq<char>>,
    task_id: Seq<char>,
    check: bool,
    n: int,
)
    requires
        0 <= n <= ls.len(),
        forall|k: int| 0 <= k < n ==> !is_task_line(#[trigger] ls[k], task_id, check),
        n < ls.len() ==> is_task_line(ls[n], task_id, check),
    ensures
        task_line_position(ls, task_id, check) == n,
    decreases n,
{
    if n > 0 {
        let r = ls.drop_first();
        assert(!is_task_line(ls[0], task_id, check));
        assert forall|k: int| 0 <= k < n - 1 implies !is_task_line(
            #[trigger] r[k],
            task_id,
            check,
        ) by {
            assert(r[k] == ls[k + 1]);
        }
        lemma_task_line_position(r, task_id, check, n - 1);
    }
}

/// Whether `line` is, once trimmed, the marker `mark` followed by `target`.
fn holds_task(line: &[char], mark: &[char], target: &[char]) -> (r: bool)
    requires
        mark@.len() == 6,
    ensures
        r == (starts_with(trim(line@), mark@) && starts_with(trim(line@).skip(6), target@)),
{
    let trimmed = trim_chars(line);
    if chars_start_with(trimmed, mark) {
        chars_start_with(slice_subrange(trimmed, 6, trimmed.len()), target)
    } else {
        false
    }
}

/// Checks or unchecks the task `task_id` in the text `content` of the
/// document `name`. Returns the new text, or the message that the document
/// has no such task to check or uncheck.
pub fn check_task(name: &str, content: &str, task_id: &str, check: bool) -> (result: Result<
    String,
    String,
>)
    ensures
        match result {
            Ok(text) => with_task_set(content@, task_id@, check) == Some(text@),
            Err(message) => with_task_set(content@, task_id@, check) is None && message@
                == no_task_message(name@, task_id@, check),
        },
{
    proof {
        reveal_strlit("- [x] ");
        reveal_strlit("- [ ] ");
    }
    let held = chars_of(content);
    let ls = split_lines(held.as_slice());
    let before = if check {
        chars_of("- [ ] ")
    } else {
        chars_of("- [x] ")
    };
    let after = if check {
        chars_of("- [x] ")
    } else {
        chars_of("- [ ] ")
    };
    let mut target = chars_of(task_id);
    target.push(':');
    let ghost all = lines(content@);
    let mut at: usize = 0;
    while at < ls.len() && !holds_task(ls[at], before.as_slice(), target.as_slice())
        invariant
            at <= ls@.len(),
            line_views(ls@) == all,
            before@ == mark_before(check),
            before@.len() == 6,
            target@ == task_id@.push(':'),
            forall|k: int| 0 <= k < at ==> !is_task_line(#[trigger] all[k], task_id@, check),
        decreases ls@.len() - at,
    {
        at += 1;
    }
    proof {
        lemma_task_line_position(all, task_id@, check, at as int);
    }
    if at >= ls.len() {
        let mut message = if check {
            String::from_str("No unchecked task '")
        } else {
            String::from_str("No checked task '")
        };
        message.append(task_id);
        message.append("' found in spec '");
        message.append(name);
        message.append("'");
        return Err(message);
    }
    let line = ls[at];
    let mark: usize = find_sub_in(line, before.as_slice());
    proof {
        lemma_mark_found(line@, before@);
    }
    let tail: usize = line.len() - mark - 6;
    let ghost changed = all.update(at as int, switched(all[at as int], check));
    let mut text = String::new();
    let mut k: usize = 0;
    assert(changed.take(0) =~= Seq::<Seq<char>>::empty());
    while k < ls.len()
        invariant
            k <= ls@.len(),
            at < ls@.len(),
            line_views(ls@) == all,
            changed == all.update(at as int, switched(all[at as int], check)),
            line == ls@[at as int],
            mark == find_sub(line@, mark_before(check)),
            mark + 6 + tail == line@.len(),
            after@ == mark_after(check),
            text@ == join_lines(changed.take(k as int)),
        decreases ls@.len() - k,
    {
        let ghost so_far = text@;
        if k > 0 {
            text.push('\n');
        }
        if k == at {
            push_chars(&mut text, slice_subrange(line, 0, mark));
            push_chars(&mut text, after.as_slice());
            push_chars(&mut text, slice_subrange(line, line.len() - tail, line.len()));
        } else {
            push_chars(&mut text, ls[k]);
        }
        proof {
            let upto = changed.take(k + 1);
            assert(upto.drop_last() =~= changed.take(k as int));
            assert(upto.last() == changed[k as int]);
            if k == at {
                assert(changed[k as int] =~= line@.take(mark as int) + after@ + line@.skip(
                    mark + 6,
                ));
            } else {
                assert(changed[k as int] == ls@[k as int]@);
            }
            if k == 0 {
                assert(upto.len() == 1);
                assert(so_far =~= Seq::<char>::empty());
                assert(text@ =~= upto[0]);
            } else {
                assert(text@ =~= so_far + seq!['\n'] + upto.last());
            }
        }
        k += 1;
    }
    assert(changed.take(k as int) =~= changed);
    if held.len() > 0 && held[held.len() - 1] == '\n' {
        text.push('\n');
    }
    Ok(text)
}

/// A line whose trimmed text starts with a marker holds the marker.
proof fn lemma_mark_found(line: Seq<char>, mark: Seq<char>)
    requires
        mark.len() == 6,
        starts_with(trim(line), mark),
    ensures
        0 <= find_sub(line, mark),
        find_sub(line, mark) + 6 <= line.len(),
{
    crate::text::lemma_whitespace_bounds(line);
    let n = crate::text::leading_whitespace(line) as int;
    let start = line.skip(n);
    crate::text::lemma_whitespace_bounds(start);
    let t = trim(line);
    assert(t == start.take(start.len() - crate::text::trailing_whitespace(start)));
    assert(starts_with(line.skip(n), mark)) by {
        assert(start.take(6) =~= t.take(6));
    }
    lemma_occurrence(line, mark, n);
}

/// Where a pattern occurs, the search finds an occurrence at or before it.
proof fn lemma_occurrence(s: Seq<char>, p: Seq<char>, n: int)
    requires
        p.len() > 0,
        0 <= n <= s.len(),
        starts_with(s.skip(n), p),
    ensures
        0 <= find_sub(s, p) <= n,
        find_sub(s, p) + p.len() <= s.len(),
    decreases n,
{
    assert(s.skip(0) == s);
    if !(s.len() == 0 || starts_with(s, p)) {
        assert(n > 0);
        assert(s.drop_first().skip(n - 1) == s.skip(n));
        lemma_occurrence(s.drop_first(), p, n - 1);
    }
}

/// The message that a task was checked or unchecked.
pub fn task_message(task_id: &str, check: bool) -> (message: String)
    ensures
        message@ == task_set_message(task_id@, check),
{
    let mut message = if check {
        String::from_str("Checked task ")
    } else {
        String::from_str("Unchecked task ")
    };
    message.append(task_id);
    message
}

// ---------------------------------------------------------------------------
// Progress
// ---------------------------------------------------------------------------

/// The line that reports the progress of a document:
/// `name: checked/total tasks complete`.
pub open spec fn progress_line(name: Seq<char>, checked: u32, total: u32) -> Seq<char> {
    name + ": "@ + decimal(checked as nat) + "/"@ + decimal(total as nat) + " tasks complete"@
}

/// The line that reports the progress of the document `summary`.
pub fn status_line(summary: &SpecSummary) -> (line: String)
    ensures
        line@ == progress_line(summary@.name, summary@.checked, summary@.total),
{
    let mut line = summary.name.clone();
    line.append(": ");
    line.append(decimal_string(summary.checked as u64).as_str());
    line.append("/");
    line.append(decimal_string(summary.total as u64).as_str());
    line.append(" tasks complete");
    line
}

/// What the line adds to the number of checkboxes, and to the number of
/// checked ones.
pub open spec fn checkbox_of(line: Seq<char>) -> (nat, nat) {
    let t = trim(line);
    if starts_with(t, unchecked_mark()) {
        (1, 0)
    } else if starts_with(t, checked_mark()) {
        (1, 1)
    } else {
        (0, 0)
    }
}

/// The number of checkboxes in the lines `ls`, and the number of checked
/// ones.
pub open spec fn checkboxes(ls: Seq<Seq<char>>) -> (nat, nat)
    decreases ls.len(),
{
    if ls.len() == 0 {
        (0, 0)
    } else {
        let before = checkboxes(ls.drop_last());
        let here = checkbox_of(ls.last());
        (before.0 + here.0, before.1 + here.1)
    }
}

/// Counts the checkbox lines of a whole text, wherever they stand: the
/// number of all of them, and the number of the checked ones.
pub fn count_checkboxes(content: &str) -> (counts: (u64, u64))
    ensures
        counts.0 == checkboxes(lines(content@)).0,
        counts.1 == checkboxes(lines(content@)).1,
        counts.1 <= counts.0,
{
    let held = chars_of(content);
    let ls = split_lines(held.as_slice());
    let unchecked = chars_of("- [ ] ");
    let checked_box = chars_of("- [x] ");
    let ghost all = lines(content@);
    let mut total: u64 = 0;
    let mut checked: u64 = 0;
    let mut k: usize = 0;
    assert(all.take(0) =~= Seq::<Seq<char>>::empty());
    while k < ls.len()
        invariant
            k <= ls@.len(),
            line_views(ls@) == all,
            unchecked@ == unchecked_mark(),
            checked_box@ == checked_mark(),
            total == checkboxes(all.take(k as int)).0,
            checked == checkboxes(all.take(k as int)).1,
            checked <= total <= k,
        decreases ls@.len() - k,
    {
        proof {
            assert(all.take(k + 1).drop_last() =~= all.take(k as int));
            assert(all.take(k + 1).last() == ls@[k as int]@);
        }
        let trimmed = trim_chars(ls[k]);
        if chars_start_with(trimmed, unchecked.as_slice()) {
            total += 1;
        } else if chars_start_with(trimmed, checked_box.as_slice()) {
            total += 1;
            checked += 1;
        }
        k += 1;
    }
    assert(all.take(k as int) =~= all);
    (total, checked)
}

/// Whether the answer `input` to a question confirms: it is, once trimmed,
/// the letter `y` in either case.
pub open spec fn confirms(input: Seq<char>) -> bool {
    trim(input) == seq!['y'] || trim(input) == seq!['Y']
}

/// Whether the answer `input` confirms.
pub fn is_confirmed(input: &str) -> (yes: bool)
    ensures
        yes == confirms(input@),
{
    let held = chars_of(input);
    let trimmed = trim_chars(held.as_slice());
    if trimmed.len() == 1 {
        let c = trimmed[0];
        assert(trimmed@ =~= seq![c]);
        c == 'y' || c == 'Y'
    } else {
        false
    }
}

} // verus!
