//! What the dashboard shows, as far as it is counted and chosen rather than
//! drawn: the glyphs of a row, the filled part of a progress bar, the count
//! of a task's children that are done, and the lines of title and help.

use crate::dashboard::Mode;
use crate::status::SpecStatus;
use crate::task::{checked_among, forest_of, lemma_forest_of, TaskNode};
use crate::text::{decimal, decimal_string, pad_right, padded};
use vstd::prelude::*;

verus! {

/// The width of a progress bar in cells.
pub const BAR_WIDTH: u32 = 10;

/// The width to which a document's name is filled up in its row.
pub const NAME_WIDTH: usize = 28;

/// The number of filled cells of a progress bar of `width` cells for
/// `checked` of `total` tasks: `checked / total * width`, rounded to the
/// nearest whole number, a half upwards. No cell is filled where there are
/// no tasks.
pub open spec fn filled(checked: int, total: int, width: int) -> int {
    if total > 0 {
        (2 * checked * width + total) / (2 * total)
    } else {
        0
    }
}

/// The filled cells are at most all cells.
pub proof fn lemma_filled_bounds(checked: int, total: int, width: int)
    requires
        0 <= checked <= total,
        0 <= width,
    ensures
        0 <= filled(checked, total, width) <= width,
        total > 0 && checked == total ==> filled(checked, total, width) == width,
        checked == 0 ==> filled(checked, total, width) == 0,
{
    if total > 0 {
        assert(0 <= 2 * checked * width <= 2 * total * width) by (nonlinear_arith)
            requires
                0 <= checked <= total,
                0 <= width,
        ;
        assert((2 * checked * width + total) / (2 * total) <= width) by (nonlinear_arith)
            requires
                0 <= 2 * checked * width <= 2 * total * width,
                total > 0,
        ;
        assert((2 * checked * width + total) / (2 * total) >= 0) by (nonlinear_arith)
            requires
                0 <= 2 * checked * width,
                total > 0,
        ;
        if checked == total {
            assert((2 * total * width + total) / (2 * total) == width) by (nonlinear_arith)
                requires
                    total > 0,
                    width >= 0,
            ;
        }
        if checked == 0 {
            assert(2 * checked * width == 0) by (nonlinear_arith)
                requires
                    checked == 0,
            ;
            assert(total / (2 * total) == 0) by (nonlinear_arith)
                requires
                    total > 0,
            ;
        }
    }
}

/// The number of filled cells of a progress bar of `width` cells.
pub fn filled_cells(checked: u32, total: u32, width: u32) -> (cells: u32)
    requires
        checked <= total,
    ensures
        cells == filled(checked as int, total as int, width as int),
        cells <= width,
{
    if total == 0 {
        return 0;
    }
    proof {
        lemma_filled_bounds(checked as int, total as int, width as int);
        assert(0 <= (checked as int) * (width as int) <= 0xffff_ffff * 0xffff_ffff)
            by (nonlinear_arith)
            requires
                0 <= checked <= 0xffff_ffff,
                0 <= width <= 0xffff_ffff,
        ;
    }
    let product: u128 = (checked as u128) * (width as u128);
    let cells: u128 = (2 * product + total as u128) / (2 * (total as u128));
    assert(cells == filled(checked as int, total as int, width as int)) by {
        assert(2 * product == 2 * (checked as int) * (width as int)) by (nonlinear_arith)
            requires
                product == (checked as int) * (width as int),
        ;
    }
    cells as u32
}

/// The glyph of a status: a filled circle for a document in progress, a
/// hollow one for a pending document, a check mark for a completed one.
pub open spec fn status_glyph(status: SpecStatus) -> char {
    match status {
        SpecStatus::InProgress => '\u{25CF}',
        SpecStatus::Pending => '\u{25CB}',
        SpecStatus::Completed => '\u{2713}',
    }
}

/// The glyph of a status.
pub fn status_icon(status: SpecStatus) -> (glyph: char)
    ensures
        glyph == status_glyph(status),
{
    match status {
        SpecStatus::InProgress => '\u{25CF}',
        SpecStatus::Pending => '\u{25CB}',
        SpecStatus::Completed => '\u{2713}',
    }
}

/// The glyph of a checkbox: a check mark for a checked task, an empty box
/// for an unchecked one.
pub open spec fn box_glyph(checked: bool) -> char {
    if checked {
        '\u{2713}'
    } else {
        '\u{2610}'
    }
}

/// The glyph of a checkbox.
pub fn check_icon(checked: bool) -> (glyph: char)
    ensures
        glyph == box_glyph(checked),
{
    if checked {
        '\u{2713}'
    } else {
        '\u{2610}'
    }
}

/// The arrow before a top-level task: none for a task without children, one
/// that points down for an expanded task, one that points right for a
/// collapsed one.
pub open spec fn arrow_glyph(children: nat, expanded: bool) -> char {
    if children == 0 {
        ' '
    } else if expanded {
        '\u{25BC}'
    } else {
        '\u{25B6}'
    }
}

/// The arrow before the top-level task `task`.
pub fn task_arrow(task: &TaskNode, expanded: bool) -> (glyph: char)
    ensures
        glyph == arrow_glyph(task@.children.len(), expanded),
{
    proof {
        lemma_forest_of(task.children@);
    }
    if task.children.len() == 0 {
        ' '
    } else if expanded {
        '\u{25BC}'
    } else {
        '\u{25B6}'
    }
}

/// The number of children of `task` that are checked. Children of children
/// do not count.
pub fn children_done(task: &TaskNode) -> (done: usize)
    ensures
        done == checked_among(task@.children),
        done <= task@.children.len(),
{
    let ghost kids = forest_of(task.children@);
    proof {
        lemma_forest_of(task.children@);
    }
    let mut done: usize = 0;
    let mut j: usize = 0;
    while j < task.children.len()
        invariant
            j <= task.children@.len(),
            kids == forest_of(task.children@),
            kids.len() == task.children@.len(),
            forall|k: int| 0 <= k < kids.len() ==> (#[trigger] kids[k]).checked == task.children@[k].checked,
            done == checked_among(kids.take(j as int)),
            done <= j,
        decreases task.children@.len() - j,
    {
        proof {
            assert(kids.take(j + 1).drop_last() == kids.take(j as int));
            assert(kids.take(j + 1).last() == kids[j as int]);
        }
        if task.children[j].checked {
            done += 1;
        }
        j += 1;
    }
    assert(kids.take(j as int) == kids);
    done
}

/// The count shown behind a top-level task: `[done/all]` of its children
/// behind two spaces, or nothing for a task without children.
pub open spec fn child_count_text(done: nat, all: nat) -> Seq<char> {
    if all == 0 {
        Seq::empty()
    } else {
        "  ["@ + decimal(done) + "/"@ + decimal(all) + "]"@
    }
}

/// The count shown behind the top-level task `task`.
pub fn child_progress(task: &TaskNode) -> (text: String)
    ensures
        text@ == child_count_text(checked_among(task@.children), task@.children.len()),
{
    proof {
        lemma_forest_of(task.children@);
    }
    let all: usize = task.children.len();
    if all == 0 {
        return String::new();
    }
    let done: usize = children_done(task);
    let mut text = String::from_str("  [");
    text.append(decimal_string(done as u64).as_str());
    text.append("/");
    text.append(decimal_string(all as u64).as_str());
    text.append("]");
    text
}

/// The name of a document as its row shows it: filled up to the width of
/// the name column.
pub fn row_name(name: &str) -> (text: String)
    ensures
        text@ == padded(name@, NAME_WIDTH as nat),
{
    pad_right(name, NAME_WIDTH)
}

/// The counts behind a progress bar: `checked/total` behind two spaces.
pub open spec fn counts_text(checked: u32, total: u32) -> Seq<char> {
    "  "@ + decimal(checked as nat) + "/"@ + decimal(total as nat)
}

/// The counts behind a progress bar.
pub fn row_counts(checked: u32, total: u32) -> (text: String)
    ensures
        text@ == counts_text(checked, total),
{
    let mut text = String::from_str("  ");
    text.append(decimal_string(checked as u64).as_str());
    text.append("/");
    text.append(decimal_string(total as u64).as_str());
    text
}

/// The line of help for a mode.
pub open spec fn help_text(mode: Mode) -> Seq<char> {
    match mode {
        Mode::List => " \u{2191}\u{2193}/jk navigate  Enter detail  q quit"@,
        Mode::Detail => " \u{2191}\u{2193}/jk navigate  Enter toggle  Esc back  q quit"@,
    }
}

/// The line of help for the mode `mode`.
pub fn help_line(mode: Mode) -> (text: String)
    ensures
        text@ == help_text(mode),
{
    match mode {
        Mode::List => String::from_str(" \u{2191}\u{2193}/jk navigate  Enter detail  q quit"),
        Mode::Detail => String::from_str(
            " \u{2191}\u{2193}/jk navigate  Enter toggle  Esc back  q quit",
        ),
    }
}

} // verus!
