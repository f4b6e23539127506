use tinyspec::dashboard::Mode;
use tinyspec::plan::parse_tasks;
use tinyspec::render::{
    check_icon, child_progress, children_done, filled_cells, help_line, row_counts, row_name,
    status_icon, task_arrow, BAR_WIDTH,
};
use tinyspec::status::SpecStatus;

#[test]
fn bar_cells_are_the_rounded_share() {
    assert_eq!(filled_cells(0, 0, 10), 0);
    assert_eq!(filled_cells(0, 5, 10), 0);
    assert_eq!(filled_cells(5, 5, 10), 10);
    assert_eq!(filled_cells(3, 7, 10), 4);
    assert_eq!(filled_cells(1, 3, 10), 3);
    assert_eq!(filled_cells(2, 3, 10), 7);
    assert_eq!(filled_cells(1, 4, 10), 3);
    assert_eq!(filled_cells(1, 20, 10), 1);
    assert_eq!(filled_cells(1, 21, 10), 0);
    assert_eq!(filled_cells(u32::MAX, u32::MAX, u32::MAX), u32::MAX);
    assert_eq!(filled_cells(1, u32::MAX, 10), 0);
    for total in 1..40u32 {
        for checked in 0..=total {
            let by_float = (checked as f64 / total as f64 * BAR_WIDTH as f64).round() as u32;
            assert_eq!(filled_cells(checked, total, BAR_WIDTH), by_float, "{}/{}", checked, total);
        }
    }
}

#[test]
fn glyphs_of_rows() {
    assert_eq!(status_icon(SpecStatus::InProgress), '●');
    assert_eq!(status_icon(SpecStatus::Pending), '○');
    assert_eq!(status_icon(SpecStatus::Completed), '✓');
    assert_eq!(check_icon(true), '✓');
    assert_eq!(check_icon(false), '☐');
}

#[test]
fn arrows_and_counts_of_top_level_tasks() {
    let tasks = parse_tasks(
        "# Implementation Plan\n- [ ] A: x\n  - [x] A.1: y\n  - [ ] A.2: y\n  - [x] A.3: y\n- [x] B: z\n",
    );
    assert_eq!(task_arrow(&tasks[0], true), '▼');
    assert_eq!(task_arrow(&tasks[0], false), '▶');
    assert_eq!(task_arrow(&tasks[1], true), ' ');
    assert_eq!(task_arrow(&tasks[1], false), ' ');
    assert_eq!(children_done(&tasks[0]), 2);
    assert_eq!(children_done(&tasks[1]), 0);
    assert_eq!(child_progress(&tasks[0]), "  [2/3]");
    assert_eq!(child_progress(&tasks[1]), "");
}

#[test]
fn texts_of_rows() {
    assert_eq!(row_name("hello-world"), format!("{:<28}", "hello-world"));
    assert_eq!(row_name("a-name-that-is-longer-than-the-column"), "a-name-that-is-longer-than-the-column");
    assert_eq!(row_counts(3, 7), "  3/7");
    assert_eq!(row_counts(0, 0), "  0/0");
    assert_eq!(help_line(Mode::List), " ↑↓/jk navigate  Enter detail  q quit");
    assert_eq!(help_line(Mode::Detail), " ↑↓/jk navigate  Enter toggle  Esc back  q quit");
}
