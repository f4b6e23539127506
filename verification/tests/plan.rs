use tinyspec::plan::parse_tasks;
use tinyspec::status::SpecStatus;
use tinyspec::summary::load_spec_summary;
use tinyspec::task::count_tasks;
use tinyspec::writer::write_plan;

const PLAN: &str = "# Implementation Plan\n";

fn plan(body: &str) -> String {
    format!("{}{}", PLAN, body)
}

#[test]
fn end_to_end_two_top_level_tasks() {
    let text = plan("- [ ] A: x\n  - [x] A.1: y\n  - [ ] A.2: z\n- [x] B: w");
    let tasks = parse_tasks(&text);
    assert_eq!(tasks.len(), 2);
    assert_eq!(tasks[0].id, "A");
    assert_eq!(tasks[0].description, "x");
    assert!(!tasks[0].checked);
    assert_eq!(tasks[0].children.len(), 2);
    assert_eq!(tasks[0].children[0].id, "A.1");
    assert_eq!(tasks[0].children[0].description, "y");
    assert!(tasks[0].children[0].checked);
    assert_eq!(tasks[0].children[1].id, "A.2");
    assert!(!tasks[0].children[1].checked);
    assert_eq!(tasks[1].id, "B");
    assert_eq!(tasks[1].description, "w");
    assert!(tasks[1].checked);
    assert!(tasks[1].children.is_empty());

    let summary =
        load_spec_summary("2025-02-17-09-36-hello-world.md", None, None, &text).unwrap();
    assert_eq!(summary.total, 4);
    assert_eq!(summary.checked, 2);
    assert_eq!(summary.status, SpecStatus::InProgress);
}

#[test]
fn text_without_plan_heading_has_no_tasks() {
    assert!(parse_tasks("").is_empty());
    assert!(parse_tasks("- [ ] A: not in a plan\n").is_empty());
    assert!(parse_tasks("# Implementation Plans\n- [ ] A: x\n").is_empty());
    assert!(parse_tasks("## Implementation Plan\n- [ ] A: x\n").is_empty());
}

#[test]
fn heading_is_matched_after_trimming() {
    let tasks = parse_tasks("   # Implementation Plan  \r\n- [x] A: x\r\n");
    assert_eq!(tasks.len(), 1);
    assert_eq!(tasks[0].id, "A");
    assert_eq!(tasks[0].description, "x");
}

#[test]
fn lines_outside_the_window_are_ignored() {
    let text = "- [ ] Z: before\n# Implementation Plan\n- [ ] A: in\n# Test Plan\n- [ ] T: after\n";
    let tasks = parse_tasks(text);
    assert_eq!(tasks.len(), 1);
    assert_eq!(tasks[0].id, "A");
}

#[test]
fn only_a_top_level_heading_closes_the_window() {
    let text = plan("- [ ] A: one\n## Notes\n#hash\n- [ ] B: two\n  # Next\n- [ ] C: three\n");
    let tasks = parse_tasks(&text);
    assert_eq!(tasks.len(), 2);
    assert_eq!(tasks[1].id, "B");
}

#[test]
fn the_plan_heading_again_closes_the_window() {
    let text = plan("- [ ] A: one\n# Implementation Plan\n- [ ] B: two\n");
    let tasks = parse_tasks(&text);
    assert_eq!(tasks.len(), 1);
    assert_eq!(tasks[0].id, "A");
    assert!(parse_tasks("# Implementation Plan\n# Implementation Plan\n- [ ] B: b\n").is_empty());
    assert!(parse_tasks("# Implementation Plan\n  # Implementation Plan  \n- [ ] B: b\n").is_empty());
}

#[test]
fn lines_that_are_no_task_lines_are_passed_over() {
    let text = plan("\nprose\n- A: no box\n* [ ] B: star\n- [X] C: capital\n- [ ] no colon\n-[ ] D: x\n- [ ]E: x\n- [x] F: kept\n");
    let tasks = parse_tasks(&text);
    assert_eq!(tasks.len(), 1);
    assert_eq!(tasks[0].id, "F");
    assert!(tasks[0].checked);
}

#[test]
fn id_ends_at_the_first_colon() {
    let tasks = parse_tasks(&plan("- [ ]  A.1 :  see https://example.org: now  \n"));
    assert_eq!(tasks.len(), 1);
    assert_eq!(tasks[0].id, "A.1");
    assert_eq!(tasks[0].description, "see https://example.org: now");
}

#[test]
fn id_may_be_any_symbol() {
    let tasks = parse_tasks(&plan("- [ ] \u{1F9EA}: Testing\n    - [x] \u{1F9EA}.1: Unit\n"));
    assert_eq!(tasks.len(), 1);
    assert_eq!(tasks[0].id, "\u{1F9EA}");
    assert_eq!(tasks[0].children.len(), 1);
    assert_eq!(tasks[0].children[0].id, "\u{1F9EA}.1");
    assert!(tasks[0].children[0].checked);
}

#[test]
fn deeper_indentation_is_flattened_under_the_same_parent() {
    let text = plan("- [ ] A: a\n  - [ ] A.1: b\n      - [x] A.1.1: c\n\t- [ ] A.2: d\n- [ ] B: e\n");
    let tasks = parse_tasks(&text);
    assert_eq!(tasks.len(), 2);
    assert_eq!(tasks[0].children.len(), 3);
    assert_eq!(tasks[0].children[1].id, "A.1.1");
    assert!(tasks[0].children[1].children.is_empty());
    assert_eq!(tasks[0].children[2].id, "A.2");
    assert!(tasks[1].children.is_empty());
}

#[test]
fn indented_task_before_any_top_level_task_is_dropped() {
    let tasks = parse_tasks(&plan("  - [x] A.1: orphan\n- [ ] B: top\n  - [ ] B.1: child\n"));
    assert_eq!(tasks.len(), 1);
    assert_eq!(tasks[0].id, "B");
    assert_eq!(tasks[0].children.len(), 1);
    let (total, checked) = count_tasks(&tasks);
    assert_eq!((total, checked), (2, 0));
}

#[test]
fn same_id_twice_gives_two_nodes() {
    let tasks = parse_tasks(&plan("- [ ] A: first\n- [x] A: second\n"));
    assert_eq!(tasks.len(), 2);
    assert_eq!(tasks[0].description, "first");
    assert_eq!(tasks[1].description, "second");
}

#[test]
fn parsing_twice_gives_the_same_forest() {
    let text = plan("- [ ] A: x\n  - [x] A.1: y\n- [x] B: w\n");
    let a = parse_tasks(&text);
    let b = parse_tasks(&text);
    assert_eq!(format!("{:?}", a), format!("{:?}", b));
}

#[test]
fn counts_are_one_per_task_and_child() {
    let text = plan("- [x] A: x\n  - [x] A.1: y\n  - [ ] A.2: z\n- [ ] B: w\n  - [x] B.1: v\n- [x] C: u\n");
    let tasks = parse_tasks(&text);
    let (total, checked) = count_tasks(&tasks);
    assert_eq!(total, 6);
    assert_eq!(checked, 4);
    assert!(checked <= total);
    let by_hand: usize = tasks.iter().map(|t| 1 + t.children.len()).sum();
    assert_eq!(total as usize, by_hand);
    assert_eq!(count_tasks(&[]), (0, 0));
}

#[test]
fn a_plan_is_written_line_by_line() {
    let tasks = parse_tasks(&plan("- [ ] A:   x  \n\t- [x] A.1: y\n        - [ ] A.2:\n- [x] B : w\n- [ ] :\n"));
    assert_eq!(
        write_plan(&tasks),
        "# Implementation Plan\n- [ ] A: x\n  - [x] A.1: y\n  - [ ] A.2:\n- [x] B: w\n- [ ] :\n"
    );
    assert_eq!(write_plan(&[]), "# Implementation Plan\n");
}

#[test]
fn parsing_what_was_written_gives_the_same_forest() {
    let texts = [
        String::new(),
        plan(""),
        plan("- [ ] A: x\n  - [x] A.1: y\n  - [ ] A.2: z\n- [x] B: w"),
        plan("  - [ ] orphan: x\n- [ ] \u{1F9EA}: a: b: c\n      - [x] deep : d\r\n- [x] : \n- [ ] x\ry:z\n"),
        "intro\n  # Implementation Plan\n- [x] only: one\n# Other\n- [ ] not: read\n".to_string(),
        plan("- [ ] A: # not a heading\n- [ ] B: - [x] C: nested marker\n"),
    ];
    for text in texts {
        let first = parse_tasks(&text);
        let written = write_plan(&first);
        let second = parse_tasks(&written);
        assert_eq!(format!("{:?}", first), format!("{:?}", second), "{:?}", text);
        assert_eq!(write_plan(&second), written);
    }
}
