use tinyspec::plan::parse_tasks;
use tinyspec::status::SpecStatus;
use tinyspec::summary::{extract_spec_name, extract_timestamp, load_spec_summary, plan_fits};
use tinyspec::task::{count_tasks, counts_fit, TaskNode};

#[test]
fn parse_tasks_from_plan() {
    let content = "\
# Background

Some background.

# Implementation Plan

- [ ] A: First task
  - [x] A.1: Subtask one
  - [ ] A.2: Subtask two
- [x] B: Second task

# Test Plan
";
    let tasks = parse_tasks(content);
    assert_eq!(tasks.len(), 2);
    assert_eq!(tasks[0].id, "A");
    assert!(!tasks[0].checked);
    assert_eq!(tasks[0].children.len(), 2);
    assert!(tasks[0].children[0].checked);
    assert!(!tasks[0].children[1].checked);
    assert_eq!(tasks[1].id, "B");
    assert!(tasks[1].checked);
}

#[test]
fn count_tasks_correctly() {
    let tasks = vec![
        TaskNode {
            id: "A".into(),
            description: "Task A".into(),
            checked: false,
            children: vec![
                TaskNode {
                    id: "A.1".into(),
                    description: "Sub".into(),
                    checked: true,
                    children: vec![],
                },
                TaskNode {
                    id: "A.2".into(),
                    description: "Sub".into(),
                    checked: false,
                    children: vec![],
                },
            ],
        },
        TaskNode {
            id: "B".into(),
            description: "Task B".into(),
            checked: true,
            children: vec![],
        },
    ];
    let (total, checked) = count_tasks(&tasks);
    assert_eq!(total, 4);
    assert_eq!(checked, 2);
}

#[test]
fn status_sort_order() {
    assert!(SpecStatus::InProgress < SpecStatus::Pending);
    assert!(SpecStatus::Pending < SpecStatus::Completed);
}

#[test]
fn extract_timestamp_from_filename() {
    assert_eq!(
        extract_timestamp("2026-02-17-21-27-dashboard.md"),
        "2026-02-17 21:27"
    );
    assert_eq!(
        extract_timestamp("2025-01-05-09-00-hello-world.md"),
        "2025-01-05 09:00"
    );
    assert_eq!(extract_timestamp("short.md"), "");
}

#[test]
fn status_is_a_function_of_the_counts() {
    assert_eq!(SpecStatus::from_counts(0, 0), SpecStatus::Pending);
    assert_eq!(SpecStatus::from_counts(3, 7), SpecStatus::InProgress);
    assert_eq!(SpecStatus::from_counts(7, 7), SpecStatus::Completed);
    assert_eq!(SpecStatus::from_counts(0, 5), SpecStatus::Pending);
    assert_eq!(SpecStatus::from_counts(1, 1), SpecStatus::Completed);
    assert_eq!(SpecStatus::from_counts(1, 2), SpecStatus::InProgress);
    assert_eq!(SpecStatus::from_counts(3, 2), SpecStatus::Pending);
}

#[test]
fn status_sort_keys() {
    assert_eq!(SpecStatus::InProgress.sort_key(), 0);
    assert_eq!(SpecStatus::Pending.sort_key(), 1);
    assert_eq!(SpecStatus::Completed.sort_key(), 2);
    assert!(SpecStatus::InProgress < SpecStatus::Completed);
    assert!(!(SpecStatus::Completed < SpecStatus::Completed));
    assert!(SpecStatus::Completed > SpecStatus::Pending);
    assert!(SpecStatus::Completed.is_completed());
    assert!(!SpecStatus::Pending.is_completed());
}

#[test]
fn spec_name_is_what_follows_the_timestamp() {
    assert_eq!(extract_spec_name("2025-02-17-09-36-hello-world.md"), Some("hello-world"));
    assert_eq!(extract_spec_name("2025-02-17-09-36-a.md"), Some("a"));
    assert_eq!(extract_spec_name("2025-02-17-09-36-.md"), None);
    assert_eq!(extract_spec_name("2025-02-17-09-36-hello-world.txt"), None);
    assert_eq!(extract_spec_name("short.md"), None);
    assert_eq!(extract_spec_name(""), None);
    assert_eq!(extract_spec_name("2025-02-17-09-36-\u{1F680}.md"), Some("\u{1F680}"));
}

#[test]
fn timestamp_needs_sixteen_characters() {
    assert_eq!(extract_timestamp("2026-02-17-21-27"), "2026-02-17 21:27");
    assert_eq!(extract_timestamp("2026-02-17-21-2"), "");
    assert_eq!(extract_timestamp(""), "");
}

#[test]
fn summary_takes_title_from_front_matter_or_name() {
    let text = "# Implementation Plan\n- [x] A: done\n";
    let s = load_spec_summary("2025-02-17-09-36-hello-world.md", Some("v1"), Some("Hello World"), text)
        .unwrap();
    assert_eq!(s.name, "hello-world");
    assert_eq!(s.title, "Hello World");
    assert_eq!(s.group.as_deref(), Some("v1"));
    assert_eq!(s.timestamp, "2025-02-17 09:36");
    assert_eq!((s.total, s.checked), (1, 1));
    assert_eq!(s.status, SpecStatus::Completed);
    assert_eq!(s.tasks.len(), 1);

    let s = load_spec_summary("2025-02-17-09-36-hello-world.md", None, None, "no plan").unwrap();
    assert_eq!(s.title, "hello-world");
    assert_eq!(s.group, None);
    assert_eq!((s.total, s.checked), (0, 0));
    assert_eq!(s.status, SpecStatus::Pending);

    assert!(load_spec_summary("notes.md", None, None, text).is_none());
    assert!(load_spec_summary("2025-02-17-09-36-hello-world.txt", None, None, text).is_none());
}

#[test]
fn plans_that_can_be_counted() {
    assert!(plan_fits(""));
    assert!(plan_fits("# Implementation Plan\n- [ ] A: x\n  - [x] A.1: y\n"));
    assert!(counts_fit(&[]));
    let task = TaskNode {
        id: "A".into(),
        description: String::new(),
        checked: false,
        children: Vec::new(),
    };
    assert!(counts_fit(&[task]));
}

#[test]
fn a_long_text_with_few_tasks_is_summarized() {
    let mut text = String::from("# Implementation Plan\n- [x] A: x\n# Notes\n");
    text.push_str(&"filler line\n".repeat(50_000));
    let s = load_spec_summary("2025-02-17-09-36-long.md", None, None, &text).unwrap();
    assert_eq!((s.total, s.checked), (1, 1));
    assert_eq!(s.status, SpecStatus::Completed);
}
