use std::collections::{BTreeMap, HashMap};

use tinyspec::commands::check_task;
use tinyspec::format::split_front_matter;
use tinyspec::listing::{arrange_listing, ListFile};
use tinyspec::plan::parse_tasks;
use tinyspec::task::{count_tasks, TaskNode};
use tinyspec::templates::substitute_variables;
use tinyspec::text::{replace_all, split_lines, str_less, trim_chars};
use tinyspec::writer::write_plan;

/// A small generator of texts over the characters that matter.
struct Texts {
    state: u64,
}

impl Texts {
    fn next(&mut self) -> u64 {
        self.state = self.state.wrapping_mul(6364136223846793005).wrapping_add(1442695040888963407);
        self.state >> 33
    }

    fn below(&mut self, n: u64) -> u64 {
        self.next() % n
    }

    fn text(&mut self, pieces: &[&str], max: u64) -> String {
        let n = self.below(max + 1);
        let mut s = String::new();
        for _ in 0..n {
            s.push_str(pieces[self.below(pieces.len() as u64) as usize]);
        }
        s
    }
}

const PLAN_PIECES: &[&str] = &[
    "\n", "\n", "\r\n", " ", "  ", "\t", "- [ ] ", "- [x] ", "- [X] ", "# ", "# Implementation Plan",
    "# Implementation Plan\n", "A", "B.1", ":", ": ", "x", "\u{1F680}", "\u{00A0}", "-", "[", "##",
];

const LINE_STARTS: &[&str] = &["", "", "", "  ", "\t", "    ", "\u{00A0}", " "];
const LINE_MARKS: &[&str] = &["- [ ] ", "- [x] ", "- [ ] ", "- [x] ", "- [X] ", "-[ ] ", "# ", ""];
const LINE_IDS: &[&str] = &["A", "A", "B.1", "", "x", "A:", " A ", "\u{1F680}"];
const LINE_ENDS: &[&str] = &[":", ": ", ": text", ":a:b", "", " : spaced", ": - [ ] in", ":\r"];

impl Texts {
    /// A text of lines, most of which look like lines of a plan.
    fn plan(&mut self, max: u64) -> String {
        let mut s = String::new();
        if self.below(2) == 0 {
            s.push_str("# Implementation Plan\n");
        }
        let n = self.below(max + 1);
        for _ in 0..n {
            match self.below(8) {
                0 => s.push_str("# Implementation Plan"),
                1 => s.push_str(&self.text(PLAN_PIECES, 6)),
                _ => {
                    for part in [LINE_STARTS, LINE_MARKS, LINE_IDS, LINE_ENDS] {
                        s.push_str(part[self.below(part.len() as u64) as usize]);
                    }
                }
            }
            s.push_str(["\n", "\n", "\n", "\r\n", ""][self.below(5) as usize]);
        }
        s
    }
}

fn plain_parse(content: &str) -> Vec<(String, String, bool, Vec<(String, String, bool)>)> {
    let mut in_plan = false;
    let mut tasks: Vec<(String, String, bool, Vec<(String, String, bool)>)> = Vec::new();
    for line in content.lines() {
        let trimmed = line.trim();
        if in_plan && trimmed.starts_with("# ") {
            break;
        }
        if trimmed == "# Implementation Plan" {
            in_plan = true;
            continue;
        }
        if !in_plan {
            continue;
        }
        let (checked, rest) = if let Some(rest) = trimmed.strip_prefix("- [x] ") {
            (true, rest)
        } else if let Some(rest) = trimmed.strip_prefix("- [ ] ") {
            (false, rest)
        } else {
            continue;
        };
        let Some(colon) = rest.find(':') else {
            continue;
        };
        let id = rest[..colon].trim().to_string();
        let description = rest[colon + 1..].trim().to_string();
        if line.len() == line.trim_start().len() {
            tasks.push((id, description, checked, Vec::new()));
        } else if let Some(parent) = tasks.last_mut() {
            parent.3.push((id, description, checked));
        }
    }
    tasks
}

fn shape(tasks: &[TaskNode]) -> Vec<(String, String, bool, Vec<(String, String, bool)>)> {
    tasks
        .iter()
        .map(|t| {
            assert!(t.children.iter().all(|c| c.children.is_empty()));
            (
                t.id.clone(),
                t.description.clone(),
                t.checked,
                t.children
                    .iter()
                    .map(|c| (c.id.clone(), c.description.clone(), c.checked))
                    .collect(),
            )
        })
        .collect()
}

#[test]
fn parsing_agrees_with_a_plain_reading_of_the_lines() {
    let mut texts = Texts { state: 1 };
    let mut with_tasks = 0;
    for _ in 0..4000 {
        let content = texts.plan(8);
        let tasks = parse_tasks(&content);
        let expected = plain_parse(&content);
        assert_eq!(shape(&tasks), expected, "{:?}", content);
        if !tasks.is_empty() {
            with_tasks += 1;
        }
        let (total, checked) = count_tasks(&tasks);
        let all: usize = expected.iter().map(|t| 1 + t.3.len()).sum();
        let done: usize = expected
            .iter()
            .map(|t| t.2 as usize + t.3.iter().filter(|c| c.2).count())
            .sum();
        assert_eq!((total as usize, checked as usize), (all, done));
        let again = parse_tasks(&write_plan(&tasks));
        assert_eq!(shape(&again), expected, "{:?}", content);
    }
    assert!(with_tasks > 100);
}

fn plain_check(content: &str, task_id: &str, check: bool) -> Option<String> {
    let target = format!("{task_id}:");
    let (from, to) = if check { ("- [ ] ", "- [x] ") } else { ("- [x] ", "- [ ] ") };
    let mut found = false;
    let mut lines: Vec<String> = content.lines().map(String::from).collect();
    for line in &mut lines {
        let hit = match line.trim().strip_prefix(from) {
            Some(after) => after.starts_with(&target),
            None => false,
        };
        if hit {
            *line = line.replacen(from, to, 1);
            found = true;
            break;
        }
    }
    if !found {
        return None;
    }
    let mut output = lines.join("\n");
    if content.ends_with('\n') {
        output.push('\n');
    }
    Some(output)
}

#[test]
fn checking_agrees_with_a_plain_reading_of_the_lines() {
    let mut texts = Texts { state: 2 };
    let mut changed = 0;
    for round in 0..4000 {
        let content = texts.plan(6);
        let id = ["A", "B.1", "", "x", "A:"][round % 5];
        for check in [true, false] {
            let ours = check_task("doc", &content, id, check).ok();
            let expected = plain_check(&content, id, check);
            assert_eq!(ours, expected, "{:?} {:?} {}", content, id, check);
            if ours.is_some() {
                changed += 1;
            }
        }
    }
    assert!(changed > 100);
}

fn plain_name(chars: &[char], start: usize, close1: char, close2: char) -> Option<(String, usize)> {
    let mut j = start;
    let len = chars.len();
    while j < len && (chars[j].is_alphanumeric() || chars[j] == '_') {
        j += 1;
    }
    if j == start {
        return None;
    }
    if close2 != '\0' {
        if j + 1 < len && chars[j] == close1 && chars[j + 1] == close2 {
            return Some((chars[start..j].iter().collect(), j + 2));
        }
    } else if j < len && chars[j] == close1 {
        return Some((chars[start..j].iter().collect(), j + 1));
    }
    None
}

fn plain_substitute(content: &str, vars: &HashMap<&str, &str>) -> String {
    let mut result = String::new();
    let chars: Vec<char> = content.chars().collect();
    let len = chars.len();
    let mut i = 0;
    let mut fenced = false;
    while i < len {
        if (i == 0 || chars[i - 1] == '\n')
            && i + 2 < len
            && chars[i] == '`'
            && chars[i + 1] == '`'
            && chars[i + 2] == '`'
        {
            fenced = !fenced;
            result.push(chars[i]);
            i += 1;
            continue;
        }
        if fenced {
            result.push(chars[i]);
            i += 1;
            continue;
        }
        if chars[i] == '`' {
            result.push('`');
            i += 1;
            while i < len && chars[i] != '`' {
                result.push(chars[i]);
                i += 1;
            }
            if i < len {
                result.push('`');
                i += 1;
            }
            continue;
        }
        if i + 3 < len && chars[i] == '{' && chars[i + 1] == '{' {
            if let Some((name, end)) = plain_name(&chars, i + 2, '}', '}') {
                if let Some(value) = vars.get(name.as_str()) {
                    result.push_str(value);
                    i = end;
                    continue;
                }
            }
        }
        if i + 2 < len && chars[i] == '$' && chars[i + 1] == '{' {
            if let Some((name, end)) = plain_name(&chars, i + 2, '}', '\0') {
                if let Some(value) = vars.get(name.as_str()) {
                    result.push_str(value);
                    i = end;
                    continue;
                }
            }
        }
        result.push(chars[i]);
        i += 1;
    }
    result
}

#[test]
fn substitution_agrees_with_a_plain_scan() {
    let pieces = [
        "{{a}}", "${a}", "{{b_1}}", "${é}", "{{x}}", "{{", "}}", "${", "}", "`", "```", "\n",
        "\n```", "a", "b_1", " ", "x",
    ];
    let mut map: HashMap<&str, &str> = HashMap::new();
    map.insert("a", "<A>");
    map.insert("b_1", "{{a}}");
    map.insert("é", "");
    let vars: Vec<(String, String)> =
        map.iter().map(|(k, v)| (k.to_string(), v.to_string())).collect();
    let mut texts = Texts { state: 3 };
    let mut changed = 0;
    for _ in 0..6000 {
        let content = texts.text(&pieces, 16);
        let ours = substitute_variables(&content, &vars);
        assert_eq!(ours, plain_substitute(&content, &map), "{:?}", content);
        if ours != content {
            changed += 1;
        }
    }
    assert!(changed > 100);
}

#[test]
fn text_helpers_agree_with_the_standard_library() {
    let pieces = ["\n", "\r", "\r\n", " ", "\t", "a", "b", "ab", "-", "--", "\u{3000}", "é"];
    let mut texts = Texts { state: 4 };
    for _ in 0..4000 {
        let s = texts.text(&pieces, 12);
        let t = texts.text(&pieces, 3);
        let u = texts.text(&pieces, 3);
        let chars: Vec<char> = s.chars().collect();
        let ours: Vec<String> = split_lines(&chars).iter().map(|l| l.iter().collect()).collect();
        let theirs: Vec<String> = s.lines().map(String::from).collect();
        assert_eq!(ours, theirs, "{:?}", s);
        assert_eq!(trim_chars(&chars).iter().collect::<String>(), s.trim(), "{:?}", s);
        assert_eq!(replace_all(&s, &t, &u), s.replace(&t, &u), "{:?}", (&s, &t, &u));
        assert_eq!(str_less(&s, &t), s < t, "{:?}", (&s, &t));
    }
}

fn plain_split(content: &str) -> (Option<&str>, &str) {
    if let Some(rest) = content.strip_prefix("---\n") {
        if let Some(end) = rest.find("\n---\n") {
            let split = "---\n".len() + end + "\n---\n".len();
            return (Some(&content[..split]), &content[split..]);
        }
    }
    (None, content)
}

#[test]
fn front_matter_agrees_with_a_plain_search() {
    let pieces = ["---\n", "---", "\n", "-", "a: b", "é", "\n---\n", " "];
    let mut texts = Texts { state: 5 };
    let mut found = 0;
    for _ in 0..4000 {
        let s = texts.text(&pieces, 8);
        let ours = split_front_matter(&s);
        assert_eq!(ours, plain_split(&s), "{:?}", s);
        if ours.0.is_some() {
            found += 1;
        }
    }
    assert!(found > 100);
}

#[test]
fn arranging_agrees_with_sorting_and_grouping() {
    let names = ["a.md", "b.md", "a.md", "\u{e9}.md", "2025-01-01-10-00-x.md", "", "B.md"];
    let groups = [None, None, Some("v1"), Some("v2"), Some(""), Some("a"), Some("v10")];
    let mut texts = Texts { state: 6 };
    for _ in 0..3000 {
        let n = texts.below(9);
        let mut files = Vec::new();
        for k in 0..n {
            files.push(ListFile {
                group: groups[texts.below(groups.len() as u64) as usize].map(String::from),
                filename: names[texts.below(names.len() as u64) as usize].to_string(),
                title: Some(k.to_string()),
            });
        }
        let mut sorted: Vec<&ListFile> = files.iter().collect();
        sorted.sort_by(|a, b| a.filename.cmp(&b.filename));
        let mut plain: Vec<String> = Vec::new();
        let mut grouped: BTreeMap<String, Vec<String>> = BTreeMap::new();
        for f in sorted {
            let shown = format!("{} {}", f.filename, f.title.clone().unwrap());
            match &f.group {
                None => plain.push(shown),
                Some(g) => grouped.entry(g.clone()).or_default().push(shown),
            }
        }
        let (ungrouped, listed) = arrange_listing(&files);
        let ours: Vec<String> = ungrouped
            .iter()
            .map(|e| format!("{} {}", e.filename, e.title.clone().unwrap()))
            .collect();
        assert_eq!(ours, plain);
        let theirs: Vec<(String, Vec<String>)> = grouped.into_iter().collect();
        let ours: Vec<(String, Vec<String>)> = listed
            .iter()
            .map(|g| {
                (
                    g.name.clone(),
                    g.entries
                        .iter()
                        .map(|e| format!("{} {}", e.filename, e.title.clone().unwrap()))
                        .collect(),
                )
            })
            .collect();
        assert_eq!(ours, theirs);
    }
}
