use tinyspec::applications::resolve_applications;
use tinyspec::commands::{check_task, is_confirmed, status_line, task_message};
use tinyspec::config::Config;
use tinyspec::creation::{
    created_spec_message, duplicate_spec_message, existing_spec, spec_content, spec_filename,
    title_case,
};
use tinyspec::format::{format_markdown, front_matter_yaml};
use tinyspec::listing::{
    arrange_listing, config_list, config_remove, config_set, list_lines, list_templates, ListFile,
};
use tinyspec::names::{complete_spec_names, find_spec, parse_spec_input, SpecPath};
use tinyspec::setup::completion_hint;
use tinyspec::summary::load_spec_summary;
use tinyspec::templates::{collect_templates, find_template, TemplateInfo, TemplateSource};

/// A collection held in memory: group, file name and text of each file.
struct Repo {
    files: Vec<(Option<String>, String, String)>,
    templates: Vec<(String, String)>,
    config: Option<Config>,
}

fn front_matter(content: &str) -> (Option<String>, Vec<String>) {
    let yaml = match front_matter_yaml(content) {
        Some(y) => y,
        None => return (None, Vec::new()),
    };
    let value: serde_yaml::Value = match serde_yaml::from_str(yaml) {
        Ok(v) => v,
        Err(_) => return (None, Vec::new()),
    };
    let title = value.get("title").and_then(|t| t.as_str()).map(|t| t.to_string());
    let mut applications = Vec::new();
    if let Some(list) = value.get("applications").and_then(|a| a.as_sequence()) {
        for item in list {
            applications.push(item.as_str().unwrap_or("").to_string());
        }
    }
    (title, applications)
}

impl Repo {
    fn new() -> Repo {
        Repo { files: Vec::new(), templates: Vec::new(), config: None }
    }

    fn add(&mut self, filename: &str, content: &str) {
        self.files.push((None, filename.to_string(), content.to_string()));
    }

    fn add_grouped(&mut self, group: &str, filename: &str, content: &str) {
        self.files.push((Some(group.to_string()), filename.to_string(), content.to_string()));
    }

    fn paths(&self) -> Vec<SpecPath> {
        self.files
            .iter()
            .map(|(g, f, _)| SpecPath { group: g.clone(), filename: f.clone() })
            .collect()
    }

    fn find(&self, name: &str) -> Result<usize, String> {
        find_spec(&self.paths(), name)
    }

    fn new_spec(&mut self, input: &str, template: Option<&str>) -> Result<String, String> {
        let (group, name) = parse_spec_input(input)?;
        let filenames: Vec<String> = self.files.iter().map(|(_, f, _)| f.clone()).collect();
        if let Some(i) = existing_spec(&filenames, name) {
            return Err(duplicate_spec_message(name, &filenames[i]));
        }
        let filename = spec_filename("2025-06-01-12-00", name);
        let title = title_case(name);
        let raw = match template {
            Some(t) => Some(self.template(t)?),
            None => self.template("default").ok(),
        };
        let content = spec_content(raw.as_deref(), &title, "2025-06-01");
        let formatted = format_markdown(&content)?;
        self.files.push((group.map(|g| g.to_string()), filename.clone(), formatted));
        Ok(created_spec_message(&filename))
    }

    fn template(&self, name: &str) -> Result<String, String> {
        let repo: Vec<TemplateInfo> = self
            .templates
            .iter()
            .map(|(n, _)| TemplateInfo {
                name: n.clone(),
                path: format!(".specs/templates/{}.md", n),
                source: TemplateSource::Repo,
            })
            .collect();
        let found = find_template(repo, Vec::new(), name)?;
        Ok(self.templates.iter().find(|(n, _)| *n == found.name).unwrap().1.clone())
    }

    fn check(&mut self, name: &str, task_id: &str, check: bool) -> Result<String, String> {
        let i = self.find(name)?;
        let changed = check_task(name, &self.files[i].2, task_id, check)?;
        self.files[i].2 = format_markdown(&changed)?;
        Ok(task_message(task_id, check))
    }

    fn format(&mut self, name: &str) -> Result<String, String> {
        let i = self.find(name)?;
        self.files[i].2 = format_markdown(&self.files[i].2)?;
        Ok(format!("Formatted {}", self.files[i].1))
    }

    fn status(&self, name: &str) -> Result<String, String> {
        let i = self.find(name)?;
        let (group, filename, content) = &self.files[i];
        let (title, _) = front_matter(content);
        let summary = load_spec_summary(filename, group.as_deref(), title.as_deref(), content)
            .ok_or_else(|| format!("Failed to load spec '{name}'"))?;
        Ok(status_line(&summary))
    }

    fn view(&self, name: &str) -> Result<String, String> {
        let i = self.find(name)?;
        let content = &self.files[i].2;
        let (_, applications) = front_matter(content);
        resolve_applications(content, &applications, self.config.as_ref())
    }

    fn list(&self) -> String {
        let files: Vec<ListFile> = self
            .files
            .iter()
            .map(|f| ListFile {
                group: f.0.clone(),
                filename: f.1.clone(),
                title: front_matter(&f.2).0,
            })
            .collect();
        let (ungrouped, groups) = arrange_listing(&files);
        list_lines(&ungrouped, &groups).join("\n")
    }
}

fn sample_spec_content() -> String {
    "\
---
tinySpec: v0
title: Hello World
applications:
    - my-app
---

# Background

Some background.

# Proposal

Some proposal.

# Implementation Plan

- [ ] A: Do this
    - [ ] A.1: Do this subtask
    - [ ] A.2: Do this other subtask

- [ ] B: Do that
    - [ ] B.1: Subtask one
    - [ ] B.2: Subtask two
    - [ ] B.3: Subtask three

# Test Plan

"
    .to_string()
}

#[test]
fn t1_new_creates_spec_with_valid_name() {
    let mut repo = Repo::new();
    let out = repo.new_spec("my-feature", None).unwrap();
    assert!(out.contains("Created spec:"));
    assert!(out.contains("my-feature.md"));
    assert_eq!(repo.files.len(), 1);
    let (group, filename, content) = &repo.files[0];
    assert_eq!(*group, None);
    assert!(filename.ends_with("-my-feature.md"));
    assert!(content.contains("tinySpec: v0"));
    assert!(content.contains("title: My Feature"));
    assert!(content.contains("# Background"));
    assert!(content.contains("# Proposal"));
    assert!(content.contains("# Implementation Plan"));
    assert!(content.contains("# Test Plan"));
}

#[test]
fn t2_new_rejects_invalid_names() {
    let mut repo = Repo::new();
    assert!(repo.new_spec("MyFeature", None).unwrap_err().contains("kebab-case"));
    assert!(repo.new_spec("my feature", None).unwrap_err().contains("kebab-case"));
    assert!(repo.new_spec("-bad", None).unwrap_err().contains("kebab-case"));
    assert!(repo.new_spec("bad--name", None).unwrap_err().contains("kebab-case"));
    assert!(repo.files.is_empty());
}

#[test]
fn t3_list_all_specs() {
    let mut repo = Repo::new();
    repo.add(
        "2025-01-01-10-00-alpha.md",
        "---\ntinySpec: v0\ntitle: Alpha Spec\napplications:\n    -\n---\n\n# Background\n",
    );
    repo.add(
        "2025-02-01-10-00-beta.md",
        "---\ntinySpec: v0\ntitle: Beta Spec\napplications:\n    -\n---\n\n# Background\n",
    );
    let out = repo.list();
    assert!(out.contains("alpha"));
    assert!(out.contains("Alpha Spec"));
    assert!(out.contains("beta"));
    assert!(out.contains("Beta Spec"));
    assert_eq!(
        out,
        format!("{:30} {}\n{:30} {}", "alpha", "Alpha Spec", "beta", "Beta Spec")
    );
}

#[test]
fn t4_view_existing_spec() {
    let mut repo = Repo::new();
    repo.add("2025-02-17-09-36-hello-world.md", &sample_spec_content());
    let mut config = Config::new();
    config.set("my-app", "/path/to/my-app");
    repo.config = Some(config);
    let out = repo.view("hello-world").unwrap();
    assert!(out.contains("title: Hello World"));
    assert!(out.contains("# Background"));
}

#[test]
fn t5_view_nonexistent_spec() {
    let repo = Repo::new();
    assert!(repo.view("nonexistent").unwrap_err().contains("No spec found matching"));
}

#[test]
fn t6_delete_spec() {
    let mut repo = Repo::new();
    repo.add("2025-02-17-09-36-hello-world.md", &sample_spec_content());
    let i = repo.find("hello-world").unwrap();
    assert!(is_confirmed("y\n"));
    repo.files.remove(i);
    assert!(repo.find("hello-world").is_err());
}

#[test]
fn t7_check_task() {
    let mut repo = Repo::new();
    repo.add("2025-02-17-09-36-hello-world.md", &sample_spec_content());
    let out = repo.check("hello-world", "A", true).unwrap();
    assert!(out.contains("Checked task A"));
    let content = &repo.files[0].2;
    assert!(content.contains("- [x] A: Do this"));
    assert!(content.contains("- [ ] A.1: Do this subtask"));
    assert!(content.contains("- [ ] B: Do that"));
}

#[test]
fn t8_uncheck_task() {
    let mut repo = Repo::new();
    let content = sample_spec_content().replace("- [ ] B: Do that", "- [x] B: Do that");
    repo.add("2025-02-17-09-36-hello-world.md", &content);
    let out = repo.check("hello-world", "B", false).unwrap();
    assert!(out.contains("Unchecked task B"));
    assert!(repo.files[0].2.contains("- [ ] B: Do that"));
}

#[test]
fn t9_check_invalid_task_id() {
    let mut repo = Repo::new();
    repo.add("2025-02-17-09-36-hello-world.md", &sample_spec_content());
    let err = repo.check("hello-world", "Z", true).unwrap_err();
    assert!(err.contains("No unchecked task 'Z' found"));
    assert_eq!(err, "No unchecked task 'Z' found in spec 'hello-world'");
    assert_eq!(repo.files[0].2, sample_spec_content());
}

#[test]
fn t10_status_for_spec() {
    let content = "\
---
tinySpec: v0
title: Status Test
applications:
    -
---

# Implementation Plan

- [x] A: Task one
- [x] B: Task two
- [x] C: Task three
- [ ] D: Task four
- [ ] E: Task five
- [ ] F: Task six
- [ ] G: Task seven

# Test Plan

";
    let mut repo = Repo::new();
    repo.add("2025-02-17-09-36-hello-world.md", content);
    let out = repo.status("hello-world").unwrap();
    assert!(out.contains("3/7 tasks complete"));
    assert_eq!(out, "hello-world: 3/7 tasks complete");
}

#[test]
fn t13_tab_completion_suggests_spec_names() {
    let filenames = vec![
        "2025-02-17-09-36-hello-world.md".to_string(),
        "2025-03-01-14-00-auth-flow.md".to_string(),
    ];
    let all = complete_spec_names(&filenames, "");
    assert!(all.contains(&"hello-world".to_string()) && all.contains(&"auth-flow".to_string()));
    assert_eq!(complete_spec_names(&filenames, "he"), ["hello-world"]);
    assert_eq!(complete_spec_names(&filenames, "auth-flow"), ["auth-flow"]);
    assert!(complete_spec_names(&filenames, "x").is_empty());
}

#[test]
fn t14_init_prints_shell_completion_instructions() {
    let (place, line) = completion_hint("/bin/zsh");
    assert_eq!(place, "  Add this to your ~/.zshrc:");
    assert!(line.contains("source <(COMPLETE=zsh tinyspec)"));
}

#[test]
fn t15_format_normalizes_markdown() {
    let messy = "\
---
tinySpec: v0
title: Messy Spec
applications:
    - app
---


# Background



Some background text.



# Proposal
No blank line after heading.


# Implementation Plan

- [ ] A: First task

# Test Plan

";
    let mut repo = Repo::new();
    repo.add("2025-03-01-10-00-messy.md", messy);
    assert!(repo.format("messy").unwrap().contains("Formatted"));
    let formatted = repo.files[0].2.clone();
    assert!(formatted.contains("# Background"));
    assert!(formatted.contains("# Proposal"));
    assert!(formatted.contains("# Implementation Plan"));
    assert!(formatted.contains("# Test Plan"));
    assert!(formatted.contains("Some background text."));
    assert!(formatted.contains("No blank line after heading."));
    assert!(formatted.contains("- [ ] A: First task"));
    assert_ne!(formatted, messy);
    repo.format("messy").unwrap();
    assert_eq!(formatted, repo.files[0].2, "Formatter is not idempotent");
}

#[test]
fn t16_format_preserves_front_matter() {
    let content = "\
---
tinySpec: v0
title: Front Matter Test
applications:
    - my-app
---

# Background

Some text.

# Test Plan

";
    let formatted = format_markdown(content).unwrap();
    assert!(formatted.starts_with(
        "---\ntinySpec: v0\ntitle: Front Matter Test\napplications:\n    - my-app\n---\n"
    ));
}

#[test]
fn t17_format_all_specs() {
    let mut repo = Repo::new();
    repo.add("2025-01-01-10-00-alpha.md", "# Alpha\nSome text.\n");
    repo.add("2025-02-01-10-00-beta.md", "# Beta\nOther text.\n");
    assert_eq!(repo.format("alpha").unwrap(), "Formatted 2025-01-01-10-00-alpha.md");
    assert_eq!(repo.format("beta").unwrap(), "Formatted 2025-02-01-10-00-beta.md");
    assert_eq!(repo.files[0].2, "# Alpha\n\nSome text.\n");
    assert_eq!(repo.files[1].2, "# Beta\n\nOther text.\n");
}

#[test]
fn t18_new_spec_is_auto_formatted() {
    let mut repo = Repo::new();
    repo.new_spec("auto-fmt", None).unwrap();
    let before = repo.files[0].2.clone();
    repo.format("auto-fmt").unwrap();
    assert_eq!(before, repo.files[0].2, "New spec was not already formatted");
}

#[test]
fn t19_config_set_creates_config() {
    let mut config = Config::default();
    let out = config_set(&mut config, "tinyspec", "/path/to/tinyspec");
    assert_eq!(out, "Set tinyspec = /path/to/tinyspec");
    assert_eq!(config.get("tinyspec").map(|p| p.as_str()), Some("/path/to/tinyspec"));
    assert_eq!(config.entries().len(), 1);
}

#[test]
fn t20_config_list_displays_mappings() {
    let mut config = Config::new();
    config.set("beta", "/path/beta");
    config.set("alpha", "/path/alpha");
    assert_eq!(config_list(&config), ["alpha: /path/alpha", "beta: /path/beta"]);
    assert_eq!(
        config_list(&Config::new()),
        [
            "No repositories configured.",
            "Use `tinyspec config set <repo-name> <path>` to add a repository mapping."
        ]
    );
}

#[test]
fn t21_config_remove_deletes_mapping() {
    let mut config = Config::new();
    config.set("alpha", "/path/alpha");
    config.set("beta", "/path/beta");
    assert_eq!(config_remove(&mut config, "alpha").unwrap(), "Removed alpha");
    assert!(config.get("alpha").is_none());
    assert!(config.get("beta").is_some());
    assert_eq!(
        config_remove(&mut config, "alpha").unwrap_err(),
        "Repository 'alpha' not found in config"
    );
    assert_eq!(config.entries().len(), 1);
}

#[test]
fn t22_config_set_updates_existing() {
    let mut config = Config::new();
    config.set("myrepo", "/old/path");
    assert_eq!(config_set(&mut config, "myrepo", "/new/path"), "Set myrepo = /new/path");
    assert_eq!(config.get("myrepo").map(|p| p.as_str()), Some("/new/path"));
    assert_eq!(config.entries().len(), 1);
}

#[test]
fn t23_view_resolves_applications() {
    let mut repo = Repo::new();
    let mut config = Config::new();
    config.set("my-app", "/resolved/my-app");
    repo.config = Some(config);
    repo.add("2025-02-17-09-36-hello-world.md", &sample_spec_content());
    let out = repo.view("hello-world").unwrap();
    assert!(out.contains("/resolved/my-app"), "Expected resolved path in output, got: {out}");
    assert_eq!(out, sample_spec_content().replace("my-app", "/resolved/my-app"));
}

#[test]
fn t24_view_errors_when_config_missing() {
    let mut repo = Repo::new();
    repo.add("2025-02-17-09-36-hello-world.md", &sample_spec_content());
    let err = repo.view("hello-world").unwrap_err();
    assert!(err.contains("no config file found"));
    assert!(err.contains("tinyspec config set"));
    assert_eq!(
        err,
        "Spec references applications [\"my-app\"] but no config file found.\nCreate one with: tinyspec config set <repo-name> <path>"
    );
}

#[test]
fn t25_view_errors_when_app_unmapped() {
    let mut repo = Repo::new();
    let mut config = Config::new();
    config.set("other-repo", "/path/other");
    repo.config = Some(config);
    repo.add("2025-02-17-09-36-hello-world.md", &sample_spec_content());
    let err = repo.view("hello-world").unwrap_err();
    assert!(err.contains("my-app"));
    assert!(err.contains("tinyspec config set"));
}

#[test]
fn t26_view_no_applications_works() {
    let content = "\
---
tinySpec: v0
title: No Apps
applications:
    -
---

# Background

Some text.
";
    let mut repo = Repo::new();
    repo.add("2025-02-17-09-36-no-apps.md", content);
    let out = repo.view("no-apps").unwrap();
    assert!(out.contains("title: No Apps"));
    assert!(out.contains("Some text."));
    assert_eq!(out, content);
}

#[test]
fn t29_new_grouped_spec() {
    let mut repo = Repo::new();
    let out = repo.new_spec("v1/my-feature", None).unwrap();
    assert!(out.contains("Created spec:"));
    assert!(out.contains("my-feature.md"));
    let (group, filename, content) = &repo.files[0];
    assert_eq!(group.as_deref(), Some("v1"));
    assert!(filename.ends_with("-my-feature.md"));
    assert!(content.contains("title: My Feature"));
}

#[test]
fn t30_view_grouped_spec_by_name() {
    let content = "\
---
tinySpec: v0
title: Grouped Feature
applications:
    -
---

# Background

Grouped spec content.
";
    let mut repo = Repo::new();
    repo.add_grouped("v1", "2025-03-01-10-00-grouped-feature.md", content);
    let out = repo.view("grouped-feature").unwrap();
    assert!(out.contains("title: Grouped Feature"));
    assert!(out.contains("Grouped spec content."));
}

#[test]
fn t31_list_with_groups() {
    let mut repo = Repo::new();
    repo.add(
        "2025-01-01-10-00-alpha.md",
        "---\ntinySpec: v0\ntitle: Alpha\napplications:\n    -\n---\n\n# Background\n",
    );
    repo.add_grouped(
        "v1",
        "2025-02-01-10-00-beta.md",
        "---\ntinySpec: v0\ntitle: Beta\napplications:\n    -\n---\n\n# Background\n",
    );
    repo.add_grouped(
        "v1",
        "2025-03-01-10-00-gamma.md",
        "---\ntinySpec: v0\ntitle: Gamma\napplications:\n    -\n---\n\n# Background\n",
    );
    let stdout = repo.list();
    assert!(stdout.contains("alpha"), "Should list ungrouped spec");
    assert!(stdout.contains("Alpha"), "Should show ungrouped title");
    assert!(stdout.contains("v1/"), "Should show group header");
    assert!(stdout.contains("beta"), "Should list grouped spec beta");
    assert!(stdout.contains("gamma"), "Should list grouped spec gamma");
    assert_eq!(
        stdout,
        format!(
            "{:30} Alpha\n\nv1/\n{:30} Beta\n{:30} Gamma",
            "alpha", "beta", "gamma"
        )
    );
}

#[test]
fn t32_reject_duplicate_names_across_groups() {
    let mut repo = Repo::new();
    repo.add(
        "2025-01-01-10-00-my-feature.md",
        "---\ntinySpec: v0\ntitle: My Feature\napplications:\n    -\n---\n",
    );
    let err = repo.new_spec("v1/my-feature", None).unwrap_err();
    assert!(err.contains("already exists"));
    assert_eq!(
        err,
        "A spec named 'my-feature' already exists: 2025-01-01-10-00-my-feature.md"
    );
}

#[test]
fn t33_check_grouped_spec() {
    let content = "\
---
tinySpec: v0
title: Grouped Tasks
applications:
    -
---

# Implementation Plan

- [ ] A: First task
- [ ] B: Second task

# Test Plan

";
    let mut repo = Repo::new();
    repo.add_grouped("v2", "2025-03-01-10-00-grouped-tasks.md", content);
    assert!(repo.check("grouped-tasks", "A", true).unwrap().contains("Checked task A"));
    assert!(repo.files[0].2.contains("- [x] A: First task"));
    assert!(repo.files[0].2.contains("- [ ] B: Second task"));
    assert!(repo.check("grouped-tasks", "A", false).unwrap().contains("Unchecked task A"));
    assert!(repo.files[0].2.contains("- [ ] A: First task"));
}

#[test]
fn t35_templates_command_no_templates() {
    let lines = list_templates(&collect_templates(Vec::new(), Vec::new()));
    assert_eq!(lines[0], "No templates found.");
    assert_eq!(
        lines,
        [
            "No templates found.",
            "",
            "Create templates as Markdown files in:",
            "  .specs/templates/       (repo-level)",
            "  ~/.config/tinyspec/templates/  (user-level)"
        ]
    );
}

#[test]
fn t36_templates_command_lists_repo_templates() {
    let repo = vec![
        TemplateInfo {
            name: "rust-lib".into(),
            path: ".specs/templates/rust-lib.md".into(),
            source: TemplateSource::Repo,
        },
        TemplateInfo {
            name: "default".into(),
            path: ".specs/templates/default.md".into(),
            source: TemplateSource::Repo,
        },
    ];
    let lines = list_templates(&collect_templates(repo, Vec::new()));
    let out = lines.join("\n");
    assert!(out.contains("default"));
    assert!(out.contains("rust-lib"));
    assert!(out.contains("(repo)"));
    assert_eq!(lines, [format!("{:30} (repo)", "default"), format!("{:30} (repo)", "rust-lib")]);
}

const RUST_LIB_TEMPLATE: &str = "\
---
tinySpec: v0
title: {{title}}
applications:
    -
---

# Background

This is a Rust library spec.

# Proposal



# Implementation Plan

- [ ] A: Set up project structure
- [ ] B: Implement core functionality

# Test Plan

";

#[test]
fn t38_new_with_template_flag() {
    let mut repo = Repo::new();
    repo.templates.push(("rust-lib".into(), RUST_LIB_TEMPLATE.into()));
    assert!(repo.new_spec("my-lib", Some("rust-lib")).unwrap().contains("Created spec:"));
    assert_eq!(repo.files.len(), 1);
    let content = &repo.files[0].2;
    assert!(content.contains("title: My Lib"), "Title should be substituted");
    assert!(content.contains("This is a Rust library spec."), "Template body should be preserved");
    assert!(
        content.contains("- [ ] A: Set up project structure"),
        "Template tasks should be preserved"
    );
}

#[test]
fn t39_new_auto_applies_default_template() {
    let mut repo = Repo::new();
    repo.templates.push((
        "default".into(),
        "---\ntinySpec: v0\ntitle: {{title}}\napplications:\n    -\n---\n\n# Background\n\nDefault template background.\n"
            .into(),
    ));
    assert!(repo.new_spec("auto-default", None).unwrap().contains("Created spec:"));
    let content = &repo.files[0].2;
    assert!(content.contains("title: Auto Default"), "Title should be substituted");
    assert!(
        content.contains("Default template background."),
        "Default template body should be used"
    );
}

#[test]
fn t40_new_without_default_template() {
    let mut repo = Repo::new();
    assert!(repo.new_spec("vanilla-spec", None).unwrap().contains("Created spec:"));
    let content = &repo.files[0].2;
    assert!(content.contains("title: Vanilla Spec"));
    assert!(content.contains("# Background"));
    assert!(content.contains("# Implementation Plan"));
}

#[test]
fn t41_template_substitutes_date() {
    let mut repo = Repo::new();
    repo.templates.push((
        "dated".into(),
        "---\ntinySpec: v0\ntitle: {{title}}\n---\n\n# Background\n\nCreated on {{date}}\n".into(),
    ));
    repo.new_spec("date-test", Some("dated")).unwrap();
    let content = &repo.files[0].2;
    assert!(!content.contains("{{date}}"), "{{date}} placeholder should be replaced");
    assert!(content.contains("Created on 20"), "Should contain a date starting with 20xx");
}

#[test]
fn t42_template_not_found() {
    let mut repo = Repo::new();
    let err = repo.new_spec("fail-spec", Some("nonexistent")).unwrap_err();
    assert!(err.contains("No template found"));
}

const EMOJI_TASKS: &str = "\
---
tinySpec: v0
title: Emoji Tasks
applications:
    -
---

# Implementation Plan

- [ ] \u{1F9EA}: Testing tasks
    - [ ] \u{1F9EA}.1: Write unit tests
    - [ ] \u{1F9EA}.2: Write integration tests
- [ ] \u{1F680}: Deployment tasks
    - [ ] \u{1F680}.1: Deploy to staging

# Test Plan

";

#[test]
fn t43_check_emoji_task_ids() {
    let mut repo = Repo::new();
    repo.add("2025-03-01-10-00-emoji-tasks.md", EMOJI_TASKS);
    let out = repo.check("emoji-tasks", "\u{1F9EA}.1", true).unwrap();
    assert!(out.contains("Checked task \u{1F9EA}.1"));
    let updated = repo.files[0].2.clone();
    assert!(
        updated.contains("- [x] \u{1F9EA}.1: Write unit tests"),
        "Emoji subtask should be checked"
    );
    assert!(
        updated.contains("- [ ] \u{1F9EA}.2: Write integration tests"),
        "Other emoji subtask should remain unchecked"
    );
    assert!(
        updated.contains("- [ ] \u{1F680}: Deployment tasks"),
        "Other emoji group should remain unchecked"
    );
    let out = repo.check("emoji-tasks", "\u{1F9EA}.1", false).unwrap();
    assert!(out.contains("Unchecked task \u{1F9EA}.1"));
    assert!(
        repo.files[0].2.contains("- [ ] \u{1F9EA}.1: Write unit tests"),
        "Emoji subtask should be unchecked"
    );
}

#[test]
fn t44_status_with_emoji_tasks() {
    let content = "\
---
tinySpec: v0
title: Emoji Status
applications:
    -
---

# Implementation Plan

- [ ] \u{1F9EA}: Testing tasks
    - [x] \u{1F9EA}.1: Write unit tests
    - [ ] \u{1F9EA}.2: Write integration tests
- [x] \u{1F680}: Deploy

# Test Plan

";
    let mut repo = Repo::new();
    repo.add("2025-03-01-10-00-emoji-status.md", content);
    assert!(repo.status("emoji-status").unwrap().contains("2/4 tasks complete"));
}

#[test]
fn t45_check_emoji_top_level() {
    let content = "\
---
tinySpec: v0
title: Emoji Top Level
applications:
    -
---

# Implementation Plan

- [ ] \u{1F9EA}: Testing tasks
- [ ] \u{1F680}: Deploy

# Test Plan

";
    let mut repo = Repo::new();
    repo.add("2025-03-01-10-00-emoji-top.md", content);
    let out = repo.check("emoji-top", "\u{1F680}", true).unwrap();
    assert!(out.contains("Checked task \u{1F680}"));
    let updated = &repo.files[0].2;
    assert!(updated.contains("- [x] \u{1F680}: Deploy"));
    assert!(updated.contains("- [ ] \u{1F9EA}: Testing tasks"));
}

#[test]
fn t46_format_preserves_emoji_task_ids() {
    let content = "\
---
tinySpec: v0
title: Emoji Format
applications:
    -
---

# Implementation Plan

- [ ] \u{1F9EA}: Testing tasks
    - [ ] \u{1F9EA}.1: Write unit tests
    - [ ] \u{1F9EA}.2: Write integration tests
- [ ] \u{1F680}: Deploy

# Test Plan

";
    let mut repo = Repo::new();
    repo.add("2025-03-01-10-00-emoji-format.md", content);
    repo.format("emoji-format").unwrap();
    let formatted = repo.files[0].2.clone();
    assert!(formatted.contains("\u{1F9EA}"), "Emoji should be preserved after formatting");
    assert!(
        formatted.contains("\u{1F9EA}.1: Write unit tests"),
        "Emoji subtask IDs should be preserved"
    );
    assert!(formatted.contains("\u{1F680}: Deploy"), "Other emoji IDs should be preserved");
    repo.format("emoji-format").unwrap();
    let second = repo.files[0].2.clone();
    assert_eq!(formatted, second, "Formatter should be idempotent with emoji");
}

#[test]
fn formatting_keeps_the_task_forest() {
    for text in [sample_spec_content(), EMOJI_TASKS.to_string(), RUST_LIB_TEMPLATE.to_string()] {
        let before = tinyspec::plan::parse_tasks(&text);
        let formatted = format_markdown(&text).unwrap();
        let after = tinyspec::plan::parse_tasks(&formatted);
        assert!(!before.is_empty());
        assert_eq!(format!("{:?}", before), format!("{:?}", after));
    }
}
