use tinyspec::applications::resolve_applications;
use tinyspec::config::Config;
use tinyspec::listing::{arrange_listing, list_lines, ListEntry, ListFile, ListGroup};
use tinyspec::setup::{
    completion_hint, detect_shell, has_markdown_extension, is_legacy_command, is_markdown_file,
    is_skill_directory, is_templates_directory, Shell,
};

fn pairs(config: &Config) -> Vec<(&str, &str)> {
    config.entries().iter().map(|(k, v)| (k.as_str(), v.as_str())).collect()
}

#[test]
fn mappings_are_kept_in_the_order_of_their_names() {
    let mut config = Config::default();
    assert!(config.is_empty());
    config.set("m", "/m");
    config.set("z", "/z");
    config.set("a", "/a");
    config.set("mm", "/mm");
    assert!(!config.is_empty());
    assert_eq!(pairs(&config), [("a", "/a"), ("m", "/m"), ("mm", "/mm"), ("z", "/z")]);
    config.set("m", "/other");
    assert_eq!(pairs(&config), [("a", "/a"), ("m", "/other"), ("mm", "/mm"), ("z", "/z")]);
    assert_eq!(config.get("m").map(|p| p.as_str()), Some("/other"));
    assert_eq!(config.get("b"), None);
    assert_eq!(config.get(""), None);
    assert!(config.remove("a"));
    assert!(!config.remove("a"));
    assert!(config.remove("z"));
    assert_eq!(pairs(&config), [("m", "/other"), ("mm", "/mm")]);
    assert!(config.remove("m"));
    assert!(config.remove("mm"));
    assert!(config.is_empty());
    assert!(!config.remove("mm"));
}

fn apps(names: &[&str]) -> Vec<String> {
    names.iter().map(|n| n.to_string()).collect()
}

#[test]
fn applications_give_way_to_their_folders() {
    let mut config = Config::new();
    config.set("web", "/srv/web");
    config.set("api", "/srv/api");
    assert_eq!(
        resolve_applications("web calls api; web", &apps(&["web", "", "api"]), Some(&config)),
        Ok("/srv//srv/web calls /srv/api; /srv//srv/web".replace("/srv//srv/web", "/srv/web"))
    );
    assert_eq!(
        resolve_applications("a b", &apps(&["a", "b"]), Some(&{
            let mut c = Config::new();
            c.set("a", "b");
            c.set("b", "c");
            c
        })),
        Ok("c c".to_string())
    );
}

#[test]
fn a_document_without_applications_is_shown_as_it_is() {
    assert_eq!(resolve_applications("text", &apps(&[]), None), Ok("text".to_string()));
    assert_eq!(resolve_applications("text", &apps(&["", ""]), None), Ok("text".to_string()));
    assert_eq!(resolve_applications("", &apps(&[""]), Some(&Config::new())), Ok(String::new()));
}

#[test]
fn applications_need_a_configuration_that_maps_them() {
    assert_eq!(
        resolve_applications("text", &apps(&["a\"b", "", "c"]), None),
        Err("Spec references applications [\"a\\\"b\", \"c\"] but no config file found.\nCreate one with: tinyspec config set <repo-name> <path>".to_string())
    );
    let mut config = Config::new();
    config.set("b", "/b");
    assert_eq!(
        resolve_applications("text", &apps(&["a", "b", "c"]), Some(&config)),
        Err("Spec references applications not found in config: a, c\nAdd them with: tinyspec config set <repo-name> <path>".to_string())
    );
    assert_eq!(
        resolve_applications("text", &apps(&["a"]), Some(&config)),
        Err("Spec references applications not found in config: a\nAdd them with: tinyspec config set <repo-name> <path>".to_string())
    );
}

fn entry(filename: &str, title: Option<&str>) -> ListEntry {
    ListEntry { filename: filename.to_string(), title: title.map(|t| t.to_string()) }
}

#[test]
fn listing_of_documents_and_groups() {
    assert_eq!(list_lines(&Vec::new(), &Vec::new()), ["No specs found."]);
    let one_group = vec![ListGroup {
        name: "v1".into(),
        entries: vec![entry("2025-01-01-10-00-a.md", Some("A")), entry("notes.md", None)],
    }];
    assert_eq!(
        list_lines(&Vec::new(), &one_group),
        ["v1/".to_string(), format!("{:30} A", "a"), format!("{:30} (no title)", "notes.md")]
    );
    let two_groups = vec![
        ListGroup { name: "v1".into(), entries: vec![entry("2025-01-01-10-00-a.md", Some("A"))] },
        ListGroup { name: "v2".into(), entries: vec![entry("2025-01-01-10-00-b.md", Some("B"))] },
    ];
    assert_eq!(
        list_lines(&Vec::new(), &two_groups),
        [
            String::new(),
            "v1/".to_string(),
            format!("{:30} A", "a"),
            String::new(),
            "v2/".to_string(),
            format!("{:30} B", "b")
        ]
    );
    let long = "2025-01-01-10-00-a-name-that-is-longer-than-thirty-characters.md";
    assert_eq!(
        list_lines(&vec![entry(long, Some("T"))], &Vec::new()),
        ["a-name-that-is-longer-than-thirty-characters T"]
    );
}

#[test]
fn shells_and_their_hints() {
    assert_eq!(detect_shell("/bin/zsh"), Shell::Zsh);
    assert_eq!(detect_shell("/usr/local/bin/fish"), Shell::Fish);
    assert_eq!(detect_shell("/bin/bash"), Shell::Bash);
    assert_eq!(detect_shell(""), Shell::Bash);
    assert_eq!(detect_shell("/opt/fish/bin/zsh"), Shell::Zsh);
    assert_eq!(
        completion_hint("/usr/bin/fish"),
        ("  Add this to your fish config:".to_string(), "  COMPLETE=fish tinyspec | source".to_string())
    );
    assert_eq!(
        completion_hint("sh"),
        ("  Add this to your ~/.bashrc:".to_string(), "  source <(COMPLETE=bash tinyspec)".to_string())
    );
}

#[test]
fn files_of_an_earlier_setup() {
    assert!(is_legacy_command("tinyspec:refine.md"));
    assert!(is_legacy_command("tinyspec-work.md"));
    assert!(!is_legacy_command("tinyspec:refine.txt"));
    assert!(!is_legacy_command("other.md"));
    assert!(is_skill_directory("tinyspec-refine"));
    assert!(!is_skill_directory("tinyspec"));
    assert!(is_markdown_file("a.md"));
    assert!(!is_markdown_file("a.mdx"));
}

#[test]
fn directories_and_files_of_a_collection() {
    assert!(is_templates_directory("templates"));
    assert!(!is_templates_directory("template"));
    assert!(!is_templates_directory("Templates"));
    assert!(!is_templates_directory(""));
    for name in ["a.md", "2025-01-01-10-00-a.md", "..md", "a.b.md", ".a.md"] {
        assert!(has_markdown_extension(name), "{}", name);
        assert_eq!(std::path::Path::new(name).extension().is_some_and(|e| e == "md"), true);
    }
    for name in [".md", "md", "a.mdx", "a.md.txt", "a.MD", "", "amd"] {
        assert!(!has_markdown_extension(name), "{}", name);
        assert_eq!(std::path::Path::new(name).extension().is_some_and(|e| e == "md"), false);
    }
}

#[test]
fn files_are_arranged_by_group_and_file_name() {
    let file = |group: Option<&str>, filename: &str| ListFile {
        group: group.map(String::from),
        filename: filename.to_string(),
        title: None,
    };
    let files = vec![
        file(Some("v2"), "2025-03-01-10-00-c.md"),
        file(None, "2025-02-01-10-00-b.md"),
        file(Some("v1"), "2025-05-01-10-00-e.md"),
        file(None, "2025-01-01-10-00-a.md"),
        file(Some("v1"), "2025-04-01-10-00-d.md"),
    ];
    let (ungrouped, groups) = arrange_listing(&files);
    let names: Vec<&str> = ungrouped.iter().map(|e| e.filename.as_str()).collect();
    assert_eq!(names, ["2025-01-01-10-00-a.md", "2025-02-01-10-00-b.md"]);
    assert_eq!(groups.len(), 2);
    assert_eq!(groups[0].name, "v1");
    let names: Vec<&str> = groups[0].entries.iter().map(|e| e.filename.as_str()).collect();
    assert_eq!(names, ["2025-04-01-10-00-d.md", "2025-05-01-10-00-e.md"]);
    assert_eq!(groups[1].name, "v2");
    assert_eq!(groups[1].entries.len(), 1);
    let (ungrouped, groups) = arrange_listing(&Vec::new());
    assert!(ungrouped.is_empty() && groups.is_empty());
}
