use tinyspec::templates::{
    collect_templates, extract_var_name, find_template, repo_templates_dir, substitute_variables,
    template_name, user_templates_dir, TemplateInfo, TemplateSource,
};

fn vars(pairs: &[(&str, &str)]) -> Vec<(String, String)> {
    pairs.iter().map(|(k, v)| (k.to_string(), v.to_string())).collect()
}

fn template(name: &str, source: TemplateSource) -> TemplateInfo {
    let dir = match source {
        TemplateSource::Repo => ".specs/templates",
        TemplateSource::User => "/home/u/.config/tinyspec/templates",
    };
    TemplateInfo { name: name.to_string(), path: format!("{}/{}.md", dir, name), source }
}

#[test]
fn both_ways_of_writing_a_variable_are_filled_in() {
    let v = vars(&[("title", "My Lib"), ("date", "2025-03-01")]);
    assert_eq!(substitute_variables("title: {{title}}", &v), "title: My Lib");
    assert_eq!(substitute_variables("on ${date}.", &v), "on 2025-03-01.");
    assert_eq!(
        substitute_variables("{{title}}{{date}} ${title}${date}", &v),
        "My Lib2025-03-01 My Lib2025-03-01"
    );
    assert_eq!(substitute_variables("", &v), "");
    assert_eq!(substitute_variables("plain text", &v), "plain text");
}

#[test]
fn unknown_and_malformed_variables_stay() {
    let v = vars(&[("title", "T"), ("a_b1", "ok")]);
    assert_eq!(substitute_variables("{{other}} ${other}", &v), "{{other}} ${other}");
    assert_eq!(substitute_variables("{{title} {title}} {{}} ${}", &v), "{{title} {title}} {{}} ${}");
    assert_eq!(substitute_variables("{{ title }} ${ title }", &v), "{{ title }} ${ title }");
    assert_eq!(substitute_variables("{{title", &v), "{{title");
    assert_eq!(substitute_variables("${title", &v), "${title");
    assert_eq!(substitute_variables("{{a_b1}} ${a_b1} {{a-b1}}", &v), "ok ok {{a-b1}}");
    assert_eq!(substitute_variables("{{title}}", &Vec::new()), "{{title}}");
    assert_eq!(substitute_variables("x{{title}}", &v), "xT");
    assert_eq!(substitute_variables("{{title}}}", &v), "T}");
}

#[test]
fn first_pair_of_a_name_counts() {
    let v = vars(&[("x", "one"), ("x", "two")]);
    assert_eq!(substitute_variables("{{x}}", &v), "one");
}

#[test]
fn values_are_not_scanned_again() {
    let v = vars(&[("a", "{{b}}"), ("b", "no")]);
    assert_eq!(substitute_variables("{{a}}", &v), "{{b}}");
}

#[test]
fn inline_code_stays_untouched() {
    let v = vars(&[("title", "T")]);
    assert_eq!(substitute_variables("`{{title}}` {{title}}", &v), "`{{title}}` T");
    assert_eq!(substitute_variables("a `${title}", &v), "a `${title}");
    assert_eq!(substitute_variables("``{{title}}", &v), "``T");
}

#[test]
fn fenced_blocks_stay_untouched() {
    let v = vars(&[("title", "T")]);
    let text = "{{title}}\n```\n{{title}}\n`x` ${title}\n```\n{{title}}\n";
    assert_eq!(substitute_variables(text, &v), "T\n```\n{{title}}\n`x` ${title}\n```\nT\n");
    assert_eq!(substitute_variables("```\n{{title}}", &v), "```\n{{title}}");
    assert_eq!(substitute_variables("x ```{{title}}``` {{title}}", &v), "x ```{{title}}``` T");
}

#[test]
fn variable_names_and_their_ends() {
    let chars: Vec<char> = "{{title}} ${date} {{é1_}}".chars().collect();
    assert_eq!(extract_var_name(&chars, 2, '}', '}'), Some(("title".to_string(), 9)));
    assert_eq!(extract_var_name(&chars, 12, '}', '\0'), Some(("date".to_string(), 17)));
    assert_eq!(extract_var_name(&chars, 20, '}', '}'), Some(("é1_".to_string(), 25)));
    assert_eq!(extract_var_name(&chars, 2, '}', '\0'), Some(("title".to_string(), 8)));
    assert_eq!(extract_var_name(&chars, 12, '}', '}'), None);
    assert_eq!(extract_var_name(&chars, 0, '}', '}'), None);
    assert_eq!(extract_var_name(&chars, chars.len(), '}', '}'), None);
    assert_eq!(extract_var_name(&chars, chars.len() + 7, '}', '\0'), None);
    assert_eq!(extract_var_name(&[], 3, '}', '}'), None);
}

#[test]
fn template_names_and_directories() {
    assert_eq!(template_name("default.md"), Some("default"));
    assert_eq!(template_name("rust-lib.md"), Some("rust-lib"));
    assert_eq!(template_name(".md"), Some(""));
    assert_eq!(template_name("notes.txt"), None);
    assert_eq!(template_name("md"), None);
    assert_eq!(repo_templates_dir(".specs"), ".specs/templates");
    assert_eq!(repo_templates_dir("/work/repo/.specs"), "/work/repo/.specs/templates");
    assert_eq!(repo_templates_dir("/work/repo/.specs/"), "/work/repo/.specs/templates");
    assert_eq!(user_templates_dir("/home/u"), "/home/u/.config/tinyspec/templates");
    assert_eq!(user_templates_dir("/"), "/.config/tinyspec/templates");
    assert_eq!(TemplateSource::Repo.to_string(), "repo");
    assert_eq!(TemplateSource::User.to_string(), "user");
}

#[test]
fn repo_templates_shadow_user_templates() {
    let repo = vec![template("rust-lib", TemplateSource::Repo), template("default", TemplateSource::Repo)];
    let user = vec![
        template("zeta", TemplateSource::User),
        template("default", TemplateSource::User),
        template("alpha", TemplateSource::User),
    ];
    let all = collect_templates(repo, user);
    let seen: Vec<(&str, TemplateSource)> = all.iter().map(|t| (t.name.as_str(), t.source)).collect();
    assert_eq!(
        seen,
        [
            ("alpha", TemplateSource::User),
            ("default", TemplateSource::Repo),
            ("rust-lib", TemplateSource::Repo),
            ("zeta", TemplateSource::User),
        ]
    );
    assert_eq!(all[1].path, ".specs/templates/default.md");
    assert!(collect_templates(Vec::new(), Vec::new()).is_empty());
}

#[test]
fn finding_a_template_by_name() {
    let repo = || vec![template("default", TemplateSource::Repo)];
    let user = || vec![template("default", TemplateSource::User), template("mine", TemplateSource::User)];
    let found = find_template(repo(), user(), "default").unwrap();
    assert_eq!(found.source, TemplateSource::Repo);
    let found = find_template(repo(), user(), "mine").unwrap();
    assert_eq!(found.path, "/home/u/.config/tinyspec/templates/mine.md");
    let missing = find_template(repo(), user(), "nonexistent").unwrap_err();
    assert_eq!(missing, "No template found matching 'nonexistent'");
}
