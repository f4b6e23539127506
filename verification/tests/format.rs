use tinyspec::format::{assemble_document, format_markdown, front_matter_yaml, split_front_matter};

#[test]
fn front_matter_is_split_from_the_body() {
    assert_eq!(
        split_front_matter("---\ntitle: T\n---\n\n# Body\n"),
        (Some("---\ntitle: T\n---\n"), "\n# Body\n")
    );
    assert_eq!(split_front_matter("---\n\n---\nbody"), (Some("---\n\n---\n"), "body"));
    assert_eq!(split_front_matter("---\na\n---\n"), (Some("---\na\n---\n"), ""));
    assert_eq!(
        split_front_matter("---\na\n---\nb\n---\nc"),
        (Some("---\na\n---\n"), "b\n---\nc")
    );
}

#[test]
fn text_without_front_matter_is_all_body() {
    for text in ["", "# Body\n", "---\nnever closed\n", " ---\na\n---\n", "---\na\n---", "---\n---\n", "----\na\n---\n"] {
        assert_eq!(split_front_matter(text), (None, text), "{:?}", text);
    }
}

#[test]
fn yaml_of_the_front_matter() {
    assert_eq!(front_matter_yaml("---\ntitle: T\n---\n# Body"), Some("title: T"));
    assert_eq!(front_matter_yaml("---\ntitle: T\napplications:\n  - a\n---"), Some("title: T\napplications:\n  - a"));
    assert_eq!(front_matter_yaml("---\n\n---\n"), Some(""));
    assert_eq!(front_matter_yaml("---\na\n----\n"), Some("a"));
    assert_eq!(front_matter_yaml("---\n---\n"), None);
    assert_eq!(front_matter_yaml("---\ntitle: T\n"), None);
    assert_eq!(front_matter_yaml("title: T\n---\n"), None);
    assert_eq!(front_matter_yaml(""), None);
}

#[test]
fn front_matter_and_body_are_put_together() {
    assert_eq!(assemble_document(None, "# A\n"), "# A\n");
    assert_eq!(assemble_document(None, "# A"), "# A\n");
    assert_eq!(assemble_document(None, ""), "\n");
    assert_eq!(assemble_document(Some("---\nt\n---\n"), "# A"), "---\nt\n---\n\n# A\n");
    assert_eq!(assemble_document(Some("---\nt\n---\n"), "\n# A\n"), "---\nt\n---\n\n# A\n");
    assert_eq!(assemble_document(Some("---\nt\n---\n"), ""), "---\nt\n---\n\n");
}

#[test]
fn formatting_renders_the_body_in_the_style_of_documents() {
    assert_eq!(
        format_markdown("# Title\nText\n* one\n* two\n").unwrap(),
        "# Title\n\nText\n\n- one\n- two\n"
    );
    assert_eq!(
        format_markdown("---\ntitle: T\n---\n# Plan\n\n\n\n- [ ] A: x\n    - [x] A.1: y\n").unwrap(),
        "---\ntitle: T\n---\n\n# Plan\n\n- [ ] A: x\n  - [x] A.1: y\n"
    );
    assert_eq!(format_markdown("").unwrap(), "\n");
    assert_eq!(format_markdown("````\ncode\n````\n").unwrap(), "\n```\ncode\n```\n");
}
