//! What setting up a repository for the tool decides: which files of an
//! earlier setup are to go, which files of a directory are documents, and
//! what the user is told about shell completion.

use crate::text::{
    chars_end_with, chars_of, chars_start_with, contains_sub, ends_with, find_sub_in, starts_with,
};
use vstd::prelude::*;

verus! {

/// The shells that completion is explained for.
#[derive(Debug, Clone, Copy, PartialEq, Eq, Structural)]
pub enum Shell {
    Zsh,
    Fish,
    Bash,
}

/// The shell that the path `shell` of the user's shell stands for: `zsh`
/// where the path holds that word, else `fish` where it holds that one, and
/// `bash` otherwise.
pub open spec fn shell_of(shell: Seq<char>) -> Shell {
    if contains_sub(shell, "zsh"@) {
        Shell::Zsh
    } else if contains_sub(shell, "fish"@) {
        Shell::Fish
    } else {
        Shell::Bash
    }
}

/// Where the user is told to put the line that sets up completion.
pub open spec fn completion_place(shell: Shell) -> Seq<char> {
    match shell {
        Shell::Zsh => "  Add this to your ~/.zshrc:"@,
        Shell::Fish => "  Add this to your fish config:"@,
        Shell::Bash => "  Add this to your ~/.bashrc:"@,
    }
}

/// The line that sets up completion.
pub open spec fn completion_line(shell: Shell) -> Seq<char> {
    match shell {
        Shell::Zsh => "  source <(COMPLETE=zsh tinyspec)"@,
        Shell::Fish => "  COMPLETE=fish tinyspec | source"@,
        Shell::Bash => "  source <(COMPLETE=bash tinyspec)"@,
    }
}

/// Whether `word` occurs in `text`.
fn holds_word(text: &[char], word: &str) -> (r: bool)
    requires
        word@.len() > 0,
    ensures
        r == contains_sub(text@, word@),
{
    let held = chars_of(word);
    find_sub_in(text, held.as_slice()) < text.len()
}

/// The shell that the path `shell` of the user's shell stands for.
pub fn detect_shell(shell: &str) -> (detected: Shell)
    ensures
        detected == shell_of(shell@),
{
    proof {
        reveal_strlit("zsh");
        reveal_strlit("fish");
    }
    let held = chars_of(shell);
    if holds_word(held.as_slice(), "zsh") {
        Shell::Zsh
    } else if holds_word(held.as_slice(), "fish") {
        Shell::Fish
    } else {
        Shell::Bash
    }
}

/// The two lines that tell the user how to set up completion for the shell
/// at the path `shell`: where to put the line, and the line.
pub fn completion_hint(shell: &str) -> (hint: (String, String))
    ensures
        hint.0@ == completion_place(shell_of(shell@)),
        hint.1@ == completion_line(shell_of(shell@)),
{
    match detect_shell(shell) {
        Shell::Zsh => (
            String::from_str("  Add this to your ~/.zshrc:"),
            String::from_str("  source <(COMPLETE=zsh tinyspec)"),
        ),
        Shell::Fish => (
            String::from_str("  Add this to your fish config:"),
            String::from_str("  COMPLETE=fish tinyspec | source"),
        ),
        Shell::Bash => (
            String::from_str("  Add this to your ~/.bashrc:"),
            String::from_str("  source <(COMPLETE=bash tinyspec)"),
        ),
    }
}

/// Whether a file of the name `name` is a command file of an earlier setup:
/// its name begins with `tinyspec` and ends with `.md`.
pub open spec fn legacy_command(name: Seq<char>) -> bool {
    starts_with(name, "tinyspec"@) && ends_with(name, ".md"@)
}

/// Whether a directory of the name `name` holds a skill of the tool: its
/// name begins with `tinyspec-`.
pub open spec fn skill_directory(name: Seq<char>) -> bool {
    starts_with(name, "tinyspec-"@)
}

/// Whether a file of the name `name` is a Markdown file: its name ends with
/// `.md`.
pub open spec fn markdown_file(name: Seq<char>) -> bool {
    ends_with(name, ".md"@)
}

/// Whether a file of the name `name` is a command file of an earlier setup.
pub fn is_legacy_command(name: &str) -> (r: bool)
    ensures
        r == legacy_command(name@),
{
    let held = chars_of(name);
    let head = chars_of("tinyspec");
    let tail = chars_of(".md");
    chars_start_with(held.as_slice(), head.as_slice()) && chars_end_with(
        held.as_slice(),
        tail.as_slice(),
    )
}

/// Whether a directory of the name `name` holds a skill of the tool.
pub fn is_skill_directory(name: &str) -> (r: bool)
    ensures
        r == skill_directory(name@),
{
    let held = chars_of(name);
    let head = chars_of("tinyspec-");
    chars_start_with(held.as_slice(), head.as_slice())
}

/// Whether a file of the name `name` is a Markdown file.
pub fn is_markdown_file(name: &str) -> (r: bool)
    ensures
        r == markdown_file(name@),
{
    let held = chars_of(name);
    let tail = chars_of(".md");
    chars_end_with(held.as_slice(), tail.as_slice())
}

/// Whether a directory of the name `name` is kept for templates and holds
/// no documents.
pub open spec fn templates_directory(name: Seq<char>) -> bool {
    name == "templates"@
}

/// Whether a file of the name `name` has the extension `md`: its name ends
/// with `.md` and is more than that.
pub open spec fn markdown_extension(name: Seq<char>) -> bool {
    ends_with(name, ".md"@) && name.len() > 3
}

/// Whether a directory of the name `name` is kept for templates.
pub fn is_templates_directory(name: &str) -> (r: bool)
    ensures
        r == templates_directory(name@),
{
    let held = chars_of(name);
    let word = chars_of("templates");
    crate::text::chars_eq(held.as_slice(), word.as_slice())
}

/// Whether a file of the name `name` has the extension `md`.
pub fn has_markdown_extension(name: &str) -> (r: bool)
    ensures
        r == markdown_extension(name@),
{
    let held = chars_of(name);
    let tail = chars_of(".md");
    chars_end_with(held.as_slice(), tail.as_slice()) && held.len() > 3
}

} // verus!
