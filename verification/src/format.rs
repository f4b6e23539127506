//! Formatting of a document's Markdown: the front matter is told from the
//! body and kept as it is, the body is parsed and rendered again in one
//! fixed style, and the two are put together.

use crate::text::{chars_of, chars_start_with, find_sub, find_sub_in, starts_with};
use pulldown_cmark::{Options, Parser};
use pulldown_cmark_to_cmark::cmark_with_options;
use vstd::prelude::*;
use vstd::slice::slice_subrange;

verus! {

// ---------------------------------------------------------------------------
// Front matter
// ---------------------------------------------------------------------------

/// What the front matter of a document says, as far as it is read.
#[derive(Debug)]
pub struct FrontMatter {
    pub title: Option<String>,
    pub applications: Vec<String>,
}

/// The line that opens the front matter, with its line feed.
pub open spec fn front_matter_open() -> Seq<char> {
    "---\n"@
}

/// The line that closes the front matter, with the line feeds around it.
pub open spec fn front_matter_close() -> Seq<char> {
    "\n---\n"@
}

/// Where the body of `content` begins: behind the front matter, which is the
/// text from an opening `---` line at the very start up to the first `---`
/// line after it. Zero where `content` has no front matter.
pub open spec fn body_start(content: Seq<char>) -> int {
    if starts_with(content, front_matter_open()) {
        let rest = content.skip(4);
        let end = find_sub(rest, front_matter_close());
        if 0 <= end < rest.len() {
            4 + end + 5
        } else {
            0
        }
    } else {
        0
    }
}

/// The front matter of `content`, its two delimiter lines included.
pub open spec fn front_matter_of(content: Seq<char>) -> Option<Seq<char>> {
    if body_start(content) > 0 {
        Some(content.take(body_start(content)))
    } else {
        None
    }
}

/// The body of `content`: what follows the front matter, or all of it.
pub open spec fn body_of(content: Seq<char>) -> Seq<char> {
    content.skip(body_start(content))
}

/// The YAML text between the delimiters of the front matter: what stands
/// between an opening `---` line at the very start and the first line feed
/// that is followed by `---`.
pub open spec fn front_matter_yaml_of(content: Seq<char>) -> Option<Seq<char>> {
    if starts_with(content, front_matter_open()) {
        let rest = content.skip(4);
        let end = find_sub(rest, "\n---"@);
        if 0 <= end < rest.len() {
            Some(rest.take(end))
        } else {
            None
        }
    } else {
        None
    }
}

/// The bounds of a search.
proof fn lemma_found_within(s: Seq<char>, p: Seq<char>)
    requires
        p.len() > 0,
    ensures
        0 <= find_sub(s, p) <= s.len(),
        find_sub(s, p) < s.len() ==> find_sub(s, p) + p.len() <= s.len(),
    decreases s.len(),
{
    if s.len() > 0 && !starts_with(s, p) {
        lemma_found_within(s.drop_first(), p);
    }
}

/// Splits the front matter from the Markdown body. Returns the front matter
/// with its delimiters, where there is one, and the body.
pub fn split_front_matter(content: &str) -> (parts: (Option<&str>, &str))
    ensures
        crate::text::text_of_str(parts.0) == front_matter_of(content@),
        parts.1@ == body_of(content@),
{
    proof {
        reveal_strlit("---\n");
        reveal_strlit("\n---\n");
    }
    let chars = chars_of(content);
    let len: usize = chars.len();
    let open = chars_of("---\n");
    let close = chars_of("\n---\n");
    if chars_start_with(chars.as_slice(), open.as_slice()) {
        let rest = slice_subrange(chars.as_slice(), 4, len);
        let end: usize = find_sub_in(rest, close.as_slice());
        proof {
            lemma_found_within(rest@, close@);
        }
        if end < rest.len() {
            let split: usize = 4 + end + 5;
            return (Some(content.substring_char(0, split)), content.substring_char(split, len));
        }
    }
    assert(content@.skip(0) =~= content@);
    (None, content)
}

/// The YAML text of the front matter of `content`, where it has one.
pub fn front_matter_yaml(content: &str) -> (yaml: Option<&str>)
    ensures
        crate::text::text_of_str(yaml) == front_matter_yaml_of(content@),
{
    proof {
        reveal_strlit("---\n");
    }
    let chars = chars_of(content);
    let len: usize = chars.len();
    let open = chars_of("---\n");
    let close = chars_of("\n---");
    if chars_start_with(chars.as_slice(), open.as_slice()) {
        let rest = slice_subrange(chars.as_slice(), 4, len);
        let end: usize = find_sub_in(rest, close.as_slice());
        if end < rest.len() {
            return Some(content.substring_char(4, 4 + end));
        }
    }
    None
}

// ---------------------------------------------------------------------------
// Rendering
// ---------------------------------------------------------------------------

/// The extensions of Markdown that the parser is to know.
#[derive(Debug, Clone, Copy, PartialEq, Eq, Structural)]
pub struct MarkdownExtensions {
    pub tasklists: bool,
    pub tables: bool,
    pub strikethrough: bool,
    pub yaml_metadata: bool,
}

/// The style in which Markdown is written out: the number of line feeds
/// after each kind of block, the length of a code fence and the character
/// that starts a list item.
#[derive(Debug, Clone, Copy, PartialEq, Eq, Structural)]
pub struct MarkdownStyle {
    pub after_headline: usize,
    pub after_paragraph: usize,
    pub after_codeblock: usize,
    pub after_table: usize,
    pub after_rule: usize,
    pub after_list: usize,
    pub after_blockquote: usize,
    pub after_rest: usize,
    pub fence_length: usize,
    pub list_token: char,
}

/// The extensions that documents are written with: task lists, tables,
/// strikethrough and YAML metadata blocks.
pub open spec fn spec_extensions() -> MarkdownExtensions {
    MarkdownExtensions { tasklists: true, tables: true, strikethrough: true, yaml_metadata: true }
}

/// The style of documents: two line feeds after every block and one after
/// anything else, fences of three, and `-` for list items.
pub open spec fn spec_style() -> MarkdownStyle {
    MarkdownStyle {
        after_headline: 2,
        after_paragraph: 2,
        after_codeblock: 2,
        after_table: 2,
        after_rule: 2,
        after_list: 2,
        after_blockquote: 2,
        after_rest: 1,
        fence_length: 3,
        list_token: '-',
    }
}

/// The failure of the renderer.
#[verifier::external_type_specification]
#[verifier::external_body]
pub struct ExRenderError(pulldown_cmark_to_cmark::Error);

/// The Markdown `body`, parsed with `extensions` and written out again in
/// `style`: what `pulldown_cmark_to_cmark::cmark_with_options` writes for the
/// events of `pulldown_cmark::Parser::new_ext`. `None` where it fails.
pub uninterp spec fn rendered_markdown(
    body: Seq<char>,
    extensions: MarkdownExtensions,
    style: MarkdownStyle,
) -> Option<Seq<char>>;

/// Parses `body` with `pulldown_cmark::Parser::new_ext` and renders the
/// events with `pulldown_cmark_to_cmark::cmark_with_options` into a string.
/// The outcome depends on the three arguments alone and is given the name
/// `rendered_markdown`; nothing is claimed of what the text looks like.
#[verifier::external_body]
fn render_markdown(body: &str, extensions: MarkdownExtensions, style: MarkdownStyle) -> (r: Result<
    String,
    pulldown_cmark_to_cmark::Error,
>)
    ensures
        match r {
            Ok(text) => rendered_markdown(body@, extensions, style) == Some(text@),
            Err(_) => rendered_markdown(body@, extensions, style) is None,
        },
{
    let mut flags = Options::empty();
    flags.set(Options::ENABLE_TASKLISTS, extensions.tasklists);
    flags.set(Options::ENABLE_TABLES, extensions.tables);
    flags.set(Options::ENABLE_STRIKETHROUGH, extensions.strikethrough);
    flags.set(Options::ENABLE_YAML_STYLE_METADATA_BLOCKS, extensions.yaml_metadata);
    let options = pulldown_cmark_to_cmark::Options {
        newlines_after_headline: style.after_headline, newlines_after_paragraph: style.after_paragraph,
        newlines_after_codeblock: style.after_codeblock, newlines_after_table: style.after_table,
        newlines_after_rule: style.after_rule, newlines_after_list: style.after_list,
        newlines_after_blockquote: style.after_blockquote, newlines_after_rest: style.after_rest,
        code_block_token_count: style.fence_length, list_token: style.list_token, ..Default::default()
    };
    let mut text = String::new();
    cmark_with_options(Parser::new_ext(body, flags), &mut text, options).map(|_| text)
}

/// What the renderer's failure says: the text that its `Display` writes.
/// Nothing is claimed of it.
#[verifier::external_body]
fn render_error_text(error: &pulldown_cmark_to_cmark::Error) -> (text: String) {
    error.to_string()
}

/// The style and the extensions of documents.
fn document_format() -> (format: (MarkdownExtensions, MarkdownStyle))
    ensures
        format.0 == spec_extensions(),
        format.1 == spec_style(),
{
    (
        MarkdownExtensions {
            tasklists: true,
            tables: true,
            strikethrough: true,
            yaml_metadata: true,
        },
        MarkdownStyle {
            after_headline: 2,
            after_paragraph: 2,
            after_codeblock: 2,
            after_table: 2,
            after_rule: 2,
            after_list: 2,
            after_blockquote: 2,
            after_rest: 1,
            fence_length: 3,
            list_token: '-',
        },
    )
}

/// `s`, with a line feed added unless it ends with one.
pub open spec fn newline_ended(s: Seq<char>) -> Seq<char> {
    if s.len() > 0 && s.last() == '\n' {
        s
    } else {
        s.push('\n')
    }
}

/// The formatted document: the front matter as it was, a line feed unless
/// the rendered body starts with one, the rendered body, and a line feed at
/// the end unless there is one.
pub open spec fn assembled(front_matter: Option<Seq<char>>, body: Seq<char>) -> Seq<char> {
    match front_matter {
        Some(fm) => if body.len() > 0 && body[0] == '\n' {
            newline_ended(fm + body)
        } else {
            newline_ended(fm + seq!['\n'] + body)
        },
        None => newline_ended(body),
    }
}

/// What the failure of the renderer is reported with, before its own words.
pub open spec fn format_failure_prefix() -> Seq<char> {
    "Failed to format markdown: "@
}

/// Puts the front matter and the rendered body together.
pub fn assemble_document(front_matter: Option<&str>, formatted_body: &str) -> (result: String)
    ensures
        result@ == assembled(crate::text::text_of_str(front_matter), formatted_body@),
{
    let mut result = String::new();
    let body_len: usize = formatted_body.unicode_len();
    if let Some(fm) = front_matter {
        result.append(fm);
        if !(body_len > 0 && formatted_body.get_char(0) == '\n') {
            result.push('\n');
        }
    }
    result.append(formatted_body);
    let held = chars_of(result.as_str());
    let len: usize = held.len();
    if !(len > 0 && held[len - 1] == '\n') {
        result.push('\n');
    }
    assert(result@ =~= assembled(crate::text::text_of_str(front_matter), formatted_body@));
    result
}

/// Formats a document: its body is parsed as Markdown and rendered again in
/// the style of documents; its front matter stays word for word.
pub fn format_markdown(content: &str) -> (formatted: Result<String, String>)
    ensures
        match formatted {
            Ok(text) => rendered_markdown(body_of(content@), spec_extensions(), spec_style())
                matches Some(body) && text@ == assembled(front_matter_of(content@), body),
            Err(message) => rendered_markdown(body_of(content@), spec_extensions(), spec_style())
                is None && starts_with(message@, format_failure_prefix()),
        },
{
    let (front_matter, body) = split_front_matter(content);
    let (extensions, style) = document_format();
    match render_markdown(body, extensions, style) {
        Ok(formatted_body) => Ok(assemble_document(front_matter, formatted_body.as_str())),
        Err(e) => {
            let mut message = String::from_str("Failed to format markdown: ");
            let ghost prefix = message@;
            message.append(render_error_text(&e).as_str());
            assert(message@.take(prefix.len() as int) =~= prefix);
            Err(message)
        },
    }
}

} // verus!
