//! What a new document is made of: the name of its file, its title, and its
//! first text, from a template or from the built-in outline.

use crate::summary::{extract_spec_name, spec_name};
use crate::text::{
    chars_of, find_char, find_char_in, push_chars, replace_all, replaced, str_eq, text_of_str,
};
use vstd::prelude::*;
use vstd::slice::slice_subrange;

verus! {

// ---------------------------------------------------------------------------
// The title
// ---------------------------------------------------------------------------

/// The uppercase form of `c`, which may be more than one character: what
/// `char::to_uppercase` of the standard library yields for `c`.
pub uninterp spec fn uppercase_of(c: char) -> Seq<char>;

/// Collects what `char::to_uppercase` yields for `c`. It depends on the
/// character alone and is given the name `uppercase_of`.
#[verifier::external_body]
fn uppercase(c: char) -> (upper: String)
    ensures
        upper@ == uppercase_of(c),
{
    c.to_uppercase().collect()
}

/// The word with its first character in uppercase.
pub open spec fn capitalized(word: Seq<char>) -> Seq<char> {
    if word.len() == 0 {
        word
    } else {
        uppercase_of(word[0]) + word.skip(1)
    }
}

/// The title for the name `name`: the words between its hyphens, each
/// capitalized, with single spaces between them.
pub open spec fn title_of(name: Seq<char>) -> Seq<char>
    decreases name.len(),
{
    let hyphen = find_char(name, '-');
    if 0 <= hyphen < name.len() {
        capitalized(name.take(hyphen)) + seq![' '] + title_of(name.skip(hyphen + 1))
    } else {
        capitalized(name)
    }
}

/// Makes the title of a document from its name in kebab case.
pub fn title_case(name: &str) -> (title: String)
    ensures
        title@ == title_of(name@),
{
    let held = chars_of(name);
    let chars = held.as_slice();
    let len: usize = chars.len();
    let mut title = String::new();
    let mut start: usize = 0;
    assert(chars@.skip(0) == chars@);
    assert(title@ + title_of(chars@) =~= title_of(name@));
    loop
        invariant_except_break
            title_of(name@) == title@ + title_of(chars@.skip(start as int)),
        invariant
            start <= len,
            len == chars@.len(),
            chars@ == name@,
        ensures
            title@ == title_of(name@),
        decreases len - start,
    {
        let rest = slice_subrange(chars, start, len);
        let hyphen: usize = find_char_in(rest, '-');
        let word = slice_subrange(rest, 0, hyphen);
        let ghost before = title@;
        if hyphen > 0 {
            title.append(uppercase(word[0]).as_str());
            push_chars(&mut title, slice_subrange(word, 1, hyphen));
        }
        assert(title@ =~= before + capitalized(word@));
        if hyphen < rest.len() {
            title.push(' ');
            proof {
                assert(rest@.skip(hyphen + 1) == chars@.skip(start + hyphen + 1));
                assert(before + title_of(rest@) =~= title@ + title_of(rest@.skip(hyphen + 1)));
            }
            start = start + hyphen + 1;
        } else {
            assert(word@ =~= rest@);
            assert(before + title_of(rest@) =~= title@);
            break ;
        }
    }
    title
}

// ---------------------------------------------------------------------------
// The file name
// ---------------------------------------------------------------------------

/// The pattern of the timestamp that a file name begins with.
pub open spec fn stamp_pattern() -> Seq<char> {
    "%Y-%m-%d-%H-%M"@
}

/// The pattern of the date that a template's `{{date}}` stands for.
pub open spec fn date_pattern() -> Seq<char> {
    "%Y-%m-%d"@
}

/// Formats the local time of the moment with `chrono::Local::now` and
/// `format`. The text depends on the clock, so nothing is claimed of it. The
/// two patterns admitted are well-formed; `chrono` panics when it is to write
/// a time with a pattern that is not. It also panics where the clock of the
/// machine stands before the year 1970, which no condition on the arguments
/// can rule out.
#[verifier::external_body]
fn local_time(pattern: &str) -> (text: String)
    requires
        pattern@ == stamp_pattern() || pattern@ == date_pattern(),
{
    chrono::Local::now().format(pattern).to_string()
}

/// The name of the file of the document `name` made at `stamp`.
pub open spec fn filename_of(stamp: Seq<char>, name: Seq<char>) -> Seq<char> {
    stamp + seq!['-'] + name + ".md"@
}

/// The name of the file of the document `name` made at the time that `stamp`
/// writes out.
pub fn spec_filename(stamp: &str, name: &str) -> (filename: String)
    ensures
        filename@ == filename_of(stamp@, name@),
{
    let mut filename = String::from_str(stamp);
    filename.push('-');
    filename.append(name);
    filename.append(".md");
    filename
}

/// The name of the file of the document `name` made now. It begins with the
/// local time of the moment, whatever that is.
pub fn new_spec_filename(name: &str) -> (filename: String)
    ensures
        exists|stamp: Seq<char>| filename@ == filename_of(stamp, name@),
{
    let stamp = local_time("%Y-%m-%d-%H-%M");
    let filename = spec_filename(stamp.as_str(), name);
    assert(filename@ == filename_of(stamp@, name@));
    filename
}

/// The position of the first file of `filenames` that holds a document named
/// `name`, or their number where none does.
pub open spec fn first_holding(filenames: Seq<Seq<char>>, name: Seq<char>) -> int
    decreases filenames.len(),
{
    if filenames.len() == 0 || spec_name(filenames[0]) == Some(name) {
        0
    } else {
        1 + first_holding(filenames.drop_first(), name)
    }
}

/// `first_holding` is the least position of a file that holds the document.
pub proof fn lemma_first_holding(filenames: Seq<Seq<char>>, name: Seq<char>, n: int)
    requires
        0 <= n <= filenames.len(),
        forall|k: int| 0 <= k < n ==> spec_name(#[trigger] filenames[k]) != Some(name),
        n < filenames.len() ==> spec_name(filenames[n]) == Some(name),
    ensures
        first_holding(filenames, name) == n,
    decreases n,
{
    if n > 0 {
        let r = filenames.drop_first();
        assert(spec_name(filenames[0]) != Some(name));
        assert forall|k: int| 0 <= k < n - 1 implies spec_name(#[trigger] r[k]) != Some(name) by {
            assert(r[k] == filenames[k + 1]);
        }
        lemma_first_holding(r, name, n - 1);
    }
}

/// Looks for a document named `name` among the files of the collection, in
/// whatever group. Returns the position of the first file that holds one.
pub fn existing_spec(filenames: &Vec<String>, name: &str) -> (found: Option<usize>)
    ensures
        match found {
            Some(i) => i == first_holding(crate::text::texts(filenames@), name@) && i
                < filenames@.len(),
            None => first_holding(crate::text::texts(filenames@), name@) == filenames@.len(),
        },
{
    let ghost all = crate::text::texts(filenames@);
    let mut k: usize = 0;
    while k < filenames.len()
        invariant
            k <= filenames@.len(),
            all == crate::text::texts(filenames@),
            forall|i: int| 0 <= i < k ==> spec_name(#[trigger] all[i]) != Some(name@),
        decreases filenames@.len() - k,
    {
        let holds = match extract_spec_name(filenames[k].as_str()) {
            Some(n) => str_eq(n, name),
            None => false,
        };
        if holds {
            proof {
                assert(all[k as int] == filenames@[k as int]@);
                lemma_first_holding(all, name@, k as int);
            }
            return Some(k);
        }
        assert(all[k as int] == filenames@[k as int]@);
        k += 1;
    }
    proof {
        lemma_first_holding(all, name@, k as int);
    }
    None
}

/// The message for a name that a document already has.
pub open spec fn duplicate_message(name: Seq<char>, path: Seq<char>) -> Seq<char> {
    "A spec named '"@ + name + "' already exists: "@ + path
}

/// The message that the document `name` already exists at `path`.
pub fn duplicate_spec_message(name: &str, path: &str) -> (message: String)
    ensures
        message@ == duplicate_message(name@, path@),
{
    let mut message = String::from_str("A spec named '");
    message.append(name);
    message.append("' already exists: ");
    message.append(path);
    message
}

// ---------------------------------------------------------------------------
// The first text
// ---------------------------------------------------------------------------

/// The outline of a document up to its title.
pub open spec fn outline_head() -> Seq<char> {
    "---\ntinySpec: v0\ntitle: "@
}

/// The outline of a document behind its title.
pub open spec fn outline_tail() -> Seq<char> {
    "\napplications:\n    -\n---\n\n# Background\n\n\n\n# Proposal\n\n\n\n# Implementation Plan\n\n\n\n# Test Plan\n\n"@
}

/// The first text of a document with the title `title`. Made from a
/// template, it is the template's text with `{{title}}` replaced by the title
/// and then `{{date}}` by the date; without one, it is the built-in outline
/// with the title in its front matter.
pub open spec fn first_text(template: Option<Seq<char>>, title: Seq<char>, date: Seq<char>) -> Seq<
    char,
> {
    match template {
        Some(raw) => replaced(replaced(raw, "{{title}}"@, title), "{{date}}"@, date),
        None => outline_head() + title + outline_tail(),
    }
}

/// The first text of a document with the title `title`, made on `date`.
pub fn spec_content(template: Option<&str>, title: &str, date: &str) -> (content: String)
    ensures
        content@ == first_text(text_of_str(template), title@, date@),
{
    match template {
        Some(raw) => {
            let titled = replace_all(raw, "{{title}}", title);
            replace_all(titled.as_str(), "{{date}}", date)
        },
        None => {
            let mut content = String::from_str("---\ntinySpec: v0\ntitle: ");
            content.append(title);
            content.append(
                "\napplications:\n    -\n---\n\n# Background\n\n\n\n# Proposal\n\n\n\n# Implementation Plan\n\n\n\n# Test Plan\n\n",
            );
            content
        },
    }
}

/// The first text of a document with the title `title`, made today. A
/// template's `{{date}}` stands for the local date of the moment, whatever
/// that is.
pub fn new_spec_content(template: Option<&str>, title: &str) -> (content: String)
    ensures
        exists|date: Seq<char>| content@ == first_text(text_of_str(template), title@, date),
{
    let date = local_time("%Y-%m-%d");
    let content = spec_content(template, title, date.as_str());
    assert(content@ == first_text(text_of_str(template), title@, date@));
    content
}

/// The message for a document that was made.
pub open spec fn created_message(filename: Seq<char>) -> Seq<char> {
    "Created spec: "@ + filename
}

/// The message that the document in the file `filename` was made.
pub fn created_spec_message(filename: &str) -> (message: String)
    ensures
        message@ == created_message(filename@),
{
    let mut message = String::from_str("Created spec: ");
    message.append(filename);
    message
}

} // verus!
