//! The names of documents and groups: which names are accepted, how a name
//! is told from its group, and how a document is found by its name among the
//! files of the collection.

use crate::summary::{extract_spec_name, spec_name};
use crate::text::{
    chars_of, chars_start_with, contains_sub, find_char, find_char_in, find_sub_in,
    lemma_lex_lt_irreflexive, lex_lt, starts_with, str_eq, str_less, texts, text_of, text_of_str,
};
use vstd::prelude::*;

verus! {

// ---------------------------------------------------------------------------
// Kebab case
// ---------------------------------------------------------------------------

/// Whether `c` may stand in a name: a lowercase ASCII letter, an ASCII digit
/// or a hyphen.
pub open spec fn is_kebab_char(c: char) -> bool {
    ('a' <= c && c <= 'z') || ('0' <= c && c <= '9') || c == '-'
}

/// Whether `name` is in kebab case: lowercase letters, digits and single
/// hyphens, with no hyphen at either end.
pub open spec fn is_kebab_case(name: Seq<char>) -> bool {
    &&& name.len() > 0
    &&& forall|i: int| 0 <= i < name.len() ==> is_kebab_char(#[trigger] name[i])
    &&& name.first() != '-'
    &&& name.last() != '-'
    &&& !contains_sub(name, "--"@)
}

/// The message for an empty name.
pub open spec fn empty_name_message() -> Seq<char> {
    "Spec name cannot be empty"@
}

/// The message for a name that is not in kebab case.
pub open spec fn invalid_name_message(name: Seq<char>) -> Seq<char> {
    "Invalid spec name '"@ + name
        + "'. Names must be kebab-case (lowercase letters, numbers, and single hyphens). Example: my-feature"@
}

/// The message for a group name that is not in kebab case.
pub open spec fn invalid_group_message(group: Seq<char>) -> Seq<char> {
    "Invalid group name '"@ + group
        + "'. Group names must be kebab-case (lowercase letters, numbers, and single hyphens)."@
}

/// The message for a name with more than one level of grouping.
pub open spec fn nested_group_message() -> Seq<char> {
    "Only single-level grouping is supported (e.g. v1/feature, not v1/sub/feature)"@
}

/// What the check of `name` gives: nothing to object to, or the message that
/// says what is wrong.
pub open spec fn kebab_case_verdict(name: Seq<char>) -> Result<(), Seq<char>> {
    if name.len() == 0 {
        Err(empty_name_message())
    } else if is_kebab_case(name) {
        Ok(())
    } else {
        Err(invalid_name_message(name))
    }
}

/// The message that a result carries, if it carries one.
pub open spec fn message_of<T>(r: Result<T, String>) -> Option<Seq<char>> {
    match r {
        Ok(_) => None,
        Err(m) => Some(m@),
    }
}

/// Whether `c` may stand in a name.
fn kebab_char(c: char) -> (r: bool)
    ensures
        r == is_kebab_char(c),
{
    ('a' <= c && c <= 'z') || ('0' <= c && c <= '9') || c == '-'
}

/// Whether `name` is in kebab case.
fn kebab_case(name: &[char]) -> (r: bool)
    ensures
        r == is_kebab_case(name@),
{
    let len: usize = name.len();
    if len == 0 {
        return false;
    }
    let mut i: usize = 0;
    while i < len
        invariant
            i <= len,
            len == name@.len(),
            forall|k: int| 0 <= k < i ==> is_kebab_char(#[trigger] name@[k]),
        decreases len - i,
    {
        if !kebab_char(name[i]) {
            return false;
        }
        i += 1;
    }
    if name[0] == '-' || name[len - 1] == '-' {
        return false;
    }
    let double = chars_of("--");
    proof {
        reveal_strlit("--");
    }
    find_sub_in(name, double.as_slice()) >= len
}

/// Checks that `name` is in kebab case.
pub fn validate_kebab_case(name: &str) -> (verdict: Result<(), String>)
    ensures
        verdict is Ok <==> is_kebab_case(name@),
        message_of(verdict) == (match kebab_case_verdict(name@) {
            Ok(_) => None,
            Err(m) => Some(m),
        }),
{
    let chars = chars_of(name);
    if chars.len() == 0 {
        return Err(String::from_str("Spec name cannot be empty"));
    }
    if !kebab_case(chars.as_slice()) {
        let mut message = String::from_str("Invalid spec name '");
        message.append(name);
        message.append(
            "'. Names must be kebab-case (lowercase letters, numbers, and single hyphens). Example: my-feature",
        );
        return Err(message);
    }
    Ok(())
}

// ---------------------------------------------------------------------------
// Group and name
// ---------------------------------------------------------------------------

/// What `input` names: a document of a group, written `group/name`, or a
/// document outside any group. Group and name are in kebab case, and there is
/// one level of groups only.
pub open spec fn spec_input(input: Seq<char>) -> Result<(Option<Seq<char>>, Seq<char>), Seq<char>> {
    let slash = find_char(input, '/');
    if 0 <= slash < input.len() {
        let group = input.take(slash);
        let name = input.skip(slash + 1);
        if find_char(name, '/') < name.len() {
            Err(nested_group_message())
        } else if !is_kebab_case(group) {
            Err(invalid_group_message(group))
        } else {
            match kebab_case_verdict(name) {
                Ok(_) => Ok((Some(group), name)),
                Err(m) => Err(m),
            }
        }
    } else {
        match kebab_case_verdict(input) {
            Ok(_) => Ok((None, input)),
            Err(m) => Err(m),
        }
    }
}

/// Parses what the user gave for a document: `name`, or `group/name`.
/// Returns the group, if there is one, and the name.
pub fn parse_spec_input(input: &str) -> (parsed: Result<(Option<&str>, &str), String>)
    ensures
        match parsed {
            Ok((group, name)) => spec_input(input@) == Ok::<
                (Option<Seq<char>>, Seq<char>),
                Seq<char>,
            >((text_of_str(group), name@)),
            Err(m) => spec_input(input@) == Err::<(Option<Seq<char>>, Seq<char>), Seq<char>>(m@),
        },
{
    let chars = chars_of(input);
    let len: usize = chars.len();
    let slash: usize = find_char_in(chars.as_slice(), '/');
    if slash < len {
        let group = input.substring_char(0, slash);
        let name = input.substring_char(slash + 1, len);
        let name_chars = chars_of(name);
        if find_char_in(name_chars.as_slice(), '/') < name_chars.len() {
            return Err(
                String::from_str(
                    "Only single-level grouping is supported (e.g. v1/feature, not v1/sub/feature)",
                ),
            );
        }
        if validate_kebab_case(group).is_err() {
            let mut message = String::from_str("Invalid group name '");
            message.append(group);
            message.append(
                "'. Group names must be kebab-case (lowercase letters, numbers, and single hyphens).",
            );
            return Err(message);
        }
        match validate_kebab_case(name) {
            Ok(_) => Ok((Some(group), name)),
            Err(m) => Err(m),
        }
    } else {
        match validate_kebab_case(input) {
            Ok(_) => Ok((None, input)),
            Err(m) => Err(m),
        }
    }
}

// ---------------------------------------------------------------------------
// Finding a document
// ---------------------------------------------------------------------------

/// Where a file of the collection lies: in the directory `group` below the
/// collection's root, or in the root itself.
#[derive(Debug)]
pub struct SpecPath {
    pub group: Option<String>,
    pub filename: String,
}

/// The mathematical value of a `SpecPath`.
pub struct SpecPathView {
    pub group: Option<Seq<char>>,
    pub filename: Seq<char>,
}

impl View for SpecPath {
    type V = SpecPathView;

    open spec fn view(&self) -> SpecPathView {
        SpecPathView { group: text_of(self.group), filename: self.filename@ }
    }
}

/// The values of a sequence of paths.
pub open spec fn path_views(v: Seq<SpecPath>) -> Seq<SpecPathView> {
    v.map_values(|p: SpecPath| p@)
}

/// The first component of the path below the root.
pub open spec fn first_component(p: SpecPathView) -> Seq<char> {
    match p.group {
        Some(g) => g,
        None => p.filename,
    }
}

/// Whether the path `a` comes before the path `b`. Paths are compared
/// component by component, and a path that is the beginning of another comes
/// before it.
pub open spec fn path_lt(a: SpecPathView, b: SpecPathView) -> bool {
    if first_component(a) != first_component(b) {
        lex_lt(first_component(a), first_component(b))
    } else {
        match (a.group, b.group) {
            (None, None) => false,
            (None, Some(_)) => true,
            (Some(_), None) => false,
            (Some(_), Some(_)) => lex_lt(a.filename, b.filename),
        }
    }
}

/// Whether the file at `p` holds the document `name`.
pub open spec fn holds_spec(p: SpecPathView, name: Seq<char>) -> bool {
    spec_name(p.filename) == Some(name)
}

/// The position of the file to take for the document `name` among the first
/// `n` files: of the files that hold the document the one whose path comes
/// last; -1 where no file holds it.
pub open spec fn latest_match(files: Seq<SpecPathView>, name: Seq<char>, n: nat) -> int
    decreases n,
{
    if n == 0 {
        -1
    } else {
        let best = latest_match(files, name, (n - 1) as nat);
        let k = n - 1;
        if holds_spec(files[k], name) && (best < 0 || !path_lt(files[k], files[best])) {
            k
        } else {
            best
        }
    }
}

/// The message for a document that no file holds.
pub open spec fn no_spec_message(name: Seq<char>) -> Seq<char> {
    "No spec found matching '"@ + name + "'"@
}

/// What `latest_match` is: a file that holds the document, where one does.
pub proof fn lemma_latest_match(files: Seq<SpecPathView>, name: Seq<char>, n: nat)
    requires
        n <= files.len(),
    ensures
        -1 <= latest_match(files, name, n) < n,
        latest_match(files, name, n) >= 0 ==> holds_spec(
            files[latest_match(files, name, n)],
            name,
        ),
        latest_match(files, name, n) < 0 ==> forall|k: int|
            0 <= k < n ==> !holds_spec(#[trigger] files[k], name),
    decreases n,
{
    if n > 0 {
        lemma_latest_match(files, name, (n - 1) as nat);
    }
}

/// Whether the path `a` comes before the path `b`.
fn path_less(a: &SpecPath, b: &SpecPath) -> (r: bool)
    ensures
        r == path_lt(a@, b@),
{
    proof {
        lemma_lex_lt_irreflexive(a.filename@);
    }
    match (&a.group, &b.group) {
        (None, None) => str_less(a.filename.as_str(), b.filename.as_str()),
        (None, Some(g)) => {
            if str_eq(a.filename.as_str(), g.as_str()) {
                true
            } else {
                str_less(a.filename.as_str(), g.as_str())
            }
        },
        (Some(g), None) => {
            if str_eq(g.as_str(), b.filename.as_str()) {
                false
            } else {
                str_less(g.as_str(), b.filename.as_str())
            }
        },
        (Some(g), Some(h)) => {
            if str_eq(g.as_str(), h.as_str()) {
                str_less(a.filename.as_str(), b.filename.as_str())
            } else {
                str_less(g.as_str(), h.as_str())
            }
        },
    }
}

/// Whether the file at `p` holds the document `name`.
fn path_holds(p: &SpecPath, name: &str) -> (r: bool)
    ensures
        r == holds_spec(p@, name@),
{
    match extract_spec_name(p.filename.as_str()) {
        Some(n) => str_eq(n, name),
        None => false,
    }
}

/// Finds the file of the document `name` among the files of the collection.
/// Where several files hold a document of that name, the one whose path comes
/// last is taken. Returns the position of the file in `files`, or the message
/// that no file holds the document.
pub fn find_spec(files: &Vec<SpecPath>, name: &str) -> (found: Result<usize, String>)
    ensures
        match found {
            Ok(i) => i == latest_match(path_views(files@), name@, files@.len()) && i < files@.len()
                && holds_spec(files@[i as int]@, name@),
            Err(m) => latest_match(path_views(files@), name@, files@.len()) < 0 && m@
                == no_spec_message(name@),
        },
{
    let ghost all = path_views(files@);
    let mut best: Option<usize> = None;
    let mut k: usize = 0;
    while k < files.len()
        invariant
            k <= files@.len(),
            all == path_views(files@),
            match best {
                Some(b) => b == latest_match(all, name@, k as nat) && b < k,
                None => latest_match(all, name@, k as nat) == -1,
            },
        decreases files@.len() - k,
    {
        if path_holds(&files[k], name) {
            let better = match best {
                Some(b) => !path_less(&files[k], &files[b]),
                None => true,
            };
            if better {
                best = Some(k);
            }
        }
        k += 1;
    }
    proof {
        lemma_latest_match(all, name@, files@.len());
    }
    match best {
        Some(b) => Ok(b),
        None => {
            let mut message = String::from_str("No spec found matching '");
            message.append(name);
            message.append("'");
            Err(message)
        },
    }
}

/// The names, among those of the documents in the files `filenames`, that
/// begin with `current`, in the order of the files.
pub open spec fn names_beginning_with(filenames: Seq<Seq<char>>, current: Seq<char>) -> Seq<
    Seq<char>,
>
    decreases filenames.len(),
{
    if filenames.len() == 0 {
        Seq::empty()
    } else {
        let before = names_beginning_with(filenames.drop_last(), current);
        match spec_name(filenames.last()) {
            Some(name) => if starts_with(name, current) {
                before.push(name)
            } else {
                before
            },
            None => before,
        }
    }
}

/// The names of the documents that complete what the user typed so far.
pub fn complete_spec_names(filenames: &Vec<String>, current: &str) -> (names: Vec<String>)
    ensures
        texts(names@) == names_beginning_with(texts(filenames@), current@),
{
    let ghost all = texts(filenames@);
    let typed = chars_of(current);
    let mut names: Vec<String> = Vec::new();
    let mut k: usize = 0;
    assert(texts(names@) =~= names_beginning_with(all.take(0), current@));
    while k < filenames.len()
        invariant
            k <= filenames@.len(),
            all == texts(filenames@),
            typed@ == current@,
            texts(names@) == names_beginning_with(all.take(k as int), current@),
        decreases filenames@.len() - k,
    {
        let ghost before = texts(names@);
        proof {
            assert(all.take(k + 1).drop_last() =~= all.take(k as int));
            assert(all.take(k + 1).last() == filenames@[k as int]@);
        }
        match extract_spec_name(filenames[k].as_str()) {
            Some(name) => {
                let held = chars_of(name);
                if chars_start_with(held.as_slice(), typed.as_slice()) {
                    let owned = String::from_str(name);
                    names.push(owned);
                    assert(texts(names@) =~= before.push(name@));
                }
            },
            None => {},
        }
        k += 1;
    }
    assert(all.take(k as int) =~= all);
    names
}

} // verus!
