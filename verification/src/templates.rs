//! Templates for new documents: where they are kept, which of them are on
//! offer, and how the variables in a template's text are filled in.

use crate::text::{
    chars_of, ends_with, find_char, find_char_in, lemma_lex_lt_connected, lemma_lex_lt_transitive,
    lex_lt, push_chars, str_ends_with, str_eq, str_less, string_of,
};
use vstd::prelude::*;
use vstd::seq_lib::to_multiset_insert;
use vstd::slice::slice_subrange;

verus! {

// ---------------------------------------------------------------------------
// Variables
// ---------------------------------------------------------------------------

/// Whether `c` is a letter or a digit of any script: what
/// `char::is_alphanumeric` of the standard library returns for `c`.
pub uninterp spec fn alphanumeric(c: char) -> bool;

/// `char::is_alphanumeric` of the standard library looks at nothing but the
/// character; its result is given the name `alphanumeric`.
pub assume_specification[ char::is_alphanumeric ](c: char) -> (r: bool)
    ensures
        r == alphanumeric(c),
;

/// Whether `c` can stand in the name of a variable.
pub open spec fn is_name_char(c: char) -> bool {
    alphanumeric(c) || c == '_'
}

/// Where the run of name characters that starts at `start` ends.
pub open spec fn name_end(chars: Seq<char>, start: int) -> int
    decreases chars.len() - start,
{
    if 0 <= start < chars.len() && is_name_char(chars[start]) {
        name_end(chars, start + 1)
    } else {
        start
    }
}

/// The variable name that starts at `start`, and the position behind its
/// closing delimiter. The name is a run of at least one name character. It is
/// closed by `close1` followed by `close2`, or by `close1` alone where
/// `close2` is the null character.
pub open spec fn var_name_at(chars: Seq<char>, start: int, close1: char, close2: char) -> Option<
    (Seq<char>, int),
> {
    let j = name_end(chars, start);
    if j == start {
        None
    } else if close2 != '\0' {
        if j + 1 < chars.len() && chars[j] == close1 && chars[j + 1] == close2 {
            Some((chars.subrange(start, j), j + 2))
        } else {
            None
        }
    } else {
        if j < chars.len() && chars[j] == close1 {
            Some((chars.subrange(start, j), j + 1))
        } else {
            None
        }
    }
}

/// The value that `vars` gives to the variable `name`: that of the first pair
/// with this name.
pub open spec fn var_value(vars: Seq<(Seq<char>, Seq<char>)>, name: Seq<char>) -> Option<
    Seq<char>,
>
    decreases vars.len(),
{
    if vars.len() == 0 {
        None
    } else if vars[0].0 == name {
        Some(vars[0].1)
    } else {
        var_value(vars.drop_first(), name)
    }
}

/// The names and values that a vector of pairs holds.
pub open spec fn var_views(v: Seq<(String, String)>) -> Seq<(Seq<char>, Seq<char>)> {
    v.map_values(|p: (String, String)| (p.0@, p.1@))
}

/// The known variable that is written at `i`, as `{{name}}` or as `${name}`:
/// its value and the position behind it.
pub open spec fn variable_at(chars: Seq<char>, vars: Seq<(Seq<char>, Seq<char>)>, i: int) -> Option<
    (Seq<char>, int),
> {
    if i + 3 < chars.len() && chars[i] == '{' && chars[i + 1] == '{' {
        match var_name_at(chars, i + 2, '}', '}') {
            Some((name, end)) => match var_value(vars, name) {
                Some(value) => Some((value, end)),
                None => None,
            },
            None => None,
        }
    } else if i + 2 < chars.len() && chars[i] == '$' && chars[i + 1] == '{' {
        match var_name_at(chars, i + 2, '}', '\0') {
            Some((name, end)) => match var_value(vars, name) {
                Some(value) => Some((value, end)),
                None => None,
            },
            None => None,
        }
    } else {
        None
    }
}

/// Whether a fence of three backticks starts at `i`, at the start of a line.
pub open spec fn fence_at(chars: Seq<char>, i: int) -> bool {
    &&& i == 0 || chars[i - 1] == '\n'
    &&& i + 2 < chars.len()
    &&& chars[i] == '`'
    &&& chars[i + 1] == '`'
    &&& chars[i + 2] == '`'
}

/// Where the inline code that the backtick at `i` opens ends: behind the next
/// backtick, or at the end of the text where there is none.
pub open spec fn code_end(chars: Seq<char>, i: int) -> int {
    let close = i + 1 + find_char(chars.skip(i + 1), '`');
    if close < chars.len() {
        close + 1
    } else {
        chars.len() as int
    }
}

/// The text from `i` on with its variables filled in, `fenced` saying whether
/// `i` is inside a fenced code block.
///
/// A fence at the start of a line opens a block or closes it. Inside a block
/// the text stays as it is, and so does inline code between two backticks.
/// Elsewhere a known variable gives way to its value; an unknown one stays
/// as it is written.
pub open spec fn substitute_from(
    chars: Seq<char>,
    vars: Seq<(Seq<char>, Seq<char>)>,
    i: int,
    fenced: bool,
) -> Seq<char>
    decreases chars.len() - i,
{
    if i < 0 || i >= chars.len() {
        Seq::empty()
    } else if fence_at(chars, i) {
        seq![chars[i]] + substitute_from(chars, vars, i + 1, !fenced)
    } else if fenced {
        seq![chars[i]] + substitute_from(chars, vars, i + 1, fenced)
    } else if chars[i] == '`' {
        let end = code_end(chars, i);
        if i < end <= chars.len() {
            chars.subrange(i, end) + substitute_from(chars, vars, end, false)
        } else {
            Seq::empty()
        }
    } else {
        match variable_at(chars, vars, i) {
            Some((value, end)) => if i < end {
                value + substitute_from(chars, vars, end, false)
            } else {
                Seq::empty()
            },
            None => seq![chars[i]] + substitute_from(chars, vars, i + 1, false),
        }
    }
}

/// The text `content` with the variables `vars` filled in.
pub open spec fn substituted(content: Seq<char>, vars: Seq<(Seq<char>, Seq<char>)>) -> Seq<char> {
    substitute_from(content, vars, 0, false)
}

/// `name_end` is the first position from `start` on that holds no name
/// character.
pub proof fn lemma_name_end_is(chars: Seq<char>, start: int, j: int)
    requires
        0 <= start <= j <= chars.len(),
        forall|k: int| start <= k < j ==> is_name_char(#[trigger] chars[k]),
        j < chars.len() ==> !is_name_char(chars[j]),
    ensures
        name_end(chars, start) == j,
    decreases j - start,
{
    if start < j {
        lemma_name_end_is(chars, start + 1, j);
    }
}

/// The value that `vars` gives to the variable `name`.
fn lookup<'a>(vars: &'a Vec<(String, String)>, name: &str) -> (value: Option<&'a String>)
    ensures
        match value {
            Some(v) => var_value(var_views(vars@), name@) == Some(v@),
            None => var_value(var_views(vars@), name@) is None,
        },
{
    let ghost all = var_views(vars@);
    let mut k: usize = 0;
    assert(all.skip(0) == all);
    while k < vars.len()
        invariant
            k <= vars@.len(),
            all == var_views(vars@),
            var_value(all, name@) == var_value(all.skip(k as int), name@),
        decreases vars@.len() - k,
    {
        proof {
            assert(all.skip(k as int)[0] == (vars@[k as int].0@, vars@[k as int].1@));
            assert(all.skip(k as int).drop_first() == all.skip(k + 1));
        }
        if str_eq(vars[k].0.as_str(), name) {
            return Some(&vars[k].1);
        }
        k += 1;
    }
    None
}

/// Extracts the variable name that starts at `start` in `chars`, and the
/// position behind its closing delimiter.
///
/// For `{{name}}` the delimiter is two closing braces: `close1` and `close2`
/// are both `}`. For `${name}` it is one: `close1` is `}` and `close2` the
/// null character.
pub fn extract_var_name(chars: &[char], start: usize, close1: char, close2: char) -> (found: Option<
    (String, usize),
>)
    ensures
        match found {
            Some((name, end)) => var_name_at(chars@, start as int, close1, close2) == Some(
                (name@, end as int),
            ) && start < end <= chars@.len(),
            None => var_name_at(chars@, start as int, close1, close2) is None,
        },
{
    let len: usize = chars.len();
    if start >= len {
        return None;
    }
    let mut j: usize = start;
    while j < len && (chars[j].is_alphanumeric() || chars[j] == '_')
        invariant
            start <= j <= len,
            len == chars@.len(),
            forall|k: int| start <= k < j ==> is_name_char(#[trigger] chars@[k]),
        decreases len - j,
    {
        j += 1;
    }
    proof {
        lemma_name_end_is(chars@, start as int, j as int);
    }
    if j == start {
        return None;
    }
    if close2 != '\0' {
        if j < len - 1 && chars[j] == close1 && chars[j + 1] == close2 {
            let name = string_of(slice_subrange(chars, start, j));
            return Some((name, j + 2));
        }
    } else {
        if j < len && chars[j] == close1 {
            let name = string_of(slice_subrange(chars, start, j));
            return Some((name, j + 1));
        }
    }
    None
}

/// Whether a fence starts at `i`.
fn fence_here(chars: &[char], i: usize) -> (r: bool)
    requires
        i < chars@.len(),
    ensures
        r == fence_at(chars@, i as int),
{
    let len: usize = chars.len();
    (i == 0 || chars[i - 1] == '\n') && 2 < len - i && chars[i] == '`' && chars[i + 1] == '`'
        && chars[i + 2] == '`'
}

/// Where the inline code that the backtick at `i` opens ends.
fn code_end_here(chars: &[char], i: usize) -> (end: usize)
    requires
        i < chars@.len(),
    ensures
        end == code_end(chars@, i as int),
        i < end <= chars@.len(),
{
    let len: usize = chars.len();
    let after = slice_subrange(chars, i + 1, len);
    let close: usize = find_char_in(after, '`');
    if close < after.len() {
        i + 1 + close + 1
    } else {
        len
    }
}

/// The known variable that is written at `i`: its value and the position
/// behind it.
fn variable_here<'a>(chars: &[char], vars: &'a Vec<(String, String)>, i: usize) -> (found: Option<
    (&'a String, usize),
>)
    requires
        i < chars@.len(),
    ensures
        match found {
            Some((value, end)) => variable_at(chars@, var_views(vars@), i as int) == Some(
                (value@, end as int),
            ) && i < end <= chars@.len(),
            None => variable_at(chars@, var_views(vars@), i as int) is None,
        },
{
    let len: usize = chars.len();
    if 3 < len - i && chars[i] == '{' && chars[i + 1] == '{' {
        if let Some((name, end)) = extract_var_name(chars, i + 2, '}', '}') {
            if let Some(value) = lookup(vars, name.as_str()) {
                return Some((value, end));
            }
        }
        None
    } else if 2 < len - i && chars[i] == '$' && chars[i + 1] == '{' {
        if let Some((name, end)) = extract_var_name(chars, i + 2, '}', '\0') {
            if let Some(value) = lookup(vars, name.as_str()) {
                return Some((value, end));
            }
        }
        None
    } else {
        None
    }
}

/// Substitutes the template variables in `content`.
///
/// Both `{{name}}` and `${name}` are variables. `vars` pairs names with
/// values; where a name occurs twice, the first pair counts. Variables in
/// fenced code blocks and in inline code stay untouched, and so do variables
/// that `vars` does not know.
pub fn substitute_variables(content: &str, vars: &Vec<(String, String)>) -> (result: String)
    ensures
        result@ == substituted(content@, var_views(vars@)),
{
    let mut result = String::new();
    let held = chars_of(content);
    let chars = held.as_slice();
    let len: usize = chars.len();
    let ghost known = var_views(vars@);
    let mut i: usize = 0;
    let mut in_fenced_block = false;
    assert(result@ + substitute_from(chars@, known, 0, false) =~= substituted(content@, known));
    while i < len
        invariant
            i <= len,
            len == chars@.len(),
            chars@ == content@,
            known == var_views(vars@),
            substituted(content@, known) == result@ + substitute_from(
                chars@,
                known,
                i as int,
                in_fenced_block,
            ),
        decreases len - i,
    {
        let ghost before = result@;
        let ghost rest = substitute_from(chars@, known, i as int, in_fenced_block);
        if fence_here(chars, i) {
            in_fenced_block = !in_fenced_block;
            result.push(chars[i]);
            assert(rest == seq![chars@[i as int]] + substitute_from(
                chars@,
                known,
                i + 1,
                in_fenced_block,
            ));
            i += 1;
        } else if in_fenced_block {
            result.push(chars[i]);
            assert(rest == seq![chars@[i as int]] + substitute_from(chars@, known, i + 1, true));
            i += 1;
        } else if chars[i] == '`' {
            let end: usize = code_end_here(chars, i);
            push_chars(&mut result, slice_subrange(chars, i, end));
            assert(rest == chars@.subrange(i as int, end as int) + substitute_from(
                chars@,
                known,
                end as int,
                false,
            ));
            i = end;
        } else {
            match variable_here(chars, vars, i) {
                Some((value, end)) => {
                    result.append(value.as_str());
                    assert(rest == value@ + substitute_from(chars@, known, end as int, false));
                    i = end;
                },
                None => {
                    result.push(chars[i]);
                    assert(rest == seq![chars@[i as int]] + substitute_from(
                        chars@,
                        known,
                        i + 1,
                        false,
                    ));
                    i += 1;
                },
            }
        }
        assert(before + rest =~= result@ + substitute_from(
            chars@,
            known,
            i as int,
            in_fenced_block,
        ));
    }
    assert(result@ + Seq::<char>::empty() =~= result@);
    result
}

// ---------------------------------------------------------------------------
// The templates on offer
// ---------------------------------------------------------------------------

/// Where a template is kept.
#[derive(Debug, Clone, Copy, PartialEq, Eq, Structural)]
pub enum TemplateSource {
    /// In the repository, beside the documents.
    Repo,
    /// In the user's own configuration.
    User,
}

impl TemplateSource {
    /// The source in words: `repo` or `user`.
    pub fn to_string(&self) -> (label: String)
        ensures
            label@ == (match *self {
                TemplateSource::Repo => "repo"@,
                TemplateSource::User => "user"@,
            }),
    {
        match self {
            TemplateSource::Repo => String::from_str("repo"),
            TemplateSource::User => String::from_str("user"),
        }
    }
}

/// One template on offer.
#[derive(Debug)]
pub struct TemplateInfo {
    pub name: String,
    pub path: String,
    pub source: TemplateSource,
}

/// The mathematical value of a `TemplateInfo`.
pub struct TemplateView {
    pub name: Seq<char>,
    pub path: Seq<char>,
    pub source: TemplateSource,
}

impl View for TemplateInfo {
    type V = TemplateView;

    open spec fn view(&self) -> TemplateView {
        TemplateView { name: self.name@, path: self.path@, source: self.source }
    }
}

impl Clone for TemplateInfo {
    fn clone(&self) -> (r: Self)
        ensures
            r@ == self@,
    {
        TemplateInfo { name: self.name.clone(), path: self.path.clone(), source: self.source }
    }
}

/// The values of a sequence of templates.
pub open spec fn template_views(v: Seq<TemplateInfo>) -> Seq<TemplateView> {
    v.map_values(|t: TemplateInfo| t@)
}

/// The directory `dir` with `name` below it.
pub open spec fn joined(dir: Seq<char>, name: Seq<char>) -> Seq<char> {
    if dir.len() == 0 || dir.last() == '/' {
        dir + name
    } else {
        dir + seq!['/'] + name
    }
}

/// The name of the template in the file `filename`: the file name without
/// its extension `.md`.
pub open spec fn template_name_of(filename: Seq<char>) -> Option<Seq<char>> {
    if ends_with(filename, ".md"@) {
        Some(filename.take(filename.len() - 3))
    } else {
        None
    }
}

/// Whether a template of `templates` has the name `name`.
pub open spec fn has_name(templates: Seq<TemplateView>, name: Seq<char>) -> bool {
    exists|i: int| 0 <= i < templates.len() && (#[trigger] templates[i]).name == name
}

/// The templates of `user` whose names no template of `repo` has.
pub open spec fn not_shadowed(repo: Seq<TemplateView>, user: Seq<TemplateView>) -> Seq<
    TemplateView,
>
    decreases user.len(),
{
    if user.len() == 0 {
        Seq::empty()
    } else {
        let before = not_shadowed(repo, user.drop_last());
        if has_name(repo, user.last().name) {
            before
        } else {
            before.push(user.last())
        }
    }
}

/// Whether no template of `s` has a name that comes before the name of one
/// that stands earlier in `s`.
pub open spec fn ordered_by_name(s: Seq<TemplateView>) -> bool {
    forall|i: int, j: int|
        0 <= i < j < s.len() ==> !lex_lt((#[trigger] s[j]).name, (#[trigger] s[i]).name)
}

/// Where `x` goes into the sequence `t`, ordered by name: behind the
/// templates whose names come before its name, and before all others.
pub open spec fn name_position(x: TemplateView, t: Seq<TemplateView>) -> int
    decreases t.len(),
{
    if t.len() == 0 || !lex_lt(t[0].name, x.name) {
        0
    } else {
        1 + name_position(x, t.drop_first())
    }
}

/// The templates `s` in the order of their names. Templates of one name keep
/// the order that they have in `s`.
pub open spec fn by_name(s: Seq<TemplateView>) -> Seq<TemplateView>
    decreases s.len(),
{
    if s.len() == 0 {
        s
    } else {
        let rest = by_name(s.drop_first());
        rest.insert(name_position(s[0], rest), s[0])
    }
}

/// The templates on offer: all those of the repository, and those of the
/// user that no template of the repository shadows, in the order of their
/// names.
pub open spec fn offered(repo: Seq<TemplateView>, user: Seq<TemplateView>) -> Seq<TemplateView> {
    by_name(repo + not_shadowed(repo, user))
}

/// The position of the first template of `templates` with the name `name`,
/// or their number where none has it.
pub open spec fn first_named(templates: Seq<TemplateView>, name: Seq<char>) -> int
    decreases templates.len(),
{
    if templates.len() == 0 || templates[0].name == name {
        0
    } else {
        1 + first_named(templates.drop_first(), name)
    }
}

/// What `name_position` is.
pub proof fn lemma_name_position(x: TemplateView, t: Seq<TemplateView>)
    ensures
        0 <= name_position(x, t) <= t.len(),
        forall|k: int| 0 <= k < name_position(x, t) ==> lex_lt((#[trigger] t[k]).name, x.name),
        name_position(x, t) < t.len() ==> !lex_lt(t[name_position(x, t)].name, x.name),
    decreases t.len(),
{
    if !(t.len() == 0 || !lex_lt(t[0].name, x.name)) {
        let r = t.drop_first();
        lemma_name_position(x, r);
        assert forall|k: int| 0 <= k < name_position(x, t) implies lex_lt(
            (#[trigger] t[k]).name,
            x.name,
        ) by {
            if k > 0 {
                assert(t[k] == r[k - 1]);
            }
        }
    }
}

/// `name_position` is the only position of that kind.
pub proof fn lemma_name_position_is(x: TemplateView, t: Seq<TemplateView>, n: int)
    requires
        0 <= n <= t.len(),
        forall|k: int| 0 <= k < n ==> lex_lt((#[trigger] t[k]).name, x.name),
        n < t.len() ==> !lex_lt(t[n].name, x.name),
    ensures
        name_position(x, t) == n,
    decreases n,
{
    if n > 0 {
        let r = t.drop_first();
        assert(lex_lt(t[0].name, x.name));
        assert forall|k: int| 0 <= k < n - 1 implies lex_lt((#[trigger] r[k]).name, x.name) by {
            assert(r[k] == t[k + 1]);
        }
        lemma_name_position_is(x, r, n - 1);
    }
}

/// The templates in the order of their names are ordered by name, and they
/// are the same templates, each as often as before.
pub proof fn lemma_by_name(s: Seq<TemplateView>)
    ensures
        ordered_by_name(by_name(s)),
        by_name(s).len() == s.len(),
        by_name(s).to_multiset() == s.to_multiset(),
    decreases s.len(),
{
    if s.len() > 0 {
        let x = s[0];
        let t = by_name(s.drop_first());
        lemma_by_name(s.drop_first());
        lemma_name_position(x, t);
        let p = name_position(x, t);
        let r = t.insert(p, x);
        assert forall|i: int, j: int| 0 <= i < j < r.len() implies !lex_lt(
            (#[trigger] r[j]).name,
            (#[trigger] r[i]).name,
        ) by {
            if j == p {
                assert(r[i] == t[i]);
                lemma_lex_lt_connected(t[i].name, x.name);
            } else if i == p {
                assert(r[j] == t[j - 1]);
                let y = t[j - 1];
                if lex_lt(y.name, x.name) {
                    lemma_lex_lt_connected(y.name, t[p].name);
                    lemma_lex_lt_connected(t[p].name, x.name);
                    if lex_lt(t[p].name, y.name) {
                        lemma_lex_lt_transitive(t[p].name, y.name, x.name);
                    }
                }
            } else {
                let i0 = if i < p {
                    i
                } else {
                    i - 1
                };
                let j0 = if j < p {
                    j
                } else {
                    j - 1
                };
                assert(r[i] == t[i0] && r[j] == t[j0]);
            }
        }
        to_multiset_insert(t, p, x);
        to_multiset_insert(s.drop_first(), 0, x);
        assert(s.drop_first().insert(0, x) =~= s);
    }
}

/// `first_named` is the least position of a template with that name.
pub proof fn lemma_first_named(templates: Seq<TemplateView>, name: Seq<char>, n: int)
    requires
        0 <= n <= templates.len(),
        forall|k: int| 0 <= k < n ==> (#[trigger] templates[k]).name != name,
        n < templates.len() ==> templates[n].name == name,
    ensures
        first_named(templates, name) == n,
    decreases n,
{
    if n > 0 {
        let r = templates.drop_first();
        assert(templates[0].name != name);
        assert forall|k: int| 0 <= k < n - 1 implies (#[trigger] r[k]).name != name by {
            assert(r[k] == templates[k + 1]);
        }
        lemma_first_named(r, name, n - 1);
    }
}

/// The directory `dir` with `name` below it.
fn join_path(dir: &str, name: &str) -> (path: String)
    ensures
        path@ == joined(dir@, name@),
{
    let mut path = String::from_str(dir);
    let len: usize = dir.unicode_len();
    if len > 0 && dir.get_char(len - 1) != '/' {
        path.push('/');
    }
    path.append(name);
    assert(path@ =~= joined(dir@, name@));
    path
}

/// The directory of the templates kept in the repository: `templates`
/// below the directory `specs_dir` of the documents.
pub fn repo_templates_dir(specs_dir: &str) -> (dir: String)
    ensures
        dir@ == joined(specs_dir@, "templates"@),
{
    join_path(specs_dir, "templates")
}

/// The directory of the user's own templates: `.config/tinyspec/templates`
/// below the home directory `home`.
pub fn user_templates_dir(home: &str) -> (dir: String)
    ensures
        dir@ == joined(joined(joined(home@, ".config"@), "tinyspec"@), "templates"@),
{
    let config = join_path(home, ".config");
    let own = join_path(config.as_str(), "tinyspec");
    join_path(own.as_str(), "templates")
}

/// The name of the template in the file `filename`.
pub fn template_name(filename: &str) -> (name: Option<&str>)
    ensures
        crate::text::text_of_str(name) == template_name_of(filename@),
{
    if str_ends_with(filename, ".md") {
        proof {
            reveal_strlit(".md");
        }
        let len: usize = filename.unicode_len();
        Some(filename.substring_char(0, len - 3))
    } else {
        None
    }
}

/// Whether a template of `templates` has the name `name`.
fn any_named(templates: &Vec<TemplateInfo>, name: &str) -> (r: bool)
    ensures
        r == has_name(template_views(templates@), name@),
{
    let mut k: usize = 0;
    while k < templates.len()
        invariant
            k <= templates@.len(),
            forall|i: int| 0 <= i < k ==> (#[trigger] template_views(templates@)[i]).name != name@,
        decreases templates@.len() - k,
    {
        if str_eq(templates[k].name.as_str(), name) {
            assert(template_views(templates@)[k as int].name == name@);
            return true;
        }
        k += 1;
    }
    false
}

/// Collects the templates on offer from those found in the repository and
/// those found in the user's configuration. A template of the repository
/// takes precedence over a template of the user with the same name. The
/// result is in the order of the names.
pub fn collect_templates(repo: Vec<TemplateInfo>, user: Vec<TemplateInfo>) -> (templates: Vec<
    TemplateInfo,
>)
    ensures
        template_views(templates@) == offered(template_views(repo@), template_views(user@)),
        ordered_by_name(template_views(templates@)),
{
    let ghost repo_all = template_views(repo@);
    let ghost user_all = template_views(user@);
    let mut kept: Vec<TemplateInfo> = Vec::new();
    let mut k: usize = 0;
    assert(template_views(kept@) =~= not_shadowed(repo_all, user_all.take(0)));
    while k < user.len()
        invariant
            k <= user@.len(),
            repo_all == template_views(repo@),
            user_all == template_views(user@),
            template_views(kept@) == not_shadowed(repo_all, user_all.take(k as int)),
        decreases user@.len() - k,
    {
        let ghost before = template_views(kept@);
        proof {
            assert(user_all.take(k + 1).drop_last() =~= user_all.take(k as int));
            assert(user_all.take(k + 1).last() == user@[k as int]@);
        }
        if !any_named(&repo, user[k].name.as_str()) {
            let t = user[k].clone();
            kept.push(t);
            assert(template_views(kept@) =~= before.push(t@));
        }
        k += 1;
    }
    assert(user_all.take(k as int) =~= user_all);
    let mut all = repo;
    let ghost kept_all = template_views(kept@);
    all.append(&mut kept);
    assert(template_views(all@) =~= repo_all + kept_all);
    let ghost unsorted = template_views(all@);
    let mut out: Vec<TemplateInfo> = Vec::new();
    assert(unsorted.skip(unsorted.len() as int) =~= Seq::<TemplateView>::empty());
    assert(template_views(out@) =~= Seq::<TemplateView>::empty());
    while all.len() > 0
        invariant
            all@.len() <= unsorted.len(),
            template_views(all@) == unsorted.take(all@.len() as int),
            template_views(out@) == by_name(unsorted.skip(all@.len() as int)),
        decreases all@.len(),
    {
        let ghost n = all@.len() as int;
        let ghost before = template_views(out@);
        let x = all.pop().unwrap();
        let mut p: usize = 0;
        while p < out.len() && str_less(out[p].name.as_str(), x.name.as_str())
            invariant
                p <= out@.len(),
                before == template_views(out@),
                forall|i: int| 0 <= i < p ==> lex_lt((#[trigger] before[i]).name, x@.name),
            decreases out@.len() - p,
        {
            p += 1;
        }
        proof {
            lemma_name_position_is(x@, before, p as int);
            assert(template_views(all@) =~= unsorted.take(n - 1));
            assert(unsorted.skip(n - 1)[0] == x@) by {
                assert(unsorted.take(n)[n - 1] == x@);
            }
            assert(unsorted.skip(n - 1).drop_first() =~= unsorted.skip(n));
        }
        out.insert(p, x);
        assert(template_views(out@) =~= before.insert(p as int, x@));
    }
    proof {
        assert(unsorted.skip(0) =~= unsorted);
        lemma_by_name(unsorted);
    }
    out
}

/// The message for a template that is not on offer.
pub open spec fn no_template_message(name: Seq<char>) -> Seq<char> {
    "No template found matching '"@ + name + "'"@
}

/// Finds the template with the name `name` among the templates on offer:
/// the first with that name, or the message that there is none.
pub fn find_template(repo: Vec<TemplateInfo>, user: Vec<TemplateInfo>, name: &str) -> (found:
    Result<TemplateInfo, String>)
    ensures
        match found {
            Ok(t) => has_name(offered(template_views(repo@), template_views(user@)), name@) && t@
                == offered(template_views(repo@), template_views(user@))[first_named(
                offered(template_views(repo@), template_views(user@)),
                name@,
            )],
            Err(message) => !has_name(
                offered(template_views(repo@), template_views(user@)),
                name@,
            ) && message@ == no_template_message(name@),
        },
{
    let mut templates = collect_templates(repo, user);
    let ghost all = template_views(templates@);
    let mut k: usize = 0;
    while k < templates.len()
        invariant
            k <= templates@.len(),
            all == template_views(templates@),
            all == offered(template_views(repo@), template_views(user@)),
            forall|i: int| 0 <= i < k ==> (#[trigger] all[i]).name != name@,
        decreases templates@.len() - k,
    {
        if str_eq(templates[k].name.as_str(), name) {
            let ghost held = templates@[k as int];
            proof {
                lemma_first_named(all, name@, k as int);
                assert(all[k as int] == held@);
                assert(all[k as int].name == name@);
                assert(has_name(all, name@));
            }
            let t = templates.remove(k);
            assert(t@ == held@);
            return Ok(t);
        }
        k += 1;
    }
    let mut message = String::from_str("No template found matching '");
    message.append(name);
    message.append("'");
    Err(message)
}

} // verus!
