//! The lines that the listing commands print: the documents of the
//! collection with their groups, the templates on offer, and the
//! repositories of the configuration.

use crate::config::{ascending, mapping_of, pair_views, Config};
use crate::summary::{extract_spec_name, spec_name};
use crate::templates::{template_views, TemplateInfo, TemplateSource, TemplateView};
use crate::text::{
    lemma_lex_lt_connected, lemma_lex_lt_transitive, lex_lt, pad_right, padded, str_eq, str_less,
    text_of, texts,
};
use vstd::prelude::*;

verus! {

/// The width to which a name is filled up in a listing.
pub const LIST_NAME_WIDTH: usize = 30;

// ---------------------------------------------------------------------------
// Documents
// ---------------------------------------------------------------------------

/// One document of a listing: the name of its file, and the title that its
/// front matter gives.
#[derive(Debug)]
pub struct ListEntry {
    pub filename: String,
    pub title: Option<String>,
}

/// One group of a listing, with its documents in the order in which they are
/// listed.
#[derive(Debug)]
pub struct ListGroup {
    pub name: String,
    pub entries: Vec<ListEntry>,
}

/// The mathematical value of a `ListEntry`.
pub struct EntryView {
    pub filename: Seq<char>,
    pub title: Option<Seq<char>>,
}

/// The mathematical value of a `ListGroup`.
pub struct GroupView {
    pub name: Seq<char>,
    pub entries: Seq<EntryView>,
}

impl View for ListEntry {
    type V = EntryView;

    open spec fn view(&self) -> EntryView {
        EntryView { filename: self.filename@, title: text_of(self.title) }
    }
}

/// The values of a sequence of entries.
pub open spec fn entry_views(v: Seq<ListEntry>) -> Seq<EntryView> {
    v.map_values(|e: ListEntry| e@)
}

impl View for ListGroup {
    type V = GroupView;

    open spec fn view(&self) -> GroupView {
        GroupView { name: self.name@, entries: entry_views(self.entries@) }
    }
}

/// The values of a sequence of groups.
pub open spec fn group_views(v: Seq<ListGroup>) -> Seq<GroupView> {
    v.map_values(|g: ListGroup| g@)
}

/// One file of the collection as it is to be listed: its group, the name of
/// the file, and the title that its front matter gives.
#[derive(Debug)]
pub struct ListFile {
    pub group: Option<String>,
    pub filename: String,
    pub title: Option<String>,
}

/// The mathematical value of a `ListFile`.
pub struct ListFileView {
    pub group: Option<Seq<char>>,
    pub filename: Seq<char>,
    pub title: Option<Seq<char>>,
}

impl View for ListFile {
    type V = ListFileView;

    open spec fn view(&self) -> ListFileView {
        ListFileView {
            group: text_of(self.group),
            filename: self.filename@,
            title: text_of(self.title),
        }
    }
}

/// The values of a sequence of files.
pub open spec fn list_file_views(v: Seq<ListFile>) -> Seq<ListFileView> {
    v.map_values(|f: ListFile| f@)
}

/// The entry of a file.
pub open spec fn entry_of(f: ListFileView) -> EntryView {
    EntryView { filename: f.filename, title: f.title }
}

/// Whether no entry of `es` has a file name that comes before the file name
/// of one that stands earlier in `es`.
pub open spec fn by_file_name(es: Seq<EntryView>) -> bool {
    forall|i: int, j: int|
        0 <= i < j < es.len() ==> !lex_lt((#[trigger] es[j]).filename, (#[trigger] es[i]).filename)
}

/// Whether the names of the groups strictly ascend.
pub open spec fn groups_ascend(gs: Seq<GroupView>) -> bool {
    forall|i: int, j: int|
        0 <= i < j < gs.len() ==> lex_lt((#[trigger] gs[i]).name, (#[trigger] gs[j]).name)
}

/// Where an entry with the file name `name` goes among the entries `es`:
/// before the first entry whose file name comes after `name`, and so behind
/// the entries of the same file name.
pub open spec fn entry_position(name: Seq<char>, es: Seq<EntryView>) -> int
    decreases es.len(),
{
    if es.len() == 0 || lex_lt(name, es[0].filename) {
        0
    } else {
        1 + entry_position(name, es.drop_first())
    }
}

/// The entries `es` with the entry `e` at its place.
pub open spec fn with_entry(es: Seq<EntryView>, e: EntryView) -> Seq<EntryView> {
    es.insert(entry_position(e.filename, es), e)
}

/// Where the group `name` stands or goes among the groups `gs`: before the
/// first group whose name does not come before `name`.
pub open spec fn group_position(name: Seq<char>, gs: Seq<GroupView>) -> int
    decreases gs.len(),
{
    if gs.len() == 0 || !lex_lt(gs[0].name, name) {
        0
    } else {
        1 + group_position(name, gs.drop_first())
    }
}

/// The groups `gs` with the entry `e` in the group `name`: at its place in
/// that group, or alone in a new group at the place of its name.
pub open spec fn with_grouped(gs: Seq<GroupView>, name: Seq<char>, e: EntryView) -> Seq<GroupView> {
    let p = group_position(name, gs);
    if 0 <= p < gs.len() && gs[p].name == name {
        gs.update(p, GroupView { name, entries: with_entry(gs[p].entries, e) })
    } else {
        gs.insert(p, GroupView { name, entries: seq![e] })
    }
}

/// The files `files` as they are listed: the entries outside any group, and
/// the groups in the order of their names, the entries of either in the
/// order of their file names. Entries of one file name keep the order that
/// their files have in `files`.
pub open spec fn arranged(files: Seq<ListFileView>) -> (Seq<EntryView>, Seq<GroupView>)
    decreases files.len(),
{
    if files.len() == 0 {
        (Seq::empty(), Seq::empty())
    } else {
        let before = arranged(files.drop_last());
        let e = entry_of(files.last());
        match files.last().group {
            None => (with_entry(before.0, e), before.1),
            Some(name) => (before.0, with_grouped(before.1, name, e)),
        }
    }
}

/// What `entry_position` is.
pub proof fn lemma_entry_position(name: Seq<char>, es: Seq<EntryView>)
    ensures
        0 <= entry_position(name, es) <= es.len(),
        forall|k: int|
            0 <= k < entry_position(name, es) ==> !lex_lt(name, (#[trigger] es[k]).filename),
        entry_position(name, es) < es.len() ==> lex_lt(
            name,
            es[entry_position(name, es)].filename,
        ),
    decreases es.len(),
{
    if !(es.len() == 0 || lex_lt(name, es[0].filename)) {
        let rest = es.drop_first();
        lemma_entry_position(name, rest);
        assert forall|k: int| 0 <= k < entry_position(name, es) implies !lex_lt(
            name,
            (#[trigger] es[k]).filename,
        ) by {
            if k > 0 {
                assert(es[k] == rest[k - 1]);
            }
        }
    }
}

/// `entry_position` is the only position of that kind.
pub proof fn lemma_entry_position_is(name: Seq<char>, es: Seq<EntryView>, n: int)
    requires
        0 <= n <= es.len(),
        forall|k: int| 0 <= k < n ==> !lex_lt(name, (#[trigger] es[k]).filename),
        n < es.len() ==> lex_lt(name, es[n].filename),
    ensures
        entry_position(name, es) == n,
    decreases n,
{
    if n > 0 {
        let rest = es.drop_first();
        assert(!lex_lt(name, es[0].filename));
        assert forall|k: int| 0 <= k < n - 1 implies !lex_lt(name, (#[trigger] rest[k]).filename) by {
            assert(rest[k] == es[k + 1]);
        }
        lemma_entry_position_is(name, rest, n - 1);
    }
}

/// What `group_position` is.
pub proof fn lemma_group_position(name: Seq<char>, gs: Seq<GroupView>)
    ensures
        0 <= group_position(name, gs) <= gs.len(),
        forall|k: int| 0 <= k < group_position(name, gs) ==> lex_lt((#[trigger] gs[k]).name, name),
        group_position(name, gs) < gs.len() ==> !lex_lt(gs[group_position(name, gs)].name, name),
    decreases gs.len(),
{
    if !(gs.len() == 0 || !lex_lt(gs[0].name, name)) {
        let rest = gs.drop_first();
        lemma_group_position(name, rest);
        assert forall|k: int| 0 <= k < group_position(name, gs) implies lex_lt(
            (#[trigger] gs[k]).name,
            name,
        ) by {
            if k > 0 {
                assert(gs[k] == rest[k - 1]);
            }
        }
    }
}

/// `group_position` is the only position of that kind.
pub proof fn lemma_group_position_is(name: Seq<char>, gs: Seq<GroupView>, n: int)
    requires
        0 <= n <= gs.len(),
        forall|k: int| 0 <= k < n ==> lex_lt((#[trigger] gs[k]).name, name),
        n < gs.len() ==> !lex_lt(gs[n].name, name),
    ensures
        group_position(name, gs) == n,
    decreases n,
{
    if n > 0 {
        let rest = gs.drop_first();
        assert(lex_lt(gs[0].name, name));
        assert forall|k: int| 0 <= k < n - 1 implies lex_lt((#[trigger] rest[k]).name, name) by {
            assert(rest[k] == gs[k + 1]);
        }
        lemma_group_position_is(name, rest, n - 1);
    }
}

/// An entry put at its place leaves the entries in the order of their file
/// names.
pub proof fn lemma_with_entry(es: Seq<EntryView>, e: EntryView)
    requires
        by_file_name(es),
    ensures
        by_file_name(with_entry(es, e)),
        with_entry(es, e).len() == es.len() + 1,
{
    let p = entry_position(e.filename, es);
    let r = with_entry(es, e);
    lemma_entry_position(e.filename, es);
    assert forall|i: int, j: int| 0 <= i < j < r.len() implies !lex_lt(
        (#[trigger] r[j]).filename,
        (#[trigger] r[i]).filename,
    ) by {
        if j == p {
            assert(r[i] == es[i]);
        } else if i == p {
            assert(r[j] == es[j - 1]);
            let y = es[j - 1].filename;
            lemma_lex_lt_connected(e.filename, es[p].filename);
            if lex_lt(y, e.filename) {
                lemma_lex_lt_transitive(y, e.filename, es[p].filename);
            }
        } else {
            let i0 = if i < p {
                i
            } else {
                i - 1
            };
            let j0 = if j < p {
                j
            } else {
                j - 1
            };
            assert(r[i] == es[i0] && r[j] == es[j0]);
        }
    }
}

/// Whether the groups are as a listing has them: their names strictly
/// ascend, and each holds at least one entry, in the order of the file names.
pub open spec fn well_grouped(gs: Seq<GroupView>) -> bool {
    &&& groups_ascend(gs)
    &&& forall|k: int|
        0 <= k < gs.len() ==> by_file_name((#[trigger] gs[k]).entries) && gs[k].entries.len() > 0
}

/// An entry put into its group leaves the groups as a listing has them.
pub proof fn lemma_with_grouped(gs: Seq<GroupView>, name: Seq<char>, e: EntryView)
    requires
        well_grouped(gs),
    ensures
        well_grouped(with_grouped(gs, name, e)),
{
    let p = group_position(name, gs);
    let r = with_grouped(gs, name, e);
    lemma_group_position(name, gs);
    if 0 <= p < gs.len() && gs[p].name == name {
        lemma_with_entry(gs[p].entries, e);
        assert forall|i: int, j: int| 0 <= i < j < r.len() implies lex_lt(
            (#[trigger] r[i]).name,
            (#[trigger] r[j]).name,
        ) by {
            assert(r[i].name == gs[i].name && r[j].name == gs[j].name);
        }
        assert forall|k: int| 0 <= k < r.len() implies by_file_name((#[trigger] r[k]).entries)
            && r[k].entries.len() > 0 by {
            if k != p {
                assert(r[k] == gs[k]);
            }
        }
    } else {
        assert(by_file_name(seq![e]));
        assert forall|i: int, j: int| 0 <= i < j < r.len() implies lex_lt(
            (#[trigger] r[i]).name,
            (#[trigger] r[j]).name,
        ) by {
            if j == p {
                assert(r[i] == gs[i]);
            } else if i == p {
                assert(r[j] == gs[j - 1]);
                lemma_lex_lt_connected(name, gs[p].name);
                if j - 1 > p {
                    lemma_lex_lt_transitive(name, gs[p].name, gs[j - 1].name);
                }
            } else {
                let i0 = if i < p {
                    i
                } else {
                    i - 1
                };
                let j0 = if j < p {
                    j
                } else {
                    j - 1
                };
                assert(r[i] == gs[i0] && r[j] == gs[j0]);
            }
        }
        assert forall|k: int| 0 <= k < r.len() implies by_file_name((#[trigger] r[k]).entries)
            && r[k].entries.len() > 0 by {
            if k < p {
                assert(r[k] == gs[k]);
            } else if k > p {
                assert(r[k] == gs[k - 1]);
            }
        }
    }
}

/// The files as they are listed are in the order of their file names, in
/// groups whose names ascend.
pub proof fn lemma_arranged(files: Seq<ListFileView>)
    ensures
        by_file_name(arranged(files).0),
        well_grouped(arranged(files).1),
    decreases files.len(),
{
    if files.len() > 0 {
        lemma_arranged(files.drop_last());
        let before = arranged(files.drop_last());
        let e = entry_of(files.last());
        match files.last().group {
            None => {
                lemma_with_entry(before.0, e);
            },
            Some(name) => {
                lemma_with_grouped(before.1, name, e);
            },
        }
    }
}

/// Puts the entry `entry` at its place among `entries`.
fn place_entry(entries: &mut Vec<ListEntry>, entry: ListEntry)
    ensures
        entry_views(final(entries)@) == with_entry(entry_views(old(entries)@), entry@),
{
    let ghost before = entry_views(entries@);
    let mut p: usize = 0;
    while p < entries.len() && !str_less(entry.filename.as_str(), entries[p].filename.as_str())
        invariant
            p <= entries@.len(),
            before == entry_views(entries@),
            forall|k: int| 0 <= k < p ==> !lex_lt(entry@.filename, (#[trigger] before[k]).filename),
        decreases entries@.len() - p,
    {
        assert(before[p as int].filename == entries@[p as int].filename@);
        p += 1;
    }
    proof {
        if p < entries@.len() {
            assert(before[p as int].filename == entries@[p as int].filename@);
        }
        lemma_entry_position_is(entry@.filename, before, p as int);
    }
    entries.insert(p, entry);
    assert(entry_views(entries@) =~= before.insert(p as int, entry@));
}

/// Arranges the files of a collection for listing: the entries outside any
/// group, and the groups in the order of their names, the entries of either
/// in the order of their file names.
pub fn arrange_listing(files: &Vec<ListFile>) -> (listed: (Vec<ListEntry>, Vec<ListGroup>))
    ensures
        entry_views(listed.0@) == arranged(list_file_views(files@)).0,
        group_views(listed.1@) == arranged(list_file_views(files@)).1,
        by_file_name(entry_views(listed.0@)),
        well_grouped(group_views(listed.1@)),
{
    let ghost all = list_file_views(files@);
    let mut ungrouped: Vec<ListEntry> = Vec::new();
    let mut groups: Vec<ListGroup> = Vec::new();
    let mut i: usize = 0;
    assert(all.take(0) =~= Seq::<ListFileView>::empty());
    assert(entry_views(ungrouped@) =~= arranged(all.take(0)).0);
    assert(group_views(groups@) =~= arranged(all.take(0)).1);
    while i < files.len()
        invariant
            i <= files@.len(),
            all == list_file_views(files@),
            entry_views(ungrouped@) == arranged(all.take(i as int)).0,
            group_views(groups@) == arranged(all.take(i as int)).1,
        decreases files@.len() - i,
    {
        let file = &files[i];
        proof {
            assert(all.take(i + 1).drop_last() =~= all.take(i as int));
            assert(all.take(i + 1).last() == file@);
        }
        let entry = ListEntry {
            filename: file.filename.clone(),
            title: match &file.title {
                Some(t) => Some(t.clone()),
                None => None,
            },
        };
        assert(entry@ == entry_of(file@));
        match &file.group {
            None => {
                place_entry(&mut ungrouped, entry);
            },
            Some(name) => {
                let ghost before = group_views(groups@);
                let mut p: usize = 0;
                while p < groups.len() && str_less(groups[p].name.as_str(), name.as_str())
                    invariant
                        p <= groups@.len(),
                        before == group_views(groups@),
                        forall|k: int| 0 <= k < p ==> lex_lt((#[trigger] before[k]).name, name@),
                    decreases groups@.len() - p,
                {
                    assert(before[p as int].name == groups@[p as int].name@);
                    p += 1;
                }
                proof {
                    if p < groups@.len() {
                        assert(before[p as int].name == groups@[p as int].name@);
                    }
                    lemma_group_position_is(name@, before, p as int);
                }
                if p < groups.len() && str_eq(groups[p].name.as_str(), name.as_str()) {
                    let mut group = groups.remove(p);
                    assert(group@ == before[p as int]);
                    place_entry(&mut group.entries, entry);
                    groups.insert(p, group);
                    assert(group_views(groups@) =~= with_grouped(before, name@, entry@));
                } else {
                    let mut entries: Vec<ListEntry> = Vec::new();
                    entries.push(entry);
                    assert(entry_views(entries@) =~= seq![entry@]);
                    let group = ListGroup { name: name.clone(), entries };
                    groups.insert(p, group);
                    assert(group_views(groups@) =~= with_grouped(before, name@, entry@));
                }
            },
        }
        i += 1;
    }
    assert(all.take(i as int) =~= all);
    proof {
        lemma_arranged(all);
    }
    (ungrouped, groups)
}

/// The line of one document: its name, filled up to the width of the name
/// column, a space, and its title. A file whose name names no document is
/// listed by its file name, and a document without a title as `(no title)`.
pub open spec fn entry_line(e: EntryView) -> Seq<char> {
    padded(
        match spec_name(e.filename) {
            Some(name) => name,
            None => e.filename,
        },
        LIST_NAME_WIDTH as nat,
    ) + seq![' '] + (match e.title {
        Some(title) => title,
        None => "(no title)"@,
    })
}

/// The lines of the documents `entries`, in their order.
pub open spec fn entry_lines(entries: Seq<EntryView>) -> Seq<Seq<char>>
    decreases entries.len(),
{
    if entries.len() == 0 {
        Seq::empty()
    } else {
        entry_lines(entries.drop_last()).push(entry_line(entries.last()))
    }
}

/// The lines of one group: an empty line where groups are `spaced`, the
/// name of the group with a slash, and the lines of its documents.
pub open spec fn group_lines(g: GroupView, spaced: bool) -> Seq<Seq<char>> {
    (if spaced {
        seq![Seq::<char>::empty()]
    } else {
        Seq::<Seq<char>>::empty()
    }) + seq![g.name.push('/')] + entry_lines(g.entries)
}

/// The lines of the groups `groups`, in their order.
pub open spec fn groups_lines(groups: Seq<GroupView>, spaced: bool) -> Seq<Seq<char>>
    decreases groups.len(),
{
    if groups.len() == 0 {
        Seq::empty()
    } else {
        groups_lines(groups.drop_last(), spaced) + group_lines(groups.last(), spaced)
    }
}

/// The listing of a collection: the documents outside any group first, then
/// the groups. An empty line stands before each group where there are
/// documents outside any group or more groups than one. A collection without
/// documents is listed as `No specs found.`.
pub open spec fn listing(ungrouped: Seq<EntryView>, groups: Seq<GroupView>) -> Seq<Seq<char>> {
    if ungrouped.len() == 0 && groups.len() == 0 {
        seq!["No specs found."@]
    } else {
        entry_lines(ungrouped) + groups_lines(groups, ungrouped.len() > 0 || groups.len() > 1)
    }
}

/// The line of the document `entry`.
fn list_line(entry: &ListEntry) -> (line: String)
    ensures
        line@ == entry_line(entry@),
{
    let mut line = match extract_spec_name(entry.filename.as_str()) {
        Some(name) => pad_right(name, LIST_NAME_WIDTH),
        None => pad_right(entry.filename.as_str(), LIST_NAME_WIDTH),
    };
    line.push(' ');
    match &entry.title {
        Some(title) => line.append(title.as_str()),
        None => line.append("(no title)"),
    }
    line
}

/// Adds the lines of the documents `entries` to `out`.
fn push_entry_lines(out: &mut Vec<String>, entries: &Vec<ListEntry>)
    ensures
        texts(final(out)@) == texts(old(out)@) + entry_lines(entry_views(entries@)),
{
    let ghost all = entry_views(entries@);
    let ghost start = texts(out@);
    let mut k: usize = 0;
    assert(all.take(0) =~= Seq::<EntryView>::empty());
    assert(texts(out@) =~= start + entry_lines(all.take(0)));
    while k < entries.len()
        invariant
            k <= entries@.len(),
            all == entry_views(entries@),
            texts(out@) == start + entry_lines(all.take(k as int)),
        decreases entries@.len() - k,
    {
        let ghost before = texts(out@);
        let line = list_line(&entries[k]);
        proof {
            assert(all.take(k + 1).drop_last() =~= all.take(k as int));
            assert(all.take(k + 1).last() == entries@[k as int]@);
        }
        out.push(line);
        assert(texts(out@) =~= before.push(line@));
        assert(texts(out@) =~= start + entry_lines(all.take(k + 1)));
        k += 1;
    }
    assert(all.take(k as int) =~= all);
}

/// The lines that list the documents of a collection.
pub fn list_lines(ungrouped: &Vec<ListEntry>, groups: &Vec<ListGroup>) -> (out: Vec<String>)
    ensures
        texts(out@) == listing(entry_views(ungrouped@), group_views(groups@)),
{
    let mut out: Vec<String> = Vec::new();
    if ungrouped.len() == 0 && groups.len() == 0 {
        let line = String::from_str("No specs found.");
        out.push(line);
        assert(texts(out@) =~= seq!["No specs found."@]);
        return out;
    }
    assert(texts(out@) =~= Seq::<Seq<char>>::empty());
    push_entry_lines(&mut out, ungrouped);
    let spaced = ungrouped.len() > 0 || groups.len() > 1;
    let ghost head = entry_lines(entry_views(ungrouped@));
    let ghost all = group_views(groups@);
    assert(texts(out@) =~= head);
    let mut k: usize = 0;
    assert(all.take(0) =~= Seq::<GroupView>::empty());
    assert(texts(out@) =~= head + groups_lines(all.take(0), spaced));
    while k < groups.len()
        invariant
            k <= groups@.len(),
            all == group_views(groups@),
            texts(out@) == head + groups_lines(all.take(k as int), spaced),
        decreases groups@.len() - k,
    {
        let ghost before = texts(out@);
        let group = &groups[k];
        proof {
            assert(all.take(k + 1).drop_last() =~= all.take(k as int));
            assert(all.take(k + 1).last() == group@);
        }
        if spaced {
            out.push(String::new());
        }
        let mut header = group.name.clone();
        header.push('/');
        out.push(header);
        assert(texts(out@) =~= before + (if spaced {
            seq![Seq::<char>::empty()]
        } else {
            Seq::<Seq<char>>::empty()
        }) + seq![group@.name.push('/')]);
        push_entry_lines(&mut out, &group.entries);
        assert(texts(out@) =~= before + group_lines(group@, spaced));
        assert(texts(out@) =~= head + groups_lines(all.take(k + 1), spaced));
        k += 1;
    }
    assert(all.take(k as int) =~= all);
    out
}

// ---------------------------------------------------------------------------
// Templates
// ---------------------------------------------------------------------------

/// The source of a template in words.
pub open spec fn source_text(source: TemplateSource) -> Seq<char> {
    match source {
        TemplateSource::Repo => "repo"@,
        TemplateSource::User => "user"@,
    }
}

/// The line of one template: its name, filled up to the width of the name
/// column, and its source in brackets.
pub open spec fn template_line(t: TemplateView) -> Seq<char> {
    padded(t.name, LIST_NAME_WIDTH as nat) + " ("@ + source_text(t.source) + ")"@
}

/// The lines of the templates `templates`, in their order.
pub open spec fn template_lines(templates: Seq<TemplateView>) -> Seq<Seq<char>>
    decreases templates.len(),
{
    if templates.len() == 0 {
        Seq::empty()
    } else {
        template_lines(templates.drop_last()).push(template_line(templates.last()))
    }
}

/// What is said where no templates are on offer.
pub open spec fn no_templates_lines() -> Seq<Seq<char>> {
    seq![
        "No templates found."@,
        Seq::<char>::empty(),
        "Create templates as Markdown files in:"@,
        "  .specs/templates/       (repo-level)"@,
        "  ~/.config/tinyspec/templates/  (user-level)"@,
    ]
}

/// The lines that list the templates on offer, or say where templates are
/// kept if there are none.
pub fn list_templates(templates: &Vec<TemplateInfo>) -> (out: Vec<String>)
    ensures
        texts(out@) == (if templates@.len() == 0 {
            no_templates_lines()
        } else {
            template_lines(template_views(templates@))
        }),
{
    let mut out: Vec<String> = Vec::new();
    if templates.len() == 0 {
        out.push(String::from_str("No templates found."));
        out.push(String::new());
        out.push(String::from_str("Create templates as Markdown files in:"));
        out.push(String::from_str("  .specs/templates/       (repo-level)"));
        out.push(String::from_str("  ~/.config/tinyspec/templates/  (user-level)"));
        assert(texts(out@) =~= no_templates_lines());
        return out;
    }
    let ghost all = template_views(templates@);
    let mut k: usize = 0;
    assert(all.take(0) =~= Seq::<TemplateView>::empty());
    assert(texts(out@) =~= template_lines(all.take(0)));
    while k < templates.len()
        invariant
            k <= templates@.len(),
            all == template_views(templates@),
            texts(out@) == template_lines(all.take(k as int)),
        decreases templates@.len() - k,
    {
        let ghost before = texts(out@);
        let t = &templates[k];
        proof {
            assert(all.take(k + 1).drop_last() =~= all.take(k as int));
            assert(all.take(k + 1).last() == t@);
        }
        let mut line = pad_right(t.name.as_str(), LIST_NAME_WIDTH);
        line.append(" (");
        line.append(t.source.to_string().as_str());
        line.append(")");
        out.push(line);
        assert(texts(out@) =~= before.push(template_line(t@)));
        k += 1;
    }
    assert(all.take(k as int) =~= all);
    out
}

// ---------------------------------------------------------------------------
// Repositories
// ---------------------------------------------------------------------------

/// The line of one repository: `name: path`.
pub open spec fn repository_line(pair: (Seq<char>, Seq<char>)) -> Seq<char> {
    pair.0 + ": "@ + pair.1
}

/// The lines of the repositories `pairs`, in their order.
pub open spec fn repository_lines(pairs: Seq<(Seq<char>, Seq<char>)>) -> Seq<Seq<char>>
    decreases pairs.len(),
{
    if pairs.len() == 0 {
        Seq::empty()
    } else {
        repository_lines(pairs.drop_last()).push(repository_line(pairs.last()))
    }
}

/// What is said where no repositories are configured.
pub open spec fn no_repositories_lines() -> Seq<Seq<char>> {
    seq![
        "No repositories configured."@,
        "Use `tinyspec config set <repo-name> <path>` to add a repository mapping."@,
    ]
}

/// The lines that list the repositories of the configuration in the order
/// of their names, or say how to add one if there are none.
pub fn config_list(config: &Config) -> (out: Vec<String>)
    ensures
        exists|pairs: Seq<(Seq<char>, Seq<char>)>|
            ascending(pairs) && mapping_of(pairs) == config@ && texts(out@) == (if pairs.len()
                == 0 {
                no_repositories_lines()
            } else {
                repository_lines(pairs)
            }),
{
    let entries = config.entries();
    let ghost all = pair_views(entries@);
    let mut out: Vec<String> = Vec::new();
    if entries.len() == 0 {
        out.push(String::from_str("No repositories configured."));
        out.push(
            String::from_str(
                "Use `tinyspec config set <repo-name> <path>` to add a repository mapping.",
            ),
        );
        assert(texts(out@) =~= no_repositories_lines());
        return out;
    }
    let mut k: usize = 0;
    assert(all.take(0) =~= Seq::<(Seq<char>, Seq<char>)>::empty());
    assert(texts(out@) =~= repository_lines(all.take(0)));
    while k < entries.len()
        invariant
            k <= entries@.len(),
            all == pair_views(entries@),
            texts(out@) == repository_lines(all.take(k as int)),
        decreases entries@.len() - k,
    {
        let ghost before = texts(out@);
        proof {
            assert(all.take(k + 1).drop_last() =~= all.take(k as int));
            assert(all.take(k + 1).last() == (entries@[k as int].0@, entries@[k as int].1@));
        }
        let mut line = entries[k].0.clone();
        line.append(": ");
        line.append(entries[k].1.as_str());
        out.push(line);
        assert(texts(out@) =~= before.push(repository_line(all[k as int])));
        k += 1;
    }
    assert(all.take(k as int) =~= all);
    out
}

/// The message for a repository that was mapped.
pub open spec fn set_message(name: Seq<char>, path: Seq<char>) -> Seq<char> {
    "Set "@ + name + " = "@ + path
}

/// The message for a repository whose mapping was taken out.
pub open spec fn removed_message(name: Seq<char>) -> Seq<char> {
    "Removed "@ + name
}

/// The message for a repository that has no mapping.
pub open spec fn not_configured_message(name: Seq<char>) -> Seq<char> {
    "Repository '"@ + name + "' not found in config"@
}

/// Maps the repository `name` to the folder `path` in the configuration.
/// Returns the message that says so.
pub fn config_set(config: &mut Config, name: &str, path: &str) -> (message: String)
    ensures
        final(config)@ == old(config)@.insert(name@, path@),
        message@ == set_message(name@, path@),
{
    config.set(name, path);
    let mut message = String::from_str("Set ");
    message.append(name);
    message.append(" = ");
    message.append(path);
    message
}

/// Takes the mapping of the repository `name` out of the configuration.
/// Returns the message that says so, or the message that there is no such
/// mapping; the configuration is unchanged then.
pub fn config_remove(config: &mut Config, name: &str) -> (result: Result<String, String>)
    ensures
        match result {
            Ok(message) => old(config)@.contains_key(name@) && final(config)@ == old(config)@.remove(
                name@,
            ) && message@ == removed_message(name@),
            Err(message) => !old(config)@.contains_key(name@) && final(config)@ == old(config)@
                && message@ == not_configured_message(name@),
        },
{
    if config.remove(name) {
        let mut message = String::from_str("Removed ");
        message.append(name);
        Ok(message)
    } else {
        assert(config@ =~= old(config)@);
        let mut message = String::from_str("Repository '");
        message.append(name);
        message.append("' not found in config");
        Err(message)
    }
}

} // verus!
