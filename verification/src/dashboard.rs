//! The dashboard controller: the state of the interactive session and how
//! keys and reloads change it.
//!
//! The session is in one of two modes. In `List` mode a document is selected
//! among all; in `Detail` mode one document is open, and a row is selected
//! among its tasks, of which the top-level ones can be collapsed. This
//! module holds no terminal and reads no files: it maps a state and an event
//! to the next state.

use crate::display::{
    aggregates_fit, build_display_items, display_rows, display_views, selectable_rows, DisplayItem,
    DisplayRow,
};
use crate::order::summary_views;
use crate::summary::{SpecSummary, SummaryView};
use crate::task::{forest_of, lemma_forest_of, TaskTree};
use std::collections::HashSet;
use vstd::prelude::*;

verus! {

broadcast use vstd::std_specs::hash::group_hash_axioms;

/// The mode of the session.
#[derive(Debug, Clone, Copy, PartialEq, Eq, Structural)]
pub enum Mode {
    List,
    Detail,
}

/// A key press, as far as the dashboard tells keys apart.
#[derive(Debug, Clone, Copy, PartialEq, Eq, Structural)]
pub enum Key {
    Up,
    Down,
    Enter,
    Esc,
    Char(char),
    Other,
}

/// One row of the detail view.
#[derive(Debug, Clone, Copy, PartialEq, Eq, Structural)]
pub enum DetailRow {
    /// The top-level task with this index, expanded or collapsed.
    TopLevel { index: usize, expanded: bool },
    /// The child `child` of the top-level task `parent`.
    SubTask { parent: usize, child: usize },
}

/// The state of the detail view.
pub struct DetailState {
    spec_index: usize,
    collapsed: HashSet<usize>,
    selected: usize,
}

/// The state of the session.
pub struct App {
    specs: Vec<SpecSummary>,
    display_items: Vec<DisplayItem>,
    selectable: Vec<usize>,
    selected: usize,
    mode: Mode,
    detail: DetailState,
    should_quit: bool,
}

/// The mathematical value of the detail view's state.
pub struct DetailView {
    /// The index of the open document among the summaries.
    pub spec_index: nat,
    /// The indices of the collapsed top-level tasks.
    pub collapsed: Set<usize>,
    /// The selected row among the rows shown.
    pub selected: nat,
}

/// The mathematical value of the session's state. The rows of the list are
/// not part of it: they follow from the summaries.
pub struct AppView {
    pub specs: Seq<SummaryView>,
    /// The selected document: its place among the selectable rows.
    pub selected: nat,
    pub mode: Mode,
    pub detail: DetailView,
    pub should_quit: bool,
}

// ---------------------------------------------------------------------------
// The rows of the detail view
// ---------------------------------------------------------------------------

/// The rows of the children of the top-level task `parent`.
pub open spec fn child_rows(parent: usize, count: nat) -> Seq<DetailRow> {
    Seq::new(count, |j: int| DetailRow::SubTask { parent, child: j as usize })
}

/// The rows for the first `n` top-level tasks: each task's own row, followed
/// by the rows of its children unless the task is collapsed.
pub open spec fn detail_rows_upto(tasks: Seq<TaskTree>, collapsed: Set<usize>, n: nat) -> Seq<
    DetailRow,
>
    decreases n,
{
    if n == 0 {
        Seq::empty()
    } else {
        let i = (n - 1) as usize;
        let before = detail_rows_upto(tasks, collapsed, (n - 1) as nat);
        let expanded = !collapsed.contains(i);
        let top = before.push(DetailRow::TopLevel { index: i, expanded });
        if expanded {
            top + child_rows(i, tasks[n - 1].children.len())
        } else {
            top
        }
    }
}

/// The rows of the detail view of a document with the tasks `tasks`.
pub open spec fn detail_rows(tasks: Seq<TaskTree>, collapsed: Set<usize>) -> Seq<DetailRow> {
    detail_rows_upto(tasks, collapsed, tasks.len())
}

/// The set `collapsed` with `i` taken out if it is in it, and put in if it
/// is not.
pub open spec fn toggled(collapsed: Set<usize>, i: usize) -> Set<usize> {
    if collapsed.contains(i) {
        collapsed.remove(i)
    } else {
        collapsed.insert(i)
    }
}

/// The members of `collapsed` that are less than `n`.
pub open spec fn below(collapsed: Set<usize>, n: nat) -> Set<usize> {
    Set::new(|i: usize| collapsed.contains(i) && i < n)
}

/// The index `i` held to a sequence of `count` items: unchanged where it is
/// in range, the last index where it is beyond, and the first index where
/// there are no items.
pub open spec fn clamp_index(i: nat, count: nat) -> nat {
    if count == 0 {
        0
    } else if i < count {
        i
    } else {
        (count - 1) as nat
    }
}

/// The rows for the first tasks do not depend on whether later tasks are
/// collapsed.
pub proof fn lemma_detail_rows_agree(
    tasks: Seq<TaskTree>,
    c: Set<usize>,
    d: Set<usize>,
    n: nat,
)
    requires
        forall|i: usize| i < n ==> (c.contains(i) <==> d.contains(i)),
    ensures
        detail_rows_upto(tasks, c, n) == detail_rows_upto(tasks, d, n),
    decreases n,
{
    if n > 0 {
        lemma_detail_rows_agree(tasks, c, d, (n - 1) as nat);
    }
}

/// The row of the top-level task `i` stands where the rows of the tasks
/// before it end, and every row of a top-level task stands at such a place.
pub proof fn lemma_detail_rows_top(tasks: Seq<TaskTree>, c: Set<usize>, n: nat)
    requires
        n <= usize::MAX,
    ensures
        forall|i: nat|
            i < n ==> (#[trigger] detail_rows_upto(tasks, c, i)).len() < detail_rows_upto(
                tasks,
                c,
                n,
            ).len() && detail_rows_upto(tasks, c, n)[detail_rows_upto(tasks, c, i).len() as int]
                == (DetailRow::TopLevel { index: i as usize, expanded: !c.contains(i as usize) }),
        forall|p: int|
            0 <= p < detail_rows_upto(tasks, c, n).len() ==> match #[trigger] detail_rows_upto(
                tasks,
                c,
                n,
            )[p] {
                DetailRow::TopLevel { index, expanded } => index < n && p == detail_rows_upto(
                    tasks,
                    c,
                    index as nat,
                ).len(),
                DetailRow::SubTask { parent, child } => parent < n,
            },
    decreases n,
{
    if n > 0 {
        let m = (n - 1) as nat;
        lemma_detail_rows_top(tasks, c, m);
        let before = detail_rows_upto(tasks, c, m);
        let rows = detail_rows_upto(tasks, c, n);
        assert forall|i: nat| i < n implies (#[trigger] detail_rows_upto(tasks, c, i)).len()
            < rows.len() && rows[detail_rows_upto(tasks, c, i).len() as int]
            == (DetailRow::TopLevel { index: i as usize, expanded: !c.contains(i as usize) }) by {
            if i < m {
                assert(rows[detail_rows_upto(tasks, c, i).len() as int]
                    == before[detail_rows_upto(tasks, c, i).len() as int]);
            }
        }
        assert forall|p: int| 0 <= p < rows.len() implies match #[trigger] rows[p] {
            DetailRow::TopLevel { index, expanded } => index < n && p == detail_rows_upto(
                tasks,
                c,
                index as nat,
            ).len(),
            DetailRow::SubTask { parent, child } => parent < n,
        } by {
            if p < before.len() {
                assert(rows[p] == before[p]);
            }
        }
    }
}

// ---------------------------------------------------------------------------
// The state and what holds of it
// ---------------------------------------------------------------------------

/// The tasks of the open document; none where no document is open.
pub open spec fn current_tasks(s: AppView) -> Seq<TaskTree> {
    if s.detail.spec_index < s.specs.len() {
        s.specs[s.detail.spec_index as int].tasks
    } else {
        Seq::empty()
    }
}

/// The rows that the detail view shows.
pub open spec fn current_rows(s: AppView) -> Seq<DetailRow> {
    detail_rows(current_tasks(s), s.detail.collapsed)
}

/// What holds of every state of a session: the selection of the list is a
/// selectable place (the first where there are none), and in `Detail` mode a
/// document is open, unless there is none at all, and the selected row is one
/// of its rows (the first where it has none).
pub open spec fn consistent(s: AppView) -> bool {
    &&& aggregates_fit(s.specs)
    &&& s.selected == clamp_index(s.selected, s.specs.len())
    &&& s.mode == Mode::Detail ==> {
        &&& s.specs.len() > 0 ==> s.detail.spec_index < s.specs.len()
        &&& s.detail.selected == clamp_index(s.detail.selected, current_rows(s).len())
    }
}

impl View for DetailState {
    type V = DetailView;

    closed spec fn view(&self) -> DetailView {
        DetailView {
            spec_index: self.spec_index as nat,
            collapsed: self.collapsed@,
            selected: self.selected as nat,
        }
    }
}

impl View for App {
    type V = AppView;

    closed spec fn view(&self) -> AppView {
        AppView {
            specs: summary_views(self.specs@),
            selected: self.selected as nat,
            mode: self.mode,
            detail: self.detail@,
            should_quit: self.should_quit,
        }
    }
}

impl App {
    #[verifier::type_invariant]
    spec fn well_formed(self) -> bool {
        &&& consistent(self@)
        &&& display_views(self.display_items@) == display_rows(summary_views(self.specs@))
        &&& self.selectable@.map_values(|p: usize| p as int) == selectable_rows(
            summary_views(self.specs@),
        )
        &&& self.selectable@.len() == self.specs@.len()
        &&& forall|i: int|
            0 <= i < self.specs@.len() ==> (#[trigger] self.selectable@[i])
                < self.display_items@.len() && self.display_items@[self.selectable@[i] as int]@
                == DisplayRow::Spec(i)
    }

    /// The session at its start, over the summaries `specs`: in `List` mode,
    /// with the first document selected.
    pub fn new(specs: Vec<SpecSummary>) -> (app: App)
        requires
            aggregates_fit(summary_views(specs@)),
        ensures
            app@ == (AppView {
                specs: summary_views(specs@),
                selected: 0,
                mode: Mode::List,
                detail: DetailView { spec_index: 0, collapsed: Set::empty(), selected: 0 },
                should_quit: false,
            }),
            consistent(app@),
    {
        let (display_items, selectable) = build_display_items(&specs);
        App {
            specs,
            display_items,
            selectable,
            selected: 0,
            mode: Mode::List,
            detail: DetailState { spec_index: 0, collapsed: HashSet::new(), selected: 0 },
            should_quit: false,
        }
    }

    /// The summaries that the session shows.
    pub fn specs(&self) -> (specs: &Vec<SpecSummary>)
        ensures
            summary_views(specs@) == self@.specs,
    {
        &self.specs
    }

    /// The rows of the list.
    pub fn display_items(&self) -> (items: &Vec<DisplayItem>)
        ensures
            display_views(items@) == display_rows(self@.specs),
    {
        proof {
            use_type_invariant(self);
        }
        &self.display_items
    }

    /// The positions, among the rows of the list, of the rows that can be
    /// selected. There is one for each document, and each holds the row of
    /// its document.
    pub fn selectable(&self) -> (positions: &Vec<usize>)
        ensures
            positions@.map_values(|p: usize| p as int) == selectable_rows(self@.specs),
            positions@.len() == self@.specs.len(),
    {
        proof {
            use_type_invariant(self);
        }
        &self.selectable
    }

    /// The place of the selected document among the selectable rows.
    pub fn selected(&self) -> (selected: usize)
        ensures
            selected == self@.selected,
    {
        self.selected
    }

    /// The mode of the session.
    pub fn mode(&self) -> (mode: Mode)
        ensures
            mode == self@.mode,
    {
        self.mode
    }

    /// Whether the session is to end.
    pub fn should_quit(&self) -> (quit: bool)
        ensures
            quit == self@.should_quit,
    {
        self.should_quit
    }

    /// The index of the document that the detail view shows.
    pub fn detail_spec_index(&self) -> (index: usize)
        ensures
            index == self@.detail.spec_index,
            self@.mode == Mode::Detail && self@.specs.len() > 0 ==> index < self@.specs.len(),
    {
        proof {
            use_type_invariant(self);
        }
        self.detail.spec_index
    }

    /// The document that the detail view shows; none where its index is
    /// beyond the summaries.
    pub fn open_spec(&self) -> (spec: Option<&SpecSummary>)
        ensures
            match spec {
                Some(found) => self@.detail.spec_index < self@.specs.len() && found@
                    == self@.specs[self@.detail.spec_index as int],
                None => self@.detail.spec_index >= self@.specs.len(),
            },
    {
        if self.detail.spec_index < self.specs.len() {
            Some(&self.specs[self.detail.spec_index])
        } else {
            None
        }
    }

    /// The selected row of the detail view.
    pub fn detail_selected(&self) -> (selected: usize)
        ensures
            selected == self@.detail.selected,
    {
        self.detail.selected
    }

    /// Whether the top-level task `index` is collapsed in the detail view.
    pub fn is_collapsed(&self, index: usize) -> (collapsed: bool)
        ensures
            collapsed == self@.detail.collapsed.contains(index),
    {
        self.detail.collapsed.contains(&index)
    }

    /// The index, among the summaries, of the document that is selected in
    /// the list; `None` where there are no documents. The selection never
    /// points at a header.
    pub fn selected_spec_index(&self) -> (index: Option<usize>)
        ensures
            index == (if self@.selected < self@.specs.len() {
                Some(self@.selected as usize)
            } else {
                None
            }),
    {
        proof {
            use_type_invariant(self);
        }
        if self.selected >= self.selectable.len() {
            return None;
        }
        let flat: usize = self.selectable[self.selected];
        match &self.display_items[flat] {
            DisplayItem::Spec(idx) => Some(*idx),
            _ => None,
        }
    }

    /// The rows that the detail view shows: for each top-level task of the
    /// open document its row, followed by the rows of its children unless
    /// the task is collapsed.
    pub fn detail_rows(&self) -> (rows: Vec<DetailRow>)
        ensures
            rows@ == current_rows(self@),
    {
        let mut rows: Vec<DetailRow> = Vec::new();
        if self.detail.spec_index >= self.specs.len() {
            return rows;
        }
        let spec = &self.specs[self.detail.spec_index];
        let ghost tasks = forest_of(spec.tasks@);
        let ghost collapsed = self.detail.collapsed@;
        proof {
            lemma_forest_of(spec.tasks@);
            assert(current_tasks(self@) == tasks);
        }
        let mut i: usize = 0;
        while i < spec.tasks.len()
            invariant
                i <= spec.tasks@.len(),
                tasks == forest_of(spec.tasks@),
                tasks.len() == spec.tasks@.len(),
                collapsed == self.detail.collapsed@,
                rows@ == detail_rows_upto(tasks, collapsed, i as nat),
            decreases spec.tasks@.len() - i,
        {
            let task = &spec.tasks[i];
            let expanded = !self.detail.collapsed.contains(&i);
            rows.push(DetailRow::TopLevel { index: i, expanded });
            if expanded {
                let ghost top = rows@;
                let count: usize = task.children.len();
                proof {
                    lemma_forest_of(spec.tasks@);
                    lemma_forest_of(task.children@);
                    assert(tasks[i as int].children.len() == count);
                }
                let mut j: usize = 0;
                while j < count
                    invariant
                        j <= count,
                        rows@ == top + child_rows(i, j as nat),
                    decreases count - j,
                {
                    rows.push(DetailRow::SubTask { parent: i, child: j });
                    j += 1;
                    assert(rows@ =~= top + child_rows(i, j as nat));
                }
            }
            i += 1;
        }
        rows
    }
}

// ---------------------------------------------------------------------------
// Keys
// ---------------------------------------------------------------------------

/// Whether the key ends the session.
pub open spec fn is_quit(key: Key) -> bool {
    key == Key::Char('q')
}

/// Whether the key moves the selection up.
pub open spec fn is_up(key: Key) -> bool {
    key == Key::Up || key == Key::Char('k')
}

/// Whether the key moves the selection down.
pub open spec fn is_down(key: Key) -> bool {
    key == Key::Down || key == Key::Char('j')
}

/// Whether the key collapses or expands a task in the detail view.
pub open spec fn is_toggle(key: Key) -> bool {
    key == Key::Enter || key == Key::Char(' ')
}

/// The state after `key` in `List` mode. `q` ends the session. Up and down
/// move the selection by one document and stop at the first and the last.
/// Enter opens the selected document with nothing collapsed and its first
/// row selected; it does nothing where there are no documents. Other keys do
/// nothing.
pub open spec fn list_step(s: AppView, key: Key) -> AppView {
    if is_quit(key) {
        AppView { should_quit: true, ..s }
    } else if is_up(key) {
        if s.selected > 0 {
            AppView { selected: (s.selected - 1) as nat, ..s }
        } else {
            s
        }
    } else if is_down(key) {
        if s.selected + 1 < s.specs.len() {
            AppView { selected: s.selected + 1, ..s }
        } else {
            s
        }
    } else if key == Key::Enter {
        if s.selected < s.specs.len() {
            AppView {
                mode: Mode::Detail,
                detail: DetailView {
                    spec_index: s.selected,
                    collapsed: Set::empty(),
                    selected: 0,
                },
                ..s
            }
        } else {
            s
        }
    } else {
        s
    }
}

/// The state after `key` in `Detail` mode. `q` ends the session and Escape
/// goes back to the list, whose selection is as it was. Up and down move the
/// selection by one row among the rows shown and stop at the first and the
/// last. Enter and space, on the row of a top-level task, collapse the task
/// if it is expanded and expand it if it is collapsed; on the row of a child
/// they do nothing. Other keys do nothing.
pub open spec fn detail_step(s: AppView, key: Key) -> AppView {
    let rows = current_rows(s);
    if is_quit(key) {
        AppView { should_quit: true, ..s }
    } else if key == Key::Esc {
        AppView { mode: Mode::List, ..s }
    } else if is_up(key) {
        if s.detail.selected > 0 {
            AppView {
                detail: DetailView { selected: (s.detail.selected - 1) as nat, ..s.detail },
                ..s
            }
        } else {
            s
        }
    } else if is_down(key) {
        if s.detail.selected + 1 < rows.len() {
            AppView { detail: DetailView { selected: s.detail.selected + 1, ..s.detail }, ..s }
        } else {
            s
        }
    } else if is_toggle(key) {
        if s.detail.selected < rows.len() {
            match rows[s.detail.selected as int] {
                DetailRow::TopLevel { index, expanded } => AppView {
                    detail: DetailView { collapsed: toggled(s.detail.collapsed, index), ..s.detail },
                    ..s
                },
                DetailRow::SubTask { parent, child } => s,
            }
        } else {
            s
        }
    } else {
        s
    }
}

/// The state after `key`, in the mode that the session is in.
pub open spec fn step(s: AppView, key: Key) -> AppView {
    match s.mode {
        Mode::List => list_step(s, key),
        Mode::Detail => detail_step(s, key),
    }
}

/// The position of the first summary of `specs` that is named `name`, or
/// their number where none is.
pub open spec fn position_of(specs: Seq<SummaryView>, name: Seq<char>) -> int
    decreases specs.len(),
{
    if specs.len() == 0 || specs[0].name == name {
        0
    } else {
        1 + position_of(specs.drop_first(), name)
    }
}

/// Where the open document is after the summaries were loaded anew as
/// `specs`: at its index, where the new summaries reach that far; else at the
/// first summary that has its name; nowhere where there is none.
pub open spec fn reopened_at(s: AppView, specs: Seq<SummaryView>) -> Option<nat> {
    let index = s.detail.spec_index;
    if index < specs.len() {
        Some(index)
    } else if index < s.specs.len() && 0 <= position_of(specs, s.specs[index as int].name)
        < specs.len() {
        Some(position_of(specs, s.specs[index as int].name) as nat)
    } else {
        None
    }
}

/// The state of the detail view, held to the tasks `tasks` of the document
/// now open at `index`: tasks that are no longer there are no longer
/// collapsed, and the selected row is held to the rows now shown.
pub open spec fn held_to(detail: DetailView, index: nat, tasks: Seq<TaskTree>) -> DetailView {
    let collapsed = below(detail.collapsed, tasks.len());
    DetailView {
        spec_index: index,
        collapsed,
        selected: clamp_index(detail.selected, detail_rows(tasks, collapsed).len()),
    }
}

/// The state after the summaries were loaded anew as `specs`. The mode
/// stays, and so does whether the session is to end. The selection of the
/// list is held to the new number of documents.
///
/// In `Detail` mode the open document stays open where `reopened_at` finds
/// it, and the state of the detail view is held to it, not reset. Where the
/// open document is gone, the last document is opened in its place, with
/// nothing collapsed and its first row selected; where no document is left,
/// the detail view shows none.
pub open spec fn reloaded(s: AppView, specs: Seq<SummaryView>) -> AppView {
    let selected = clamp_index(s.selected, specs.len());
    if s.mode == Mode::Detail {
        match reopened_at(s, specs) {
            Some(index) => AppView {
                specs,
                selected,
                detail: held_to(s.detail, index, specs[index as int].tasks),
                ..s
            },
            None => AppView {
                specs,
                selected,
                detail: DetailView {
                    spec_index: clamp_index(s.detail.spec_index, specs.len()),
                    collapsed: Set::empty(),
                    selected: 0,
                },
                ..s
            },
        }
    } else {
        AppView { specs, selected, ..s }
    }
}

/// What `position_of` is: the least position of a summary of that name.
pub proof fn lemma_position_of(specs: Seq<SummaryView>, name: Seq<char>)
    ensures
        0 <= position_of(specs, name) <= specs.len(),
        forall|k: int| 0 <= k < position_of(specs, name) ==> (#[trigger] specs[k]).name != name,
        position_of(specs, name) < specs.len() ==> specs[position_of(specs, name)].name == name,
    decreases specs.len(),
{
    if !(specs.len() == 0 || specs[0].name == name) {
        let rest = specs.drop_first();
        lemma_position_of(rest, name);
        assert forall|k: int| 0 <= k < position_of(specs, name) implies (#[trigger] specs[k]).name
            != name by {
            if k > 0 {
                assert(specs[k] == rest[k - 1]);
            }
        }
    }
}

/// `position_of` is the only position of that kind.
pub proof fn lemma_position_of_is(specs: Seq<SummaryView>, name: Seq<char>, n: int)
    requires
        0 <= n <= specs.len(),
        forall|k: int| 0 <= k < n ==> (#[trigger] specs[k]).name != name,
        n < specs.len() ==> specs[n].name == name,
    ensures
        position_of(specs, name) == n,
    decreases n,
{
    if n > 0 {
        let rest = specs.drop_first();
        assert(specs[0].name != name);
        assert forall|k: int| 0 <= k < n - 1 implies (#[trigger] rest[k]).name != name by {
            assert(rest[k] == specs[k + 1]);
        }
        lemma_position_of_is(rest, name, n - 1);
    }
}

/// Collapsing or expanding the task whose row is selected leaves that row
/// where it is.
pub proof fn lemma_toggle_keeps_row(tasks: Seq<TaskTree>, c: Set<usize>, p: int)
    requires
        tasks.len() <= usize::MAX,
        0 <= p < detail_rows(tasks, c).len(),
        detail_rows(tasks, c)[p] is TopLevel,
    ensures
        p < detail_rows(tasks, toggled(c, detail_rows(tasks, c)[p]->index)).len(),
        detail_rows(tasks, toggled(c, detail_rows(tasks, c)[p]->index))[p] is TopLevel,
        detail_rows(tasks, toggled(c, detail_rows(tasks, c)[p]->index))[p]->index == detail_rows(
            tasks,
            c,
        )[p]->index,
{
    let i = detail_rows(tasks, c)[p]->index;
    let d = toggled(c, i);
    lemma_detail_rows_top(tasks, c, tasks.len());
    lemma_detail_rows_agree(tasks, c, d, i as nat);
    lemma_detail_rows_top(tasks, d, tasks.len());
    assert(detail_rows_upto(tasks, d, i as nat).len() == p);
}

/// Every key leaves a consistent state consistent.
pub proof fn lemma_step_consistent(s: AppView, key: Key)
    requires
        consistent(s),
        current_tasks(s).len() <= usize::MAX,
    ensures
        consistent(step(s, key)),
{
    let t = step(s, key);
    if s.mode == Mode::Detail && is_toggle(key) && !is_quit(key) && key != Key::Esc && !is_up(key)
        && !is_down(key) {
        let rows = current_rows(s);
        if s.detail.selected < rows.len() && rows[s.detail.selected as int] is TopLevel {
            lemma_toggle_keeps_row(current_tasks(s), s.detail.collapsed, s.detail.selected as int);
        }
    }
}

/// Collapsing and expanding again, or expanding and collapsing again, gives
/// back the rows there were: toggling a task twice changes nothing.
pub proof fn lemma_toggle_twice(tasks: Seq<TaskTree>, c: Set<usize>, i: usize)
    ensures
        toggled(toggled(c, i), i) == c,
        detail_rows(tasks, toggled(toggled(c, i), i)) == detail_rows(tasks, c),
{
    assert(toggled(toggled(c, i), i) =~= c);
}

/// In `Detail` mode, pressing the toggle key twice on a row gives back the
/// state there was.
pub proof fn lemma_toggle_key_twice(s: AppView, key: Key)
    requires
        consistent(s),
        current_tasks(s).len() <= usize::MAX,
        s.mode == Mode::Detail,
        is_toggle(key),
    ensures
        step(step(s, key), key) == s,
{
    let rows = current_rows(s);
    let p = s.detail.selected as int;
    if p < rows.len() && rows[p] is TopLevel {
        let i = rows[p]->index;
        lemma_toggle_keeps_row(current_tasks(s), s.detail.collapsed, p);
        lemma_toggle_twice(current_tasks(s), s.detail.collapsed, i);
        let t = step(s, key);
        assert(current_tasks(t) == current_tasks(s));
        assert(step(t, key).detail.collapsed == s.detail.collapsed);
    }
}

/// A reload leaves the mode as it is, and whether the session is to end. It
/// takes over the new summaries and holds the selection of the list to them.
pub proof fn lemma_reload_keeps_mode(s: AppView, specs: Seq<SummaryView>)
    ensures
        reloaded(s, specs).mode == s.mode,
        reloaded(s, specs).should_quit == s.should_quit,
        reloaded(s, specs).specs == specs,
        reloaded(s, specs).selected == clamp_index(s.selected, specs.len()),
{
}

/// A reload in `Detail` mode keeps the document at the open index open
/// where the new summaries reach that far. Where they do not, and a summary
/// of the open document's name is among them, that document stays open at
/// its new place. Either way the state of the detail view is held to what
/// there is now and not reset: a task stays collapsed as long as there is a
/// task of its index, and the selected row stays where it was unless the
/// rows end before it.
pub proof fn lemma_reload_keeps_document(s: AppView, specs: Seq<SummaryView>)
    requires
        s.mode == Mode::Detail,
        s.detail.spec_index < s.specs.len(),
        s.detail.spec_index < specs.len() || exists|k: int|
            0 <= k < specs.len() && (#[trigger] specs[k]).name
                == s.specs[s.detail.spec_index as int].name,
    ensures
        reloaded(s, specs).mode == Mode::Detail,
        reloaded(s, specs).detail.spec_index < specs.len(),
        s.detail.spec_index < specs.len() ==> reloaded(s, specs).detail.spec_index
            == s.detail.spec_index,
        s.detail.spec_index >= specs.len() || specs[s.detail.spec_index as int].name
            == s.specs[s.detail.spec_index as int].name ==> specs[reloaded(
            s,
            specs,
        ).detail.spec_index as int].name == s.specs[s.detail.spec_index as int].name,
        current_tasks(reloaded(s, specs)) == specs[reloaded(s, specs).detail.spec_index as int].tasks,
        forall|i: usize|
            reloaded(s, specs).detail.collapsed.contains(i) <==> s.detail.collapsed.contains(i) && i
                < current_tasks(reloaded(s, specs)).len(),
        reloaded(s, specs).detail.selected <= s.detail.selected,
        s.detail.selected < current_rows(reloaded(s, specs)).len() ==> reloaded(
            s,
            specs,
        ).detail.selected == s.detail.selected,
        s.detail.selected >= current_rows(reloaded(s, specs)).len() > 0 ==> reloaded(
            s,
            specs,
        ).detail.selected == current_rows(reloaded(s, specs)).len() - 1,
{
    let name = s.specs[s.detail.spec_index as int].name;
    lemma_position_of(specs, name);
    if s.detail.spec_index >= specs.len() {
        let k = choose|k: int| 0 <= k < specs.len() && (#[trigger] specs[k]).name == name;
        assert(position_of(specs, name) <= k);
    }
}

/// A reload in `Detail` mode after which the open document is nowhere to be
/// found opens the last document afresh, and shows none where none is left.
pub proof fn lemma_reload_without_document(s: AppView, specs: Seq<SummaryView>)
    requires
        s.mode == Mode::Detail,
        reopened_at(s, specs) is None,
    ensures
        reloaded(s, specs).mode == Mode::Detail,
        reloaded(s, specs).detail.collapsed == Set::<usize>::empty(),
        reloaded(s, specs).detail.selected == 0,
        specs.len() > 0 ==> reloaded(s, specs).detail.spec_index == specs.len() - 1,
        specs.len() == 0 ==> current_rows(reloaded(s, specs)).len() == 0,
{
}

/// Loading the summaries anew leaves a consistent state consistent.
pub proof fn lemma_reloaded_consistent(s: AppView, specs: Seq<SummaryView>)
    requires
        aggregates_fit(specs),
    ensures
        consistent(reloaded(s, specs)),
{
}

/// Whether the key ends the session.
fn key_is_quit(key: Key) -> (r: bool)
    ensures
        r == is_quit(key),
{
    match key {
        Key::Char(c) => c == 'q',
        _ => false,
    }
}

/// Whether the key moves the selection up.
fn key_is_up(key: Key) -> (r: bool)
    ensures
        r == is_up(key),
{
    match key {
        Key::Up => true,
        Key::Char(c) => c == 'k',
        _ => false,
    }
}

/// Whether the key moves the selection down.
fn key_is_down(key: Key) -> (r: bool)
    ensures
        r == is_down(key),
{
    match key {
        Key::Down => true,
        Key::Char(c) => c == 'j',
        _ => false,
    }
}

/// Whether the key collapses or expands a task.
fn key_is_toggle(key: Key) -> (r: bool)
    ensures
        r == is_toggle(key),
{
    match key {
        Key::Enter => true,
        Key::Char(c) => c == ' ',
        _ => false,
    }
}

/// Handles a key in `List` mode.
pub fn handle_list_key(app: &mut App, key: Key)
    ensures
        final(app)@ == list_step(old(app)@, key),
{
    proof {
        use_type_invariant(&*app);
    }
    if key_is_quit(key) {
        app.should_quit = true;
    } else if key_is_up(key) {
        if app.selected > 0 {
            app.selected -= 1;
        }
    } else if key_is_down(key) {
        if app.selectable.len() > 0 && app.selected < app.selectable.len() - 1 {
            app.selected += 1;
        }
    } else if key == Key::Enter {
        if let Some(idx) = app.selected_spec_index() {
            app.detail = DetailState { spec_index: idx, collapsed: HashSet::new(), selected: 0 };
            app.mode = Mode::Detail;
        }
    }
}

/// Handles a key in `Detail` mode.
pub fn handle_detail_key(app: &mut App, key: Key)
    ensures
        final(app)@ == detail_step(old(app)@, key),
{
    proof {
        use_type_invariant(&*app);
    }
    let rows = app.detail_rows();
    let row_count: usize = rows.len();
    if key_is_quit(key) {
        app.should_quit = true;
    } else if key == Key::Esc {
        app.mode = Mode::List;
    } else if key_is_up(key) {
        if app.detail.selected > 0 {
            app.detail.selected -= 1;
        }
    } else if key_is_down(key) {
        if row_count > 0 && app.detail.selected < row_count - 1 {
            app.detail.selected += 1;
        }
    } else if key_is_toggle(key) {
        if app.detail.selected < row_count {
            match rows[app.detail.selected] {
                DetailRow::TopLevel { index, expanded } => {
                    proof {
                        if app.detail.spec_index < app.specs@.len() {
                            let spec = app.specs@[app.detail.spec_index as int];
                            lemma_forest_of(spec.tasks@);
                            assert(spec.tasks.len() <= usize::MAX);
                            lemma_toggle_keeps_row(
                                current_tasks(app@),
                                app.detail.collapsed@,
                                app.detail.selected as int,
                            );
                        }
                    }
                    proof {
                        lemma_nothing_fits();
                    }
                    let mut taken = App::new(Vec::new());
                    std::mem::swap(app, &mut taken);
                    let App {
                        specs,
                        display_items,
                        selectable,
                        selected,
                        mode,
                        detail,
                        should_quit,
                    } = taken;
                    let DetailState { spec_index, mut collapsed, selected: row } = detail;
                    if collapsed.contains(&index) {
                        collapsed.remove(&index);
                    } else {
                        collapsed.insert(index);
                    }
                    *app =
                    App {
                        specs,
                        display_items,
                        selectable,
                        selected,
                        mode,
                        detail: DetailState { spec_index, collapsed, selected: row },
                        should_quit,
                    };
                },
                DetailRow::SubTask { parent, child } => {},
            }
        }
    }
}

/// Handles a key in the mode that the session is in.
pub fn handle_key(app: &mut App, key: Key)
    ensures
        final(app)@ == step(old(app)@, key),
{
    match app.mode {
        Mode::List => handle_list_key(app, key),
        Mode::Detail => handle_detail_key(app, key),
    }
}

/// The members of `set` that are less than `n`.
fn members_below(set: &HashSet<usize>, n: usize) -> (r: HashSet<usize>)
    ensures
        r@ == below(set@, n as nat),
{
    let mut r: HashSet<usize> = HashSet::new();
    let mut i: usize = 0;
    assert(r@ =~= below(set@, 0));
    while i < n
        invariant
            i <= n,
            r@ == below(set@, i as nat),
        decreases n - i,
    {
        if set.contains(&i) {
            r.insert(i);
        }
        i += 1;
        assert(r@ =~= below(set@, i as nat));
    }
    r
}

/// No documents have no counts to fit.
proof fn lemma_nothing_fits()
    ensures
        aggregates_fit(Seq::<SummaryView>::empty()),
{
}

/// The position of the first summary of `specs` that is named `name`.
fn find_named(specs: &Vec<SpecSummary>, name: &str) -> (found: Option<usize>)
    ensures
        match found {
            Some(at) => at == position_of(summary_views(specs@), name@) && at < specs@.len(),
            None => position_of(summary_views(specs@), name@) == specs@.len(),
        },
{
    let ghost all = summary_views(specs@);
    let mut k: usize = 0;
    while k < specs.len()
        invariant
            k <= specs@.len(),
            all == summary_views(specs@),
            forall|i: int| 0 <= i < k ==> (#[trigger] all[i]).name != name@,
        decreases specs@.len() - k,
    {
        if crate::text::str_eq(specs[k].name.as_str(), name) {
            proof {
                assert(all[k as int].name == name@);
                lemma_position_of_is(all, name@, k as int);
            }
            return Some(k);
        }
        assert(all[k as int].name != name@);
        k += 1;
    }
    proof {
        lemma_position_of_is(all, name@, k as int);
    }
    None
}

impl App {
    /// Takes over the summaries `specs`, loaded anew, in place of those that
    /// the session had. The mode stays, and the selections are held to what
    /// there is now. In `Detail` mode the open document stays open where it
    /// is still to be found.
    pub fn reload(&mut self, specs: Vec<SpecSummary>)
        requires
            aggregates_fit(summary_views(specs@)),
        ensures
            final(self)@ == reloaded(old(self)@, summary_views(specs@)),
    {
        proof {
            use_type_invariant(&*self);
            lemma_nothing_fits();
        }
        let mut before = App::new(Vec::new());
        std::mem::swap(self, &mut before);
        let App {
            specs: earlier,
            display_items: _,
            selectable: _,
            selected,
            mode,
            detail,
            should_quit,
        } = before;
        let selected: usize = if specs.len() == 0 {
            0
        } else if selected < specs.len() {
            selected
        } else {
            specs.len() - 1
        };
        let (display_items, selectable) = build_display_items(&specs);
        let ghost all = summary_views(specs@);
        match mode {
            Mode::Detail => {
                let index: usize = detail.spec_index;
                let place: Option<usize> = if index < specs.len() {
                    Some(index)
                } else if index < earlier.len() {
                    assert(summary_views(earlier@)[index as int].name == earlier@[index as int].name@);
                    find_named(&specs, earlier[index].name.as_str())
                } else {
                    None
                };
                assert(match place {
                    Some(at) => reopened_at(old(self)@, all) == Some(at as nat),
                    None => reopened_at(old(self)@, all) is None,
                });
                match place {
                    Some(at) => {
                        let spec = &specs[at];
                        proof {
                            lemma_forest_of(spec.tasks@);
                        }
                        let collapsed = members_below(&detail.collapsed, spec.tasks.len());
                        let opened = DetailState {
                            spec_index: at,
                            collapsed,
                            selected: detail.selected,
                        };
                        let mut app = App {
                            specs,
                            display_items,
                            selectable,
                            selected,
                            mode: Mode::List,
                            detail: opened,
                            should_quit,
                        };
                        let row_count: usize = app.detail_rows().len();
                        let row: usize = if row_count == 0 {
                            0
                        } else if detail.selected < row_count {
                            detail.selected
                        } else {
                            row_count - 1
                        };
                        app.detail.selected = row;
                        app.mode = Mode::Detail;
                        *self = app;
                    },
                    None => {
                        let last: usize = if specs.len() == 0 {
                            0
                        } else {
                            specs.len() - 1
                        };
                        let opened = DetailState {
                            spec_index: last,
                            collapsed: HashSet::new(),
                            selected: 0,
                        };
                        *self =
                        App {
                            specs,
                            display_items,
                            selectable,
                            selected,
                            mode: Mode::Detail,
                            detail: opened,
                            should_quit,
                        };
                    },
                }
            },
            Mode::List => {
                *self =
                App { specs, display_items, selectable, selected, mode: Mode::List, detail, should_quit };
            },
        }
    }
}

} // verus!
