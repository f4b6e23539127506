//! The display model of the list: the flat sequence of rows that the list of
//! documents is shown as, and the rows among them that can be selected.
//!
//! The summaries are scanned in their order. Where the group changes to a
//! named one, a header for that group is put before the document's row. The
//! header carries the counts of every document of that group in the whole
//! collection, wherever it stands.

use crate::order::summary_views;
use crate::summary::{SpecSummary, SummaryView};
use crate::text::str_eq;
use vstd::prelude::*;

verus! {

/// One row of the list.
#[derive(Debug)]
pub enum DisplayItem {
    /// The header of a group, with the counts of all its documents.
    GroupHeader { name: String, checked: u32, total: u32 },
    /// The row of the document with this index among the summaries.
    Spec(usize),
}

impl Clone for DisplayItem {
    fn clone(&self) -> (r: Self)
        ensures
            r@ == self@,
    {
        match self {
            DisplayItem::GroupHeader { name, checked, total } => DisplayItem::GroupHeader {
                name: name.clone(),
                checked: *checked,
                total: *total,
            },
            DisplayItem::Spec(i) => DisplayItem::Spec(*i),
        }
    }
}

/// The mathematical value of a `DisplayItem`.
pub enum DisplayRow {
    GroupHeader { name: Seq<char>, checked: u32, total: u32 },
    Spec(int),
}

impl View for DisplayItem {
    type V = DisplayRow;

    open spec fn view(&self) -> DisplayRow {
        match *self {
            DisplayItem::GroupHeader { name, checked, total } => DisplayRow::GroupHeader {
                name: name@,
                checked,
                total,
            },
            DisplayItem::Spec(i) => DisplayRow::Spec(i as int),
        }
    }
}

/// The values of a sequence of rows.
pub open spec fn display_views(v: Seq<DisplayItem>) -> Seq<DisplayRow> {
    v.map_values(|d: DisplayItem| d@)
}

/// What the summary adds to the count of tasks of the group `g`.
pub open spec fn total_in(s: SummaryView, g: Seq<char>) -> nat {
    if s.group == Some(g) {
        s.total as nat
    } else {
        0
    }
}

/// What the summary adds to the count of checked tasks of the group `g`.
pub open spec fn checked_in(s: SummaryView, g: Seq<char>) -> nat {
    if s.group == Some(g) {
        s.checked as nat
    } else {
        0
    }
}

/// The number of tasks of all documents of the group `g`.
pub open spec fn group_total(specs: Seq<SummaryView>, g: Seq<char>) -> nat
    decreases specs.len(),
{
    if specs.len() == 0 {
        0
    } else {
        group_total(specs.drop_last(), g) + total_in(specs.last(), g)
    }
}

/// The number of checked tasks of all documents of the group `g`.
pub open spec fn group_checked(specs: Seq<SummaryView>, g: Seq<char>) -> nat
    decreases specs.len(),
{
    if specs.len() == 0 {
        0
    } else {
        group_checked(specs.drop_last(), g) + checked_in(specs.last(), g)
    }
}

/// Whether the counts of every group fit into a header.
pub open spec fn aggregates_fit(specs: Seq<SummaryView>) -> bool {
    forall|g: Seq<char>|
        #![trigger group_total(specs, g)]
        #![trigger group_checked(specs, g)]
        group_total(specs, g) <= u32::MAX && group_checked(specs, g) <= u32::MAX
}

/// The header of the group `g`.
pub open spec fn header_of(specs: Seq<SummaryView>, g: Seq<char>) -> DisplayRow {
    DisplayRow::GroupHeader {
        name: g,
        checked: group_checked(specs, g) as u32,
        total: group_total(specs, g) as u32,
    }
}

/// Whether the document at `i` gets a header before its row: it is in a
/// group, and the document before it is not in that group (or there is none
/// before it).
pub open spec fn opens_group(specs: Seq<SummaryView>, i: int) -> bool {
    specs[i].group is Some && (i == 0 || specs[i - 1].group != specs[i].group)
}

/// The rows for the first `n` documents.
pub open spec fn display_rows_upto(specs: Seq<SummaryView>, n: nat) -> Seq<DisplayRow>
    decreases n,
{
    if n == 0 {
        Seq::empty()
    } else {
        let i = (n - 1) as nat;
        let before = display_rows_upto(specs, i);
        let headed = if opens_group(specs, i as int) {
            before.push(header_of(specs, specs[i as int].group->0))
        } else {
            before
        };
        headed.push(DisplayRow::Spec(i as int))
    }
}

/// The positions, among the rows, of the rows of the first `n` documents.
pub open spec fn selectable_upto(specs: Seq<SummaryView>, n: nat) -> Seq<int>
    decreases n,
{
    if n == 0 {
        Seq::empty()
    } else {
        selectable_upto(specs, (n - 1) as nat).push(display_rows_upto(specs, n).len() - 1)
    }
}

/// The rows of the list.
pub open spec fn display_rows(specs: Seq<SummaryView>) -> Seq<DisplayRow> {
    display_rows_upto(specs, specs.len())
}

/// The positions of the rows that can be selected: one for each document, in
/// the order of the documents.
pub open spec fn selectable_rows(specs: Seq<SummaryView>) -> Seq<int> {
    selectable_upto(specs, specs.len())
}

/// The counts of a group over the first documents are no greater than over
/// all of them.
pub proof fn lemma_group_sums_prefix(specs: Seq<SummaryView>, g: Seq<char>, n: int)
    requires
        0 <= n <= specs.len(),
    ensures
        group_total(specs.take(n), g) <= group_total(specs, g),
        group_checked(specs.take(n), g) <= group_checked(specs, g),
    decreases specs.len() - n,
{
    if n < specs.len() {
        lemma_group_sums_prefix(specs, g, n + 1);
        assert(specs.take(n + 1).drop_last() == specs.take(n));
    } else {
        assert(specs.take(n) == specs);
    }
}

/// Every selectable position holds the row of its document, never a header,
/// and there is one selectable position for each document.
pub proof fn lemma_selectable_rows(specs: Seq<SummaryView>, n: nat)
    requires
        n <= specs.len(),
    ensures
        selectable_upto(specs, n).len() == n,
        n <= display_rows_upto(specs, n).len() <= 2 * n,
        forall|i: int|
            0 <= i < n ==> 0 <= #[trigger] selectable_upto(specs, n)[i] < display_rows_upto(
                specs,
                n,
            ).len() && display_rows_upto(specs, n)[selectable_upto(specs, n)[i]]
                == DisplayRow::Spec(i),
    decreases n,
{
    if n > 0 {
        let m = (n - 1) as nat;
        lemma_selectable_rows(specs, m);
        let before = display_rows_upto(specs, m);
        let rows = display_rows_upto(specs, n);
        let picks = selectable_upto(specs, n);
        assert forall|i: int| 0 <= i < n implies 0 <= #[trigger] picks[i] < rows.len()
            && rows[picks[i]] == DisplayRow::Spec(i) by {
            if i < m {
                assert(picks[i] == selectable_upto(specs, m)[i]);
                assert(rows[picks[i]] == before[picks[i]]);
            }
        }
    }
}

/// Every header among the rows carries the counts of all documents of its
/// group, and every other row names a document.
pub proof fn lemma_display_rows(specs: Seq<SummaryView>, n: nat)
    requires
        n <= specs.len(),
    ensures
        forall|k: int|
            0 <= k < display_rows_upto(specs, n).len() ==> match #[trigger] display_rows_upto(
                specs,
                n,
            )[k] {
                DisplayRow::GroupHeader { name, checked, total } => checked == group_checked(
                    specs,
                    name,
                ) as u32 && total == group_total(specs, name) as u32,
                DisplayRow::Spec(i) => 0 <= i < n,
            },
    decreases n,
{
    if n > 0 {
        let m = (n - 1) as nat;
        lemma_display_rows(specs, m);
        let before = display_rows_upto(specs, m);
        let rows = display_rows_upto(specs, n);
        assert forall|k: int| 0 <= k < rows.len() implies match #[trigger] rows[k] {
            DisplayRow::GroupHeader { name, checked, total } => checked == group_checked(
                specs,
                name,
            ) as u32 && total == group_total(specs, name) as u32,
            DisplayRow::Spec(i) => 0 <= i < n,
        } by {
            if k < before.len() {
                assert(rows[k] == before[k]);
            }
        }
    }
}

/// Every header of the list carries the counts of all documents of its
/// group, wherever in the collection they stand.
pub proof fn lemma_headers_carry_group_counts(specs: Seq<SummaryView>)
    requires
        aggregates_fit(specs),
    ensures
        forall|k: int|
            0 <= k < display_rows(specs).len() ==> (#[trigger] display_rows(specs)[k]
                matches DisplayRow::GroupHeader { name, checked, total } ==> checked
                == group_checked(specs, name) && total == group_total(specs, name)),
{
    lemma_display_rows(specs, specs.len());
    assert forall|k: int| 0 <= k < display_rows(specs).len() implies (#[trigger] display_rows(
        specs,
    )[k] matches DisplayRow::GroupHeader { name, checked, total } ==> checked == group_checked(
        specs,
        name,
    ) && total == group_total(specs, name)) by {
        match display_rows(specs)[k] {
            DisplayRow::GroupHeader { name, checked, total } => {
                assert(group_total(specs, name) <= u32::MAX && group_checked(specs, name)
                    <= u32::MAX);
            },
            DisplayRow::Spec(i) => {},
        }
    }
}

/// There is one selectable position for each document, and each holds the
/// row of its document: the selection never points at a header.
pub proof fn lemma_selection_resolves_to_documents(specs: Seq<SummaryView>)
    ensures
        selectable_rows(specs).len() == specs.len(),
        forall|i: int|
            0 <= i < specs.len() ==> 0 <= #[trigger] selectable_rows(specs)[i] < display_rows(
                specs,
            ).len() && display_rows(specs)[selectable_rows(specs)[i]] == DisplayRow::Spec(i),
{
    lemma_selectable_rows(specs, specs.len());
}

/// Whether the summary is in the group `g`.
fn in_group(s: &SpecSummary, g: &str) -> (r: bool)
    ensures
        r == (s@.group == Some(g@)),
{
    match &s.group {
        Some(x) => str_eq(x.as_str(), g),
        None => false,
    }
}

/// Whether two summaries are in the same group, or both in none.
fn same_group(a: &SpecSummary, b: &SpecSummary) -> (r: bool)
    ensures
        r == (a@.group == b@.group),
{
    match &b.group {
        Some(g) => in_group(a, g.as_str()),
        None => a.group.is_none(),
    }
}

/// The counts of the group `g` over all of `specs`: checked first, then
/// total.
fn group_counts(specs: &Vec<SpecSummary>, g: &str) -> (counts: (u32, u32))
    requires
        aggregates_fit(summary_views(specs@)),
    ensures
        counts.0 == group_checked(summary_views(specs@), g@),
        counts.1 == group_total(summary_views(specs@), g@),
{
    let ghost all = summary_views(specs@);
    let mut checked: u32 = 0;
    let mut total: u32 = 0;
    let mut k: usize = 0;
    while k < specs.len()
        invariant
            k <= specs@.len(),
            all == summary_views(specs@),
            aggregates_fit(all),
            checked == group_checked(all.take(k as int), g@),
            total == group_total(all.take(k as int), g@),
        decreases specs@.len() - k,
    {
        proof {
            lemma_group_sums_prefix(all, g@, k + 1);
            assert(all.take(k + 1).drop_last() == all.take(k as int));
            assert(all.take(k + 1).last() == specs@[k as int]@);
            assert(group_total(all, g@) <= u32::MAX && group_checked(all, g@) <= u32::MAX);
        }
        if in_group(&specs[k], g) {
            checked += specs[k].checked;
            total += specs[k].total;
        }
        k += 1;
    }
    assert(all.take(k as int) == all);
    (checked, total)
}

/// Builds the rows of the list and the positions of those that can be
/// selected.
pub fn build_display_items(specs: &Vec<SpecSummary>) -> (built: (Vec<DisplayItem>, Vec<usize>))
    requires
        aggregates_fit(summary_views(specs@)),
    ensures
        display_views(built.0@) == display_rows(summary_views(specs@)),
        built.1@.map_values(|p: usize| p as int) == selectable_rows(summary_views(specs@)),
        built.1@.len() == specs@.len(),
        forall|i: int|
            0 <= i < specs@.len() ==> (#[trigger] built.1@[i]) < built.0@.len() && built.0@[built.1@[i] as int]@
                == DisplayRow::Spec(i),
{
    let ghost all = summary_views(specs@);
    let mut items: Vec<DisplayItem> = Vec::new();
    let mut selectable: Vec<usize> = Vec::new();
    let mut i: usize = 0;
    assert(display_views(items@) =~= display_rows_upto(all, 0));
    assert(selectable@.map_values(|p: usize| p as int) =~= selectable_upto(all, 0));
    while i < specs.len()
        invariant
            i <= specs@.len(),
            all == summary_views(specs@),
            aggregates_fit(all),
            display_views(items@) == display_rows_upto(all, i as nat),
            selectable@.map_values(|p: usize| p as int) == selectable_upto(all, i as nat),
        decreases specs@.len() - i,
    {
        let ghost rows_before = display_views(items@);
        let ghost picks_before = selectable@.map_values(|p: usize| p as int);
        proof {
            lemma_selectable_rows(all, i as nat);
        }
        let spec = &specs[i];
        let group_changed = if i == 0 {
            spec.group.is_some()
        } else {
            !same_group(&specs[i - 1], spec)
        };
        if group_changed {
            match &spec.group {
                Some(g) => {
                    let (checked, total) = group_counts(specs, g.as_str());
                    let header = DisplayItem::GroupHeader { name: g.clone(), checked, total };
                    items.push(header);
                    assert(display_views(items@) =~= rows_before.push(header_of(all, g@)));
                },
                None => {},
            }
        }
        let ghost rows_headed = display_views(items@);
        selectable.push(items.len());
        items.push(DisplayItem::Spec(i));
        assert(display_views(items@) =~= rows_headed.push(DisplayRow::Spec(i as int)));
        assert(selectable@.map_values(|p: usize| p as int) =~= picks_before.push(
            display_views(items@).len() - 1,
        ));
        i += 1;
    }
    proof {
        lemma_selectable_rows(all, all.len());
        let picks = selectable@.map_values(|p: usize| p as int);
        assert forall|k: int| 0 <= k < specs@.len() implies (#[trigger] selectable@[k])
            < items@.len() && items@[selectable@[k] as int]@ == DisplayRow::Spec(k) by {
            assert(picks[k] == selectable@[k] as int);
            assert(display_views(items@)[picks[k]] == items@[picks[k]]@);
        }
    }
    (items, selectable)
}

/// A group that no document is in has no counts.
pub proof fn lemma_absent_group(specs: Seq<SummaryView>, g: Seq<char>)
    requires
        forall|i: int| 0 <= i < specs.len() ==> (#[trigger] specs[i]).group != Some(g),
    ensures
        group_total(specs, g) == 0,
        group_checked(specs, g) == 0,
    decreases specs.len(),
{
    if specs.len() > 0 {
        let before = specs.drop_last();
        assert forall|i: int| 0 <= i < before.len() implies (#[trigger] before[i]).group != Some(
            g,
        ) by {
            assert(before[i] == specs[i]);
        }
        lemma_absent_group(before, g);
        assert(specs.last() == specs[specs.len() - 1]);
    }
}

/// Whether the counts of the group `g` over all of `specs` fit into a
/// header.
fn group_fits(specs: &Vec<SpecSummary>, g: &str) -> (fits: bool)
    ensures
        fits == (group_total(summary_views(specs@), g@) <= u32::MAX && group_checked(
            summary_views(specs@),
            g@,
        ) <= u32::MAX),
{
    let ghost all = summary_views(specs@);
    let mut checked: u64 = 0;
    let mut total: u64 = 0;
    let mut k: usize = 0;
    while k < specs.len()
        invariant
            k <= specs@.len(),
            all == summary_views(specs@),
            checked == group_checked(all.take(k as int), g@),
            total == group_total(all.take(k as int), g@),
            checked <= u32::MAX,
            total <= u32::MAX,
        decreases specs@.len() - k,
    {
        proof {
            lemma_group_sums_prefix(all, g@, k + 1);
            assert(all.take(k + 1).drop_last() == all.take(k as int));
            assert(all.take(k + 1).last() == specs@[k as int]@);
        }
        if in_group(&specs[k], g) {
            checked += specs[k].checked as u64;
            total += specs[k].total as u64;
            if checked > 0xffff_ffff || total > 0xffff_ffff {
                return false;
            }
        }
        k += 1;
    }
    assert(all.take(k as int) == all);
    true
}

/// Whether the counts of the group `group`, if it is one, fit into a header.
pub open spec fn group_counts_fit(specs: Seq<SummaryView>, group: Option<Seq<char>>) -> bool {
    match group {
        Some(g) => group_total(specs, g) <= u32::MAX && group_checked(specs, g) <= u32::MAX,
        None => true,
    }
}

/// Whether the counts of every group fit into a header. The rows of the
/// list can be built for such summaries, and for no others.
pub fn fits_display(specs: &Vec<SpecSummary>) -> (fits: bool)
    ensures
        fits == aggregates_fit(summary_views(specs@)),
{
    let ghost all = summary_views(specs@);
    let mut i: usize = 0;
    while i < specs.len()
        invariant
            i <= specs@.len(),
            all == summary_views(specs@),
            forall|k: int| 0 <= k < i ==> group_counts_fit(all, (#[trigger] all[k]).group),
        decreases specs@.len() - i,
    {
        match &specs[i].group {
            Some(g) => {
                assert(all[i as int].group == Some(g@));
                if !group_fits(specs, g.as_str()) {
                    assert(!(group_total(all, g@) <= u32::MAX && group_checked(all, g@)
                        <= u32::MAX));
                    return false;
                }
                assert(group_counts_fit(all, all[i as int].group));
            },
            None => {
                assert(all[i as int].group is None);
            },
        }
        i += 1;
    }
    proof {
        assert forall|g: Seq<char>|
            #![trigger group_total(all, g)]
            #![trigger group_checked(all, g)]
            group_total(all, g) <= u32::MAX && group_checked(all, g) <= u32::MAX by {
            if exists|k: int| 0 <= k < all.len() && (#[trigger] all[k]).group == Some(g) {
                let k = choose|k: int| 0 <= k < all.len() && (#[trigger] all[k]).group == Some(g);
                assert(group_counts_fit(all, all[k].group));
            } else {
                lemma_absent_group(all, g);
            }
        }
    }
    true
}

} // verus!
