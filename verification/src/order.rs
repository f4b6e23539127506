//! The order in which the documents of a collection are listed.
//!
//! Unfinished documents come before completed ones. Within either, the
//! documents outside any group come first and the groups follow in the order
//! of their names. Within a group, unfinished documents go from the oldest to
//! the newest, completed ones from the newest to the oldest.

use crate::status::SpecStatus;
use crate::summary::{SpecSummary, SummaryView};
use crate::text::{
    lemma_lex_lt_connected, lemma_lex_lt_irreflexive, lemma_lex_lt_transitive, lex_lt, str_eq,
    str_less,
};
use vstd::prelude::*;
use vstd::seq_lib::to_multiset_insert;

verus! {

/// Whether the document is completed.
pub open spec fn is_done(s: SummaryView) -> bool {
    s.status == SpecStatus::Completed
}

/// Whether the group `a` comes before the group `b`: no group comes before
/// any group, and two groups go by their names.
pub open spec fn group_lt(a: Option<Seq<char>>, b: Option<Seq<char>>) -> bool {
    match a {
        None => b is Some,
        Some(x) => match b {
            Some(y) => lex_lt(x, y),
            None => false,
        },
    }
}

/// Whether `a` has to be listed before `b`.
pub open spec fn sorts_before(a: SummaryView, b: SummaryView) -> bool {
    if is_done(a) != is_done(b) {
        is_done(b)
    } else if a.group != b.group {
        group_lt(a.group, b.group)
    } else if is_done(a) {
        lex_lt(b.timestamp, a.timestamp)
    } else {
        lex_lt(a.timestamp, b.timestamp)
    }
}

/// Whether no document of `s` has to be listed before one that stands
/// earlier in `s`.
pub open spec fn ordered(s: Seq<SummaryView>) -> bool {
    forall|i: int, j: int| 0 <= i < j < s.len() ==> !sorts_before(#[trigger] s[j], #[trigger] s[i])
}

/// Where `x` goes into the ordered sequence `t`: behind the documents that
/// have to be listed before it, and before all others.
pub open spec fn insert_position(x: SummaryView, t: Seq<SummaryView>) -> int
    decreases t.len(),
{
    if t.len() == 0 || !sorts_before(t[0], x) {
        0
    } else {
        1 + insert_position(x, t.drop_first())
    }
}

/// The documents `s` in the order in which they are listed. Documents of
/// which neither has to come before the other keep the order that they have
/// in `s`.
pub open spec fn in_order(s: Seq<SummaryView>) -> Seq<SummaryView>
    decreases s.len(),
{
    if s.len() == 0 {
        s
    } else {
        let rest = in_order(s.drop_first());
        rest.insert(insert_position(s[0], rest), s[0])
    }
}

/// The values of a sequence of summaries.
pub open spec fn summary_views(v: Seq<SpecSummary>) -> Seq<SummaryView> {
    v.map_values(|s: SpecSummary| s@)
}

/// Of two groups at most one comes before the other, and of two different
/// groups one does.
pub proof fn lemma_group_lt(a: Option<Seq<char>>, b: Option<Seq<char>>)
    ensures
        !(group_lt(a, b) && group_lt(b, a)),
        a != b ==> group_lt(a, b) || group_lt(b, a),
{
    if a is Some && b is Some {
        lemma_lex_lt_connected(a->0, b->0);
    }
}

/// Of two documents at most one has to be listed before the other.
pub proof fn lemma_sorts_before_asymmetric(a: SummaryView, b: SummaryView)
    ensures
        !(sorts_before(a, b) && sorts_before(b, a)),
{
    lemma_group_lt(a.group, b.group);
    lemma_lex_lt_connected(a.timestamp, b.timestamp);
}

/// A document that has to be listed before `c` has to be listed before `b`,
/// unless `b` has to be listed before `c`.
pub proof fn lemma_sorts_before_between(a: SummaryView, b: SummaryView, c: SummaryView)
    requires
        sorts_before(a, c),
    ensures
        sorts_before(a, b) || sorts_before(b, c),
{
    lemma_group_lt(a.group, b.group);
    lemma_group_lt(b.group, c.group);
    lemma_group_lt(a.group, c.group);
    if a.group is Some && b.group is Some && c.group is Some {
        let (x, y, z) = (a.group->0, b.group->0, c.group->0);
        if lex_lt(y, x) && lex_lt(x, z) {
            lemma_lex_lt_transitive(y, x, z);
        }
    }
    let (t, u, v) = (a.timestamp, b.timestamp, c.timestamp);
    lemma_lex_lt_connected(t, u);
    lemma_lex_lt_connected(u, v);
    if lex_lt(u, t) && lex_lt(t, v) {
        lemma_lex_lt_transitive(u, t, v);
    }
    if lex_lt(v, t) && lex_lt(t, u) {
        lemma_lex_lt_transitive(v, t, u);
    }
}

/// What `insert_position` is: the documents before it have to be listed
/// before `x`, and the one at it has not.
pub proof fn lemma_insert_position(x: SummaryView, t: Seq<SummaryView>)
    ensures
        0 <= insert_position(x, t) <= t.len(),
        forall|k: int| 0 <= k < insert_position(x, t) ==> sorts_before(#[trigger] t[k], x),
        insert_position(x, t) < t.len() ==> !sorts_before(t[insert_position(x, t)], x),
    decreases t.len(),
{
    if !(t.len() == 0 || !sorts_before(t[0], x)) {
        let r = t.drop_first();
        lemma_insert_position(x, r);
        assert forall|k: int| 0 <= k < insert_position(x, t) implies sorts_before(
            #[trigger] t[k],
            x,
        ) by {
            if k > 0 {
                assert(t[k] == r[k - 1]);
            }
        }
    }
}

/// `insert_position` is the only position of that kind.
pub proof fn lemma_insert_position_is(x: SummaryView, t: Seq<SummaryView>, n: int)
    requires
        0 <= n <= t.len(),
        forall|k: int| 0 <= k < n ==> sorts_before(#[trigger] t[k], x),
        n < t.len() ==> !sorts_before(t[n], x),
    ensures
        insert_position(x, t) == n,
    decreases n,
{
    if n > 0 {
        let r = t.drop_first();
        assert(sorts_before(t[0], x));
        assert forall|k: int| 0 <= k < n - 1 implies sorts_before(#[trigger] r[k], x) by {
            assert(r[k] == t[k + 1]);
        }
        lemma_insert_position_is(x, r, n - 1);
    }
}

/// Putting a document at its position into an ordered sequence leaves the
/// sequence ordered.
pub proof fn lemma_insert_keeps_order(x: SummaryView, t: Seq<SummaryView>)
    requires
        ordered(t),
    ensures
        ordered(t.insert(insert_position(x, t), x)),
{
    let p = insert_position(x, t);
    let r = t.insert(p, x);
    lemma_insert_position(x, t);
    assert forall|i: int, j: int| 0 <= i < j < r.len() implies !sorts_before(
        #[trigger] r[j],
        #[trigger] r[i],
    ) by {
        if j == p {
            assert(r[i] == t[i]);
            lemma_sorts_before_asymmetric(t[i], x);
        } else if i == p {
            assert(r[j] == t[j - 1]);
            let y = t[j - 1];
            if sorts_before(y, x) {
                lemma_sorts_before_between(y, t[p], x);
                lemma_sorts_before_asymmetric(t[p], t[p]);
            }
        } else {
            let i0 = if i < p {
                i
            } else {
                i - 1
            };
            let j0 = if j < p {
                j
            } else {
                j - 1
            };
            assert(r[i] == t[i0] && r[j] == t[j0]);
        }
    }
}

/// The listing of `s` is ordered and holds the documents of `s`, each as
/// often as `s` holds it.
pub proof fn lemma_in_order(s: Seq<SummaryView>)
    ensures
        ordered(in_order(s)),
        in_order(s).len() == s.len(),
        in_order(s).to_multiset() == s.to_multiset(),
    decreases s.len(),
{
    if s.len() > 0 {
        let rest = in_order(s.drop_first());
        lemma_in_order(s.drop_first());
        lemma_insert_position(s[0], rest);
        lemma_insert_keeps_order(s[0], rest);
        to_multiset_insert(rest, insert_position(s[0], rest), s[0]);
        to_multiset_insert(s.drop_first(), 0, s[0]);
        assert(s.drop_first().insert(0, s[0]) =~= s);
    }
}

/// An unfinished document is listed before every completed one, whatever
/// their groups and timestamps.
pub proof fn lemma_unfinished_first(s: Seq<SummaryView>, i: int, j: int)
    requires
        ordered(s),
        0 <= i < s.len(),
        0 <= j < s.len(),
        !is_done(s[i]),
        is_done(s[j]),
    ensures
        i < j,
{
    if j < i {
        assert(!sorts_before(s[i], s[j]));
    }
}

/// Of two unfinished documents of one group, the one with the lesser
/// timestamp is listed first.
pub proof fn lemma_unfinished_oldest_first(s: Seq<SummaryView>, i: int, j: int)
    requires
        ordered(s),
        0 <= i < s.len(),
        0 <= j < s.len(),
        !is_done(s[i]),
        !is_done(s[j]),
        s[i].group == s[j].group,
        lex_lt(s[i].timestamp, s[j].timestamp),
    ensures
        i < j,
{
    lemma_lex_lt_irreflexive(s[i].timestamp);
    if j < i {
        assert(!sorts_before(s[i], s[j]));
    }
}

/// Of two completed documents of one group, the one with the greater
/// timestamp is listed first.
pub proof fn lemma_completed_newest_first(s: Seq<SummaryView>, i: int, j: int)
    requires
        ordered(s),
        0 <= i < s.len(),
        0 <= j < s.len(),
        is_done(s[i]),
        is_done(s[j]),
        s[i].group == s[j].group,
        lex_lt(s[i].timestamp, s[j].timestamp),
    ensures
        j < i,
{
    lemma_lex_lt_irreflexive(s[i].timestamp);
    if i < j {
        assert(!sorts_before(s[j], s[i]));
    }
}

/// Whether `a` has to be listed before `b`.
pub fn comes_before(a: &SpecSummary, b: &SpecSummary) -> (r: bool)
    ensures
        r == sorts_before(a@, b@),
{
    let a_done = a.status.is_completed();
    let b_done = b.status.is_completed();
    if a_done != b_done {
        return b_done;
    }
    match (&a.group, &b.group) {
        (None, None) => {},
        (None, Some(_)) => {
            return true;
        },
        (Some(_), None) => {
            return false;
        },
        (Some(x), Some(y)) => {
            if !str_eq(x.as_str(), y.as_str()) {
                return str_less(x.as_str(), y.as_str());
            }
        },
    }
    assert(a@.group == b@.group);
    if a_done {
        str_less(b.timestamp.as_str(), a.timestamp.as_str())
    } else {
        str_less(a.timestamp.as_str(), b.timestamp.as_str())
    }
}

/// Puts the summaries into the order in which they are listed.
pub fn sort_summaries(summaries: Vec<SpecSummary>) -> (sorted: Vec<SpecSummary>)
    ensures
        summary_views(sorted@) == in_order(summary_views(summaries@)),
        ordered(summary_views(sorted@)),
        sorted@.len() == summaries@.len(),
        summary_views(sorted@).to_multiset() == summary_views(summaries@).to_multiset(),
{
    let ghost all = summary_views(summaries@);
    let mut rest = summaries;
    let mut out: Vec<SpecSummary> = Vec::new();
    assert(all.skip(all.len() as int) =~= Seq::<SummaryView>::empty());
    assert(summary_views(out@) =~= Seq::<SummaryView>::empty());
    while rest.len() > 0
        invariant
            rest@.len() <= all.len(),
            summary_views(rest@) == all.take(rest@.len() as int),
            summary_views(out@) == in_order(all.skip(rest@.len() as int)),
        decreases rest@.len(),
    {
        let ghost n = rest@.len() as int;
        let ghost before = summary_views(out@);
        let x = rest.pop().unwrap();
        let mut p: usize = 0;
        while p < out.len() && comes_before(&out[p], &x)
            invariant
                p <= out@.len(),
                before == summary_views(out@),
                forall|k: int| 0 <= k < p ==> sorts_before(#[trigger] before[k], x@),
            decreases out@.len() - p,
        {
            p += 1;
        }
        proof {
            lemma_insert_position_is(x@, before, p as int);
            assert(summary_views(rest@) =~= all.take(n - 1));
            assert(all.skip(n - 1)[0] == x@) by {
                assert(all.take(n)[n - 1] == x@);
            }
            assert(all.skip(n - 1).drop_first() =~= all.skip(n));
        }
        out.insert(p, x);
        assert(summary_views(out@) =~= before.insert(p as int, x@));
    }
    proof {
        assert(all.skip(0) =~= all);
        lemma_in_order(all);
    }
    out
}

} // verus!
