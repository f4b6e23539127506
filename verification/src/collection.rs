//! The collection: the summaries of all documents that were read, in the
//! order in which they are listed.

use crate::order::{in_order, ordered, sort_summaries, summary_views};
use crate::plan::parse_plan;
use crate::summary::{
    lemma_consistent_counts, load_spec_summary, spec_name, summarize, SpecSummary, SummaryView,
};
use crate::task::total_count;
use crate::text::text_of;
use vstd::prelude::*;

verus! {

/// What was read of one document: the name of its file, its group, the title
/// from its front matter and its text.
#[derive(Debug)]
pub struct SpecFile {
    pub filename: String,
    /// The directory of the document below the collection's root; `None` for
    /// a document in the root itself.
    pub group: Option<String>,
    /// The title that the front matter gives; `None` where it gives none or
    /// cannot be read.
    pub title: Option<String>,
    pub content: String,
}

/// The mathematical value of a `SpecFile`.
pub struct SpecFileView {
    pub filename: Seq<char>,
    pub group: Option<Seq<char>>,
    pub title: Option<Seq<char>>,
    pub content: Seq<char>,
}

impl View for SpecFile {
    type V = SpecFileView;

    open spec fn view(&self) -> SpecFileView {
        SpecFileView {
            filename: self.filename@,
            group: text_of(self.group),
            title: text_of(self.title),
            content: self.content@,
        }
    }
}

/// The values of a sequence of files.
pub open spec fn file_views(v: Seq<SpecFile>) -> Seq<SpecFileView> {
    v.map_values(|f: SpecFile| f@)
}

/// The summary of one file, where its name names a document.
pub open spec fn summary_of_file(f: SpecFileView) -> Option<SummaryView> {
    summarize(f.filename, f.group, f.title, f.content)
}

/// The summaries of the files `files`, in the order of the files. A file
/// whose name names no document is passed over.
pub open spec fn loaded(files: Seq<SpecFileView>) -> Seq<SummaryView>
    decreases files.len(),
{
    if files.len() == 0 {
        Seq::empty()
    } else {
        let before = loaded(files.drop_last());
        match summary_of_file(files.last()) {
            Some(s) => before.push(s),
            None => before,
        }
    }
}

/// The optional string as an optional slice.
fn as_opt_str(o: &Option<String>) -> (r: Option<&str>)
    ensures
        crate::text::text_of_str(r) == text_of(*o),
{
    match o {
        Some(s) => Some(s.as_str()),
        None => None,
    }
}

/// Loads the summaries of all documents that were read and puts them into
/// the order in which they are listed. Files that give no summary are passed
/// over; no files give no summaries.
pub fn load_all_summaries(files: &Vec<SpecFile>) -> (summaries: Vec<SpecSummary>)
    requires
        forall|i: int|
            0 <= i < files@.len() && spec_name((#[trigger] files@[i]).filename@) is Some
                ==> total_count(parse_plan(files@[i].content@)) <= u32::MAX,
    ensures
        summary_views(summaries@) == in_order(loaded(file_views(files@))),
        ordered(summary_views(summaries@)),
        forall|i: int|
            0 <= i < summaries@.len() ==> (#[trigger] summaries@[i])@.is_consistent()
                && summaries@[i].checked <= summaries@[i].total,
{
    let ghost all = file_views(files@);
    let mut found: Vec<SpecSummary> = Vec::new();
    let mut i: usize = 0;
    assert(all.take(0) =~= Seq::<SpecFileView>::empty());
    assert(summary_views(found@) =~= Seq::<SummaryView>::empty());
    while i < files.len()
        invariant
            i <= files@.len(),
            all == file_views(files@),
            forall|k: int|
                0 <= k < files@.len() && spec_name((#[trigger] files@[k]).filename@) is Some
                    ==> total_count(parse_plan(files@[k].content@)) <= u32::MAX,
            summary_views(found@) == loaded(all.take(i as int)),
            forall|k: int| 0 <= k < found@.len() ==> (#[trigger] found@[k])@.is_consistent(),
        decreases files@.len() - i,
    {
        let f = &files[i];
        let ghost before = summary_views(found@);
        proof {
            assert(all.take(i + 1).drop_last() =~= all.take(i as int));
            assert(all.take(i + 1).last() == f@);
        }
        match load_spec_summary(
            f.filename.as_str(),
            as_opt_str(&f.group),
            as_opt_str(&f.title),
            f.content.as_str(),
        ) {
            Some(s) => {
                found.push(s);
                assert(summary_views(found@) =~= before.push(s@));
            },
            None => {},
        }
        i += 1;
    }
    assert(all.take(i as int) =~= all);
    let ghost unsorted = summary_views(found@);
    let sorted = sort_summaries(found);
    proof {
        let views = summary_views(sorted@);
        assert forall|k: int| 0 <= k < sorted@.len() implies (#[trigger] sorted@[k])@.is_consistent()
            && sorted@[k].checked <= sorted@[k].total by {
            broadcast use vstd::seq_lib::group_to_multiset_ensures;

            let v = views[k];
            assert(views.contains(v));
            assert(views.to_multiset().count(v) > 0);
            assert(unsorted.to_multiset().count(v) > 0);
            assert(unsorted.contains(v));
            let w = choose|w: int| 0 <= w < unsorted.len() && unsorted[w] == v;
            assert(unsorted[w] == found@[w]@);
            lemma_consistent_counts(v);
        }
    }
    sorted
}

} // verus!
