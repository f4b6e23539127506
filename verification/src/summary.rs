//! The summary of one document: its name and title, its group, its tasks,
//! the two counts taken over them and the status that the counts stand for.

use crate::plan::{parse_plan, parse_tasks};
use crate::status::{status_of, SpecStatus};
use crate::task::{
    checked_count, clone_node, count_tasks, counts_fit, forest_of, lemma_checked_le_total,
    lemma_forest_of_push, total_count, TaskNode, TaskTree,
};
use crate::text::{chars_of, ends_with, str_ends_with, string_of, text_of, text_of_str};
use vstd::prelude::*;
use vstd::slice::slice_subrange;

verus! {

/// The length of the timestamp that a document's file name begins with,
/// its closing hyphen included: `YYYY-MM-DD-HH-MM-`.
pub const TIMESTAMP_PREFIX_LEN: usize = 17;

/// One document's derived view.
#[derive(Debug)]
pub struct SpecSummary {
    pub name: String,
    pub title: String,
    pub group: Option<String>,
    /// `YYYY-MM-DD HH:MM`
    pub timestamp: String,
    pub total: u32,
    pub checked: u32,
    pub status: SpecStatus,
    pub tasks: Vec<TaskNode>,
}

/// The mathematical value of a `SpecSummary`.
pub struct SummaryView {
    pub name: Seq<char>,
    pub title: Seq<char>,
    pub group: Option<Seq<char>>,
    pub timestamp: Seq<char>,
    pub total: u32,
    pub checked: u32,
    pub status: SpecStatus,
    pub tasks: Seq<TaskTree>,
}

impl View for SpecSummary {
    type V = SummaryView;

    open spec fn view(&self) -> SummaryView {
        SummaryView {
            name: self.name@,
            title: self.title@,
            group: text_of(self.group),
            timestamp: self.timestamp@,
            total: self.total,
            checked: self.checked,
            status: self.status,
            tasks: forest_of(self.tasks@),
        }
    }
}

impl Clone for SpecSummary {
    fn clone(&self) -> (r: Self)
        ensures
            r@ == self@,
    {
        let mut tasks: Vec<TaskNode> = Vec::new();
        let mut i: usize = 0;
        while i < self.tasks.len()
            invariant
                i <= self.tasks@.len(),
                forest_of(tasks@) == forest_of(self.tasks@.take(i as int)),
            decreases self.tasks@.len() - i,
        {
            let t = clone_node(&self.tasks[i]);
            proof {
                lemma_forest_of_push(tasks@, t);
                lemma_forest_of_push(self.tasks@.take(i as int), self.tasks@[i as int]);
                assert(self.tasks@.take(i as int).push(self.tasks@[i as int])
                    == self.tasks@.take(i + 1));
            }
            tasks.push(t);
            i += 1;
        }
        assert(self.tasks@.take(i as int) == self.tasks@);
        SpecSummary {
            name: self.name.clone(),
            title: self.title.clone(),
            group: match &self.group {
                Some(g) => Some(g.clone()),
                None => None,
            },
            timestamp: self.timestamp.clone(),
            total: self.total,
            checked: self.checked,
            status: self.status,
            tasks,
        }
    }
}

impl SummaryView {
    /// Whether the counts are those of the tasks and the status is the one
    /// that the counts stand for.
    pub open spec fn is_consistent(self) -> bool {
        &&& self.total == total_count(self.tasks)
        &&& self.checked == checked_count(self.tasks)
        &&& self.status == status_of(self.checked, self.total)
    }
}

/// In a consistent summary no more tasks are checked than there are.
pub proof fn lemma_consistent_counts(s: SummaryView)
    requires
        s.is_consistent(),
    ensures
        s.checked <= s.total,
{
    lemma_checked_le_total(s.tasks);
}

/// The name of the document in the file `filename`: what stands between the
/// timestamp prefix and the extension `.md`. A file name that has no room for
/// a name, or another extension, names no document.
pub open spec fn spec_name(filename: Seq<char>) -> Option<Seq<char>> {
    if filename.len() > TIMESTAMP_PREFIX_LEN + 3 && ends_with(filename, ".md"@) {
        Some(filename.subrange(TIMESTAMP_PREFIX_LEN as int, filename.len() - 3))
    } else {
        None
    }
}

/// The timestamp of the file name `filename`, made readable:
/// `YYYY-MM-DD-HH-MM` becomes `YYYY-MM-DD HH:MM`. Empty for a file name of
/// fewer than 16 characters.
pub open spec fn timestamp_of(filename: Seq<char>) -> Seq<char> {
    if filename.len() >= 16 {
        filename.subrange(0, 10) + seq![' '] + filename.subrange(11, 13) + seq![':']
            + filename.subrange(14, 16)
    } else {
        Seq::empty()
    }
}

/// The summary of the document in the file `filename` with the text
/// `content`, the group `group` and, where its front matter gives one, the
/// title `title`. A document without a title in its front matter has its name
/// for a title.
pub open spec fn summarize(
    filename: Seq<char>,
    group: Option<Seq<char>>,
    title: Option<Seq<char>>,
    content: Seq<char>,
) -> Option<SummaryView> {
    match spec_name(filename) {
        Some(name) => {
            let tasks = parse_plan(content);
            let total = total_count(tasks) as u32;
            let checked = checked_count(tasks) as u32;
            Some(
                SummaryView {
                    name,
                    title: match title {
                        Some(t) => t,
                        None => name,
                    },
                    group,
                    timestamp: timestamp_of(filename),
                    total,
                    checked,
                    status: status_of(checked, total),
                    tasks,
                },
            )
        },
        None => None,
    }
}

/// The name of the document in the file `filename`.
pub fn extract_spec_name(filename: &str) -> (name: Option<&str>)
    ensures
        text_of_str(name) == spec_name(filename@),
{
    let len: usize = filename.unicode_len();
    if len > TIMESTAMP_PREFIX_LEN + 3 && str_ends_with(filename, ".md") {
        Some(filename.substring_char(TIMESTAMP_PREFIX_LEN, len - 3))
    } else {
        None
    }
}

/// The readable timestamp of the file name `filename`.
pub fn extract_timestamp(filename: &str) -> (timestamp: String)
    ensures
        timestamp@ == timestamp_of(filename@),
{
    let chars = chars_of(filename);
    if chars.len() >= 16 {
        let s = chars.as_slice();
        let mut out = string_of(slice_subrange(s, 0, 10));
        out.push(' ');
        out.append(string_of(slice_subrange(s, 11, 13)).as_str());
        out.push(':');
        out.append(string_of(slice_subrange(s, 14, 16)).as_str());
        assert(out@ =~= timestamp_of(filename@));
        out
    } else {
        String::new()
    }
}

/// Whether the plan of the text `content` holds no more tasks than a summary
/// can count: whether their number fits into 32 bits.
pub fn plan_fits(content: &str) -> (fits: bool)
    ensures
        fits == (total_count(parse_plan(content@)) <= u32::MAX),
{
    let tasks = parse_tasks(content);
    counts_fit(tasks.as_slice())
}

/// Loads the summary of one document from what was read of it: the name of
/// its file, its group (`None` for a document directly in the collection),
/// the title that its front matter gives (`None` where it gives none or
/// cannot be read) and its text.
///
/// Returns `None` exactly where the file name names no document.
pub fn load_spec_summary(
    filename: &str,
    group: Option<&str>,
    title: Option<&str>,
    content: &str,
) -> (summary: Option<SpecSummary>)
    requires
        spec_name(filename@) is Some ==> total_count(parse_plan(content@)) <= u32::MAX,
    ensures
        match summary {
            Some(s) => Some(s@) == summarize(
                filename@,
                text_of_str(group),
                text_of_str(title),
                content@,
            ) && s@.is_consistent() && s.checked <= s.total,
            None => spec_name(filename@) is None,
        },
{
    let name = match extract_spec_name(filename) {
        Some(n) => String::from_str(n),
        None => {
            return None;
        },
    };
    let timestamp = extract_timestamp(filename);
    let title = match title {
        Some(t) => String::from_str(t),
        None => name.clone(),
    };
    let group = match group {
        Some(g) => Some(String::from_str(g)),
        None => None,
    };
    let tasks = parse_tasks(content);
    let (total, checked) = count_tasks(tasks.as_slice());
    let status = SpecStatus::from_counts(checked, total);
    Some(SpecSummary { name, title, group, timestamp, total, checked, status, tasks })
}

} // verus!
