//! The completion status of a document, derived from its two counts.

use std::cmp::Ordering;
use vstd::prelude::*;

verus! {

/// Where a document stands. The variants are listed in their order:
/// `InProgress < Pending < Completed`.
#[derive(Debug, Clone, Copy, PartialEq, Eq, Structural, Ord)]
pub enum SpecStatus {
    InProgress,
    Pending,
    Completed,
}

/// The status that the counts `(checked, total)` stand for: `Completed`
/// where there are tasks and all are checked, `InProgress` where some but not
/// all are checked, `Pending` otherwise (also where there are no tasks).
pub open spec fn status_of(checked: u32, total: u32) -> SpecStatus {
    if total > 0 && checked == total {
        SpecStatus::Completed
    } else if 0 < checked && checked < total {
        SpecStatus::InProgress
    } else {
        SpecStatus::Pending
    }
}

/// The rank by which statuses are ordered.
pub open spec fn status_rank(s: SpecStatus) -> u8 {
    match s {
        SpecStatus::InProgress => 0,
        SpecStatus::Pending => 1,
        SpecStatus::Completed => 2,
    }
}

/// How two statuses compare: by their ranks.
pub open spec fn status_order(a: SpecStatus, b: SpecStatus) -> Ordering {
    if status_rank(a) < status_rank(b) {
        Ordering::Less
    } else if status_rank(a) == status_rank(b) {
        Ordering::Equal
    } else {
        Ordering::Greater
    }
}

impl SpecStatus {
    /// The status of a document with `checked` of `total` tasks done.
    pub fn from_counts(checked: u32, total: u32) -> (s: SpecStatus)
        ensures
            s == status_of(checked, total),
    {
        if total > 0 && checked == total {
            SpecStatus::Completed
        } else if 0 < checked && checked < total {
            SpecStatus::InProgress
        } else {
            SpecStatus::Pending
        }
    }

    /// The rank of this status in the order of statuses.
    pub fn sort_key(&self) -> (k: u8)
        ensures
            k == status_rank(*self),
    {
        match self {
            SpecStatus::InProgress => 0,
            SpecStatus::Pending => 1,
            SpecStatus::Completed => 2,
        }
    }

    /// Whether this status is `Completed`.
    pub fn is_completed(&self) -> (b: bool)
        ensures
            b == (*self == SpecStatus::Completed),
    {
        match self {
            SpecStatus::Completed => true,
            _ => false,
        }
    }
}

impl PartialOrd for SpecStatus {
    fn partial_cmp(&self, other: &Self) -> (r: Option<Ordering>) {
        let a: u8 = self.sort_key();
        let b: u8 = other.sort_key();
        if a < b {
            Some(Ordering::Less)
        } else if a == b {
            Some(Ordering::Equal)
        } else {
            Some(Ordering::Greater)
        }
    }
}

impl vstd::std_specs::cmp::PartialOrdSpecImpl for SpecStatus {
    open spec fn obeys_partial_cmp_spec() -> bool {
        true
    }

    open spec fn partial_cmp_spec(&self, other: &Self) -> Option<Ordering> {
        Some(status_order(*self, *other))
    }
}

} // verus!
