//! The delivery questions a catalogue asks Insight, and the answers, typed.
//!
//! The REST surface answers "delivery per component, for one repository";
//! joining those answers back into gears is a rule that belongs to whoever
//! holds the catalogue (`components_catalog::activity`). These are the values
//! that travel across that seam.

use vstd::prelude::*;

verus! {

/// One repository's worth of question: which components, over which window.
#[derive(Debug, Clone)]
pub struct DeliveryQuery {
    /// `owner/name`, as the warehouse keys it.
    pub repository: String,
    /// `YYYY-MM-DD`, inclusive. `None` lets the upstream default apply.
    pub from: Option<String>,
    pub to: Option<String>,
    /// `(key, path segment)` per component.
    pub components: Vec<(String, String)>,
    pub limit: Option<u32>,
}

/// One component's totals over the window.
#[derive(Debug, Clone, PartialEq, Eq)]
pub struct DeliveryTotals {
    pub component: String,
    pub commits: u64,
    pub files_changed: u64,
    pub lines_added: i64,
    pub lines_removed: i64,
    pub authors: u64,
}

/// One component inside one bucket of the trend.
#[derive(Debug, Clone, PartialEq, Eq)]
pub struct DeliveryPoint {
    pub component: String,
    /// The bucket's first day, `YYYY-MM-DD`.
    pub date: String,
    pub commits: u64,
    pub lines_added: i64,
    pub lines_removed: i64,
}

/// What a metrics query answered. `from` and `to` are the window Insight
/// actually used, which is not always the one asked for.
#[derive(Debug, Clone)]
pub struct DeliveryPage {
    pub from: String,
    pub to: String,
    /// Insight capped a page: the ranking is a prefix, not the whole of it.
    pub truncated: bool,
    pub totals: Vec<DeliveryTotals>,
    /// Weekly, and only for the components the ranking kept.
    pub series: Vec<DeliveryPoint>,
}

/// One component's pull requests, by the state they are in now.
#[derive(Debug, Clone, PartialEq, Eq)]
pub struct PullRequestTotals {
    pub component: String,
    pub open: u64,
    pub merged: u64,
    pub closed: u64,
    pub total: u64,
    /// Mean hours from opened to merged, carried as the bit pattern of the
    /// `f64` Insight reported (`f64::to_bits`). `None` when nothing merged in
    /// the window, which is not the same fact as zero hours. Nothing here
    /// computes with it; it is handed on unchanged.
    pub merged_cycle_hours_bits: Option<u64>,
    pub authors: u64,
}

/// What a pull-request query answered.
#[derive(Debug, Clone)]
pub struct PullRequestPage {
    pub truncated: bool,
    pub totals: Vec<PullRequestTotals>,
}

/// A pull-request row as a value: the string by its characters.
pub struct PullRequestTotalsV {
    pub component: Seq<char>,
    pub open: u64,
    pub merged: u64,
    pub closed: u64,
    pub total: u64,
    pub merged_cycle_hours_bits: Option<u64>,
    pub authors: u64,
}

impl View for PullRequestTotals {
    type V = PullRequestTotalsV;

    open spec fn view(&self) -> PullRequestTotalsV {
        PullRequestTotalsV {
            component: self.component@,
            open: self.open,
            merged: self.merged,
            closed: self.closed,
            total: self.total,
            merged_cycle_hours_bits: self.merged_cycle_hours_bits,
            authors: self.authors,
        }
    }
}

impl PullRequestTotals {
    /// A field-for-field copy.
    pub fn copy(&self) -> (out: PullRequestTotals)
        ensures
            out@ == self@,
    {
        PullRequestTotals {
            component: self.component.clone(),
            open: self.open,
            merged: self.merged,
            closed: self.closed,
            total: self.total,
            merged_cycle_hours_bits: self.merged_cycle_hours_bits,
            authors: self.authors,
        }
    }
}

} // verus!
