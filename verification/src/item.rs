//! The domain record that pagination accumulates: one issue, with the
//! fields the filters read and the fields the presenter displays.

use vstd::prelude::*;
use crate::shared::IssueState;

verus! {

/// One issue as decoded from a page of results. The filter predicates read
/// `assignee` and `state`; the remaining fields are carried through for
/// display. Timestamps are carried as the wire's own text.
#[derive(Clone, Debug, PartialEq, Eq)]
pub struct Item {
    pub identifier: String,
    pub title: String,
    pub url: String,
    /// The assignee's display name, when the issue is assigned.
    pub assignee: Option<String>,
    /// The human-readable name of the workflow state.
    pub state_name: String,
    /// The closed classification tag of the workflow state.
    pub state: IssueState,
    /// Priority level; `0` means no priority.
    pub priority: u64,
    pub priority_label: String,
    pub created_at: String,
    pub updated_at: String,
}

} // verus!
