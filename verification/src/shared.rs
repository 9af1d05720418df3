//! Shared enumerations: the sort key selection and the closed set of
//! workflow-state classification tags.

use vstd::prelude::*;

verus! {

/// Which server-recognized field the result stream is ordered by.
#[derive(Clone, Copy, Debug, PartialEq, Eq, Structural)]
pub enum SortBy {
    CreatedAt,
    UpdatedAt,
}

/// The closed five-member classification of workflow states, as the service
/// reports them on the wire (lower-case tags).
#[derive(Clone, Copy, Debug, PartialEq, Eq, Hash, Structural)]
pub enum IssueState {
    Started,
    Unstarted,
    Backlog,
    Completed,
    Canceled,
}

impl IssueState {
    /// The full five-tag universe, in declaration order.
    pub open spec fn spec_all() -> Seq<IssueState> {
        seq![
            IssueState::Started,
            IssueState::Unstarted,
            IssueState::Backlog,
            IssueState::Completed,
            IssueState::Canceled,
        ]
    }

    /// Every classification tag is a member of the universe.
    pub proof fn lemma_all_complete(s: IssueState)
        ensures
            IssueState::spec_all().contains(s),
    {
        match s {
            IssueState::Started => assert(IssueState::spec_all()[0] == s),
            IssueState::Unstarted => assert(IssueState::spec_all()[1] == s),
            IssueState::Backlog => assert(IssueState::spec_all()[2] == s),
            IssueState::Completed => assert(IssueState::spec_all()[3] == s),
            IssueState::Canceled => assert(IssueState::spec_all()[4] == s),
        }
    }

    /// The full five-tag universe as a vector.
    pub fn all() -> (r: Vec<IssueState>)
        ensures
            r@ == IssueState::spec_all(),
    {
        let mut v: Vec<IssueState> = Vec::new();
        v.push(IssueState::Started);
        v.push(IssueState::Unstarted);
        v.push(IssueState::Backlog);
        v.push(IssueState::Completed);
        v.push(IssueState::Canceled);
        proof {
            assert(v@ =~= IssueState::spec_all());
        }
        v
    }

    /// The lower-case tag that stands for this classification on the wire.
    pub open spec fn spec_tag(self) -> Seq<char> {
        match self {
            IssueState::Started => "started"@,
            IssueState::Unstarted => "unstarted"@,
            IssueState::Backlog => "backlog"@,
            IssueState::Completed => "completed"@,
            IssueState::Canceled => "canceled"@,
        }
    }

    /// The lower-case wire tag for this classification.
    pub fn tag(&self) -> (r: &'static str)
        ensures
            r@ == self.spec_tag(),
    {
        match self {
            IssueState::Started => "started",
            IssueState::Unstarted => "unstarted",
            IssueState::Backlog => "backlog",
            IssueState::Completed => "completed",
            IssueState::Canceled => "canceled",
        }
    }
}

} // verus!
