//! The parsed command-line request, modelled as plain data. The application
//! parses the actual command line into these shapes; the decisions taken on
//! them — whether JSON output is in force, and how a listing command turns
//! into a driver configuration — are verified here.

use vstd::prelude::*;
use crate::filter::{FilterSpec, effective_states, spec_effective_states};
use crate::paginate::{PaginateConfig, PER_PAGE};
use crate::shared::{IssueState, SortBy};

verus! {

/// Show information about the authenticated user.
#[derive(Debug)]
pub struct Me {
    pub json: bool,
}

/// List teams.
#[derive(Debug)]
pub struct TeamList {
    pub json: bool,
    pub full_width: bool,
}

/// List issues.
#[derive(Debug)]
pub struct IssueList {
    /// The caller's limit on how many issues to fetch.
    pub n: Option<usize>,
    pub sort_by: SortBy,
    /// Keep only issues assigned to this display name.
    pub assignee: Option<String>,
    /// Keep only issues whose state classification is in this set.
    pub state: Option<Vec<IssueState>>,
    /// Drop issues whose state classification is in this set.
    pub not_state: Option<Vec<IssueState>>,
    pub json: bool,
    pub full_width: bool,
}

/// Update one issue.
#[derive(Debug)]
pub struct IssueUpdate {
    pub id: String,
    pub title: Option<String>,
    pub state: Option<IssueState>,
    pub json: bool,
}

#[derive(Debug)]
pub enum TeamCommand {
    List(TeamList),
}

#[derive(Debug)]
pub enum IssueCommand {
    List(IssueList),
    Update(IssueUpdate),
}

#[derive(Debug)]
pub enum DebugCommand {
    ListWorkflowStates,
}

#[derive(Debug)]
pub enum Command {
    Init,
    Me(Me),
    Team { cmd: TeamCommand },
    Issue { cmd: IssueCommand },
    Debug { cmd: DebugCommand },
}

/// The whole parsed invocation.
#[derive(Debug)]
pub struct Args {
    pub api_key: Option<String>,
    pub cmd: Command,
}

/// Whether the invoked command asked for JSON output.
pub open spec fn spec_json_enabled(args: Args) -> bool {
    match args.cmd {
        Command::Init => false,
        Command::Me(me) => me.json,
        Command::Team { cmd: TeamCommand::List(list) } => list.json,
        Command::Issue { cmd: IssueCommand::List(list) } => list.json,
        Command::Issue { cmd: IssueCommand::Update(update) } => update.json,
        Command::Debug { cmd: _ } => false,
    }
}

impl Args {
    /// Whether the invoked command asked for JSON output; when it did, the
    /// application keeps human-oriented log output off the stream.
    pub fn json_enabled(&self) -> (r: bool)
        ensures
            r == spec_json_enabled(*self),
    {
        match &self.cmd {
            Command::Init => false,
            Command::Me(Me { json }) => *json,
            Command::Issue { cmd: IssueCommand::List(IssueList { json, .. }) } => *json,
            Command::Issue { cmd: IssueCommand::Update(IssueUpdate { json, .. }) } => *json,
            Command::Team { cmd: TeamCommand::List(TeamList { json, .. }) } => *json,
            Command::Debug { .. } => false,
        }
    }
}

impl IssueList {
    /// The driver configuration this listing asks for: the caller's limit
    /// and sort key pass through, the include and exclude state lists are
    /// normalized to the single include-set the driver evaluates, and the
    /// page size hint is the standard one.
    pub fn into_config(self) -> (r: PaginateConfig)
        ensures
            r.page_size_hint == PER_PAGE,
            r.limit == self.n,
            r.sort_by == self.sort_by,
            r.filter.assignee == self.assignee,
            match spec_effective_states(
                match self.state {
                    Some(s) => Some(s@),
                    None => None,
                },
                match self.not_state {
                    Some(ns) => Some(ns@),
                    None => None,
                },
            ) {
                Some(s) => r.filter.states matches Some(v) && v@ == s,
                None => r.filter.states is None,
            },
    {
        let IssueList { n, sort_by, assignee, state, not_state, .. } = self;
        let states = effective_states(state, not_state);
        PaginateConfig {
            page_size_hint: PER_PAGE,
            limit: n,
            sort_by,
            filter: FilterSpec { assignee, states },
        }
    }
}

} // verus!
