use linear_cli::args::{
    Args, Command, DebugCommand, IssueCommand, IssueList, IssueUpdate, Me, TeamCommand, TeamList,
};
use linear_cli::shared::{IssueState, SortBy};

fn list(json: bool) -> IssueList {
    IssueList {
        n: None,
        sort_by: SortBy::CreatedAt,
        assignee: None,
        state: None,
        not_state: None,
        json,
        full_width: false,
    }
}

#[test]
fn json_flag_is_read_from_the_invoked_command() {
    let me = Args { api_key: None, cmd: Command::Me(Me { json: true }) };
    assert!(me.json_enabled());

    let issues = Args {
        api_key: None,
        cmd: Command::Issue { cmd: IssueCommand::List(list(true)) },
    };
    assert!(issues.json_enabled());

    let issues_plain = Args {
        api_key: None,
        cmd: Command::Issue { cmd: IssueCommand::List(list(false)) },
    };
    assert!(!issues_plain.json_enabled());

    let update = Args {
        api_key: None,
        cmd: Command::Issue {
            cmd: IssueCommand::Update(IssueUpdate {
                id: "L-1234".to_string(),
                title: None,
                state: None,
                json: true,
            }),
        },
    };
    assert!(update.json_enabled());

    let teams = Args {
        api_key: None,
        cmd: Command::Team { cmd: TeamCommand::List(TeamList { json: true, full_width: false }) },
    };
    assert!(teams.json_enabled());
}

#[test]
fn init_and_debug_never_use_json() {
    let init = Args { api_key: None, cmd: Command::Init };
    assert!(!init.json_enabled());

    let debug = Args {
        api_key: None,
        cmd: Command::Debug { cmd: DebugCommand::ListWorkflowStates },
    };
    assert!(!debug.json_enabled());
}

#[test]
fn listing_config_passes_limit_and_sort_through() {
    let cmd = IssueList {
        n: Some(7),
        sort_by: SortBy::UpdatedAt,
        assignee: Some("ada".to_string()),
        state: None,
        not_state: None,
        json: false,
        full_width: false,
    };
    let cfg = cmd.into_config();
    assert_eq!(cfg.page_size_hint, 100);
    assert_eq!(cfg.limit, Some(7));
    assert!(matches!(cfg.sort_by, SortBy::UpdatedAt));
    assert_eq!(cfg.filter.assignee, Some("ada".to_string()));
    assert_eq!(cfg.filter.states, None);
}

#[test]
fn listing_config_normalizes_excluded_states() {
    let cmd = IssueList {
        n: None,
        sort_by: SortBy::CreatedAt,
        assignee: None,
        state: None,
        not_state: Some(vec![IssueState::Completed, IssueState::Canceled]),
        json: false,
        full_width: false,
    };
    let cfg = cmd.into_config();
    assert_eq!(
        cfg.filter.states,
        Some(vec![IssueState::Started, IssueState::Unstarted, IssueState::Backlog])
    );
}
