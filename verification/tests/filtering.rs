use linear_cli::filter::{effective_states, passes, FilterSpec};
use linear_cli::item::Item;
use linear_cli::shared::IssueState;

fn item(assignee: Option<&str>, state: IssueState) -> Item {
    Item {
        identifier: "X-1".to_string(),
        title: "a title".to_string(),
        url: "https://example.test/X-1".to_string(),
        assignee: assignee.map(|s| s.to_string()),
        state_name: "State".to_string(),
        state,
        priority: 2,
        priority_label: "High".to_string(),
        created_at: "2024-01-01T00:00:00.000Z".to_string(),
        updated_at: "2024-01-02T00:00:00.000Z".to_string(),
    }
}

#[test]
fn unset_filter_passes_everything() {
    let f = FilterSpec { assignee: None, states: None };
    assert!(passes(&item(None, IssueState::Backlog), &f));
    assert!(passes(&item(Some("ada"), IssueState::Canceled), &f));
}

#[test]
fn assignee_match_is_exact_and_case_sensitive() {
    let f = FilterSpec { assignee: Some("ada".to_string()), states: None };
    assert!(passes(&item(Some("ada"), IssueState::Started), &f));
    assert!(!passes(&item(Some("Ada"), IssueState::Started), &f));
    assert!(!passes(&item(Some("ada "), IssueState::Started), &f));
    assert!(!passes(&item(None, IssueState::Started), &f));
}

#[test]
fn state_filter_is_membership() {
    let f = FilterSpec {
        assignee: None,
        states: Some(vec![IssueState::Started, IssueState::Backlog]),
    };
    assert!(passes(&item(None, IssueState::Started), &f));
    assert!(passes(&item(None, IssueState::Backlog), &f));
    assert!(!passes(&item(None, IssueState::Completed), &f));
}

#[test]
fn conjunction_requires_every_predicate() {
    let f = FilterSpec {
        assignee: Some("ada".to_string()),
        states: Some(vec![IssueState::Started]),
    };
    assert!(passes(&item(Some("ada"), IssueState::Started), &f));
    assert!(!passes(&item(Some("ada"), IssueState::Backlog), &f));
    assert!(!passes(&item(Some("grace"), IssueState::Started), &f));
}

#[test]
fn empty_state_set_rejects_everything() {
    let f = FilterSpec { assignee: None, states: Some(Vec::new()) };
    assert!(!passes(&item(None, IssueState::Started), &f));
}

#[test]
fn exclude_set_is_complemented_against_the_universe() {
    let got = effective_states(None, Some(vec![IssueState::Started, IssueState::Backlog]));
    assert_eq!(
        got,
        Some(vec![IssueState::Unstarted, IssueState::Completed, IssueState::Canceled])
    );
}

#[test]
fn no_state_arguments_leave_the_predicate_unset() {
    assert_eq!(effective_states(None, None), None);
}

#[test]
fn include_set_alone_is_used_as_given() {
    let got = effective_states(Some(vec![IssueState::Canceled, IssueState::Started]), None);
    assert_eq!(got, Some(vec![IssueState::Canceled, IssueState::Started]));
}

#[test]
fn include_and_exclude_sets_are_combined() {
    let got = effective_states(
        Some(vec![IssueState::Started, IssueState::Unstarted, IssueState::Backlog]),
        Some(vec![IssueState::Unstarted]),
    );
    assert_eq!(got, Some(vec![IssueState::Started, IssueState::Backlog]));
}

#[test]
fn excluding_the_whole_universe_leaves_nothing() {
    let got = effective_states(
        None,
        Some(vec![
            IssueState::Started,
            IssueState::Unstarted,
            IssueState::Backlog,
            IssueState::Completed,
            IssueState::Canceled,
        ]),
    );
    assert_eq!(got, Some(Vec::new()));
}

#[test]
fn universe_has_exactly_the_five_tags() {
    assert_eq!(
        IssueState::all(),
        vec![
            IssueState::Started,
            IssueState::Unstarted,
            IssueState::Backlog,
            IssueState::Completed,
            IssueState::Canceled,
        ]
    );
}

#[test]
fn wire_tags_are_the_lower_case_names() {
    assert_eq!(IssueState::Started.tag(), "started");
    assert_eq!(IssueState::Unstarted.tag(), "unstarted");
    assert_eq!(IssueState::Backlog.tag(), "backlog");
    assert_eq!(IssueState::Completed.tag(), "completed");
    assert_eq!(IssueState::Canceled.tag(), "canceled");
}
