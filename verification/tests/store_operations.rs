use github_issues_rs::error::SyncError;
use github_issues_rs::models::{
    Issue, IssueLabel, IssueReaction, Label, NewIssue, NewIssueLabel, NewIssueReaction, NewLabel,
    NewRepository, Repository,
};
use github_issues_rs::store::Store;

fn new_repository(user: &str, name: &str) -> NewRepository {
    NewRepository { user: user.to_string(), name: name.to_string() }
}

fn new_issue(repository_id: i32, number: i32, title: &str) -> NewIssue {
    NewIssue {
        repository_id,
        number,
        title: title.to_string(),
        body: format!("body of {}", title),
        created_at: "2024-01-02T03:04:05Z".to_string(),
        state: "open".to_string(),
        is_pull_request: false,
        author: Some("octocat".to_string()),
        last_synced_at: Some("2024-02-01T00:00:00+00:00".to_string()),
    }
}

fn issue_row(id: i32, repository_id: i32, number: i32) -> Issue {
    Issue {
        id,
        repository_id,
        number,
        title: "t".to_string(),
        body: String::new(),
        created_at: "2024-01-02T03:04:05Z".to_string(),
        state: "open".to_string(),
        is_pull_request: false,
        author: None,
        last_synced_at: None,
    }
}

#[test]
fn a_new_store_is_empty() {
    let store = Store::new();
    assert!(store.repositories().is_empty());
    assert!(store.issues().is_empty());
    assert!(store.labels().is_empty());
    assert!(store.issue_labels().is_empty());
    assert!(store.issue_reactions().is_empty());
}

#[test]
fn repositories_get_ids_in_turn() {
    let mut store = Store::new();
    assert_eq!(store.insert_repository(new_repository("octo", "demo")), Ok(1));
    assert_eq!(store.insert_repository(new_repository("octo", "other")), Ok(2));
    assert_eq!(store.repository_id("octo", "demo"), Some(1));
    assert_eq!(store.repository_id("octo", "other"), Some(2));
    assert_eq!(store.repository_id("octo", "missing"), None);
    assert_eq!(store.repository_id("Octo", "demo"), None);
}

#[test]
fn a_duplicate_repository_is_a_conflict() {
    let mut store = Store::new();
    assert_eq!(store.insert_repository(new_repository("octo", "demo")), Ok(1));
    assert_eq!(store.insert_repository(new_repository("octo", "demo")), Err(SyncError::Conflict));
    assert_eq!(store.repositories().len(), 1);
}

#[test]
fn removing_a_repository_says_whether_it_was_there() {
    let mut store = Store::new();
    store.insert_repository(new_repository("octo", "demo")).unwrap();
    store.insert_repository(new_repository("octo", "other")).unwrap();
    store.upsert_issue(new_issue(1, 7, "kept")).unwrap();
    assert!(store.remove_repository("octo", "demo"));
    assert!(!store.remove_repository("octo", "demo"));
    assert_eq!(store.repositories().len(), 1);
    assert_eq!(store.repositories()[0].name, "other");
    assert_eq!(store.issues().len(), 1);
    assert_eq!(store.insert_repository(new_repository("octo", "again")), Ok(3));
}

#[test]
fn the_freed_top_id_is_given_out_again() {
    let mut store = Store::new();
    store.insert_repository(new_repository("a", "a")).unwrap();
    store.insert_repository(new_repository("b", "b")).unwrap();
    assert!(store.remove_repository("b", "b"));
    assert_eq!(store.insert_repository(new_repository("c", "c")), Ok(2));
}

#[test]
fn upsert_inserts_then_overwrites_content_only() {
    let mut store = Store::new();
    let id = store.upsert_issue(new_issue(1, 42, "first title")).unwrap();
    assert_eq!(id, 1);
    let changed = NewIssue {
        repository_id: 1,
        number: 42,
        title: "second title".to_string(),
        body: "second body".to_string(),
        created_at: "1999-09-09T09:09:09Z".to_string(),
        state: "closed".to_string(),
        is_pull_request: true,
        author: Some("somebody-else".to_string()),
        last_synced_at: Some("2024-02-01T00:20:00+00:00".to_string()),
    };
    assert_eq!(store.upsert_issue(changed), Ok(1));
    assert_eq!(store.issues().len(), 1);
    let row = store.issue(1, 42).unwrap();
    assert_eq!(row.id, 1);
    assert_eq!(row.repository_id, 1);
    assert_eq!(row.number, 42);
    assert_eq!(row.title, "second title");
    assert_eq!(row.body, "second body");
    assert_eq!(row.state, "closed");
    assert_eq!(row.last_synced_at.as_deref(), Some("2024-02-01T00:20:00+00:00"));
    assert_eq!(row.created_at, "2024-01-02T03:04:05Z");
    assert_eq!(row.author.as_deref(), Some("octocat"));
    assert!(!row.is_pull_request);
}

#[test]
fn the_same_number_in_two_repositories_is_two_issues() {
    let mut store = Store::new();
    assert_eq!(store.upsert_issue(new_issue(1, 5, "one")), Ok(1));
    assert_eq!(store.upsert_issue(new_issue(2, 5, "two")), Ok(2));
    assert_eq!(store.upsert_issue(new_issue(1, 6, "three")), Ok(3));
    assert_eq!(store.issue(1, 5).unwrap().title, "one");
    assert_eq!(store.issue(2, 5).unwrap().title, "two");
    assert!(store.issue(3, 5).is_none());
}

#[test]
fn labels_are_recorded_once() {
    let mut store = Store::new();
    assert_eq!(store.ensure_label(NewLabel { name: "bug".to_string() }), Some(1));
    assert_eq!(store.ensure_label(NewLabel { name: "urgent".to_string() }), Some(2));
    assert_eq!(store.ensure_label(NewLabel { name: "bug".to_string() }), Some(1));
    assert_eq!(store.ensure_label(NewLabel { name: "Bug".to_string() }), Some(3));
    assert_eq!(store.labels().len(), 3);
    assert_eq!(store.label_id("urgent"), Some(2));
    assert_eq!(store.label_id("none"), None);
}

#[test]
fn a_label_is_attached_once_and_only_to_what_exists() {
    let mut store = Store::new();
    let issue_id = store.upsert_issue(new_issue(1, 1, "x")).unwrap();
    let label_id = store.ensure_label(NewLabel { name: "bug".to_string() }).unwrap();
    assert!(!store.is_linked(issue_id, label_id));
    assert!(store.link_label(NewIssueLabel { issue_id, label_id }));
    assert!(store.link_label(NewIssueLabel { issue_id, label_id }));
    assert_eq!(store.issue_labels().len(), 1);
    assert_eq!(store.issue_labels()[0], IssueLabel { id: 1, issue_id, label_id });
    assert!(!store.link_label(NewIssueLabel { issue_id: 99, label_id }));
    assert!(!store.link_label(NewIssueLabel { issue_id, label_id: 99 }));
    assert_eq!(store.issue_labels().len(), 1);
}

#[test]
fn a_tally_is_overwritten_not_added_to() {
    let mut store = Store::new();
    let issue_id = store.upsert_issue(new_issue(1, 1, "x")).unwrap();
    let tally = |count: i32| NewIssueReaction {
        issue_id,
        reaction_type: "+1".to_string(),
        count,
    };
    assert!(store.upsert_reaction(tally(3)));
    assert_eq!(store.reaction_count(issue_id, "+1"), Some(3));
    assert!(store.upsert_reaction(tally(5)));
    assert_eq!(store.reaction_count(issue_id, "+1"), Some(5));
    assert_eq!(store.issue_reactions().len(), 1);
    assert_eq!(store.issue_reactions()[0].id, 1);
    assert_eq!(store.reaction_count(issue_id, "heart"), None);
    assert!(!store.upsert_reaction(NewIssueReaction {
        issue_id: 77,
        reaction_type: "+1".to_string(),
        count: 1,
    }));
    assert_eq!(store.issue_reactions().len(), 1);
}

#[test]
fn from_rows_takes_consistent_rows() {
    let store = Store::from_rows(
        vec![Repository { id: 4, user: "octo".to_string(), name: "demo".to_string() }],
        vec![issue_row(10, 4, 1), issue_row(11, 4, 2)],
        vec![Label { id: 3, name: "bug".to_string() }],
        vec![IssueLabel { id: 1, issue_id: 11, label_id: 3 }],
        vec![IssueReaction { id: 9, issue_id: 10, reaction_type: "eyes".to_string(), count: 2 }],
    )
    .expect("the rows are consistent");
    assert_eq!(store.repository_id("octo", "demo"), Some(4));
    assert_eq!(store.issue(4, 2).unwrap().id, 11);
    assert!(store.is_linked(11, 3));
    assert_eq!(store.reaction_count(10, "eyes"), Some(2));
    let mut store = store;
    assert_eq!(store.upsert_issue(new_issue(4, 3, "next")), Ok(12));
    assert_eq!(store.ensure_label(NewLabel { name: "new".to_string() }), Some(4));
}

#[test]
fn from_rows_refuses_inconsistent_rows() {
    let repo = || Repository { id: 1, user: "octo".to_string(), name: "demo".to_string() };
    // Two issues of one repository and number.
    assert!(Store::from_rows(
        vec![repo()],
        vec![issue_row(1, 1, 5), issue_row(2, 1, 5)],
        vec![],
        vec![],
        vec![]
    )
    .is_none());
    // Two issues of one id.
    assert!(Store::from_rows(
        vec![repo()],
        vec![issue_row(1, 1, 5), issue_row(1, 1, 6)],
        vec![],
        vec![],
        vec![]
    )
    .is_none());
    // An id that is not positive.
    assert!(Store::from_rows(vec![repo()], vec![issue_row(0, 1, 5)], vec![], vec![], vec![])
        .is_none());
    // A repository twice.
    assert!(Store::from_rows(
        vec![repo(), Repository { id: 2, user: "octo".to_string(), name: "demo".to_string() }],
        vec![],
        vec![],
        vec![],
        vec![]
    )
    .is_none());
    // A label name twice.
    assert!(Store::from_rows(
        vec![],
        vec![],
        vec![Label { id: 1, name: "bug".to_string() }, Label { id: 2, name: "bug".to_string() }],
        vec![],
        vec![]
    )
    .is_none());
    // An attachment to an issue that is not there.
    assert!(Store::from_rows(
        vec![],
        vec![issue_row(1, 1, 1)],
        vec![Label { id: 1, name: "bug".to_string() }],
        vec![IssueLabel { id: 1, issue_id: 2, label_id: 1 }],
        vec![]
    )
    .is_none());
    // An attachment to a label that is not there.
    assert!(Store::from_rows(
        vec![],
        vec![issue_row(1, 1, 1)],
        vec![Label { id: 1, name: "bug".to_string() }],
        vec![IssueLabel { id: 1, issue_id: 1, label_id: 2 }],
        vec![]
    )
    .is_none());
    // A tally for an issue that is not there.
    assert!(Store::from_rows(
        vec![],
        vec![],
        vec![],
        vec![],
        vec![IssueReaction { id: 1, issue_id: 1, reaction_type: "+1".to_string(), count: 1 }]
    )
    .is_none());
    // Two tallies of one issue and kind.
    assert!(Store::from_rows(
        vec![],
        vec![issue_row(1, 1, 1)],
        vec![],
        vec![],
        vec![
            IssueReaction { id: 1, issue_id: 1, reaction_type: "+1".to_string(), count: 1 },
            IssueReaction { id: 2, issue_id: 1, reaction_type: "+1".to_string(), count: 2 },
        ]
    )
    .is_none());
}

#[test]
fn a_full_table_refuses_a_new_row_and_still_updates() {
    let mut store = Store::from_rows(
        vec![Repository { id: i32::MAX, user: "octo".to_string(), name: "demo".to_string() }],
        vec![issue_row(i32::MAX, 1, 1)],
        vec![Label { id: i32::MAX, name: "bug".to_string() }],
        vec![IssueLabel { id: i32::MAX, issue_id: i32::MAX, label_id: i32::MAX }],
        vec![IssueReaction {
            id: i32::MAX,
            issue_id: i32::MAX,
            reaction_type: "+1".to_string(),
            count: 1,
        }],
    )
    .unwrap();
    assert_eq!(store.insert_repository(new_repository("a", "b")), Err(SyncError::Store));
    assert_eq!(store.upsert_issue(new_issue(1, 2, "new")), Err(SyncError::Store));
    assert_eq!(store.upsert_issue(new_issue(1, 1, "known")), Ok(i32::MAX));
    assert_eq!(store.issue(1, 1).unwrap().title, "known");
    assert_eq!(store.ensure_label(NewLabel { name: "other".to_string() }), None);
    assert_eq!(store.ensure_label(NewLabel { name: "bug".to_string() }), Some(i32::MAX));
    assert!(store.upsert_reaction(NewIssueReaction {
        issue_id: i32::MAX,
        reaction_type: "+1".to_string(),
        count: 8,
    }));
    assert!(!store.upsert_reaction(NewIssueReaction {
        issue_id: i32::MAX,
        reaction_type: "eyes".to_string(),
        count: 8,
    }));
    assert_eq!(store.issues().len(), 1);
    assert_eq!(store.labels().len(), 1);
    assert_eq!(store.issue_reactions().len(), 1);
    assert_eq!(store.reaction_count(i32::MAX, "+1"), Some(8));
}

#[test]
fn only_configuration_errors_end_the_invocation() {
    assert!(SyncError::Configuration("no token".to_string()).ends_invocation());
    assert!(!SyncError::Transport("timeout".to_string()).ends_invocation());
    assert!(!SyncError::Decode { detail: "eof".to_string(), body: "{".to_string() }
        .ends_invocation());
    assert!(!SyncError::NotFound.ends_invocation());
    assert!(!SyncError::Conflict.ends_invocation());
    assert!(!SyncError::Store.ends_invocation());
}
