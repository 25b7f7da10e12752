use github_issues_rs::clock::{Stamp, Timestamp};
use github_issues_rs::error::SyncError;
use github_issues_rs::models::{Issue, NewRepository};
use github_issues_rs::reconcile::{reconcile_issue, reconcile_labels, reconcile_reactions};
use github_issues_rs::remote::{ReactionKind, RemoteIssue, RemoteReactions};
use github_issues_rs::store::Store;
use github_issues_rs::sync::{SyncAction, SyncReport, SyncSession};

const START: i64 = 1_700_000_000;

fn stamp(secs: i64) -> Stamp {
    Stamp::at(Timestamp { secs, nanos: 0 }).unwrap()
}

fn no_reactions() -> RemoteReactions {
    RemoteReactions {
        plus_one: None,
        minus_one: None,
        laugh: None,
        hooray: None,
        confused: None,
        heart: None,
        rocket: None,
        eyes: None,
    }
}

fn record(number: i32, state: &str, is_pull_request: bool) -> RemoteIssue {
    RemoteIssue {
        number,
        title: format!("title {}", number),
        body: Some(format!("body {}", number)),
        created_at: "2023-01-01T00:00:00Z".to_string(),
        state: state.to_string(),
        is_pull_request,
        author: Some("octocat".to_string()),
        labels: None,
        reactions: None,
    }
}

fn tracking(user: &str, name: &str) -> Store {
    let mut store = Store::new();
    store
        .insert_repository(NewRepository { user: user.to_string(), name: name.to_string() })
        .unwrap();
    store
}

/// Runs a pass over the given pages, the last of which should be empty, and
/// returns the requests made and the last action.
fn run_pass(
    store: &mut Store,
    force: bool,
    pages: &[Vec<RemoteIssue>],
    now: &Stamp,
) -> (Vec<u32>, SyncAction) {
    let mut session = SyncSession::begin(store, "octo", "demo", force).unwrap();
    let mut requests = Vec::new();
    let mut action = session.action();
    while let SyncAction::FetchPage(page) = action {
        requests.push(page);
        let records = &pages[(page - 1) as usize];
        assert!(session.can_take(records.len()));
        action = session.on_page(store, records, now);
    }
    (requests, action)
}

fn snapshot(store: &Store) -> Vec<String> {
    let mut rows = Vec::new();
    for r in store.repositories() {
        rows.push(format!("{:?}", r));
    }
    for r in store.issues() {
        rows.push(format!("{:?}", r));
    }
    for r in store.labels() {
        rows.push(format!("{:?}", r));
    }
    for r in store.issue_labels() {
        rows.push(format!("{:?}", r));
    }
    for r in store.issue_reactions() {
        rows.push(format!("{:?}", r));
    }
    rows
}

fn stamps(store: &Store) -> Vec<Option<String>> {
    store.issues().iter().map(|i: &Issue| i.last_synced_at.clone()).collect()
}

#[test]
fn first_sync_then_cached_then_forced() {
    let mut store = tracking("octo", "demo");
    let pages = vec![vec![record(1, "open", false), record(2, "closed", true)], vec![]];

    let first = stamp(START);
    let (requests, action) = run_pass(&mut store, false, &pages, &first);
    assert_eq!(requests, vec![1, 2]);
    assert_eq!(action, SyncAction::Finish(SyncReport { synced: 2, skipped: 0 }));
    assert_eq!(store.issues().len(), 2);
    assert_eq!(store.issue(1, 1).unwrap().state, "open");
    assert!(!store.issue(1, 1).unwrap().is_pull_request);
    assert_eq!(store.issue(1, 2).unwrap().state, "closed");
    assert!(store.issue(1, 2).unwrap().is_pull_request);
    assert_eq!(stamps(&store), vec![Some(first.as_str().to_string()); 2]);

    let before = snapshot(&store);
    let again = stamp(START + 1);
    let (requests, action) = run_pass(&mut store, false, &pages, &again);
    assert_eq!(requests, vec![1, 2]);
    assert_eq!(action, SyncAction::Finish(SyncReport { synced: 0, skipped: 2 }));
    assert_eq!(snapshot(&store), before);

    let forced = stamp(START + 2);
    let (_, action) = run_pass(&mut store, true, &pages, &forced);
    assert_eq!(action, SyncAction::Finish(SyncReport { synced: 2, skipped: 0 }));
    assert_eq!(store.issues().len(), 2);
    assert_eq!(stamps(&store), vec![Some(forced.as_str().to_string()); 2]);
    assert_ne!(forced.as_str(), first.as_str());
    assert_eq!(forced.as_str(), "2023-11-14T22:13:22+00:00");
}

#[test]
fn labels_and_reactions_of_an_issue_are_recorded() {
    let mut store = tracking("octo", "demo");
    let mut issue = record(1, "open", false);
    issue.labels = Some(vec!["bug".to_string(), "urgent".to_string()]);
    issue.reactions = Some(RemoteReactions { plus_one: Some(3), ..no_reactions() });
    let pages = vec![vec![issue], vec![]];
    let (_, action) = run_pass(&mut store, false, &pages, &stamp(START));
    assert_eq!(action, SyncAction::Finish(SyncReport { synced: 1, skipped: 0 }));

    let issue_id = store.issue(1, 1).unwrap().id;
    assert_eq!(store.labels().len(), 2);
    assert_eq!(store.labels()[0].name, "bug");
    assert_eq!(store.labels()[1].name, "urgent");
    assert_eq!(store.issue_labels().len(), 2);
    assert!(store.is_linked(issue_id, store.label_id("bug").unwrap()));
    assert!(store.is_linked(issue_id, store.label_id("urgent").unwrap()));
    assert_eq!(store.issue_reactions().len(), 1);
    assert_eq!(store.issue_reactions()[0].issue_id, issue_id);
    assert_eq!(store.issue_reactions()[0].reaction_type, "+1");
    assert_eq!(store.issue_reactions()[0].count, 3);

    // A forced pass over the same page adds no row.
    let (_, action) = run_pass(&mut store, true, &pages, &stamp(START + 5));
    assert_eq!(action, SyncAction::Finish(SyncReport { synced: 1, skipped: 0 }));
    assert_eq!(store.labels().len(), 2);
    assert_eq!(store.issue_labels().len(), 2);
    assert_eq!(store.issue_reactions().len(), 1);
}

#[test]
fn a_pass_asks_for_one_page_more_than_it_gets_full() {
    for full_pages in 0..4usize {
        let mut store = tracking("octo", "demo");
        let mut pages = Vec::new();
        let mut number = 0;
        for _ in 0..full_pages {
            pages.push(vec![record(number + 1, "open", false), record(number + 2, "open", false)]);
            number += 2;
        }
        pages.push(vec![]);
        // Pages beyond the empty one are never asked for.
        pages.push(vec![record(1000, "open", false)]);
        let (requests, action) = run_pass(&mut store, false, &pages, &stamp(START));
        let expected: Vec<u32> = (1..=full_pages as u32 + 1).collect();
        assert_eq!(requests, expected);
        assert_eq!(
            action,
            SyncAction::Finish(SyncReport { synced: 2 * full_pages as u64, skipped: 0 })
        );
        assert!(store.issue(1, 1000).is_none());
    }
}

#[test]
fn a_finished_pass_takes_no_more_pages() {
    let mut store = tracking("octo", "demo");
    let mut session = SyncSession::begin(&store, "octo", "demo", false).unwrap();
    let now = stamp(START);
    let done = session.on_page(&mut store, &vec![], &now);
    assert_eq!(done, SyncAction::Finish(SyncReport { synced: 0, skipped: 0 }));
    let late = session.on_page(&mut store, &vec![record(1, "open", false)], &now);
    assert_eq!(late, done);
    assert!(store.issues().is_empty());
    assert_eq!(session.action(), done);
}

#[test]
fn an_untracked_repository_is_not_found() {
    let store = tracking("octo", "demo");
    assert_eq!(
        SyncSession::begin(&store, "octo", "missing", false).err(),
        Some(SyncError::NotFound)
    );
    assert!(SyncSession::begin(&store, "octo", "demo", false).is_ok());
}

#[test]
fn staleness_is_judged_issue_by_issue() {
    let mut store = tracking("octo", "demo");
    let pages_one = vec![vec![record(1, "open", false)], vec![]];
    run_pass(&mut store, false, &pages_one, &stamp(START));
    let pages_two = vec![vec![record(1, "closed", false), record(2, "open", false)], vec![]];
    // Five minutes on: issue 1 is fresh, issue 2 is new.
    let (_, action) = run_pass(&mut store, false, &pages_two, &stamp(START + 300));
    assert_eq!(action, SyncAction::Finish(SyncReport { synced: 1, skipped: 1 }));
    assert_eq!(store.issue(1, 1).unwrap().state, "open");
    // Eleven minutes after the first pass: issue 1 is due, issue 2 is fresh.
    let (_, action) = run_pass(&mut store, false, &pages_two, &stamp(START + 660));
    assert_eq!(action, SyncAction::Finish(SyncReport { synced: 1, skipped: 1 }));
    assert_eq!(store.issue(1, 1).unwrap().state, "closed");
    assert_eq!(
        store.issue(1, 2).unwrap().last_synced_at.as_deref(),
        Some(stamp(START + 300).as_str())
    );
}

#[test]
fn a_changed_issue_keeps_what_is_fixed() {
    let mut store = tracking("octo", "demo");
    run_pass(&mut store, false, &[vec![record(7, "open", false)], vec![]], &stamp(START));
    let mut changed = record(7, "closed", true);
    changed.title = "renamed".to_string();
    changed.body = None;
    changed.author = Some("impostor".to_string());
    changed.created_at = "2000-01-01T00:00:00Z".to_string();
    run_pass(&mut store, true, &[vec![changed], vec![]], &stamp(START + 60));
    assert_eq!(store.issues().len(), 1);
    let row = store.issue(1, 7).unwrap();
    assert_eq!(row.title, "renamed");
    assert_eq!(row.body, "");
    assert_eq!(row.state, "closed");
    assert_eq!(row.last_synced_at.as_deref(), Some(stamp(START + 60).as_str()));
    assert_eq!(row.number, 7);
    assert_eq!(row.repository_id, 1);
    assert_eq!(row.author.as_deref(), Some("octocat"));
    assert_eq!(row.created_at, "2023-01-01T00:00:00Z");
    assert!(!row.is_pull_request);
}

#[test]
fn every_dependent_row_points_to_an_issue() {
    let mut store = tracking("octo", "demo");
    let mut pages = vec![Vec::new(), Vec::new(), Vec::new()];
    for n in 1..=6 {
        let mut issue = record(n, "open", n % 2 == 0);
        issue.labels = Some(vec![format!("l{}", n % 3), "common".to_string()]);
        issue.reactions =
            Some(RemoteReactions { heart: Some(n), eyes: Some(0), ..no_reactions() });
        pages[((n - 1) / 3) as usize].push(issue);
    }
    let (requests, _) = run_pass(&mut store, false, &pages, &stamp(START));
    assert_eq!(requests, vec![1, 2, 3]);
    let ids: Vec<i32> = store.issues().iter().map(|i| i.id).collect();
    let label_ids: Vec<i32> = store.labels().iter().map(|l| l.id).collect();
    assert_eq!(store.issue_labels().len(), 12);
    assert_eq!(store.labels().len(), 4);
    for link in store.issue_labels() {
        assert!(ids.contains(&link.issue_id));
        assert!(label_ids.contains(&link.label_id));
    }
    assert_eq!(store.issue_reactions().len(), 6);
    for tally in store.issue_reactions() {
        assert!(ids.contains(&tally.issue_id));
        assert_eq!(tally.reaction_type, "heart");
    }
}

#[test]
fn zero_and_missing_counts_write_and_clear_nothing() {
    let mut store = tracking("octo", "demo");
    let mut issue = record(1, "open", false);
    issue.reactions =
        Some(RemoteReactions { plus_one: Some(2), rocket: Some(4), ..no_reactions() });
    run_pass(&mut store, true, &[vec![issue], vec![]], &stamp(START));
    let mut later = record(1, "open", false);
    later.reactions = Some(RemoteReactions {
        plus_one: Some(0),
        rocket: None,
        minus_one: Some(-3),
        laugh: Some(1),
        ..no_reactions()
    });
    later.labels = Some(vec![]);
    run_pass(&mut store, true, &[vec![later], vec![]], &stamp(START + 1));
    let id = store.issue(1, 1).unwrap().id;
    assert_eq!(store.reaction_count(id, "+1"), Some(2));
    assert_eq!(store.reaction_count(id, "rocket"), Some(4));
    assert_eq!(store.reaction_count(id, "laugh"), Some(1));
    assert_eq!(store.reaction_count(id, "-1"), None);
    assert_eq!(store.issue_reactions().len(), 3);
}

#[test]
fn labels_are_never_detached() {
    let mut store = tracking("octo", "demo");
    let mut issue = record(1, "open", false);
    issue.labels = Some(vec!["bug".to_string(), "urgent".to_string()]);
    run_pass(&mut store, true, &[vec![issue], vec![]], &stamp(START));
    let mut later = record(1, "open", false);
    later.labels = Some(vec!["bug".to_string(), "bug".to_string(), "docs".to_string()]);
    run_pass(&mut store, true, &[vec![later], vec![]], &stamp(START + 1));
    assert_eq!(store.labels().len(), 3);
    assert_eq!(store.issue_labels().len(), 3);
}

#[test]
fn reactions_are_written_in_the_order_of_the_kinds() {
    let mut store = tracking("octo", "demo");
    let id = store
        .upsert_issue(github_issues_rs::models::NewIssue {
            repository_id: 1,
            number: 1,
            title: String::new(),
            body: String::new(),
            created_at: String::new(),
            state: String::new(),
            is_pull_request: false,
            author: None,
            last_synced_at: None,
        })
        .unwrap();
    let counts = RemoteReactions {
        plus_one: Some(1),
        minus_one: Some(2),
        laugh: Some(3),
        hooray: Some(4),
        confused: Some(5),
        heart: Some(6),
        rocket: Some(7),
        eyes: Some(8),
    };
    reconcile_reactions(&mut store, id, &counts);
    let written: Vec<(String, i32)> =
        store.issue_reactions().iter().map(|r| (r.reaction_type.clone(), r.count)).collect();
    let names = ["+1", "-1", "laugh", "hooray", "confused", "heart", "rocket", "eyes"];
    let expected: Vec<(String, i32)> =
        names.iter().enumerate().map(|(i, n)| (n.to_string(), i as i32 + 1)).collect();
    assert_eq!(written, expected);
    for (i, name) in names.iter().enumerate() {
        let kind = ReactionKind::nth(i).unwrap();
        assert_eq!(kind.as_str(), *name);
        assert_eq!(counts.count(kind), Some(i as i32 + 1));
    }
    assert_eq!(ReactionKind::nth(8), None);
}

#[test]
fn reconcile_labels_passes_over_what_cannot_be_attached() {
    let mut store = tracking("octo", "demo");
    // No issue has the id 5: the labels are recorded, nothing is attached.
    reconcile_labels(&mut store, 5, &vec!["bug".to_string()]);
    assert_eq!(store.labels().len(), 1);
    assert!(store.issue_labels().is_empty());
}

#[test]
fn reconcile_issue_hands_out_the_id_of_the_row() {
    let mut store = tracking("octo", "demo");
    let now = stamp(START);
    assert_eq!(reconcile_issue(&mut store, 1, &record(9, "open", false), &now), Ok(1));
    assert_eq!(reconcile_issue(&mut store, 1, &record(8, "open", false), &now), Ok(2));
    assert_eq!(reconcile_issue(&mut store, 1, &record(9, "closed", false), &now), Ok(1));
    assert_eq!(store.issue(1, 9).unwrap().state, "closed");
}

#[test]
fn a_pass_fails_where_the_cache_is_full_and_keeps_what_it_wrote() {
    let full = Issue {
        id: i32::MAX - 1,
        repository_id: 1,
        number: 100,
        title: String::new(),
        body: String::new(),
        created_at: String::new(),
        state: "open".to_string(),
        is_pull_request: false,
        author: None,
        last_synced_at: None,
    };
    let mut store = Store::from_rows(
        vec![github_issues_rs::models::Repository {
            id: 1,
            user: "octo".to_string(),
            name: "demo".to_string(),
        }],
        vec![full],
        vec![],
        vec![],
        vec![],
    )
    .unwrap();
    let pages = vec![
        vec![record(1, "open", false), record(2, "open", false), record(3, "open", false)],
        vec![],
    ];
    let (requests, action) = run_pass(&mut store, false, &pages, &stamp(START));
    assert_eq!(requests, vec![1]);
    assert_eq!(action, SyncAction::Abort(SyncError::Store));
    assert_eq!(store.issues().len(), 2);
    assert_eq!(store.issue(1, 1).unwrap().id, i32::MAX);
    assert!(store.issue(1, 2).is_none());
    assert!(store.issue(1, 3).is_none());
}

#[test]
fn a_number_seen_twice_in_a_pass_is_judged_by_what_the_pass_began_with() {
    let mut store = tracking("octo", "demo");
    let pages = vec![vec![record(1, "open", false)], vec![record(1, "closed", false)], vec![]];
    let (requests, action) = run_pass(&mut store, false, &pages, &stamp(START));
    assert_eq!(requests, vec![1, 2, 3]);
    assert_eq!(action, SyncAction::Finish(SyncReport { synced: 2, skipped: 0 }));
    assert_eq!(store.issues().len(), 1);
    assert_eq!(store.issue(1, 1).unwrap().state, "closed");
}

#[test]
fn the_report_follows_the_pass() {
    let mut store = tracking("octo", "demo");
    let mut session = SyncSession::begin(&store, "octo", "demo", false).unwrap();
    assert_eq!(session.action(), SyncAction::FetchPage(1));
    assert_eq!(session.report(), SyncReport { synced: 0, skipped: 0 });
    let now = stamp(START);
    let next = session.on_page(&mut store, &vec![record(1, "open", false)], &now);
    assert_eq!(next, SyncAction::FetchPage(2));
    assert_eq!(session.report(), SyncReport { synced: 1, skipped: 0 });
    assert!(session.can_take(1000));
    assert_eq!(session.can_take(usize::MAX), (usize::MAX as u128) < u64::MAX as u128);
}
