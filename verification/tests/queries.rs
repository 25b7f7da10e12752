use github_issues_rs::models::{NewIssue, NewIssueLabel, NewIssueReaction, NewLabel, NewRepository};
use github_issues_rs::query::{
    find_by_number, labels_of, list_issues, list_repositories, reactions_of, repository_by_id,
    StateFilter, TypeFilter,
};
use github_issues_rs::store::Store;
use github_issues_rs::text_order::{bytes_precede, text_precedes};

fn issue(repository_id: i32, number: i32, state: &str, is_pull_request: bool) -> NewIssue {
    NewIssue {
        repository_id,
        number,
        title: format!("#{}", number),
        body: String::new(),
        created_at: "2024-05-06T07:08:09Z".to_string(),
        state: state.to_string(),
        is_pull_request,
        author: None,
        last_synced_at: None,
    }
}

fn sample() -> Store {
    let mut store = Store::new();
    for (user, name) in [("zed", "a"), ("octo", "demo"), ("Octo", "z"), ("octo", "Demo")] {
        store
            .insert_repository(NewRepository { user: user.to_string(), name: name.to_string() })
            .unwrap();
    }
    store.upsert_issue(issue(2, 3, "open", false)).unwrap();
    store.upsert_issue(issue(2, 10, "closed", false)).unwrap();
    store.upsert_issue(issue(2, 1, "open", true)).unwrap();
    store.upsert_issue(issue(2, 7, "closed", true)).unwrap();
    store.upsert_issue(issue(1, 10, "open", true)).unwrap();
    store.upsert_issue(issue(2, 12, "open", false)).unwrap();
    store
}

fn numbers(store: &Store, state: StateFilter, kind: TypeFilter) -> Vec<i32> {
    list_issues(store, 2, state, kind).iter().map(|i| i.number).collect()
}

#[test]
fn issues_are_listed_highest_number_first() {
    let store = sample();
    assert_eq!(numbers(&store, StateFilter::All, TypeFilter::All), vec![12, 10, 7, 3, 1]);
}

#[test]
fn issues_are_filtered_by_state_and_kind() {
    let store = sample();
    assert_eq!(numbers(&store, StateFilter::Open, TypeFilter::Issue), vec![12, 3]);
    assert_eq!(numbers(&store, StateFilter::Closed, TypeFilter::Issue), vec![10]);
    assert_eq!(numbers(&store, StateFilter::Open, TypeFilter::Pr), vec![1]);
    assert_eq!(numbers(&store, StateFilter::Closed, TypeFilter::Pr), vec![7]);
    assert_eq!(numbers(&store, StateFilter::All, TypeFilter::Pr), vec![7, 1]);
    assert_eq!(numbers(&store, StateFilter::Open, TypeFilter::All), vec![12, 3, 1]);
    assert!(list_issues(&store, 3, StateFilter::All, TypeFilter::All).is_empty());
    let other: Vec<i32> =
        list_issues(&store, 1, StateFilter::All, TypeFilter::All).iter().map(|i| i.number).collect();
    assert_eq!(other, vec![10]);
}

#[test]
fn filters_have_their_words_and_flags() {
    assert_eq!(StateFilter::Open.as_str(), "open");
    assert_eq!(StateFilter::Closed.as_str(), "closed");
    assert_eq!(StateFilter::All.as_str(), "all");
    assert!(!StateFilter::Open.tells_state());
    assert!(StateFilter::Closed.tells_state());
    assert!(StateFilter::All.tells_state());
    assert!(!TypeFilter::Issue.tells_kind());
    assert!(TypeFilter::Pr.tells_kind());
    assert!(TypeFilter::All.tells_kind());
    assert!(TypeFilter::Issue.shows(false) && !TypeFilter::Issue.shows(true));
    assert!(TypeFilter::Pr.shows(true) && !TypeFilter::Pr.shows(false));
    assert!(TypeFilter::All.shows(true) && TypeFilter::All.shows(false));
}

#[test]
fn repositories_are_listed_by_owner_then_name() {
    let store = sample();
    let listed: Vec<(String, String)> =
        list_repositories(&store).iter().map(|r| (r.user.clone(), r.name.clone())).collect();
    let expected: Vec<(String, String)> =
        [("Octo", "z"), ("octo", "Demo"), ("octo", "demo"), ("zed", "a")]
            .iter()
            .map(|(u, n)| (u.to_string(), n.to_string()))
            .collect();
    assert_eq!(listed, expected);
    assert!(list_repositories(&Store::new()).is_empty());
}

#[test]
fn the_first_issue_of_a_number_is_found() {
    let store = sample();
    let found = find_by_number(&store, 10, false).unwrap();
    assert_eq!((found.repository_id, found.number), (2, 10));
    let pull = find_by_number(&store, 10, true).unwrap();
    assert_eq!((pull.repository_id, pull.number), (1, 10));
    assert!(find_by_number(&store, 3, true).is_none());
    assert!(find_by_number(&store, 99, false).is_none());
}

#[test]
fn a_repository_is_found_by_its_id() {
    let store = sample();
    let found = repository_by_id(&store, 2).unwrap();
    assert_eq!((found.user.as_str(), found.name.as_str()), ("octo", "demo"));
    assert!(repository_by_id(&store, 9).is_none());
}

#[test]
fn the_labels_of_an_issue_come_in_the_order_they_were_attached() {
    let mut store = sample();
    let bug = store.ensure_label(NewLabel { name: "bug".to_string() }).unwrap();
    let docs = store.ensure_label(NewLabel { name: "docs".to_string() }).unwrap();
    let ui = store.ensure_label(NewLabel { name: "ui".to_string() }).unwrap();
    store.link_label(NewIssueLabel { issue_id: 1, label_id: ui });
    store.link_label(NewIssueLabel { issue_id: 2, label_id: docs });
    store.link_label(NewIssueLabel { issue_id: 1, label_id: bug });
    let names: Vec<String> = labels_of(&store, 1).iter().map(|l| l.name.clone()).collect();
    assert_eq!(names, vec!["ui", "bug"]);
    let names: Vec<String> = labels_of(&store, 2).iter().map(|l| l.name.clone()).collect();
    assert_eq!(names, vec!["docs"]);
    assert!(labels_of(&store, 3).is_empty());
}

#[test]
fn the_tallies_of_an_issue_come_in_the_order_of_their_names() {
    let mut store = sample();
    for (kind, count) in [("rocket", 1), ("+1", 2), ("eyes", 3), ("-1", 4), ("heart", 5)] {
        assert!(store.upsert_reaction(NewIssueReaction {
            issue_id: 1,
            reaction_type: kind.to_string(),
            count,
        }));
    }
    store.upsert_reaction(NewIssueReaction {
        issue_id: 2,
        reaction_type: "laugh".to_string(),
        count: 9,
    });
    let listed: Vec<(String, i32)> =
        reactions_of(&store, 1).iter().map(|r| (r.reaction_type.clone(), r.count)).collect();
    let expected: Vec<(String, i32)> =
        [("+1", 2), ("-1", 4), ("eyes", 3), ("heart", 5), ("rocket", 1)]
            .iter()
            .map(|(k, c)| (k.to_string(), *c))
            .collect();
    assert_eq!(listed, expected);
    assert!(reactions_of(&store, 3).is_empty());
}

#[test]
fn texts_are_ordered_as_their_bytes_are() {
    let words = ["", "a", "A", "ab", "abc", "b", "é", "z", "zz", "~", "日本", "Z", "a b"];
    for a in words {
        for b in words {
            assert_eq!(text_precedes(a, b), a <= b, "{:?} and {:?}", a, b);
            assert_eq!(bytes_precede(a.as_bytes(), b.as_bytes()), a.as_bytes() <= b.as_bytes());
        }
    }
}
