//! Reconciliation: what one remote record does to the cache.

use vstd::prelude::*;
use crate::clock::Stamp;
use crate::error::SyncError;
use crate::models::{copy_opt_text, NewIssue, NewIssueLabel, NewIssueReaction, NewIssueView, NewLabel};
use crate::remote::{texts, ReactionKind, RemoteIssue, RemoteIssueView, RemoteReactions};
use crate::store::Store;
use crate::store_model::StoreView;

verus! {

/// The cache after the first `count` label names of an issue are reconciled,
/// one after the other.
pub open spec fn attach_labels(
    store: StoreView,
    issue_id: int,
    names: Seq<Seq<char>>,
    count: int,
) -> StoreView
    decreases count,
{
    if count <= 0 {
        store
    } else {
        attach_labels(store, issue_id, names, count - 1).attach_label(issue_id, names[count - 1])
    }
}

/// The cache after one kind's count is reconciled: a count above zero is
/// written, anything else leaves the cache as it is.
pub open spec fn tally(
    store: StoreView,
    issue_id: int,
    kind: ReactionKind,
    counts: RemoteReactions,
) -> StoreView {
    match counts.count_of(kind) {
        Some(count) => if count > 0 {
            store.with_reaction(issue_id, kind.name(), count as int)
        } else {
            store
        },
        None => store,
    }
}

/// The cache after the first `count` kinds are reconciled, in their order.
pub open spec fn tally_kinds(
    store: StoreView,
    issue_id: int,
    counts: RemoteReactions,
    count: int,
) -> StoreView
    decreases count,
{
    if count <= 0 {
        store
    } else {
        tally(
            tally_kinds(store, issue_id, counts, count - 1),
            issue_id,
            ReactionKind::in_order()[count - 1],
            counts,
        )
    }
}

/// The row that a record is written as: a missing body is written empty, and
/// the stamp is the time of this synchronization.
pub open spec fn issue_to_write(
    record: RemoteIssueView,
    repository_id: int,
    stamp: Seq<char>,
) -> NewIssueView {
    NewIssueView {
        repository_id,
        number: record.number,
        title: record.title,
        body: match record.body {
            Some(body) => body,
            None => Seq::empty(),
        },
        created_at: record.created_at,
        state: record.state,
        is_pull_request: record.is_pull_request,
        author: record.author,
        last_synced_at: Some(stamp),
    }
}

/// The labels and tallies of a record, written against the id of its issue.
pub open spec fn enrich(store: StoreView, issue_id: int, record: RemoteIssueView) -> StoreView {
    let labelled = match record.labels {
        Some(names) => attach_labels(store, issue_id, names, names.len() as int),
        None => store,
    };
    match record.reactions {
        Some(counts) => tally_kinds(labelled, issue_id, counts, 8),
        None => labelled,
    }
}

/// The cache after a record is reconciled: the issue is written, its id is
/// looked up again, and labels and tallies are written against that id.
/// Where the issue cannot be written nothing changes.
pub open spec fn reconcile(
    store: StoreView,
    repository_id: int,
    record: RemoteIssueView,
    stamp: Seq<char>,
) -> StoreView {
    let new = issue_to_write(record, repository_id, stamp);
    if store.can_upsert_issue(new) {
        let written = store.upsert_issue(new);
        match written.issue_id(repository_id, record.number) {
            Some(issue_id) => enrich(written, issue_id, record),
            None => written,
        }
    } else {
        store
    }
}

/// Reconciles the label names of an issue: each is recorded if need be and
/// attached. A name whose label cannot be recorded or attached is passed
/// over.
pub fn reconcile_labels(store: &mut Store, issue_id: i32, names: &Vec<String>)
    requires
        old(store).wf(),
    ensures
        final(store).wf(),
        final(store)@ == attach_labels(
            old(store)@,
            issue_id as int,
            texts(names@),
            names.len() as int,
        ),
{
    let ghost start = store@;
    let mut i: usize = 0;
    while i < names.len()
        invariant
            i <= names.len(),
            store.wf(),
            store@ == attach_labels(start, issue_id as int, texts(names@), i as int),
        decreases names.len() - i,
    {
        let resolved = store.ensure_label(NewLabel { name: names[i].clone() });
        match resolved {
            Some(label_id) => {
                store.link_label(NewIssueLabel { issue_id, label_id });
            },
            None => {},
        }
        i += 1;
    }
}

/// Reconciles the reaction counts of an issue: every kind with a count above
/// zero is written over what was there. A count of zero, or none, writes
/// nothing and clears nothing.
pub fn reconcile_reactions(store: &mut Store, issue_id: i32, counts: &RemoteReactions)
    requires
        old(store).wf(),
    ensures
        final(store).wf(),
        final(store)@ == tally_kinds(old(store)@, issue_id as int, *counts, 8),
{
    let ghost start = store@;
    let mut i: usize = 0;
    while i < 8
        invariant
            i <= 8,
            store.wf(),
            store@ == tally_kinds(start, issue_id as int, *counts, i as int),
        decreases 8 - i,
    {
        match ReactionKind::nth(i) {
            Some(kind) => match counts.count(kind) {
                Some(count) => {
                    if count > 0 {
                        store.upsert_reaction(
                            NewIssueReaction {
                                issue_id,
                                reaction_type: kind.as_str().to_owned(),
                                count,
                            },
                        );
                    }
                },
                None => {},
            },
            None => {},
        }
        i += 1;
    }
}

/// Reconciles one record into the cache under the given stamp and hands out
/// the id of its issue. Fails, with the cache untouched, only where the
/// issue needs a new row and no id is left.
pub fn reconcile_issue(
    store: &mut Store,
    repository_id: i32,
    record: &RemoteIssue,
    stamp: &Stamp,
) -> (r: Result<i32, SyncError>)
    requires
        old(store).wf(),
    ensures
        final(store).wf(),
        stamp.wf(),
        final(store)@ == reconcile(old(store)@, repository_id as int, record@, stamp.rendered()),
        match r {
            Ok(id) => old(store)@.can_upsert_issue(
                issue_to_write(record@, repository_id as int, stamp.rendered()),
            ) && old(store)@.upsert_issue(
                issue_to_write(record@, repository_id as int, stamp.rendered()),
            ).issue_id(repository_id as int, record@.number) == Some(id as int),
            Err(e) => e == SyncError::Store && !old(store)@.can_upsert_issue(
                issue_to_write(record@, repository_id as int, stamp.rendered()),
            ),
        },
{
    let new = NewIssue {
        repository_id,
        number: record.number,
        title: record.title.clone(),
        body: match &record.body {
            Some(body) => body.clone(),
            None => String::new(),
        },
        created_at: record.created_at.clone(),
        state: record.state.clone(),
        is_pull_request: record.is_pull_request,
        author: copy_opt_text(&record.author),
        last_synced_at: Some(stamp.as_str().to_owned()),
    };
    assert(new@ == issue_to_write(record@, repository_id as int, stamp.rendered()));
    let issue_id: i32 = match store.upsert_issue(new) {
        Ok(id) => id,
        Err(e) => {
            return Err(e);
        },
    };
    match &record.labels {
        Some(names) => {
            reconcile_labels(store, issue_id, names);
        },
        None => {},
    }
    match &record.reactions {
        Some(counts) => {
            reconcile_reactions(store, issue_id, counts);
        },
        None => {},
    }
    Ok(issue_id)
}

/// Reconciling label names keeps the tables consistent and the issues as
/// they are.
pub proof fn lemma_attach_labels_consistent(
    store: StoreView,
    issue_id: int,
    names: Seq<Seq<char>>,
    count: int,
)
    requires
        store.wf(),
    ensures
        attach_labels(store, issue_id, names, count).wf(),
        attach_labels(store, issue_id, names, count).issues == store.issues,
        attach_labels(store, issue_id, names, count).repositories == store.repositories,
        attach_labels(store, issue_id, names, count).issue_reactions == store.issue_reactions,
    decreases count,
{
    if count > 0 {
        lemma_attach_labels_consistent(store, issue_id, names, count - 1);
        attach_labels(store, issue_id, names, count - 1).lemma_attach_label_consistent(
            issue_id,
            names[count - 1],
        );
    }
}

/// Reconciling reaction counts keeps the tables consistent and the issues
/// and labels as they are.
pub proof fn lemma_tally_kinds_consistent(
    store: StoreView,
    issue_id: int,
    counts: RemoteReactions,
    count: int,
)
    requires
        store.wf(),
    ensures
        tally_kinds(store, issue_id, counts, count).wf(),
        tally_kinds(store, issue_id, counts, count).issues == store.issues,
        tally_kinds(store, issue_id, counts, count).repositories == store.repositories,
        tally_kinds(store, issue_id, counts, count).labels == store.labels,
        tally_kinds(store, issue_id, counts, count).issue_labels == store.issue_labels,
    decreases count,
{
    if count > 0 {
        lemma_tally_kinds_consistent(store, issue_id, counts, count - 1);
        let before = tally_kinds(store, issue_id, counts, count - 1);
        let kind = ReactionKind::in_order()[count - 1];
        match counts.count_of(kind) {
            Some(c) => {
                before.lemma_with_reaction_consistent(issue_id, kind.name(), c as int);
            },
            None => {},
        }
    }
}

/// Reconciling a record keeps the tables consistent. Of the issues it
/// touches only the record's own, and the repositories not at all.
pub proof fn lemma_reconcile_consistent(
    store: StoreView,
    repository_id: int,
    record: RemoteIssueView,
    stamp: Seq<char>,
)
    requires
        store.wf(),
    ensures
        reconcile(store, repository_id, record, stamp).wf(),
        reconcile(store, repository_id, record, stamp).issues == store.upsert_issue(
            issue_to_write(record, repository_id, stamp),
        ).issues,
        reconcile(store, repository_id, record, stamp).repositories == store.repositories,
{
    let new = issue_to_write(record, repository_id, stamp);
    store.lemma_upsert_issue_consistent(new);
    if store.can_upsert_issue(new) {
        let written = store.upsert_issue(new);
        match written.issue_id(repository_id, record.number) {
            Some(issue_id) => {
                let labelled = match record.labels {
                    Some(names) => attach_labels(written, issue_id, names, names.len() as int),
                    None => written,
                };
                match record.labels {
                    Some(names) => {
                        lemma_attach_labels_consistent(
                            written,
                            issue_id,
                            names,
                            names.len() as int,
                        );
                    },
                    None => {},
                }
                match record.reactions {
                    Some(counts) => {
                        lemma_tally_kinds_consistent(labelled, issue_id, counts, 8);
                    },
                    None => {},
                }
            },
            None => {},
        }
    }
}

} // verus!
