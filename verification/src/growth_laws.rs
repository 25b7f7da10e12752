//! Synchronization only adds to the cache: no row is removed, and of the rows
//! that are there only what may change changes.

use vstd::prelude::*;
use crate::clock::Timestamp;
use crate::models::NewIssueView;
use crate::reconcile::{attach_labels, issue_to_write, reconcile, tally_kinds};
use crate::remote::{ReactionKind, RemoteIssueView, RemoteReactions};
use crate::store_model::{
    issue_ids, issue_label_ids, issue_reaction_ids, label_ids, largest_id, StoreView,
};
use crate::sync_laws::law_pass_keeps_consistency;
use crate::sync_model::{Arrival, Phase, Progress, SessionView};

verus! {

/// Whether ids `after` are ids `before` followed by larger ones.
pub open spec fn ids_grown(before: Seq<int>, after: Seq<int>) -> bool {
    &&& before.len() <= after.len()
    &&& forall|k: int| 0 <= k < before.len() ==> #[trigger] after[k] == before[k]
    &&& forall|k: int| before.len() <= k < after.len() ==> #[trigger] after[k] > largest_id(before)
}

/// Whether `after` holds every row of `before`, in its place, and new rows
/// only under ids above all that were there. Repositories are the same.
/// Labels and attachments are as they were. An issue keeps its id,
/// repository, number, author, creation time and kind. A tally keeps its id,
/// issue and kind.
pub open spec fn grown_from(before: StoreView, after: StoreView) -> bool {
    &&& after.repositories == before.repositories
    &&& ids_grown(label_ids(before.labels), label_ids(after.labels))
    &&& forall|k: int| 0 <= k < before.labels.len() ==> #[trigger] after.labels[k] == before.labels[k]
    &&& ids_grown(issue_label_ids(before.issue_labels), issue_label_ids(after.issue_labels))
    &&& forall|k: int|
        0 <= k < before.issue_labels.len() ==> #[trigger] after.issue_labels[k]
            == before.issue_labels[k]
    &&& ids_grown(issue_ids(before.issues), issue_ids(after.issues))
    &&& forall|k: int|
        0 <= k < before.issues.len() ==> {
            &&& (#[trigger] after.issues[k]).repository_id == before.issues[k].repository_id
            &&& after.issues[k].number == before.issues[k].number
            &&& after.issues[k].author == before.issues[k].author
            &&& after.issues[k].created_at == before.issues[k].created_at
            &&& after.issues[k].is_pull_request == before.issues[k].is_pull_request
        }
    &&& ids_grown(
        issue_reaction_ids(before.issue_reactions),
        issue_reaction_ids(after.issue_reactions),
    )
    &&& forall|k: int|
        0 <= k < before.issue_reactions.len() ==> {
            &&& (#[trigger] after.issue_reactions[k]).issue_id == before.issue_reactions[k].issue_id
            &&& after.issue_reactions[k].reaction_type == before.issue_reactions[k].reaction_type
        }
}

/// Ids that have grown have a largest that is no smaller.
pub proof fn lemma_ids_grown_largest(before: Seq<int>, after: Seq<int>)
    requires
        ids_grown(before, after),
    ensures
        largest_id(before) <= largest_id(after),
    decreases after.len(),
{
    if after.len() > before.len() {
        let shorter = after.drop_last();
        assert(ids_grown(before, shorter));
        lemma_ids_grown_largest(before, shorter);
    } else {
        assert(after =~= before);
    }
}

/// Ids grown from ids that have grown have grown from the first.
pub proof fn lemma_ids_grown_chain(a: Seq<int>, b: Seq<int>, c: Seq<int>)
    requires
        ids_grown(a, b),
        ids_grown(b, c),
    ensures
        ids_grown(a, c),
{
    lemma_ids_grown_largest(a, b);
    assert forall|k: int| a.len() <= k < c.len() implies #[trigger] c[k] > largest_id(a) by {
        if k < b.len() {
            assert(c[k] == b[k]);
        }
    }
}

/// What has grown from a cache that has grown from another has grown from
/// that other.
pub proof fn lemma_growth_chain(a: StoreView, b: StoreView, c: StoreView)
    requires
        grown_from(a, b),
        grown_from(b, c),
    ensures
        grown_from(a, c),
{
    lemma_ids_grown_chain(label_ids(a.labels), label_ids(b.labels), label_ids(c.labels));
    lemma_ids_grown_chain(
        issue_label_ids(a.issue_labels),
        issue_label_ids(b.issue_labels),
        issue_label_ids(c.issue_labels),
    );
    lemma_ids_grown_chain(issue_ids(a.issues), issue_ids(b.issues), issue_ids(c.issues));
    lemma_ids_grown_chain(
        issue_reaction_ids(a.issue_reactions),
        issue_reaction_ids(b.issue_reactions),
        issue_reaction_ids(c.issue_reactions),
    );
    assert forall|k: int| 0 <= k < a.labels.len() implies #[trigger] c.labels[k]
        == a.labels[k] by {
        assert(b.labels[k] == a.labels[k]);
    }
    assert forall|k: int| 0 <= k < a.issue_labels.len() implies #[trigger] c.issue_labels[k]
        == a.issue_labels[k] by {
        assert(b.issue_labels[k] == a.issue_labels[k]);
    }
    assert forall|k: int| 0 <= k < a.issues.len() implies (#[trigger] c.issues[k]).repository_id
        == a.issues[k].repository_id && c.issues[k].number == a.issues[k].number
        && c.issues[k].author == a.issues[k].author && c.issues[k].created_at
        == a.issues[k].created_at && c.issues[k].is_pull_request
        == a.issues[k].is_pull_request by {
        assert(b.issues[k].number == a.issues[k].number);
    }
    assert forall|k: int| 0 <= k < a.issue_reactions.len() implies (
    #[trigger] c.issue_reactions[k]).issue_id == a.issue_reactions[k].issue_id
        && c.issue_reactions[k].reaction_type == a.issue_reactions[k].reaction_type by {
        assert(b.issue_reactions[k].issue_id == a.issue_reactions[k].issue_id);
    }
}

/// A cache has grown from itself.
pub proof fn lemma_growth_from_itself(store: StoreView)
    ensures
        grown_from(store, store),
{
}

/// Writing an issue only adds to the cache.
pub proof fn lemma_upsert_issue_grows(store: StoreView, new: NewIssueView)
    requires
        store.wf(),
    ensures
        grown_from(store, store.upsert_issue(new)),
{
    if store.has_issue(new.repository_id, new.number) {
        let i = store.issue_index(new.repository_id, new.number);
        assert(store.issue_at(i, new.repository_id, new.number));
    }
}

/// Reconciling a label name only adds to the cache.
pub proof fn lemma_attach_label_grows(store: StoreView, issue_id: int, name: Seq<char>)
    ensures
        grown_from(store, store.attach_label(issue_id, name)),
{
}

/// Reconciling label names only adds to the cache.
pub proof fn lemma_attach_labels_grow(
    store: StoreView,
    issue_id: int,
    names: Seq<Seq<char>>,
    count: int,
)
    ensures
        grown_from(store, attach_labels(store, issue_id, names, count)),
    decreases count,
{
    if count > 0 {
        lemma_attach_labels_grow(store, issue_id, names, count - 1);
        let before = attach_labels(store, issue_id, names, count - 1);
        lemma_attach_label_grows(before, issue_id, names[count - 1]);
        lemma_growth_chain(store, before, before.attach_label(issue_id, names[count - 1]));
    }
}

/// Writing a tally only adds to the cache.
pub proof fn lemma_with_reaction_grows(store: StoreView, issue_id: int, kind: Seq<char>, count: int)
    ensures
        grown_from(store, store.with_reaction(issue_id, kind, count)),
{
    if store.has_reaction(issue_id, kind) {
        let i = store.reaction_index(issue_id, kind);
        assert(store.reaction_at(i, issue_id, kind));
    }
}

/// Reconciling reaction counts only adds to the cache.
pub proof fn lemma_tally_kinds_grow(
    store: StoreView,
    issue_id: int,
    counts: RemoteReactions,
    count: int,
)
    ensures
        grown_from(store, tally_kinds(store, issue_id, counts, count)),
    decreases count,
{
    if count > 0 {
        lemma_tally_kinds_grow(store, issue_id, counts, count - 1);
        let before = tally_kinds(store, issue_id, counts, count - 1);
        let kind = ReactionKind::in_order()[count - 1];
        match counts.count_of(kind) {
            Some(c) => {
                lemma_with_reaction_grows(before, issue_id, kind.name(), c as int);
            },
            None => {},
        }
        lemma_growth_chain(store, before, tally_kinds(store, issue_id, counts, count));
    }
}

/// Reconciling the counts of further kinds only adds to the cache.
pub proof fn lemma_tally_kinds_grow_between(
    store: StoreView,
    issue_id: int,
    counts: RemoteReactions,
    from: int,
    to: int,
)
    requires
        0 <= from <= to,
    ensures
        grown_from(
            tally_kinds(store, issue_id, counts, from),
            tally_kinds(store, issue_id, counts, to),
        ),
    decreases to,
{
    if from < to {
        lemma_tally_kinds_grow_between(store, issue_id, counts, from, to - 1);
        let before = tally_kinds(store, issue_id, counts, to - 1);
        let kind = ReactionKind::in_order()[to - 1];
        match counts.count_of(kind) {
            Some(c) => {
                lemma_with_reaction_grows(before, issue_id, kind.name(), c as int);
            },
            None => {},
        }
        lemma_growth_chain(
            tally_kinds(store, issue_id, counts, from),
            before,
            tally_kinds(store, issue_id, counts, to),
        );
    }
}

/// The labels and counts of a record only add to the cache.
pub proof fn lemma_enrich_grows(store: StoreView, issue_id: int, record: RemoteIssueView)
    ensures
        grown_from(store, crate::reconcile::enrich(store, issue_id, record)),
{
    let labelled = match record.labels {
        Some(names) => attach_labels(store, issue_id, names, names.len() as int),
        None => store,
    };
    match record.labels {
        Some(names) => {
            lemma_attach_labels_grow(store, issue_id, names, names.len() as int);
        },
        None => {},
    }
    match record.reactions {
        Some(counts) => {
            lemma_tally_kinds_grow(labelled, issue_id, counts, 8);
            lemma_growth_chain(store, labelled, tally_kinds(labelled, issue_id, counts, 8));
        },
        None => {},
    }
}

/// Reconciling a record only adds to the cache: labels and attachments stay,
/// no issue and no tally is removed, and what identifies a row stays.
pub proof fn law_reconcile_only_adds(
    store: StoreView,
    repository_id: int,
    record: RemoteIssueView,
    stamp: Seq<char>,
)
    requires
        store.wf(),
    ensures
        grown_from(store, reconcile(store, repository_id, record, stamp)),
{
    let new = issue_to_write(record, repository_id, stamp);
    if store.can_upsert_issue(new) {
        let written = store.upsert_issue(new);
        lemma_upsert_issue_grows(store, new);
        match written.issue_id(repository_id, record.number) {
            Some(issue_id) => {
                let labelled = match record.labels {
                    Some(names) => attach_labels(written, issue_id, names, names.len() as int),
                    None => written,
                };
                match record.labels {
                    Some(names) => {
                        lemma_attach_labels_grow(written, issue_id, names, names.len() as int);
                    },
                    None => {},
                }
                lemma_growth_chain(store, written, labelled);
                match record.reactions {
                    Some(counts) => {
                        lemma_tally_kinds_grow(labelled, issue_id, counts, 8);
                        lemma_growth_chain(
                            store,
                            labelled,
                            tally_kinds(labelled, issue_id, counts, 8),
                        );
                    },
                    None => {},
                }
            },
            None => {},
        }
    }
}

/// The records of a page only add to the cache.
pub proof fn lemma_records_only_add(
    session: SessionView,
    start: Progress,
    records: Seq<RemoteIssueView>,
    now: Timestamp,
    stamp: Seq<char>,
    count: int,
)
    requires
        start.store.wf(),
        0 <= count <= records.len(),
    ensures
        grown_from(start.store, session.sync_records(start, records, now, stamp, count).store),
    decreases count,
{
    if count > 0 {
        lemma_records_only_add(session, start, records, now, stamp, count - 1);
        session.lemma_records_counted(start, records, now, stamp, count - 1);
        let prev = session.sync_records(start, records, now, stamp, count - 1);
        law_reconcile_only_adds(prev.store, session.repository_id, records[count - 1], stamp);
        lemma_growth_chain(
            start.store,
            prev.store,
            session.sync_records(start, records, now, stamp, count).store,
        );
    }
}

/// A pass only adds to the cache, whatever arrives and however it ends: no
/// repository changes, no label or attachment is removed or changed, no
/// issue or tally is removed, and every issue keeps its id, repository,
/// number, author, creation time and kind.
pub proof fn law_pass_only_adds(
    session: SessionView,
    store: StoreView,
    arrivals: Seq<Arrival>,
    count: int,
)
    requires
        store.wf(),
        0 <= count <= arrivals.len(),
    ensures
        grown_from(store, session.run(store, arrivals, count).store),
    decreases count,
{
    if count > 0 {
        law_pass_only_adds(session, store, arrivals, count - 1);
        law_pass_keeps_consistency(session, store, arrivals, count - 1);
        let before = session.run(store, arrivals, count - 1);
        let arrival = arrivals[count - 1];
        if before.session.phase == Phase::Fetching {
            lemma_records_only_add(
                before.session,
                Progress {
                    store: before.store,
                    synced: before.session.synced,
                    skipped: before.session.skipped,
                    failed: false,
                },
                arrival.records,
                arrival.now,
                arrival.stamp,
                arrival.records.len() as int,
            );
        }
        lemma_growth_chain(store, before.store, session.run(store, arrivals, count).store);
    }
}

/// What a pass goes on to write only adds to what it has written.
pub proof fn lemma_pass_grows_between(
    session: SessionView,
    store: StoreView,
    arrivals: Seq<Arrival>,
    from: int,
    to: int,
)
    requires
        store.wf(),
        0 <= from <= to <= arrivals.len(),
    ensures
        grown_from(
            session.run(store, arrivals, from).store,
            session.run(store, arrivals, to).store,
        ),
    decreases to,
{
    if from < to {
        lemma_pass_grows_between(session, store, arrivals, from, to - 1);
        law_pass_keeps_consistency(session, store, arrivals, to - 1);
        let before = session.run(store, arrivals, to - 1);
        let arrival = arrivals[to - 1];
        if before.session.phase == Phase::Fetching {
            lemma_records_only_add(
                before.session,
                Progress {
                    store: before.store,
                    synced: before.session.synced,
                    skipped: before.session.skipped,
                    failed: false,
                },
                arrival.records,
                arrival.now,
                arrival.stamp,
                arrival.records.len() as int,
            );
        }
        lemma_growth_chain(
            session.run(store, arrivals, from).store,
            before.store,
            session.run(store, arrivals, to).store,
        );
    }
}

} // verus!
