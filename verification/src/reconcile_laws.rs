//! Reconciling a record a second time changes nothing but the stamp.

use vstd::prelude::*;
use crate::models::IssueView;
use crate::reconcile::{
    attach_labels, enrich, issue_to_write, lemma_attach_labels_consistent,
    lemma_reconcile_consistent, lemma_tally_kinds_consistent, reconcile, tally, tally_kinds,
};
use crate::remote::{ReactionKind, RemoteIssueView, RemoteReactions};
use crate::store_model::{
    id_limit, issue_id_known, issue_label_ids, issue_reaction_ids, label_id_known, label_ids,
    StoreView,
};

verus! {

/// Whether reconciling the label name for the issue would change nothing.
pub open spec fn label_done(store: StoreView, issue_id: int, name: Seq<char>) -> bool {
    store.attach_label(issue_id, name) == store
}

/// Consistent caches with the same labels find the same label under a name.
pub proof fn lemma_label_lookup_reads_labels_only(a: StoreView, b: StoreView, name: Seq<char>)
    requires
        a.wf(),
        b.wf(),
        a.labels == b.labels,
    ensures
        a.has_label(name) == b.has_label(name),
        a.label_id(name) == b.label_id(name),
{
    if a.has_label(name) {
        let i = a.label_index(name);
        assert(a.label_at(i, name));
        assert(b.label_at(i, name));
        b.lemma_label_index(i, name);
    } else if b.has_label(name) {
        let i = b.label_index(name);
        assert(b.label_at(i, name));
        assert(a.label_at(i, name));
    }
}

/// Caches with the same attachments have the same pairs joined.
pub proof fn lemma_linked_reads_attachments_only(
    a: StoreView,
    b: StoreView,
    issue_id: int,
    label_id: int,
)
    requires
        a.issue_labels == b.issue_labels,
    ensures
        a.linked(issue_id, label_id) == b.linked(issue_id, label_id),
{
    if a.linked(issue_id, label_id) {
        let i = choose|i: int| a.link_at(i, issue_id, label_id);
        assert(b.link_at(i, issue_id, label_id));
    }
    if b.linked(issue_id, label_id) {
        let i = choose|i: int| b.link_at(i, issue_id, label_id);
        assert(a.link_at(i, issue_id, label_id));
    }
}

/// What it takes for a label name to be reconciled: the label is recorded
/// or cannot be, and where it is recorded it is attached or cannot be.
pub open spec fn label_settled(store: StoreView, issue_id: int, name: Seq<char>) -> bool {
    &&& store.has_label(name) || store.next_label_id() > id_limit()
    &&& store.label_id(name) matches Some(label_id) ==> !store.can_link(issue_id, label_id)
}

/// A label name is done exactly where it is settled.
pub proof fn lemma_done_is_settled(store: StoreView, issue_id: int, name: Seq<char>)
    requires
        store.wf(),
    ensures
        label_done(store, issue_id, name) == label_settled(store, issue_id, name),
{
    let recorded = store.with_label(name);
    store.lemma_with_label_consistent(name);
    if !store.has_label(name) && store.next_label_id() <= id_limit() {
        assert(recorded.labels.len() == store.labels.len() + 1);
        match recorded.label_id(name) {
            Some(label_id) => {
                recorded.lemma_with_link_consistent(issue_id, label_id);
            },
            None => {},
        }
        assert(store.attach_label(issue_id, name).labels.len() != store.labels.len());
    } else {
        assert(recorded == store);
        match store.label_id(name) {
            Some(label_id) => {
                if store.can_link(issue_id, label_id) {
                    assert(store.with_link(issue_id, label_id).issue_labels.len()
                        == store.issue_labels.len() + 1);
                }
            },
            None => {},
        }
    }
}

/// Once a label name is reconciled for an issue, reconciling it again
/// changes nothing.
pub proof fn lemma_label_done_after_attach(store: StoreView, issue_id: int, name: Seq<char>)
    requires
        store.wf(),
    ensures
        label_done(store.attach_label(issue_id, name), issue_id, name),
{
    let recorded = store.with_label(name);
    let after = store.attach_label(issue_id, name);
    store.lemma_with_label_consistent(name);
    store.lemma_attach_label_consistent(issue_id, name);
    match recorded.label_id(name) {
        Some(label_id) => {
            recorded.lemma_with_link_consistent(issue_id, label_id);
            if recorded.can_link(issue_id, label_id) {
                assert(after.link_at(recorded.issue_labels.len() as int, issue_id, label_id));
            }
        },
        None => {},
    }
    assert(after.labels == recorded.labels);
    lemma_label_lookup_reads_labels_only(recorded, after, name);
    if !store.has_label(name) && store.next_label_id() <= id_limit() {
        assert(recorded.label_at(store.labels.len() as int, name));
    }
    assert(label_ids(after.labels) == label_ids(recorded.labels));
    lemma_done_is_settled(after, issue_id, name);
}

/// A settled label name stays settled in a cache with the same labels and
/// attachments that knows the issue as well or as little.
pub proof fn lemma_settled_elsewhere(a: StoreView, b: StoreView, issue_id: int, name: Seq<char>)
    requires
        a.wf(),
        b.wf(),
        a.labels == b.labels,
        a.issue_labels == b.issue_labels,
        issue_id_known(a.issues, issue_id) == issue_id_known(b.issues, issue_id),
        label_settled(a, issue_id, name),
    ensures
        label_settled(b, issue_id, name),
{
    lemma_label_lookup_reads_labels_only(a, b, name);
    match a.label_id(name) {
        Some(label_id) => {
            lemma_linked_reads_attachments_only(a, b, issue_id, label_id);
        },
        None => {},
    }
}

/// A settled label name stays settled when another is reconciled, for the
/// same issue or for another.
pub proof fn lemma_settled_after_attach(
    store: StoreView,
    issue_id: int,
    name: Seq<char>,
    other_issue_id: int,
    other_name: Seq<char>,
)
    requires
        store.wf(),
        label_settled(store, issue_id, name),
    ensures
        label_settled(store.attach_label(other_issue_id, other_name), issue_id, name),
{
    let recorded = store.with_label(other_name);
    let after = store.attach_label(other_issue_id, other_name);
    store.lemma_with_label_consistent(other_name);
    store.lemma_attach_label_consistent(other_issue_id, other_name);
    match recorded.label_id(other_name) {
        Some(label_id) => {
            recorded.lemma_with_link_consistent(other_issue_id, label_id);
        },
        None => {},
    }
    assert(after.labels == recorded.labels);
    // The labels only grow, and not at all once their ids have run out.
    if recorded.labels != store.labels {
        crate::store_model::lemma_largest_id_push(
            label_ids(store.labels),
            store.next_label_id(),
        );
        assert(label_ids(recorded.labels) =~= label_ids(store.labels).push(
            store.next_label_id(),
        ));
    }
    // The attachments only grow, and not at all once their ids have run out.
    if after.issue_labels != recorded.issue_labels {
        crate::store_model::lemma_largest_id_push(
            issue_label_ids(recorded.issue_labels),
            recorded.next_issue_label_id(),
        );
        assert(issue_label_ids(after.issue_labels) =~= issue_label_ids(
            recorded.issue_labels,
        ).push(recorded.next_issue_label_id()));
    }
    if store.has_label(name) {
        let i = store.label_index(name);
        assert(store.label_at(i, name));
        assert(after.label_at(i, name));
        after.lemma_label_index(i, name);
        let label_id = store.labels[i].id;
        assert(!store.can_link(issue_id, label_id));
        if store.linked(issue_id, label_id) {
            let k = choose|k: int| store.link_at(k, issue_id, label_id);
            assert(after.link_at(k, issue_id, label_id));
        }
        assert(label_id_known(store.labels, label_id));
    } else {
        assert(after.labels == store.labels);
        lemma_label_lookup_reads_labels_only(store, after, name);
    }
}

/// Label names that are all settled are reconciled without a change.
pub proof fn lemma_settled_labels_change_nothing(
    store: StoreView,
    issue_id: int,
    names: Seq<Seq<char>>,
    count: int,
)
    requires
        store.wf(),
        0 <= count <= names.len(),
        forall|k: int| 0 <= k < count ==> label_settled(store, issue_id, #[trigger] names[k]),
    ensures
        attach_labels(store, issue_id, names, count) == store,
    decreases count,
{
    if count > 0 {
        lemma_settled_labels_change_nothing(store, issue_id, names, count - 1);
        assert(label_settled(store, issue_id, names[count - 1]));
        lemma_done_is_settled(store, issue_id, names[count - 1]);
    }
}

/// After label names are reconciled for an issue, each of them is settled.
pub proof fn lemma_attached_labels_are_settled(
    store: StoreView,
    issue_id: int,
    names: Seq<Seq<char>>,
    count: int,
    k: int,
)
    requires
        store.wf(),
        0 <= k < count <= names.len(),
    ensures
        label_settled(attach_labels(store, issue_id, names, count), issue_id, names[k]),
    decreases count,
{
    let before = attach_labels(store, issue_id, names, count - 1);
    lemma_attach_labels_consistent(store, issue_id, names, count - 1);
    if k == count - 1 {
        lemma_label_done_after_attach(before, issue_id, names[k]);
        before.lemma_attach_label_consistent(issue_id, names[k]);
        lemma_done_is_settled(before.attach_label(issue_id, names[k]), issue_id, names[k]);
    } else {
        lemma_attached_labels_are_settled(store, issue_id, names, count - 1, k);
        lemma_settled_after_attach(before, issue_id, names[k], issue_id, names[count - 1]);
    }
}

/// Whether writing the count of the kind for the issue would change
/// nothing.
pub open spec fn tally_done(store: StoreView, issue_id: int, kind: Seq<char>, count: int) -> bool {
    store.with_reaction(issue_id, kind, count) == store
}

/// What it takes for a count to be written already: the tally holds it, or
/// there is no tally and none can be made.
pub open spec fn tally_settled(
    store: StoreView,
    issue_id: int,
    kind: Seq<char>,
    count: int,
) -> bool {
    if store.has_reaction(issue_id, kind) {
        store.reaction_count(issue_id, kind) == Some(count)
    } else {
        !store.can_tally(issue_id, kind)
    }
}

/// A count is done exactly where it is settled.
pub proof fn lemma_tally_done_is_settled(
    store: StoreView,
    issue_id: int,
    kind: Seq<char>,
    count: int,
)
    requires
        store.wf(),
    ensures
        tally_done(store, issue_id, kind, count) == tally_settled(store, issue_id, kind, count),
{
    if store.has_reaction(issue_id, kind) {
        let i = store.reaction_index(issue_id, kind);
        assert(store.reaction_at(i, issue_id, kind));
        let after = store.with_reaction(issue_id, kind, count);
        if store.issue_reactions[i].count == count {
            assert(after.issue_reactions =~= store.issue_reactions);
        } else {
            assert(after.issue_reactions[i].count == count);
        }
    } else if store.can_tally(issue_id, kind) {
        assert(store.with_reaction(issue_id, kind, count).issue_reactions.len()
            == store.issue_reactions.len() + 1);
    }
}

/// Once a count is written, writing it again changes nothing.
pub proof fn lemma_tally_settled_after_write(
    store: StoreView,
    issue_id: int,
    kind: Seq<char>,
    count: int,
)
    requires
        store.wf(),
    ensures
        tally_settled(store.with_reaction(issue_id, kind, count), issue_id, kind, count),
{
    let after = store.with_reaction(issue_id, kind, count);
    store.lemma_with_reaction_consistent(issue_id, kind, count);
    if store.has_reaction(issue_id, kind) {
        let i = store.reaction_index(issue_id, kind);
        assert(store.reaction_at(i, issue_id, kind));
        assert(after.reaction_at(i, issue_id, kind));
        after.lemma_reaction_index(i, issue_id, kind);
    } else if store.can_tally(issue_id, kind) {
        let last = store.issue_reactions.len() as int;
        assert(after.reaction_at(last, issue_id, kind));
        after.lemma_reaction_index(last, issue_id, kind);
    }
}

/// A written count stays written when the count of another kind, or of
/// another issue, is written.
pub proof fn lemma_tally_settled_after_other(
    store: StoreView,
    issue_id: int,
    kind: Seq<char>,
    count: int,
    other_issue_id: int,
    other_kind: Seq<char>,
    other_count: int,
)
    requires
        store.wf(),
        tally_settled(store, issue_id, kind, count),
        other_issue_id != issue_id || other_kind != kind,
    ensures
        tally_settled(
            store.with_reaction(other_issue_id, other_kind, other_count),
            issue_id,
            kind,
            count,
        ),
{
    let after = store.with_reaction(other_issue_id, other_kind, other_count);
    store.lemma_with_reaction_consistent(other_issue_id, other_kind, other_count);
    if after.issue_reactions.len() != store.issue_reactions.len() {
        crate::store_model::lemma_largest_id_push(
            issue_reaction_ids(store.issue_reactions),
            store.next_issue_reaction_id(),
        );
        assert(issue_reaction_ids(after.issue_reactions) =~= issue_reaction_ids(
            store.issue_reactions,
        ).push(store.next_issue_reaction_id()));
    }
    let rows = store.issue_reactions;
    if store.has_reaction(other_issue_id, other_kind) {
        let j = store.reaction_index(other_issue_id, other_kind);
        assert(store.reaction_at(j, other_issue_id, other_kind));
        assert(after.issue_reactions.len() == rows.len());
        assert forall|k: int| 0 <= k < rows.len() implies (#[trigger] after.issue_reactions[k]).issue_id
            == rows[k].issue_id && after.issue_reactions[k].reaction_type == rows[k].reaction_type
            && (k != j ==> after.issue_reactions[k] == rows[k]) by {}
        assert(issue_reaction_ids(after.issue_reactions) =~= issue_reaction_ids(rows));
    } else if store.can_tally(other_issue_id, other_kind) {
        assert(after.issue_reactions == rows.push(after.issue_reactions[rows.len() as int]));
        assert(!after.reaction_at(rows.len() as int, issue_id, kind));
    } else {
        assert(after == store);
    }
    if store.has_reaction(issue_id, kind) {
        let i = store.reaction_index(issue_id, kind);
        assert(store.reaction_at(i, issue_id, kind));
        assert(after.reaction_at(i, issue_id, kind));
        after.lemma_reaction_index(i, issue_id, kind);
        assert(after.issue_reactions[i] == rows[i]);
    } else {
        if after.has_reaction(issue_id, kind) {
            let i = after.reaction_index(issue_id, kind);
            assert(after.reaction_at(i, issue_id, kind));
            assert(i < rows.len());
            assert(store.reaction_at(i, issue_id, kind));
        }
        assert(!store.can_tally(issue_id, kind));
        assert(after.issues == store.issues);
    }
}

/// A written count stays written in a cache with the same tallies that
/// knows the issue as well or as little.
pub proof fn lemma_tally_settled_elsewhere(
    a: StoreView,
    b: StoreView,
    issue_id: int,
    kind: Seq<char>,
    count: int,
)
    requires
        a.wf(),
        b.wf(),
        a.issue_reactions == b.issue_reactions,
        issue_id_known(a.issues, issue_id) == issue_id_known(b.issues, issue_id),
        tally_settled(a, issue_id, kind, count),
    ensures
        tally_settled(b, issue_id, kind, count),
{
    if a.has_reaction(issue_id, kind) {
        let i = a.reaction_index(issue_id, kind);
        assert(a.reaction_at(i, issue_id, kind));
        assert(b.reaction_at(i, issue_id, kind));
        b.lemma_reaction_index(i, issue_id, kind);
    } else if b.has_reaction(issue_id, kind) {
        let i = b.reaction_index(issue_id, kind);
        assert(b.reaction_at(i, issue_id, kind));
        assert(a.reaction_at(i, issue_id, kind));
    }
}

/// No two kinds of reaction share a name.
pub proof fn lemma_kind_names_differ(a: ReactionKind, b: ReactionKind)
    requires
        a != b,
    ensures
        a.name() != b.name(),
{
    reveal_strlit("+1");
    reveal_strlit("-1");
    reveal_strlit("laugh");
    reveal_strlit("hooray");
    reveal_strlit("confused");
    reveal_strlit("heart");
    reveal_strlit("rocket");
    reveal_strlit("eyes");
    let x = a.name();
    let y = b.name();
    if x.len() == y.len() {
        assert(x[0] != y[0] || x[1] != y[1]);
    }
}

/// Whether the count that arrived for the kind is written already.
pub open spec fn kind_settled(
    store: StoreView,
    issue_id: int,
    kind: ReactionKind,
    counts: RemoteReactions,
) -> bool {
    match counts.count_of(kind) {
        Some(count) => count > 0 ==> tally_settled(store, issue_id, kind.name(), count as int),
        None => true,
    }
}

/// After the counts of the first kinds are reconciled, each of them is
/// written.
pub proof fn lemma_tallied_kinds_are_settled(
    store: StoreView,
    issue_id: int,
    counts: RemoteReactions,
    count: int,
    k: int,
)
    requires
        store.wf(),
        0 <= k < count <= 8,
    ensures
        kind_settled(
            tally_kinds(store, issue_id, counts, count),
            issue_id,
            ReactionKind::in_order()[k],
            counts,
        ),
    decreases count,
{
    let before = tally_kinds(store, issue_id, counts, count - 1);
    let last = ReactionKind::in_order()[count - 1];
    let kind = ReactionKind::in_order()[k];
    lemma_tally_kinds_consistent(store, issue_id, counts, count - 1);
    if k == count - 1 {
        match counts.count_of(kind) {
            Some(c) => {
                if c > 0 {
                    lemma_tally_settled_after_write(before, issue_id, kind.name(), c as int);
                }
            },
            None => {},
        }
    } else {
        lemma_tallied_kinds_are_settled(store, issue_id, counts, count - 1, k);
        lemma_kind_names_differ(kind, last);
        match (counts.count_of(kind), counts.count_of(last)) {
            (Some(c), Some(d)) => {
                if c > 0 && d > 0 {
                    lemma_tally_settled_after_other(
                        before,
                        issue_id,
                        kind.name(),
                        c as int,
                        issue_id,
                        last.name(),
                        d as int,
                    );
                }
            },
            _ => {},
        }
    }
}

/// Counts that are all written are reconciled without a change.
pub proof fn lemma_settled_kinds_change_nothing(
    store: StoreView,
    issue_id: int,
    counts: RemoteReactions,
    count: int,
)
    requires
        store.wf(),
        0 <= count <= 8,
        forall|k: int|
            0 <= k < count ==> kind_settled(
                store,
                issue_id,
                #[trigger] ReactionKind::in_order()[k],
                counts,
            ),
    ensures
        tally_kinds(store, issue_id, counts, count) == store,
    decreases count,
{
    if count > 0 {
        lemma_settled_kinds_change_nothing(store, issue_id, counts, count - 1);
        let kind = ReactionKind::in_order()[count - 1];
        assert(kind_settled(store, issue_id, kind, counts));
        match counts.count_of(kind) {
            Some(c) => {
                if c > 0 {
                    lemma_tally_done_is_settled(store, issue_id, kind.name(), c as int);
                }
            },
            None => {},
        }
    }
}

/// The cache with the stamp of one issue replaced, where the issue is
/// cached.
pub open spec fn restamped(
    store: StoreView,
    repository_id: int,
    number: int,
    stamp: Seq<char>,
) -> StoreView {
    if store.has_issue(repository_id, number) {
        let i = store.issue_index(repository_id, number);
        StoreView {
            issues: store.issues.update(
                i,
                IssueView { last_synced_at: Some(stamp), ..store.issues[i] },
            ),
            ..store
        }
    } else {
        store
    }
}

/// Whether the row holds what the record says of title, body and state.
pub open spec fn content_written(row: IssueView, record: RemoteIssueView) -> bool {
    &&& row.title == record.title
    &&& row.body == match record.body {
        Some(body) => body,
        None => Seq::empty(),
    }
    &&& row.state == record.state
}

/// Whether the labels and counts of the record are written for the issue.
pub open spec fn enriched(store: StoreView, issue_id: int, record: RemoteIssueView) -> bool {
    &&& record.labels matches Some(names) ==> forall|k: int|
        0 <= k < names.len() ==> label_settled(store, issue_id, #[trigger] names[k])
    &&& record.reactions matches Some(counts) ==> forall|k: int|
        0 <= k < 8 ==> kind_settled(store, issue_id, #[trigger] ReactionKind::in_order()[k], counts)
}

/// Whether the cache holds all that the record says: its issue with the
/// record's title, body and state, its labels and its counts.
pub open spec fn record_settled(
    store: StoreView,
    repository_id: int,
    record: RemoteIssueView,
) -> bool {
    &&& store.has_issue(repository_id, record.number)
    &&& content_written(store.issue(repository_id, record.number).unwrap(), record)
    &&& enriched(store, store.issue_id(repository_id, record.number).unwrap(), record)
}

/// Whether two caches hold the same rows but for the stamps of the issues.
pub open spec fn same_but_stamps(a: StoreView, b: StoreView) -> bool {
    &&& a.repositories == b.repositories
    &&& a.labels == b.labels
    &&& a.issue_labels == b.issue_labels
    &&& a.issue_reactions == b.issue_reactions
    &&& a.issues.len() == b.issues.len()
    &&& forall|k: int|
        0 <= k < a.issues.len() ==> #[trigger] b.issues[k] == (IssueView {
            last_synced_at: b.issues[k].last_synced_at,
            ..a.issues[k]
        })
}

/// Caches that differ in stamps only know the same issue ids and find the
/// same issue under a repository and number, stamp apart.
pub proof fn lemma_same_but_stamps_lookup(
    a: StoreView,
    b: StoreView,
    repository_id: int,
    number: int,
)
    requires
        a.wf(),
        b.wf(),
        same_but_stamps(a, b),
    ensures
        a.has_issue(repository_id, number) == b.has_issue(repository_id, number),
        a.has_issue(repository_id, number) ==> a.issue_index(repository_id, number)
            == b.issue_index(repository_id, number),
        forall|id: int| issue_id_known(a.issues, id) == issue_id_known(b.issues, id),
{
    if a.has_issue(repository_id, number) {
        let i = a.issue_index(repository_id, number);
        assert(a.issue_at(i, repository_id, number));
        assert(b.issues[i].number == a.issues[i].number);
        assert(b.issue_at(i, repository_id, number));
        b.lemma_issue_index(i, repository_id, number);
    } else if b.has_issue(repository_id, number) {
        let i = b.issue_index(repository_id, number);
        assert(b.issue_at(i, repository_id, number));
        assert(a.issue_at(i, repository_id, number));
    }
    assert forall|id: int| issue_id_known(a.issues, id) == issue_id_known(b.issues, id) by {
        if issue_id_known(a.issues, id) {
            let k = choose|k: int| 0 <= k < a.issues.len() && (#[trigger] a.issues[k]).id == id;
            assert(b.issues[k].id == id);
        }
        if issue_id_known(b.issues, id) {
            let k = choose|k: int| 0 <= k < b.issues.len() && (#[trigger] b.issues[k]).id == id;
            assert(a.issues[k].id == id);
        }
    }
}

/// What holds of the labels and counts of a record in one cache holds in
/// every cache with the same labels, attachments and tallies that knows the
/// issue as well or as little.
pub proof fn lemma_enriched_elsewhere(
    a: StoreView,
    b: StoreView,
    issue_id: int,
    record: RemoteIssueView,
)
    requires
        a.wf(),
        b.wf(),
        a.labels == b.labels,
        a.issue_labels == b.issue_labels,
        a.issue_reactions == b.issue_reactions,
        issue_id_known(a.issues, issue_id) == issue_id_known(b.issues, issue_id),
        enriched(a, issue_id, record),
    ensures
        enriched(b, issue_id, record),
{
    match record.labels {
        Some(names) => {
            assert forall|k: int| 0 <= k < names.len() implies label_settled(
                b,
                issue_id,
                #[trigger] names[k],
            ) by {
                lemma_settled_elsewhere(a, b, issue_id, names[k]);
            }
        },
        None => {},
    }
    match record.reactions {
        Some(counts) => {
            assert forall|k: int| 0 <= k < 8 implies kind_settled(
                b,
                issue_id,
                #[trigger] ReactionKind::in_order()[k],
                counts,
            ) by {
                let kind = ReactionKind::in_order()[k];
                assert(kind_settled(a, issue_id, kind, counts));
                match counts.count_of(kind) {
                    Some(c) => {
                        if c > 0 {
                            lemma_tally_settled_elsewhere(a, b, issue_id, kind.name(), c as int);
                        }
                    },
                    None => {},
                }
            }
        },
        None => {},
    }
}

/// The labels and counts of a record, once written, are written.
pub proof fn lemma_enrich_settles(store: StoreView, issue_id: int, record: RemoteIssueView)
    requires
        store.wf(),
    ensures
        enrich(store, issue_id, record).wf(),
        enrich(store, issue_id, record).issues == store.issues,
        enrich(store, issue_id, record).repositories == store.repositories,
        enriched(enrich(store, issue_id, record), issue_id, record),
{
    let labelled = match record.labels {
        Some(names) => attach_labels(store, issue_id, names, names.len() as int),
        None => store,
    };
    let after = enrich(store, issue_id, record);
    match record.labels {
        Some(names) => {
            lemma_attach_labels_consistent(store, issue_id, names, names.len() as int);
        },
        None => {},
    }
    match record.reactions {
        Some(counts) => {
            lemma_tally_kinds_consistent(labelled, issue_id, counts, 8);
            assert forall|k: int| 0 <= k < 8 implies kind_settled(
                after,
                issue_id,
                #[trigger] ReactionKind::in_order()[k],
                counts,
            ) by {
                lemma_tallied_kinds_are_settled(labelled, issue_id, counts, 8, k);
            }
        },
        None => {},
    }
    match record.labels {
        Some(names) => {
            assert forall|k: int| 0 <= k < names.len() implies label_settled(
                after,
                issue_id,
                #[trigger] names[k],
            ) by {
                lemma_attached_labels_are_settled(
                    store,
                    issue_id,
                    names,
                    names.len() as int,
                    k,
                );
                lemma_settled_elsewhere(labelled, after, issue_id, names[k]);
            }
        },
        None => {},
    }
}

/// Labels and counts that are written are written again without a change.
pub proof fn lemma_enriched_changes_nothing(
    store: StoreView,
    issue_id: int,
    record: RemoteIssueView,
)
    requires
        store.wf(),
        enriched(store, issue_id, record),
    ensures
        enrich(store, issue_id, record) == store,
{
    match record.labels {
        Some(names) => {
            lemma_settled_labels_change_nothing(store, issue_id, names, names.len() as int);
        },
        None => {},
    }
    match record.reactions {
        Some(counts) => {
            lemma_settled_kinds_change_nothing(store, issue_id, counts, 8);
        },
        None => {},
    }
}

/// After a record is reconciled the cache holds all that it says.
pub proof fn lemma_reconcile_settles(
    store: StoreView,
    repository_id: int,
    record: RemoteIssueView,
    stamp: Seq<char>,
)
    requires
        store.wf(),
        store.can_upsert_issue(issue_to_write(record, repository_id, stamp)),
    ensures
        record_settled(reconcile(store, repository_id, record, stamp), repository_id, record),
{
    let new = issue_to_write(record, repository_id, stamp);
    let written = store.upsert_issue(new);
    store.lemma_upsert_issue_consistent(new);
    store.lemma_upsert_issue_lookup(new, repository_id, record.number);
    let issue_id = written.issue_id(repository_id, record.number).unwrap();
    let once = reconcile(store, repository_id, record, stamp);
    lemma_reconcile_consistent(store, repository_id, record, stamp);
    lemma_enrich_settles(written, issue_id, record);
    crate::sync_laws::lemma_lookup_reads_issues_only(once, written, repository_id, record.number);
}

/// Reconciling a record that the cache holds changes nothing but the stamp
/// of its issue.
pub proof fn lemma_settled_record_only_restamps(
    store: StoreView,
    repository_id: int,
    record: RemoteIssueView,
    stamp: Seq<char>,
)
    requires
        store.wf(),
        record_settled(store, repository_id, record),
    ensures
        reconcile(store, repository_id, record, stamp) == restamped(
            store,
            repository_id,
            record.number,
            stamp,
        ),
        same_but_stamps(store, reconcile(store, repository_id, record, stamp)),
        store.can_upsert_issue(issue_to_write(record, repository_id, stamp)),
{
    let number = record.number;
    let new = issue_to_write(record, repository_id, stamp);
    let i = store.issue_index(repository_id, number);
    assert(store.issue_at(i, repository_id, number));
    let issue_id = store.issues[i].id;
    let rewritten = store.upsert_issue(new);
    store.lemma_upsert_issue_consistent(new);
    store.lemma_upsert_issue_lookup(new, repository_id, number);
    assert(rewritten == restamped(store, repository_id, number, stamp));
    assert(same_but_stamps(store, rewritten));
    lemma_same_but_stamps_lookup(store, rewritten, repository_id, number);
    lemma_enriched_elsewhere(store, rewritten, issue_id, record);
    lemma_enriched_changes_nothing(rewritten, issue_id, record);
}

/// Idempotent upsert: reconciling a record a second time changes nothing
/// but the stamp of its issue. No row is added, no label attached anew, no
/// count rewritten to another value.
pub proof fn law_reconcile_again_only_restamps(
    store: StoreView,
    repository_id: int,
    record: RemoteIssueView,
    first: Seq<char>,
    second: Seq<char>,
)
    requires
        store.wf(),
        store.can_upsert_issue(issue_to_write(record, repository_id, first)),
    ensures
        ({
            let once = reconcile(store, repository_id, record, first);
            let twice = reconcile(once, repository_id, record, second);
            &&& twice == restamped(once, repository_id, record.number, second)
            &&& same_but_stamps(once, twice)
        }),
{
    let once = reconcile(store, repository_id, record, first);
    lemma_reconcile_consistent(store, repository_id, record, first);
    lemma_reconcile_settles(store, repository_id, record, first);
    lemma_settled_record_only_restamps(once, repository_id, record, second);
}

} // verus!
