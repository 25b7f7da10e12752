//! A pass run again under force changes nothing but stamps.

use vstd::prelude::*;
use crate::growth_laws::{
    grown_from, law_pass_only_adds, law_reconcile_only_adds, lemma_enrich_grows,
    lemma_growth_chain, lemma_growth_from_itself, lemma_ids_grown_largest,
    lemma_pass_grows_between, lemma_tally_kinds_grow, lemma_tally_kinds_grow_between,
};
use crate::reconcile::{
    attach_labels, enrich, issue_to_write, lemma_attach_labels_consistent,
    lemma_reconcile_consistent, lemma_tally_kinds_consistent, reconcile, tally_kinds,
};
use crate::remote::{ReactionKind, RemoteIssueView, RemoteReactions};
use crate::models::{IssueReactionView, IssueView};
use crate::reconcile_laws::{
    label_settled, lemma_attached_labels_are_settled, lemma_settled_elsewhere,
    lemma_settled_labels_change_nothing, lemma_tally_settled_after_write, same_but_stamps,
};
use crate::sync_laws::{
    all_due, law_pass_keeps_consistency, lemma_failure_persists, lemma_pass_keeps_its_setting,
    same_remote,
};
use crate::sync_model::{Arrival, Phase, Progress, SessionView};
use crate::store_model::{
    id_limit, issue_id_known, issue_label_ids, issue_reaction_ids, label_id_known, label_ids,
    StoreView,
};

verus! {

/// An issue that is cached stays cached, in its place and under its id, as
/// the cache grows.
pub proof fn lemma_issue_stays(a: StoreView, b: StoreView, repository_id: int, number: int)
    requires
        a.wf(),
        b.wf(),
        grown_from(a, b),
        a.has_issue(repository_id, number),
    ensures
        b.has_issue(repository_id, number),
        b.issue_index(repository_id, number) == a.issue_index(repository_id, number),
        b.issue_id(repository_id, number) == a.issue_id(repository_id, number),
        issue_id_known(b.issues, a.issue_id(repository_id, number).unwrap()),
{
    let i = a.issue_index(repository_id, number);
    assert(a.issue_at(i, repository_id, number));
    assert(b.issues[i].number == a.issues[i].number);
    assert(b.issue_at(i, repository_id, number));
    b.lemma_issue_index(i, repository_id, number);
    assert(crate::store_model::issue_ids(b.issues)[i] == crate::store_model::issue_ids(
        a.issues,
    )[i]);
}

/// An issue id that is known stays known as the cache grows.
pub proof fn lemma_issue_id_stays(a: StoreView, b: StoreView, id: int)
    requires
        grown_from(a, b),
        issue_id_known(a.issues, id),
    ensures
        issue_id_known(b.issues, id),
{
    let k = choose|k: int| 0 <= k < a.issues.len() && (#[trigger] a.issues[k]).id == id;
    assert(crate::store_model::issue_ids(b.issues)[k] == crate::store_model::issue_ids(
        a.issues,
    )[k]);
    assert(b.issues[k].id == id);
}

/// A settled label name stays settled as the cache grows.
pub proof fn lemma_label_settled_grows(a: StoreView, b: StoreView, issue_id: int, name: Seq<char>)
    requires
        a.wf(),
        b.wf(),
        grown_from(a, b),
        issue_id_known(a.issues, issue_id),
        label_settled(a, issue_id, name),
    ensures
        label_settled(b, issue_id, name),
{
    lemma_ids_grown_largest(label_ids(a.labels), label_ids(b.labels));
    lemma_ids_grown_largest(issue_label_ids(a.issue_labels), issue_label_ids(b.issue_labels));
    lemma_issue_id_stays(a, b, issue_id);
    if a.has_label(name) {
        let i = a.label_index(name);
        assert(a.label_at(i, name));
        assert(b.labels[i] == a.labels[i]);
        assert(b.label_at(i, name));
        b.lemma_label_index(i, name);
        let label_id = a.labels[i].id;
        assert(!a.can_link(issue_id, label_id));
        assert(label_id_known(a.labels, label_id));
        if a.linked(issue_id, label_id) {
            let k = choose|k: int| a.link_at(k, issue_id, label_id);
            assert(b.issue_labels[k] == a.issue_labels[k]);
            assert(b.link_at(k, issue_id, label_id));
        }
    } else {
        // No label was added: its id would lie above the limit.
        if b.labels.len() > a.labels.len() {
            let k = a.labels.len() as int;
            assert(label_ids(b.labels)[k] > crate::store_model::largest_id(label_ids(a.labels)));
            assert(b.labels[k].id <= id_limit());
        }
        if b.has_label(name) {
            let i = b.label_index(name);
            assert(b.label_at(i, name));
            assert(b.labels[i] == a.labels[i]);
            assert(a.label_at(i, name));
        }
    }
}

/// Whether the issue has a tally of the kind or cannot get one.
pub open spec fn tally_placed(store: StoreView, issue_id: int, kind: Seq<char>) -> bool {
    store.has_reaction(issue_id, kind) || !store.can_tally(issue_id, kind)
}

/// As the cache grows, a tally stays in its place, and one that could not be
/// made cannot be made.
pub proof fn lemma_tally_placed_grows(a: StoreView, b: StoreView, issue_id: int, kind: Seq<char>)
    requires
        a.wf(),
        b.wf(),
        grown_from(a, b),
        issue_id_known(a.issues, issue_id),
        tally_placed(a, issue_id, kind),
    ensures
        tally_placed(b, issue_id, kind),
        a.has_reaction(issue_id, kind) == b.has_reaction(issue_id, kind),
        a.has_reaction(issue_id, kind) ==> b.reaction_index(issue_id, kind) == a.reaction_index(
            issue_id,
            kind,
        ),
{
    lemma_ids_grown_largest(
        issue_reaction_ids(a.issue_reactions),
        issue_reaction_ids(b.issue_reactions),
    );
    lemma_issue_id_stays(a, b, issue_id);
    if a.has_reaction(issue_id, kind) {
        let y = a.reaction_index(issue_id, kind);
        assert(a.reaction_at(y, issue_id, kind));
        assert(b.issue_reactions[y].issue_id == a.issue_reactions[y].issue_id);
        assert(b.reaction_at(y, issue_id, kind));
        b.lemma_reaction_index(y, issue_id, kind);
    } else {
        if b.issue_reactions.len() > a.issue_reactions.len() {
            let k = a.issue_reactions.len() as int;
            assert(issue_reaction_ids(b.issue_reactions)[k] > crate::store_model::largest_id(
                issue_reaction_ids(a.issue_reactions),
            ));
            assert(b.issue_reactions[k].id <= id_limit());
        }
        if b.has_reaction(issue_id, kind) {
            let y = b.reaction_index(issue_id, kind);
            assert(b.reaction_at(y, issue_id, kind));
            assert(b.issue_reactions[y].issue_id == a.issue_reactions[y].issue_id);
            assert(a.reaction_at(y, issue_id, kind));
        }
    }
}

/// Whether cache `t` has the rows of `model`, each in its place, but for
/// what a reconciliation may rewrite: title, body, state and stamp of an
/// issue, and the count of a tally.
pub open spec fn same_shape(model: StoreView, t: StoreView) -> bool {
    &&& t.repositories == model.repositories
    &&& t.labels == model.labels
    &&& t.issue_labels == model.issue_labels
    &&& t.issues.len() == model.issues.len()
    &&& forall|x: int|
        0 <= x < model.issues.len() ==> #[trigger] t.issues[x] == (IssueView {
            title: t.issues[x].title,
            body: t.issues[x].body,
            state: t.issues[x].state,
            last_synced_at: t.issues[x].last_synced_at,
            ..model.issues[x]
        })
    &&& t.issue_reactions.len() == model.issue_reactions.len()
    &&& forall|y: int|
        0 <= y < model.issue_reactions.len() ==> #[trigger] t.issue_reactions[y] == (
        IssueReactionView { count: t.issue_reactions[y].count, ..model.issue_reactions[y] })
}

/// Whether two rows agree in title, body and state.
pub open spec fn same_content(a: IssueView, b: IssueView) -> bool {
    a.title == b.title && a.body == b.body && a.state == b.state
}

/// Whether every issue of `t` says what the issue in its place says in
/// `model` or in `u`, and every tally of `t` counts what the tally in its
/// place counts in `model` or in `u`.
pub open spec fn follows(u: StoreView, t: StoreView, model: StoreView) -> bool {
    &&& forall|x: int|
        0 <= x < model.issues.len() ==> same_content(#[trigger] t.issues[x], model.issues[x]) || (x
            < u.issues.len() && same_content(t.issues[x], u.issues[x]))
    &&& forall|y: int|
        0 <= y < model.issue_reactions.len() ==> (#[trigger] t.issue_reactions[y]).count
            == model.issue_reactions[y].count || (y < u.issue_reactions.len()
            && t.issue_reactions[y].count == u.issue_reactions[y].count)
}

/// Where two passes stand that are run side by side: the first, at `u`, on
/// its way to `model`; the second, at `t`, begun at `model` and repeating
/// what the first did.
pub open spec fn in_step(u: StoreView, t: StoreView, model: StoreView) -> bool {
    &&& u.wf()
    &&& t.wf()
    &&& model.wf()
    &&& grown_from(u, model)
    &&& same_shape(model, t)
    &&& follows(u, t, model)
}

/// Caches of one shape have the same ids, so what cannot be added to the
/// one cannot be added to the other.
pub proof fn lemma_shape_ids(model: StoreView, t: StoreView)
    requires
        same_shape(model, t),
    ensures
        issue_reaction_ids(t.issue_reactions) == issue_reaction_ids(model.issue_reactions),
        crate::store_model::issue_ids(t.issues) == crate::store_model::issue_ids(model.issues),
        forall|id: int| issue_id_known(t.issues, id) == issue_id_known(model.issues, id),
{
    assert(issue_reaction_ids(t.issue_reactions) =~= issue_reaction_ids(model.issue_reactions));
    assert(crate::store_model::issue_ids(t.issues) =~= crate::store_model::issue_ids(
        model.issues,
    ));
    assert forall|id: int| issue_id_known(t.issues, id) == issue_id_known(model.issues, id) by {
        if issue_id_known(t.issues, id) {
            let k = choose|k: int| 0 <= k < t.issues.len() && (#[trigger] t.issues[k]).id == id;
            assert(model.issues[k].id == id);
        }
        if issue_id_known(model.issues, id) {
            let k = choose|k: int|
                0 <= k < model.issues.len() && (#[trigger] model.issues[k]).id == id;
            assert(t.issues[k].id == id);
        }
    }
}

/// Writing the same count in both passes keeps them in step.
pub proof fn lemma_tally_in_step(
    u: StoreView,
    t: StoreView,
    model: StoreView,
    issue_id: int,
    kind: Seq<char>,
    count: int,
)
    requires
        in_step(u, t, model),
        issue_id_known(u.issues, issue_id),
        grown_from(u.with_reaction(issue_id, kind, count), model),
    ensures
        in_step(
            u.with_reaction(issue_id, kind, count),
            t.with_reaction(issue_id, kind, count),
            model,
        ),
{
    let u2 = u.with_reaction(issue_id, kind, count);
    let t2 = t.with_reaction(issue_id, kind, count);
    u.lemma_with_reaction_consistent(issue_id, kind, count);
    t.lemma_with_reaction_consistent(issue_id, kind, count);
    lemma_tally_settled_after_write(u, issue_id, kind, count);
    lemma_tally_placed_grows(u2, model, issue_id, kind);
    lemma_shape_ids(model, t);
    lemma_issue_id_stays(u2, model, issue_id);
    if u2.has_reaction(issue_id, kind) {
        let y = u2.reaction_index(issue_id, kind);
        assert(u2.reaction_at(y, issue_id, kind));
        assert(model.reaction_at(y, issue_id, kind));
        assert(t.issue_reactions[y].issue_id == model.issue_reactions[y].issue_id);
        assert(t.reaction_at(y, issue_id, kind));
        t.lemma_reaction_index(y, issue_id, kind);
        assert(t2.issue_reactions == t.issue_reactions.update(
            y,
            IssueReactionView { count, ..t.issue_reactions[y] },
        ));
        if u.has_reaction(issue_id, kind) {
            let yu = u.reaction_index(issue_id, kind);
            assert(u.reaction_at(yu, issue_id, kind));
            assert(u2.reaction_at(yu, issue_id, kind));
            u2.lemma_reaction_index(yu, issue_id, kind);
        } else {
            assert(u2.reaction_at(u.issue_reactions.len() as int, issue_id, kind));
            u2.lemma_reaction_index(u.issue_reactions.len() as int, issue_id, kind);
        }
        assert forall|k: int| 0 <= k < model.issue_reactions.len() implies (
        #[trigger] t2.issue_reactions[k]).count == model.issue_reactions[k].count || (k
            < u2.issue_reactions.len() && t2.issue_reactions[k].count
            == u2.issue_reactions[k].count) by {
            if k != y {
                assert(t2.issue_reactions[k] == t.issue_reactions[k]);
                if k < u.issue_reactions.len() {
                    assert(u2.issue_reactions[k] == u.issue_reactions[k]);
                }
            }
        }
        assert forall|k: int| 0 <= k < model.issue_reactions.len() implies #[trigger] t2.issue_reactions[k]
            == (IssueReactionView {
            count: t2.issue_reactions[k].count,
            ..model.issue_reactions[k]
        }) by {
            assert(t.issue_reactions[k] == (IssueReactionView {
                count: t.issue_reactions[k].count,
                ..model.issue_reactions[k]
            }));
        }
    } else {
        if u.has_reaction(issue_id, kind) {
            let yu = u.reaction_index(issue_id, kind);
            assert(u.reaction_at(yu, issue_id, kind));
            assert(u2.reaction_at(yu, issue_id, kind));
        } else if u.can_tally(issue_id, kind) {
            assert(u2.reaction_at(u.issue_reactions.len() as int, issue_id, kind));
        }
        assert(u2 == u);
        if t.has_reaction(issue_id, kind) {
            let y = t.reaction_index(issue_id, kind);
            assert(t.reaction_at(y, issue_id, kind));
            assert(t.issue_reactions[y].issue_id == model.issue_reactions[y].issue_id);
            assert(model.reaction_at(y, issue_id, kind));
        }
        assert(!model.can_tally(issue_id, kind));
        assert(!t.can_tally(issue_id, kind));
        assert(t2 == t);
    }
}

/// Reconciling the same counts in both passes keeps them in step.
pub proof fn lemma_tallies_in_step(
    u: StoreView,
    t: StoreView,
    model: StoreView,
    issue_id: int,
    counts: RemoteReactions,
    count: int,
)
    requires
        in_step(u, t, model),
        issue_id_known(u.issues, issue_id),
        grown_from(tally_kinds(u, issue_id, counts, 8), model),
        0 <= count <= 8,
    ensures
        in_step(
            tally_kinds(u, issue_id, counts, count),
            tally_kinds(t, issue_id, counts, count),
            model,
        ),
    decreases count,
{
    if count > 0 {
        lemma_tallies_in_step(u, t, model, issue_id, counts, count - 1);
        let uu = tally_kinds(u, issue_id, counts, count - 1);
        let tt = tally_kinds(t, issue_id, counts, count - 1);
        let kind = ReactionKind::in_order()[count - 1];
        lemma_tally_kinds_consistent(u, issue_id, counts, count - 1);
        lemma_tally_kinds_grow_between(u, issue_id, counts, count, 8);
        lemma_growth_chain(
            tally_kinds(u, issue_id, counts, count),
            tally_kinds(u, issue_id, counts, 8),
            model,
        );
        match counts.count_of(kind) {
            Some(c) => {
                if c > 0 {
                    lemma_tally_in_step(uu, tt, model, issue_id, kind.name(), c as int);
                }
            },
            None => {},
        }
    } else {
        lemma_tally_kinds_grow_between(u, issue_id, counts, 0, 8);
        lemma_growth_chain(u, tally_kinds(u, issue_id, counts, 8), model);
    }
}

/// Reconciling the same record in both passes keeps them in step, and the
/// second pass does not fail on it.
pub proof fn lemma_record_in_step(
    u: StoreView,
    t: StoreView,
    model: StoreView,
    repository_id: int,
    record: RemoteIssueView,
    first: Seq<char>,
    second: Seq<char>,
)
    requires
        in_step(u, t, model),
        u.can_upsert_issue(issue_to_write(record, repository_id, first)),
        grown_from(reconcile(u, repository_id, record, first), model),
    ensures
        t.can_upsert_issue(issue_to_write(record, repository_id, second)),
        in_step(
            reconcile(u, repository_id, record, first),
            reconcile(t, repository_id, record, second),
            model,
        ),
{
    let number = record.number;
    let new_u = issue_to_write(record, repository_id, first);
    let new_t = issue_to_write(record, repository_id, second);
    let after_u = reconcile(u, repository_id, record, first);

    // The first pass writes the issue; the row lies in the same place in
    // all three caches.
    let u1 = u.upsert_issue(new_u);
    u.lemma_upsert_issue_consistent(new_u);
    u.lemma_upsert_issue_lookup(new_u, repository_id, number);
    lemma_reconcile_consistent(u, repository_id, record, first);
    let issue_id = u1.issue_id(repository_id, number).unwrap();
    assert(after_u == enrich(u1, issue_id, record));
    lemma_enrich_grows(u1, issue_id, record);
    lemma_growth_chain(u1, after_u, model);
    lemma_issue_stays(u1, model, repository_id, number);
    let x = u1.issue_index(repository_id, number);
    assert(u1.issue_at(x, repository_id, number));
    assert(model.issue_at(x, repository_id, number));
    assert(t.issues[x].number == model.issues[x].number);
    assert(t.issue_at(x, repository_id, number));
    t.lemma_issue_index(x, repository_id, number);

    // The second pass rewrites the row with what the first wrote.
    let t1 = t.upsert_issue(new_t);
    t.lemma_upsert_issue_consistent(new_t);
    t.lemma_upsert_issue_lookup(new_t, repository_id, number);
    assert(t1.issue_id(repository_id, number) == Some(issue_id));
    if u.has_issue(repository_id, number) {
        let xu = u.issue_index(repository_id, number);
        assert(u.issue_at(xu, repository_id, number));
        assert(u1.issue_at(xu, repository_id, number));
        u1.lemma_issue_index(xu, repository_id, number);
    } else {
        assert(u1.issue_at(u.issues.len() as int, repository_id, number));
        u1.lemma_issue_index(u.issues.len() as int, repository_id, number);
    }
    assert forall|k: int| 0 <= k < model.issues.len() implies same_content(
        #[trigger] t1.issues[k],
        model.issues[k],
    ) || (k < u1.issues.len() && same_content(t1.issues[k], u1.issues[k])) by {
        if k != x {
            assert(t1.issues[k] == t.issues[k]);
            if k < u.issues.len() {
                assert(u1.issues[k] == u.issues[k]);
            }
        }
    }
    assert forall|k: int| 0 <= k < model.issues.len() implies #[trigger] t1.issues[k] == (
    IssueView {
        title: t1.issues[k].title,
        body: t1.issues[k].body,
        state: t1.issues[k].state,
        last_synced_at: t1.issues[k].last_synced_at,
        ..model.issues[k]
    }) by {
        assert(t.issues[k] == (IssueView {
            title: t.issues[k].title,
            body: t.issues[k].body,
            state: t.issues[k].state,
            last_synced_at: t.issues[k].last_synced_at,
            ..model.issues[k]
        }));
    }
    assert(in_step(u1, t1, model));

    // The labels are attached as far as they can be: the second pass adds
    // none.
    let u2 = match record.labels {
        Some(names) => attach_labels(u1, issue_id, names, names.len() as int),
        None => u1,
    };
    lemma_shape_ids(model, t1);
    match record.labels {
        Some(names) => {
            lemma_attach_labels_consistent(u1, issue_id, names, names.len() as int);
        },
        None => {},
    }
    match record.reactions {
        Some(counts) => {
            lemma_tally_kinds_grow(u2, issue_id, counts, 8);
        },
        None => {
            lemma_growth_from_itself(u2);
        },
    }
    lemma_growth_chain(u2, after_u, model);
    match record.labels {
        Some(names) => {
            assert forall|k: int| 0 <= k < names.len() implies label_settled(
                t1,
                issue_id,
                #[trigger] names[k],
            ) by {
                lemma_attached_labels_are_settled(u1, issue_id, names, names.len() as int, k);
                lemma_label_settled_grows(u2, model, issue_id, names[k]);
                lemma_settled_elsewhere(model, t1, issue_id, names[k]);
            }
            lemma_settled_labels_change_nothing(t1, issue_id, names, names.len() as int);
        },
        None => {},
    }
    assert(in_step(u2, t1, model));

    // The counts are written alike.
    match record.reactions {
        Some(counts) => {
            lemma_tallies_in_step(u2, t1, model, issue_id, counts, 8);
        },
        None => {},
    }
}

/// The records of a page, reconciled in both passes, keep them in step:
/// the second pass reconciles each, and fails on none.
pub proof fn lemma_page_in_step(
    one: SessionView,
    two: SessionView,
    start_one: Progress,
    start_two: Progress,
    records: Seq<RemoteIssueView>,
    first: Arrival,
    second: Arrival,
    model: StoreView,
    count: int,
)
    requires
        one.repository_id == two.repository_id,
        two.force,
        !start_one.failed,
        !start_two.failed,
        in_step(start_one.store, start_two.store, model),
        0 <= count <= records.len(),
        forall|k: int| 0 <= k < count ==> one.due(#[trigger] records[k], first.now),
        !one.sync_records(start_one, records, first.now, first.stamp, count).failed,
        grown_from(
            one.sync_records(start_one, records, first.now, first.stamp, count).store,
            model,
        ),
    ensures
        ({
            let end_one = one.sync_records(start_one, records, first.now, first.stamp, count);
            let end_two = two.sync_records(start_two, records, second.now, second.stamp, count);
            &&& !end_two.failed
            &&& in_step(end_one.store, end_two.store, model)
            &&& end_one.synced == start_one.synced + count
            &&& end_one.skipped == start_one.skipped
            &&& end_two.synced == start_two.synced + count
            &&& end_two.skipped == start_two.skipped
        }),
    decreases count,
{
    if count > 0 {
        let prev_one = one.sync_records(start_one, records, first.now, first.stamp, count - 1);
        let end_one = one.sync_records(start_one, records, first.now, first.stamp, count);
        let record = records[count - 1];
        assert(one.due(record, first.now));
        one.lemma_records_counted(start_one, records, first.now, first.stamp, count - 1);
        law_reconcile_only_adds(prev_one.store, one.repository_id, record, first.stamp);
        lemma_growth_chain(prev_one.store, end_one.store, model);
        lemma_page_in_step(
            one,
            two,
            start_one,
            start_two,
            records,
            first,
            second,
            model,
            count - 1,
        );
        let prev_two = two.sync_records(start_two, records, second.now, second.stamp, count - 1);
        lemma_record_in_step(
            prev_one.store,
            prev_two.store,
            model,
            one.repository_id,
            record,
            first.stamp,
            second.stamp,
        );
    }
}

/// A forced pass over the pages of a pass that synchronized all it was
/// handed, run side by side with it, as far as the two have come: they are
/// in step, stand alike, and have synchronized as much.
pub proof fn lemma_forced_pass_in_step(
    store: StoreView,
    repository_id: int,
    force: bool,
    first: Seq<Arrival>,
    second: Seq<Arrival>,
    count: int,
)
    requires
        store.wf(),
        same_remote(first, second),
        all_due(SessionView::begin(store, repository_id, force), first),
        SessionView::begin(store, repository_id, force).run(
            store,
            first,
            first.len() as int,
        ).session.phase != Phase::Failed,
        0 <= count <= first.len(),
    ensures
        ({
            let one = SessionView::begin(store, repository_id, force);
            let model = one.run(store, first, first.len() as int).store;
            let two = SessionView::begin(model, repository_id, true);
            let mine = one.run(store, first, count);
            let theirs = two.run(model, second, count);
            &&& in_step(mine.store, theirs.store, model)
            &&& theirs.session.phase == mine.session.phase
            &&& theirs.session.page == mine.session.page
            &&& theirs.session.synced == mine.session.synced
            &&& theirs.session.skipped == 0
            &&& mine.session.skipped == 0
        }),
    decreases count,
{
    let one = SessionView::begin(store, repository_id, force);
    let n = first.len() as int;
    let model = one.run(store, first, n).store;
    let two = SessionView::begin(model, repository_id, true);
    law_pass_keeps_consistency(one, store, first, n);
    if count > 0 {
        lemma_forced_pass_in_step(store, repository_id, force, first, second, count - 1);
        let mine = one.run(store, first, count - 1);
        let theirs = two.run(model, second, count - 1);
        let was = first[count - 1];
        let is = second[count - 1];
        assert(is.records == was.records);
        lemma_pass_keeps_its_setting(one, store, first, count - 1);
        lemma_pass_keeps_its_setting(two, model, second, count - 1);
        if mine.session.phase == Phase::Fetching && was.records.len() > 0 {
            let records = was.records;
            let len = records.len() as int;
            let start_one = Progress {
                store: mine.store,
                synced: mine.session.synced,
                skipped: mine.session.skipped,
                failed: false,
            };
            let start_two = Progress {
                store: theirs.store,
                synced: theirs.session.synced,
                skipped: theirs.session.skipped,
                failed: false,
            };
            assert forall|k: int| 0 <= k < len implies mine.session.due(
                #[trigger] records[k],
                was.now,
            ) by {
                assert(one.due(first[count - 1].records[k], first[count - 1].now));
            }
            if mine.session.page_progress(mine.store, records, was.now, was.stamp).failed {
                lemma_failure_persists(one, store, first, count, n);
            }
            lemma_pass_grows_between(one, store, first, count, n);
            lemma_page_in_step(
                mine.session,
                theirs.session,
                start_one,
                start_two,
                records,
                was,
                is,
                model,
                len,
            );
        }
    } else {
        law_pass_only_adds(one, store, first, n);
    }
}

/// Idempotence under force: when a pass that synchronized all it was handed
/// is followed by a forced pass over the same pages, the second pass
/// changes nothing in the cache but the stamps of issues. It ends as the
/// first ended, after as many requests, with as many issues synchronized
/// and none passed over.
pub proof fn law_forced_second_pass_only_restamps(
    store: StoreView,
    repository_id: int,
    force: bool,
    first: Seq<Arrival>,
    second: Seq<Arrival>,
)
    requires
        store.wf(),
        same_remote(first, second),
        all_due(SessionView::begin(store, repository_id, force), first),
        SessionView::begin(store, repository_id, force).run(
            store,
            first,
            first.len() as int,
        ).session.phase != Phase::Failed,
    ensures
        ({
            let one = SessionView::begin(store, repository_id, force).run(
                store,
                first,
                first.len() as int,
            );
            let two = SessionView::begin(one.store, repository_id, true).run(
                one.store,
                second,
                second.len() as int,
            );
            &&& same_but_stamps(one.store, two.store)
            &&& two.session.phase == one.session.phase
            &&& two.session.requests() == one.session.requests()
            &&& two.session.synced == one.session.synced
            &&& two.session.skipped == 0
        }),
{
    lemma_forced_pass_in_step(store, repository_id, force, first, second, first.len() as int);
    let one = SessionView::begin(store, repository_id, force).run(store, first, first.len() as int);
    let two = SessionView::begin(one.store, repository_id, true).run(
        one.store,
        second,
        second.len() as int,
    );
    assert forall|k: int| 0 <= k < one.store.issues.len() implies #[trigger] two.store.issues[k]
        == (IssueView {
        last_synced_at: two.store.issues[k].last_synced_at,
        ..one.store.issues[k]
    }) by {
        assert(same_content(two.store.issues[k], one.store.issues[k]));
    }
    assert(two.store.issue_reactions =~= one.store.issue_reactions) by {
        assert forall|k: int| 0 <= k < one.store.issue_reactions.len() implies #[trigger] two.store.issue_reactions[k]
            == one.store.issue_reactions[k] by {
            assert(two.store.issue_reactions[k].count == one.store.issue_reactions[k].count);
        }
    }
}

} // verus!
