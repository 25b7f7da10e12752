//! What holds of every synchronization pass.

use vstd::prelude::*;
use crate::clock::{stamp_agrees, Timestamp};
use crate::reconcile::{issue_to_write, lemma_reconcile_consistent, reconcile};
use crate::remote::RemoteIssueView;
use crate::staleness::{elapsed_nanos, is_due, STALE_AFTER_NANOS};
use crate::store_model::{issue_id_known, label_id_known, StoreView};
use crate::sync_model::{Arrival, PassState, Phase, Progress, SessionView};

verus! {

/// Whether the first `count` arrivals carry records.
pub open spec fn pages_not_empty(arrivals: Seq<Arrival>, count: int) -> bool {
    forall|i: int| 0 <= i < count ==> (#[trigger] arrivals[i]).records.len() > 0
}

/// While non-empty pages arrive, a pass that has not failed asks for one page
/// more per page; a failed pass asks for none.
pub proof fn lemma_requests_follow_pages(
    session: SessionView,
    store: StoreView,
    arrivals: Seq<Arrival>,
    count: int,
)
    requires
        session.phase == Phase::Fetching,
        0 <= count <= arrivals.len(),
        pages_not_empty(arrivals, count),
    ensures
        ({
            let end = session.run(store, arrivals, count).session;
            &&& end.phase != Phase::Finished
            &&& end.phase == Phase::Fetching ==> end.requests() == session.requests() + count
            &&& end.phase == Phase::Failed ==> end.requests() < session.requests() + count
        }),
    decreases count,
{
    if count > 0 {
        lemma_requests_follow_pages(session, store, arrivals, count - 1);
        assert(arrivals[count - 1].records.len() > 0);
    }
}

/// Pagination ends: over `k` non-empty pages and then an empty one, a pass
/// makes one request for each of them, `k + 1` in all, and then asks for no
/// more. Where the cache fails on the way, it stops short of that.
pub proof fn law_pagination_terminates(
    store: StoreView,
    repository_id: int,
    force: bool,
    arrivals: Seq<Arrival>,
)
    requires
        arrivals.len() >= 1,
        pages_not_empty(arrivals, arrivals.len() - 1),
        arrivals.last().records.len() == 0,
    ensures
        ({
            let begun = SessionView::begin(store, repository_id, force);
            let end = begun.run(store, arrivals, arrivals.len() as int).session;
            &&& begun.requests() == 1
            &&& end.phase != Phase::Fetching
            &&& end.requests() <= arrivals.len()
            &&& end.phase == Phase::Finished ==> end.requests() == arrivals.len()
        }),
{
    let begun = SessionView::begin(store, repository_id, force);
    lemma_requests_follow_pages(begun, store, arrivals, arrivals.len() - 1);
}

/// A pass that asks for no page takes none: whatever arrives after its end
/// changes neither the pass nor the cache, and no request follows.
pub proof fn law_no_request_after_the_end(
    session: SessionView,
    store: StoreView,
    arrivals: Seq<Arrival>,
    count: int,
)
    requires
        session.phase != Phase::Fetching,
        0 <= count <= arrivals.len(),
    ensures
        session.run(store, arrivals, count) == (PassState { session, store }),
    decreases count,
{
    if count > 0 {
        law_no_request_after_the_end(session, store, arrivals, count - 1);
    }
}

/// Referential integrity: in a consistent cache every attachment joins an
/// issue and a label that exist, and every tally counts for an issue that
/// exists.
pub proof fn law_dependents_resolve(store: StoreView)
    requires
        store.wf(),
    ensures
        forall|i: int|
            0 <= i < store.issue_labels.len() ==> issue_id_known(
                store.issues,
                (#[trigger] store.issue_labels[i]).issue_id,
            ) && label_id_known(store.labels, store.issue_labels[i].label_id),
        forall|i: int|
            0 <= i < store.issue_reactions.len() ==> issue_id_known(
                store.issues,
                (#[trigger] store.issue_reactions[i]).issue_id,
            ),
{
}

/// A page leaves a consistent cache consistent, whatever it holds and
/// whether or not the pass fails on it.
pub proof fn law_page_keeps_consistency(
    session: SessionView,
    store: StoreView,
    records: Seq<RemoteIssueView>,
    now: Timestamp,
    stamp: Seq<char>,
)
    requires
        store.wf(),
    ensures
        session.store_after_page(store, records, now, stamp).wf(),
{
    session.lemma_records_counted(
        Progress { store, synced: session.synced, skipped: session.skipped, failed: false },
        records,
        now,
        stamp,
        records.len() as int,
    );
}

/// A pass leaves a consistent cache consistent after every page.
pub proof fn law_pass_keeps_consistency(
    session: SessionView,
    store: StoreView,
    arrivals: Seq<Arrival>,
    count: int,
)
    requires
        store.wf(),
        0 <= count <= arrivals.len(),
    ensures
        session.run(store, arrivals, count).store.wf(),
    decreases count,
{
    if count > 0 {
        law_pass_keeps_consistency(session, store, arrivals, count - 1);
        let before = session.run(store, arrivals, count - 1);
        let arrival = arrivals[count - 1];
        law_page_keeps_consistency(
            before.session,
            before.store,
            arrival.records,
            arrival.now,
            arrival.stamp,
        );
    }
}

/// The stamp that the cache holds for a repository's issue: `None` where the
/// issue is not cached, `Some(None)` where it was never stamped.
pub open spec fn stamp_of(store: StoreView, repository_id: int, number: int) -> Option<
    Option<Seq<char>>,
> {
    match store.issue(repository_id, number) {
        Some(row) => Some(row.last_synced_at),
        None => None,
    }
}

/// A pass remembers, of every issue, the stamp that the cache held when the
/// pass began.
pub proof fn lemma_pass_remembers_stamps(
    store: StoreView,
    repository_id: int,
    force: bool,
    number: int,
)
    ensures
        SessionView::begin(store, repository_id, force).cached(number) == stamp_of(
            store,
            repository_id,
            number,
        ),
{
}

/// Consistent caches with the same issues answer every lookup alike.
pub proof fn lemma_lookup_reads_issues_only(
    a: StoreView,
    b: StoreView,
    repository_id: int,
    number: int,
)
    requires
        a.wf(),
        b.wf(),
        a.issues == b.issues,
    ensures
        a.issue(repository_id, number) == b.issue(repository_id, number),
{
    if a.has_issue(repository_id, number) {
        let i = a.issue_index(repository_id, number);
        assert(a.issue_at(i, repository_id, number));
        assert(b.issue_at(i, repository_id, number));
        b.lemma_issue_index(i, repository_id, number);
    } else if b.has_issue(repository_id, number) {
        let i = b.issue_index(repository_id, number);
        assert(b.issue_at(i, repository_id, number));
        assert(a.issue_at(i, repository_id, number));
    }
}

/// A reconciled record leaves its stamp on its own issue and every other
/// issue's stamp as it was.
pub proof fn lemma_reconcile_stamps(
    store: StoreView,
    repository_id: int,
    record: RemoteIssueView,
    stamp: Seq<char>,
    other_repository_id: int,
    number: int,
)
    requires
        store.wf(),
        store.can_upsert_issue(issue_to_write(record, repository_id, stamp)),
    ensures
        stamp_of(
            reconcile(store, repository_id, record, stamp),
            other_repository_id,
            number,
        ) == if other_repository_id == repository_id && number == record.number {
            Some(Some(stamp))
        } else {
            stamp_of(store, other_repository_id, number)
        },
{
    let new = issue_to_write(record, repository_id, stamp);
    lemma_reconcile_consistent(store, repository_id, record, stamp);
    store.lemma_upsert_issue_consistent(new);
    store.lemma_upsert_issue_lookup(new, other_repository_id, number);
    lemma_lookup_reads_issues_only(
        reconcile(store, repository_id, record, stamp),
        store.upsert_issue(new),
        other_repository_id,
        number,
    );
}

/// Records that are all fresh are all passed over: the cache stays as it is
/// and nothing fails.
pub proof fn lemma_fresh_records_are_passed_over(
    session: SessionView,
    start: Progress,
    records: Seq<RemoteIssueView>,
    now: Timestamp,
    stamp: Seq<char>,
    count: int,
)
    requires
        !start.failed,
        0 <= count <= records.len(),
        forall|k: int| 0 <= k < count ==> !session.due(#[trigger] records[k], now),
    ensures
        session.sync_records(start, records, now, stamp, count) == (Progress {
            skipped: start.skipped + count as nat,
            ..start
        }),
    decreases count,
{
    if count > 0 {
        lemma_fresh_records_are_passed_over(session, start, records, now, stamp, count - 1);
        assert(!session.due(records[count - 1], now));
    }
}

/// Records that are all due are all reconciled, unless one fails.
pub proof fn lemma_due_records_are_synced(
    session: SessionView,
    start: Progress,
    records: Seq<RemoteIssueView>,
    now: Timestamp,
    stamp: Seq<char>,
    count: int,
)
    requires
        !start.failed,
        0 <= count <= records.len(),
        forall|k: int| 0 <= k < count ==> session.due(#[trigger] records[k], now),
    ensures
        ({
            let end = session.sync_records(start, records, now, stamp, count);
            &&& end.skipped == start.skipped
            &&& !end.failed ==> end.synced == start.synced + count
        }),
    decreases count,
{
    if count > 0 {
        lemma_due_records_are_synced(session, start, records, now, stamp, count - 1);
        assert(session.due(records[count - 1], now));
    }
}

/// A page either leaves the stamp of an issue as it was or sets it to the
/// page's own.
pub proof fn lemma_page_keeps_or_restamps(
    session: SessionView,
    start: Progress,
    records: Seq<RemoteIssueView>,
    now: Timestamp,
    stamp: Seq<char>,
    count: int,
    number: int,
)
    requires
        start.store.wf(),
        0 <= count <= records.len(),
    ensures
        ({
            let end = session.sync_records(start, records, now, stamp, count);
            let before = stamp_of(start.store, session.repository_id, number);
            let after = stamp_of(end.store, session.repository_id, number);
            after == before || after == Some(Some(stamp))
        }),
    decreases count,
{
    if count > 0 {
        lemma_page_keeps_or_restamps(session, start, records, now, stamp, count - 1, number);
        session.lemma_records_counted(start, records, now, stamp, count - 1);
        let prev = session.sync_records(start, records, now, stamp, count - 1);
        let record = records[count - 1];
        if !prev.failed && session.due(record, now) && prev.store.can_upsert_issue(
            issue_to_write(record, session.repository_id, stamp),
        ) {
            lemma_reconcile_stamps(
                prev.store,
                session.repository_id,
                record,
                stamp,
                session.repository_id,
                number,
            );
        }
    }
}

/// After a page that did not fail, the issue of every record that was due
/// carries the page's stamp.
pub proof fn lemma_due_record_is_stamped(
    session: SessionView,
    start: Progress,
    records: Seq<RemoteIssueView>,
    now: Timestamp,
    stamp: Seq<char>,
    count: int,
    k: int,
)
    requires
        start.store.wf(),
        !start.failed,
        0 <= k < count <= records.len(),
        session.due(records[k], now),
        !session.sync_records(start, records, now, stamp, count).failed,
    ensures
        stamp_of(
            session.sync_records(start, records, now, stamp, count).store,
            session.repository_id,
            records[k].number,
        ) == Some(Some(stamp)),
    decreases count,
{
    session.lemma_records_counted(start, records, now, stamp, count - 1);
    let prev = session.sync_records(start, records, now, stamp, count - 1);
    let record = records[count - 1];
    if k < count - 1 {
        lemma_due_record_is_stamped(session, start, records, now, stamp, count - 1, k);
    }
    if session.due(record, now) {
        lemma_reconcile_stamps(
            prev.store,
            session.repository_id,
            record,
            stamp,
            session.repository_id,
            records[k].number,
        );
    }
}

/// After a page that did not fail, every issue that was synchronized
/// carries a stamp that reads as the instant at which the page arrived.
pub proof fn law_synced_issue_is_stamped_with_now(
    session: SessionView,
    store: StoreView,
    records: Seq<RemoteIssueView>,
    now: Timestamp,
    stamp: Seq<char>,
    k: int,
)
    requires
        store.wf(),
        stamp_agrees(now, stamp),
        0 <= k < records.len(),
        session.due(records[k], now),
        !session.page_progress(store, records, now, stamp).failed,
    ensures
        stamp_of(
            session.page_progress(store, records, now, stamp).store,
            session.repository_id,
            records[k].number,
        ) == Some(Some(stamp)),
        crate::clock::parsed_instant(stamp) == Some(now),
{
    lemma_due_record_is_stamped(
        session,
        Progress { store, synced: session.synced, skipped: session.skipped, failed: false },
        records,
        now,
        stamp,
        records.len() as int,
        k,
    );
}

/// A pass keeps its repository, its force flag and what it remembered of the
/// cache, whatever arrives.
pub proof fn lemma_pass_keeps_its_setting(
    session: SessionView,
    store: StoreView,
    arrivals: Seq<Arrival>,
    count: int,
)
    requires
        0 <= count <= arrivals.len(),
    ensures
        ({
            let end = session.run(store, arrivals, count).session;
            &&& end.repository_id == session.repository_id
            &&& end.force == session.force
            &&& end.cache == session.cache
        }),
    decreases count,
{
    if count > 0 {
        lemma_pass_keeps_its_setting(session, store, arrivals, count - 1);
    }
}

/// A pass that has failed stays failed.
pub proof fn lemma_failure_persists(
    session: SessionView,
    store: StoreView,
    arrivals: Seq<Arrival>,
    failed_at: int,
    count: int,
)
    requires
        0 <= failed_at <= count <= arrivals.len(),
        session.run(store, arrivals, failed_at).session.phase == Phase::Failed,
    ensures
        session.run(store, arrivals, count).session.phase == Phase::Failed,
    decreases count,
{
    if failed_at < count {
        lemma_failure_persists(session, store, arrivals, failed_at, count - 1);
    }
}

/// Whether the issue carries the stamp of one of the arrivals.
pub open spec fn stamped_by(
    store: StoreView,
    repository_id: int,
    number: int,
    arrivals: Seq<Arrival>,
) -> bool {
    exists|j: int|
        0 <= j < arrivals.len() && stamp_of(store, repository_id, number) == Some(
            Some((#[trigger] arrivals[j]).stamp),
        )
}

/// Whether every record of every arrival is due in the pass.
pub open spec fn all_due(session: SessionView, arrivals: Seq<Arrival>) -> bool {
    forall|i: int, k: int|
        0 <= i < arrivals.len() && 0 <= k < arrivals[i].records.len() ==> session.due(
            #[trigger] arrivals[i].records[k],
            arrivals[i].now,
        )
}

/// Whether each arrival's stamp is the text of its instant and reads back as
/// that instant.
pub open spec fn stamps_agree(arrivals: Seq<Arrival>) -> bool {
    forall|j: int|
        0 <= j < arrivals.len() ==> stamp_agrees(
            (#[trigger] arrivals[j]).now,
            arrivals[j].stamp,
        )
}

/// Whether the remote hands out, page by page, the records it handed out
/// before.
pub open spec fn same_remote(first: Seq<Arrival>, second: Seq<Arrival>) -> bool {
    &&& first.len() == second.len()
    &&& forall|j: int|
        0 <= j < first.len() ==> (#[trigger] second[j]).records == first[j].records
}

/// Whether every arrival of the second pass falls within the staleness
/// window of every arrival of the first.
pub open spec fn within_window(first: Seq<Arrival>, second: Seq<Arrival>) -> bool {
    forall|i: int, j: int|
        0 <= i < first.len() && 0 <= j < second.len() ==> elapsed_nanos(
            (#[trigger] second[j]).now,
            (#[trigger] first[i]).now,
        ) < STALE_AFTER_NANOS
}

/// After a pass that did not fail, the issue of every record that the pass
/// took and that was due carries the stamp of one of its arrivals.
pub proof fn lemma_pass_stamps_what_it_takes(
    session: SessionView,
    store: StoreView,
    arrivals: Seq<Arrival>,
    count: int,
    i: int,
    k: int,
)
    requires
        store.wf(),
        0 <= i < count <= arrivals.len(),
        0 <= k < arrivals[i].records.len(),
        session.run(store, arrivals, i).session.phase == Phase::Fetching,
        session.run(store, arrivals, count).session.phase != Phase::Failed,
        session.due(arrivals[i].records[k], arrivals[i].now),
    ensures
        stamped_by(
            session.run(store, arrivals, count).store,
            session.repository_id,
            arrivals[i].records[k].number,
            arrivals,
        ),
    decreases count,
{
    let before = session.run(store, arrivals, count - 1);
    let after = session.run(store, arrivals, count);
    let arrival = arrivals[count - 1];
    let number = arrivals[i].records[k].number;
    lemma_pass_keeps_its_setting(session, store, arrivals, count - 1);
    law_pass_keeps_consistency(session, store, arrivals, count - 1);
    let start = Progress {
        store: before.store,
        synced: before.session.synced,
        skipped: before.session.skipped,
        failed: false,
    };
    if i == count - 1 {
        lemma_due_record_is_stamped(
            before.session,
            start,
            arrival.records,
            arrival.now,
            arrival.stamp,
            arrival.records.len() as int,
            k,
        );
        assert(stamp_of(after.store, session.repository_id, number) == Some(
            Some(arrivals[i].stamp),
        ));
    } else {
        if before.session.phase == Phase::Failed {
            lemma_failure_persists(session, store, arrivals, count - 1, count);
        }
        lemma_pass_stamps_what_it_takes(session, store, arrivals, count - 1, i, k);
        let j = choose|j: int|
            0 <= j < arrivals.len() && stamp_of(before.store, session.repository_id, number)
                == Some(Some((#[trigger] arrivals[j]).stamp));
        if before.session.phase == Phase::Fetching {
            lemma_page_keeps_or_restamps(
                before.session,
                start,
                arrival.records,
                arrival.now,
                arrival.stamp,
                arrival.records.len() as int,
                number,
            );
            if stamp_of(after.store, session.repository_id, number) == Some(
                Some(arrival.stamp),
            ) {
                assert(stamp_of(after.store, session.repository_id, number) == Some(
                    Some(arrivals[count - 1].stamp),
                ));
            } else {
                assert(stamp_of(after.store, session.repository_id, number) == Some(
                    Some(arrivals[j].stamp),
                ));
            }
        } else {
            assert(stamp_of(after.store, session.repository_id, number) == Some(
                Some(arrivals[j].stamp),
            ));
        }
    }
}

/// An issue that carries the stamp of an arrival is fresh for as long as the
/// staleness window of that arrival lasts.
pub proof fn lemma_stamped_is_fresh(
    cached: Option<Option<Seq<char>>>,
    arrival: Arrival,
    now: Timestamp,
)
    requires
        cached == Some(Some(arrival.stamp)),
        stamp_agrees(arrival.now, arrival.stamp),
        elapsed_nanos(now, arrival.now) < STALE_AFTER_NANOS,
    ensures
        !is_due(false, cached, now),
{
}

/// Whether every record of every arrival is fresh in the pass.
pub open spec fn all_fresh(session: SessionView, arrivals: Seq<Arrival>) -> bool {
    forall|i: int, k: int|
        0 <= i < arrivals.len() && 0 <= k < arrivals[i].records.len() ==> !session.due(
            #[trigger] arrivals[i].records[k],
            arrivals[i].now,
        )
}

/// The records of the first `count` arrivals that a pass takes: those that
/// arrive while it awaits a page.
pub open spec fn records_taken(
    session: SessionView,
    store: StoreView,
    arrivals: Seq<Arrival>,
    count: int,
) -> nat
    decreases count,
{
    if count <= 0 {
        0
    } else {
        let before = records_taken(session, store, arrivals, count - 1);
        if session.run(store, arrivals, count - 1).session.phase == Phase::Fetching {
            before + arrivals[count - 1].records.len()
        } else {
            before
        }
    }
}

/// Staleness gating of a whole pass: a pass to which every record is fresh
/// leaves the cache exactly as it found it. It synchronizes nothing, passes
/// over every record it takes, and never fails.
pub proof fn law_fresh_pass_changes_nothing(
    session: SessionView,
    store: StoreView,
    arrivals: Seq<Arrival>,
    count: int,
)
    requires
        session.phase == Phase::Fetching,
        all_fresh(session, arrivals),
        0 <= count <= arrivals.len(),
    ensures
        ({
            let end = session.run(store, arrivals, count);
            &&& end.store == store
            &&& end.session.phase != Phase::Failed
            &&& end.session.synced == session.synced
            &&& end.session.skipped == session.skipped + records_taken(
                session,
                store,
                arrivals,
                count,
            )
        }),
    decreases count,
{
    if count > 0 {
        law_fresh_pass_changes_nothing(session, store, arrivals, count - 1);
        lemma_pass_keeps_its_setting(session, store, arrivals, count - 1);
        let before = session.run(store, arrivals, count - 1);
        let arrival = arrivals[count - 1];
        if before.session.phase == Phase::Fetching {
            assert forall|k: int| 0 <= k < arrival.records.len() implies !before.session.due(
                #[trigger] arrival.records[k],
                arrival.now,
            ) by {
                assert(!session.due(arrivals[count - 1].records[k], arrivals[count - 1].now));
            }
            lemma_fresh_records_are_passed_over(
                before.session,
                Progress {
                    store: before.store,
                    synced: before.session.synced,
                    skipped: before.session.skipped,
                    failed: false,
                },
                arrival.records,
                arrival.now,
                arrival.stamp,
                arrival.records.len() as int,
            );
        }
    }
}

/// The second of two passes over an unchanged remote, as far as it has come:
/// it leaves the cache as the first pass left it, stands where the first
/// stood, and has passed over what the first synchronized.
pub proof fn lemma_second_pass_follows_first(
    store: StoreView,
    repository_id: int,
    force: bool,
    first: Seq<Arrival>,
    second: Seq<Arrival>,
    count: int,
)
    requires
        store.wf(),
        same_remote(first, second),
        stamps_agree(first),
        within_window(first, second),
        all_due(SessionView::begin(store, repository_id, force), first),
        SessionView::begin(store, repository_id, force).run(
            store,
            first,
            first.len() as int,
        ).session.phase != Phase::Failed,
        0 <= count <= first.len(),
    ensures
        ({
            let one = SessionView::begin(store, repository_id, force);
            let left = one.run(store, first, first.len() as int).store;
            let two = SessionView::begin(left, repository_id, false);
            let mine = one.run(store, first, count).session;
            let theirs = two.run(left, second, count);
            &&& theirs.store == left
            &&& theirs.session.phase == mine.phase
            &&& theirs.session.page == mine.page
            &&& theirs.session.synced == 0
            &&& theirs.session.skipped == mine.synced
            &&& mine.skipped == 0
        }),
    decreases count,
{
    let one = SessionView::begin(store, repository_id, force);
    let n = first.len() as int;
    let left = one.run(store, first, n).store;
    let two = SessionView::begin(left, repository_id, false);
    if count > 0 {
        lemma_second_pass_follows_first(store, repository_id, force, first, second, count - 1);
        let mine = one.run(store, first, count - 1);
        let theirs = two.run(left, second, count - 1);
        let was = first[count - 1];
        let is = second[count - 1];
        assert(is.records == was.records);
        lemma_pass_keeps_its_setting(one, store, first, count - 1);
        lemma_pass_keeps_its_setting(two, left, second, count - 1);
        if mine.session.phase == Phase::Fetching && was.records.len() > 0 {
            let records = was.records;
            let len = records.len() as int;
            // The first pass reconciles every record of the page.
            let start_one = Progress {
                store: mine.store,
                synced: mine.session.synced,
                skipped: mine.session.skipped,
                failed: false,
            };
            assert forall|k: int| 0 <= k < len implies mine.session.due(
                #[trigger] records[k],
                was.now,
            ) by {
                assert(one.due(first[count - 1].records[k], first[count - 1].now));
            }
            lemma_due_records_are_synced(
                mine.session,
                start_one,
                records,
                was.now,
                was.stamp,
                len,
            );
            if mine.session.page_progress(mine.store, records, was.now, was.stamp).failed {
                lemma_failure_persists(one, store, first, count, n);
            }
            // The second pass finds every one of them fresh.
            let start_two = Progress {
                store: theirs.store,
                synced: theirs.session.synced,
                skipped: theirs.session.skipped,
                failed: false,
            };
            assert forall|k: int| 0 <= k < len implies !theirs.session.due(
                #[trigger] records[k],
                is.now,
            ) by {
                let number = records[k].number;
                assert(one.due(first[count - 1].records[k], first[count - 1].now));
                lemma_pass_stamps_what_it_takes(one, store, first, n, count - 1, k);
                lemma_pass_remembers_stamps(left, repository_id, false, number);
                let j = choose|j: int|
                    0 <= j < first.len() && stamp_of(left, repository_id, number) == Some(
                        Some((#[trigger] first[j]).stamp),
                    );
                assert(stamp_agrees(first[j].now, first[j].stamp));
                assert(elapsed_nanos(second[count - 1].now, first[j].now) < STALE_AFTER_NANOS);
                lemma_stamped_is_fresh(two.cached(number), first[j], is.now);
            }
            lemma_fresh_records_are_passed_over(
                theirs.session,
                start_two,
                records,
                is.now,
                is.stamp,
                len,
            );
        }
    }
}

/// Idempotence: when a pass that synchronized all it was handed is followed,
/// within the staleness window and without force, by a pass over the same
/// pages, the second pass leaves the cache exactly as the first left it. It
/// ends as the first ended, after as many requests, with nothing
/// synchronized and everything passed over.
pub proof fn law_second_pass_changes_nothing(
    store: StoreView,
    repository_id: int,
    force: bool,
    first: Seq<Arrival>,
    second: Seq<Arrival>,
)
    requires
        store.wf(),
        same_remote(first, second),
        stamps_agree(first),
        within_window(first, second),
        all_due(SessionView::begin(store, repository_id, force), first),
        SessionView::begin(store, repository_id, force).run(
            store,
            first,
            first.len() as int,
        ).session.phase != Phase::Failed,
    ensures
        ({
            let one = SessionView::begin(store, repository_id, force).run(
                store,
                first,
                first.len() as int,
            );
            let two = SessionView::begin(one.store, repository_id, false).run(
                one.store,
                second,
                second.len() as int,
            );
            &&& two.store == one.store
            &&& two.session.phase == one.session.phase
            &&& two.session.requests() == one.session.requests()
            &&& two.session.synced == 0
            &&& two.session.skipped == one.session.synced
        }),
{
    lemma_second_pass_follows_first(
        store,
        repository_id,
        force,
        first,
        second,
        first.len() as int,
    );
}

/// A forced pass holds every record to be due, so the law of the second pass
/// applies after it whatever the cache held.
pub proof fn law_forced_pass_takes_everything(
    store: StoreView,
    repository_id: int,
    arrivals: Seq<Arrival>,
)
    ensures
        all_due(SessionView::begin(store, repository_id, true), arrivals),
{
}

} // verus!
