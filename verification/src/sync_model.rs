//! A synchronization pass as mathematics: what a page does to the cache and
//! to the state of the pass.

use vstd::prelude::*;
use crate::clock::Timestamp;
use crate::reconcile::{issue_to_write, reconcile};
use crate::remote::RemoteIssueView;
use crate::staleness::is_due;
use crate::store_model::StoreView;

verus! {

/// Where a pass stands.
#[derive(Clone, Copy, Debug, PartialEq, Eq, Structural)]
pub enum Phase {
    /// A page is awaited.
    Fetching,
    /// The remote ran out of issues.
    Finished,
    /// The cache could not take an issue.
    Failed,
}

/// The state of a pass over one repository.
pub struct SessionView {
    pub repository_id: int,
    pub force: bool,
    /// The number of the page that was asked for last: as many requests have
    /// been made.
    pub page: nat,
    pub synced: nat,
    pub skipped: nat,
    /// The stamps of the repository's issues as the cache held them when the
    /// pass began, by issue number.
    pub cache: Map<int, Option<Seq<char>>>,
    pub phase: Phase,
}

/// The stamps of a repository's cached issues, by issue number.
pub open spec fn issue_stamps(store: StoreView, repository_id: int) -> Map<
    int,
    Option<Seq<char>>,
> {
    Map::new(
        |number: int| store.has_issue(repository_id, number),
        |number: int| store.issues[store.issue_index(repository_id, number)].last_synced_at,
    )
}

/// A page as it arrives: its records, and the time of arrival as an instant
/// and as the stamp written for it.
pub struct Arrival {
    pub records: Seq<RemoteIssueView>,
    pub now: Timestamp,
    pub stamp: Seq<char>,
}

/// A pass and the cache it writes to.
pub struct PassState {
    pub session: SessionView,
    pub store: StoreView,
}

/// How far the records of a page have come.
pub struct Progress {
    pub store: StoreView,
    pub synced: nat,
    pub skipped: nat,
    pub failed: bool,
}

impl SessionView {
    /// The state in which a pass over the repository begins: the first page
    /// is asked for.
    pub open spec fn begin(store: StoreView, repository_id: int, force: bool) -> SessionView {
        SessionView {
            repository_id,
            force,
            page: 1,
            synced: 0,
            skipped: 0,
            cache: issue_stamps(store, repository_id),
            phase: Phase::Fetching,
        }
    }

    /// Whether the counters have room for a page of `records` records and
    /// for the number of one more page.
    pub open spec fn has_room_for(self, records: nat) -> bool {
        &&& self.page < u32::MAX
        &&& self.synced + self.skipped + records <= u64::MAX
    }

    /// What the pass knows of an issue's last synchronization.
    pub open spec fn cached(self, number: int) -> Option<Option<Seq<char>>> {
        if self.cache.contains_key(number) {
            Some(self.cache[number])
        } else {
            None
        }
    }

    /// Whether a record is synchronized at `now`.
    pub open spec fn due(self, record: RemoteIssueView, now: Timestamp) -> bool {
        is_due(self.force, self.cached(record.number), now)
    }

    /// One record: passed over where it is fresh, reconciled where it is due,
    /// and the end of the page's work where the cache cannot take it.
    pub open spec fn sync_record(
        self,
        progress: Progress,
        record: RemoteIssueView,
        now: Timestamp,
        stamp: Seq<char>,
    ) -> Progress {
        if progress.failed {
            progress
        } else if !self.due(record, now) {
            Progress { skipped: progress.skipped + 1, ..progress }
        } else if !progress.store.can_upsert_issue(
            issue_to_write(record, self.repository_id, stamp),
        ) {
            Progress { failed: true, ..progress }
        } else {
            Progress {
                store: reconcile(progress.store, self.repository_id, record, stamp),
                synced: progress.synced + 1,
                ..progress
            }
        }
    }

    /// The first `count` records of a page, one after the other.
    pub open spec fn sync_records(
        self,
        start: Progress,
        records: Seq<RemoteIssueView>,
        now: Timestamp,
        stamp: Seq<char>,
        count: int,
    ) -> Progress
        decreases count,
    {
        if count <= 0 {
            start
        } else {
            self.sync_record(
                self.sync_records(start, records, now, stamp, count - 1),
                records[count - 1],
                now,
                stamp,
            )
        }
    }

    /// What a page makes of the pass's counters and of the cache.
    pub open spec fn page_progress(
        self,
        store: StoreView,
        records: Seq<RemoteIssueView>,
        now: Timestamp,
        stamp: Seq<char>,
    ) -> Progress {
        self.sync_records(
            Progress { store, synced: self.synced, skipped: self.skipped, failed: false },
            records,
            now,
            stamp,
            records.len() as int,
        )
    }

    /// The pass after a page arrived. An empty page ends it. Otherwise the
    /// records are worked through and the next page is asked for, unless the
    /// cache failed. A pass that awaits no page ignores what arrives.
    pub open spec fn on_page(
        self,
        store: StoreView,
        records: Seq<RemoteIssueView>,
        now: Timestamp,
        stamp: Seq<char>,
    ) -> SessionView {
        if self.phase != Phase::Fetching {
            self
        } else if records.len() == 0 {
            SessionView { phase: Phase::Finished, ..self }
        } else {
            let progress = self.page_progress(store, records, now, stamp);
            if progress.failed {
                SessionView {
                    synced: progress.synced,
                    skipped: progress.skipped,
                    phase: Phase::Failed,
                    ..self
                }
            } else {
                SessionView {
                    synced: progress.synced,
                    skipped: progress.skipped,
                    page: self.page + 1,
                    ..self
                }
            }
        }
    }

    /// The cache after a page arrived.
    pub open spec fn store_after_page(
        self,
        store: StoreView,
        records: Seq<RemoteIssueView>,
        now: Timestamp,
        stamp: Seq<char>,
    ) -> StoreView {
        if self.phase != Phase::Fetching {
            store
        } else {
            self.page_progress(store, records, now, stamp).store
        }
    }

    /// The pass and the cache after the first `count` arrivals, each handed
    /// over in turn.
    pub open spec fn run(self, store: StoreView, arrivals: Seq<Arrival>, count: int) -> PassState
        decreases count,
    {
        if count <= 0 {
            PassState { session: self, store }
        } else {
            let before = self.run(store, arrivals, count - 1);
            let arrival = arrivals[count - 1];
            PassState {
                session: before.session.on_page(
                    before.store,
                    arrival.records,
                    arrival.now,
                    arrival.stamp,
                ),
                store: before.session.store_after_page(
                    before.store,
                    arrival.records,
                    arrival.now,
                    arrival.stamp,
                ),
            }
        }
    }

    /// The number of page requests that the pass has made.
    pub open spec fn requests(self) -> nat {
        self.page
    }

    /// A failed record ends the work on its page: what follows it changes
    /// nothing.
    pub proof fn lemma_failure_is_final(
        self,
        start: Progress,
        records: Seq<RemoteIssueView>,
        now: Timestamp,
        stamp: Seq<char>,
        failed_at: int,
        count: int,
    )
        requires
            0 <= failed_at <= count,
            self.sync_records(start, records, now, stamp, failed_at).failed,
        ensures
            self.sync_records(start, records, now, stamp, count) == self.sync_records(
                start,
                records,
                now,
                stamp,
                failed_at,
            ),
        decreases count,
    {
        if failed_at < count {
            self.lemma_failure_is_final(start, records, now, stamp, failed_at, count - 1);
        }
    }

    /// Every record is either passed over or reconciled, until one fails.
    pub proof fn lemma_records_counted(
        self,
        start: Progress,
        records: Seq<RemoteIssueView>,
        now: Timestamp,
        stamp: Seq<char>,
        count: int,
    )
        requires
            0 <= count,
        ensures
            ({
                let end = self.sync_records(start, records, now, stamp, count);
                &&& start.synced <= end.synced
                &&& start.skipped <= end.skipped
                &&& end.synced + end.skipped <= start.synced + start.skipped + count
                &&& !end.failed ==> end.synced + end.skipped == start.synced + start.skipped
                    + count
                &&& start.store.wf() ==> end.store.wf()
            }),
        decreases count,
    {
        if count > 0 {
            self.lemma_records_counted(start, records, now, stamp, count - 1);
            let before = self.sync_records(start, records, now, stamp, count - 1);
            if before.store.wf() {
                crate::reconcile::lemma_reconcile_consistent(
                    before.store,
                    self.repository_id,
                    records[count - 1],
                    stamp,
                );
            }
        }
    }
}

} // verus!
