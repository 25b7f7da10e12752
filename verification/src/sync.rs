//! The synchronization engine: a pass over one repository, page by page.
//!
//! The engine decides and writes; fetching is left to the caller. A pass
//! begins with [`SyncSession::begin`], which asks for the first page. The
//! caller fetches the page that [`SyncSession::action`] names and hands it
//! to [`SyncSession::on_page`], until the action is no longer a request.

use vstd::prelude::*;
use std::collections::HashMap;
use crate::clock::Stamp;
use crate::error::SyncError;
use crate::models::{copy_opt_text, opt_text};
use crate::reconcile::reconcile_issue;
use crate::remote::{record_views, RemoteIssue};
use crate::staleness::{cached_view, should_sync};
use crate::store::Store;
use crate::sync_model::{issue_stamps, Phase, Progress, SessionView};

verus! {

broadcast use vstd::std_specs::hash::group_hash_axioms;

/// How many issues a pass has synchronized and how many it has passed over
/// as fresh.
#[derive(Clone, Copy, Debug, PartialEq, Eq, Structural)]
pub struct SyncReport {
    pub synced: u64,
    pub skipped: u64,
}

/// What the caller of a pass does next.
#[derive(Debug, PartialEq, Eq)]
pub enum SyncAction {
    /// Fetch the page of this number and hand it over.
    FetchPage(u32),
    /// The pass is complete.
    Finish(SyncReport),
    /// The pass has failed; go on to the next repository.
    Abort(SyncError),
}

/// The stamps of a pass's cache by issue number, as the model sees them.
pub open spec fn cache_view(cache: Map<i32, Option<String>>) -> Map<int, Option<Seq<char>>> {
    Map::new(
        |number: int| i32::MIN <= number <= i32::MAX && cache.contains_key(number as i32),
        |number: int| opt_text(cache[number as i32]),
    )
}

/// A pass over one repository.
pub struct SyncSession {
    repository_id: i32,
    force: bool,
    page: u32,
    synced: u64,
    skipped: u64,
    cache: HashMap<i32, Option<String>>,
    phase: Phase,
}

impl View for SyncSession {
    type V = SessionView;

    closed spec fn view(&self) -> SessionView {
        SessionView {
            repository_id: self.repository_id as int,
            force: self.force,
            page: self.page as nat,
            synced: self.synced as nat,
            skipped: self.skipped as nat,
            cache: cache_view(self.cache@),
            phase: self.phase,
        }
    }
}

/// What a pass in the given state asks of its caller.
pub open spec fn action_of(session: SessionView) -> SyncAction {
    match session.phase {
        Phase::Fetching => SyncAction::FetchPage(session.page as u32),
        Phase::Finished => SyncAction::Finish(
            SyncReport { synced: session.synced as u64, skipped: session.skipped as u64 },
        ),
        Phase::Failed => SyncAction::Abort(SyncError::Store),
    }
}

/// The stamps of a repository's issues, by number, as a pass remembers them.
fn snapshot(store: &Store, repository_id: i32) -> (cache: HashMap<i32, Option<String>>)
    requires
        store.wf(),
    ensures
        cache_view(cache@) == issue_stamps(store@, repository_id as int),
{
    let issues = store.issues();
    let mut cache: HashMap<i32, Option<String>> = HashMap::new();
    let mut i: usize = 0;
    while i < issues.len()
        invariant
            i <= issues.len(),
            store.wf(),
            crate::store::issue_views(issues@) == store@.issues,
            forall|number: i32|
                cache@.contains_key(number) <==> exists|k: int|
                    0 <= k < i && store@.issue_at(k, repository_id as int, number as int),
            forall|k: int|
                0 <= k < i && (#[trigger] store@.issues[k]).repository_id == repository_id
                    ==> cache@.contains_key(issues@[k].number) && opt_text(
                    cache@[issues@[k].number],
                ) == store@.issues[k].last_synced_at,
        decreases issues.len() - i,
    {
        if issues[i].repository_id == repository_id {
            let ghost before = cache@;
            let number: i32 = issues[i].number;
            proof {
                assert(store@.issue_at(i as int, repository_id as int, number as int));
                if before.contains_key(number) {
                    let k = choose|k: int|
                        0 <= k < i && store@.issue_at(k, repository_id as int, number as int);
                    store@.lemma_issue_index(k, repository_id as int, number as int);
                    store@.lemma_issue_index(i as int, repository_id as int, number as int);
                }
            }
            cache.insert(number, copy_opt_text(&issues[i].last_synced_at));
            proof {
                assert forall|n: i32| cache@.contains_key(n) <==> exists|k: int|
                    0 <= k < i + 1 && store@.issue_at(k, repository_id as int, n as int) by {
                    if cache@.contains_key(n) {
                        if n == number {
                            assert(store@.issue_at(i as int, repository_id as int, n as int));
                        } else {
                            let k = choose|k: int|
                                0 <= k < i && store@.issue_at(k, repository_id as int, n as int);
                            assert(store@.issue_at(k, repository_id as int, n as int));
                        }
                    }
                    if exists|k: int|
                        0 <= k < i + 1 && store@.issue_at(k, repository_id as int, n as int) {
                        let k = choose|k: int|
                            0 <= k < i + 1 && store@.issue_at(k, repository_id as int, n as int);
                        if k < i {
                            assert(before.contains_key(n));
                        }
                    }
                }
            }
        } else {
            proof {
                assert forall|n: i32| cache@.contains_key(n) <==> exists|k: int|
                    0 <= k < i + 1 && store@.issue_at(k, repository_id as int, n as int) by {
                    if cache@.contains_key(n) {
                        let k = choose|k: int|
                            0 <= k < i && store@.issue_at(k, repository_id as int, n as int);
                        assert(store@.issue_at(k, repository_id as int, n as int));
                    }
                    if exists|k: int|
                        0 <= k < i + 1 && store@.issue_at(k, repository_id as int, n as int) {
                        let k = choose|k: int|
                            0 <= k < i + 1 && store@.issue_at(k, repository_id as int, n as int);
                        assert(k < i);
                    }
                }
            }
        }
        i += 1;
    }
    proof {
        let got = cache_view(cache@);
        let want = issue_stamps(store@, repository_id as int);
        assert forall|number: int| got.contains_key(number) <==> want.contains_key(number) by {
            if got.contains_key(number) {
                let k = choose|k: int|
                    0 <= k < i && store@.issue_at(k, repository_id as int, number);
                assert(store@.issue_at(k, repository_id as int, number));
            }
            if want.contains_key(number) {
                let k = store@.issue_index(repository_id as int, number);
                assert(store@.issue_at(k, repository_id as int, number));
                assert(issues@[k].number as int == number);
                assert(cache@.contains_key(number as i32));
            }
        }
        assert forall|number: int| got.contains_key(number) implies got[number]
            == want[number] by {
            let k = store@.issue_index(repository_id as int, number);
            assert(want.contains_key(number));
            assert(store@.issue_at(k, repository_id as int, number));
            assert(issues@[k].number as int == number);
        }
        assert(got =~= want);
    }
    cache
}

impl SyncSession {
    /// Begins a pass over a tracked repository: remembers the stamps of its
    /// cached issues and asks for the first page. A repository that is not
    /// tracked is refused.
    pub fn begin(store: &Store, user: &str, name: &str, force: bool) -> (r: Result<
        SyncSession,
        SyncError,
    >)
        requires
            store.wf(),
        ensures
            match r {
                Ok(session) => store@.repository_id(user@, name@) matches Some(id) && session@
                    == SessionView::begin(store@, id, force),
                Err(e) => e == SyncError::NotFound && !store@.tracks(user@, name@),
            },
    {
        match store.repository_id(user, name) {
            Some(repository_id) => {
                let cache = snapshot(store, repository_id);
                Ok(
                    SyncSession {
                        repository_id,
                        force,
                        page: 1,
                        synced: 0,
                        skipped: 0,
                        cache,
                        phase: Phase::Fetching,
                    },
                )
            },
            None => Err(SyncError::NotFound),
        }
    }

    /// What the caller does next.
    pub fn action(&self) -> (r: SyncAction)
        ensures
            r == action_of(self@),
    {
        match self.phase {
            Phase::Fetching => SyncAction::FetchPage(self.page),
            Phase::Finished => SyncAction::Finish(
                SyncReport { synced: self.synced, skipped: self.skipped },
            ),
            Phase::Failed => SyncAction::Abort(SyncError::Store),
        }
    }

    /// The count of issues synchronized and passed over so far.
    pub fn report(&self) -> (r: SyncReport)
        ensures
            r.synced as nat == self@.synced,
            r.skipped as nat == self@.skipped,
    {
        SyncReport { synced: self.synced, skipped: self.skipped }
    }

    /// Whether the counters of the pass have room for a page of `records`
    /// records and for the number of one more page.
    pub open spec fn has_room(&self, records: nat) -> bool {
        self@.has_room_for(records)
    }

    /// Whether the counters of the pass have room for a page of that many
    /// records.
    pub fn can_take(&self, records: usize) -> (r: bool)
        ensures
            r == self.has_room(records as nat),
    {
        self.page < u32::MAX && self.synced <= u64::MAX - self.skipped && records as u64
            <= u64::MAX - self.synced - self.skipped
    }

    /// Takes a fetched page. An empty page completes the pass. Otherwise each
    /// record is held against the staleness policy at `now`: a fresh one is
    /// counted as passed over, a due one is reconciled under the stamp of
    /// `now` and counted as synchronized. Then the next page is asked for. A
    /// record that the cache cannot take fails the pass; what was written
    /// before it stays.
    pub fn on_page(&mut self, store: &mut Store, records: &Vec<RemoteIssue>, now: &Stamp) -> (r:
        SyncAction)
        requires
            old(store).wf(),
            old(self).has_room(records.len() as nat),
        ensures
            final(store).wf(),
            now.wf(),
            final(self)@ == old(self)@.on_page(
                old(store)@,
                record_views(records@),
                now.instant(),
                now.rendered(),
            ),
            final(store)@ == old(self)@.store_after_page(
                old(store)@,
                record_views(records@),
                now.instant(),
                now.rendered(),
            ),
            r == action_of(final(self)@),
    {
        let at = now.timestamp();
        match self.phase {
            Phase::Fetching => {},
            _ => {
                return self.action();
            },
        }
        if records.len() == 0 {
            self.phase = Phase::Finished;
            return self.action();
        }
        let ghost session = self@;
        let ghost views = record_views(records@);
        let ghost start = Progress {
            store: store@,
            synced: session.synced,
            skipped: session.skipped,
            failed: false,
        };
        let mut i: usize = 0;
        while i < records.len()
            invariant
                i <= records.len(),
                store.wf(),
                views == record_views(records@),
                records.len() > 0,
                at == now.instant(),
                session == old(self)@,
                session.phase == Phase::Fetching,
                start == (Progress {
                    store: old(store)@,
                    synced: session.synced,
                    skipped: session.skipped,
                    failed: false,
                }),
                session.has_room_for(records.len() as nat),
                self@ == (SessionView {
                    synced: self@.synced,
                    skipped: self@.skipped,
                    ..session
                }),
                session.sync_records(start, views, at, now.rendered(), i as int) == (Progress {
                    store: store@,
                    synced: self@.synced,
                    skipped: self@.skipped,
                    failed: false,
                }),
                self@.synced + self@.skipped == session.synced + session.skipped + i,
            decreases records.len() - i,
        {
            let record = &records[i];
            let cached = self.cache.get(&record.number);
            assert(cached_view(cached) == session.cached(record@.number));
            if should_sync(self.force, cached, at) {
                match reconcile_issue(store, self.repository_id, record, now) {
                    Ok(_) => {
                        self.synced = self.synced + 1;
                    },
                    Err(_) => {
                        self.phase = Phase::Failed;
                        proof {
                            session.lemma_failure_is_final(
                                start,
                                views,
                                at,
                                now.rendered(),
                                i as int + 1,
                                records.len() as int,
                            );
                        }
                        return self.action();
                    },
                }
            } else {
                self.skipped = self.skipped + 1;
            }
            i += 1;
        }
        self.page = self.page + 1;
        self.action()
    }
}

} // verus!
