//! The staleness policy: whether a cached issue is due for another look.

use vstd::prelude::*;
use crate::clock::{Timestamp, parsed_instant};

verus! {

/// A cached issue younger than this many nanoseconds is left alone: ten
/// minutes.
pub const STALE_AFTER_NANOS: i128 = 600_000_000_000;

/// Seconds since midnight of the day an instant falls on.
pub open spec fn second_of_day(t: Timestamp) -> int {
    (t.secs as int) % 86_400
}

/// The second that a leap second adds to or takes from the difference of
/// two instants. An instant within a leap second shares its count of
/// seconds with the second before, so the difference of the counts is one
/// short where the other instant lies later in the day, and one long where
/// it lies earlier.
pub open spec fn leap_adjustment(now: Timestamp, then: Timestamp) -> int {
    if second_of_day(now) > second_of_day(then) && then.nanos >= 1_000_000_000 {
        1
    } else if second_of_day(now) < second_of_day(then) && now.nanos >= 1_000_000_000 {
        -1
    } else {
        0
    }
}

/// Nanoseconds from `then` to `now`, as chrono's `signed_duration_since`
/// counts them; negative where `then` is the later one.
pub open spec fn elapsed_nanos(now: Timestamp, then: Timestamp) -> int {
    (now.secs - then.secs + leap_adjustment(now, then)) * 1_000_000_000 + (now.nanos - then.nanos)
}

/// What the cache knows of an issue's last synchronization.
#[derive(Clone, Copy, Debug, PartialEq, Eq, Structural)]
pub enum CacheEntry {
    /// No row for the issue.
    Unseen,
    /// A row that was never stamped.
    NeverSynced,
    /// A row whose stamp is no RFC 3339 date and time.
    Unreadable,
    /// A row stamped at the given instant.
    SyncedAt(Timestamp),
}

/// The policy on a cache entry: forced, unknown, unstamped and unreadable
/// entries are synchronized; a stamped one once ten minutes have passed.
pub open spec fn entry_is_due(force: bool, entry: CacheEntry, now: Timestamp) -> bool {
    force || match entry {
        CacheEntry::Unseen => true,
        CacheEntry::NeverSynced => true,
        CacheEntry::Unreadable => true,
        CacheEntry::SyncedAt(then) => elapsed_nanos(now, then) >= STALE_AFTER_NANOS,
    }
}

/// The cache entry that a looked-up stamp amounts to.
pub open spec fn entry_of(cached: Option<Option<Seq<char>>>) -> CacheEntry {
    match cached {
        None => CacheEntry::Unseen,
        Some(None) => CacheEntry::NeverSynced,
        Some(Some(text)) => match parsed_instant(text) {
            None => CacheEntry::Unreadable,
            Some(then) => CacheEntry::SyncedAt(then),
        },
    }
}

/// The policy on a looked-up stamp.
pub open spec fn is_due(force: bool, cached: Option<Option<Seq<char>>>, now: Timestamp) -> bool {
    entry_is_due(force, entry_of(cached), now)
}

/// The view of a looked-up stamp.
pub open spec fn cached_view(cached: Option<&Option<String>>) -> Option<Option<Seq<char>>> {
    match cached {
        None => None,
        Some(None) => Some(None),
        Some(Some(text)) => Some(Some(text@)),
    }
}

/// Seconds since midnight of the day an instant falls on.
fn day_second(t: Timestamp) -> (r: i64)
    ensures
        r == second_of_day(t),
{
    let m: i64 = t.secs % 86_400;
    if m < 0 {
        m + 86_400
    } else {
        m
    }
}

/// Nanoseconds from `then` to `now`.
pub fn elapsed(now: Timestamp, then: Timestamp) -> (r: i128)
    ensures
        r == elapsed_nanos(now, then),
{
    let now_second: i64 = day_second(now);
    let then_second: i64 = day_second(then);
    let adjustment: i128 = if now_second > then_second && then.nanos >= 1_000_000_000 {
        1
    } else if now_second < then_second && now.nanos >= 1_000_000_000 {
        -1
    } else {
        0
    };
    let seconds: i128 = now.secs as i128 - then.secs as i128 + adjustment;
    seconds * 1_000_000_000 + (now.nanos as i128 - then.nanos as i128)
}

/// Whether an issue with the given cache entry is synchronized at `now`.
pub fn entry_due(force: bool, entry: CacheEntry, now: Timestamp) -> (r: bool)
    ensures
        r == entry_is_due(force, entry, now),
{
    if force {
        return true;
    }
    match entry {
        CacheEntry::Unseen => true,
        CacheEntry::NeverSynced => true,
        CacheEntry::Unreadable => true,
        CacheEntry::SyncedAt(then) => elapsed(now, then) >= STALE_AFTER_NANOS,
    }
}

/// Reads a looked-up stamp into a cache entry.
pub fn classify(cached: Option<&Option<String>>) -> (r: CacheEntry)
    ensures
        r == entry_of(cached_view(cached)),
{
    match cached {
        None => CacheEntry::Unseen,
        Some(None) => CacheEntry::NeverSynced,
        Some(Some(text)) => match Timestamp::parse(text.as_str()) {
            None => CacheEntry::Unreadable,
            Some(then) => CacheEntry::SyncedAt(then),
        },
    }
}

/// Whether an issue is synchronized at `now`, given the force flag and what
/// the cache holds for it: `None` for no row, `Some(None)` for a row without
/// a stamp, `Some(Some(text))` for a stamped row.
pub fn should_sync(force: bool, cached: Option<&Option<String>>, now: Timestamp) -> (r: bool)
    ensures
        r == is_due(force, cached_view(cached), now),
{
    if force {
        return true;
    }
    entry_due(false, classify(cached), now)
}

/// Forced synchronization is never held back.
pub proof fn law_force_always_syncs(cached: Option<Option<Seq<char>>>, now: Timestamp)
    ensures
        is_due(true, cached, now),
{
}

/// Away from leap seconds an issue stamped at `then` is left alone at `now`
/// exactly while fewer than ten minutes lie between the two.
pub proof fn law_ten_minute_window(then: Timestamp, now: Timestamp)
    requires
        then.nanos < 1_000_000_000,
        now.nanos < 1_000_000_000,
    ensures
        entry_is_due(false, CacheEntry::SyncedAt(then), now) <==> (now.secs * 1_000_000_000
            + now.nanos) - (then.secs * 1_000_000_000 + then.nanos) >= 600 * 1_000_000_000,
{
}

} // verus!
