use github_issues_rs::clock::{Stamp, Timestamp};
use github_issues_rs::staleness::{
    classify, elapsed, entry_due, should_sync, CacheEntry, STALE_AFTER_NANOS,
};

const NOON: i64 = 1_700_000_000;

fn at(secs: i64) -> Timestamp {
    Timestamp { secs, nanos: 0 }
}

fn stamp_text(secs: i64) -> String {
    Stamp::at(at(secs)).expect("an ordinary instant has a stamp").as_str().to_string()
}

#[test]
fn nine_minutes_ago_is_fresh() {
    let cached = Some(stamp_text(NOON - 9 * 60));
    assert!(!should_sync(false, Some(&cached), at(NOON)));
}

#[test]
fn eleven_minutes_ago_is_due() {
    let cached = Some(stamp_text(NOON - 11 * 60));
    assert!(should_sync(false, Some(&cached), at(NOON)));
}

#[test]
fn exactly_ten_minutes_ago_is_due() {
    let cached = Some(stamp_text(NOON - 600));
    assert!(should_sync(false, Some(&cached), at(NOON)));
    let just_short = Timestamp { secs: NOON - 1, nanos: 999_999_999 };
    assert!(!should_sync(false, Some(&cached), just_short));
}

#[test]
fn force_syncs_whatever_is_cached() {
    let fresh = Some(stamp_text(NOON));
    assert!(should_sync(true, Some(&fresh), at(NOON)));
    assert!(should_sync(true, Some(&None), at(NOON)));
    assert!(should_sync(true, None, at(NOON)));
}

#[test]
fn unseen_issue_is_due() {
    assert!(should_sync(false, None, at(NOON)));
}

#[test]
fn unstamped_issue_is_due() {
    assert!(should_sync(false, Some(&None), at(NOON)));
}

#[test]
fn unreadable_stamp_is_due() {
    let cached = Some("yesterday, around noon".to_string());
    assert!(should_sync(false, Some(&cached), at(NOON)));
    assert_eq!(classify(Some(&cached)), CacheEntry::Unreadable);
}

#[test]
fn stamp_from_the_future_is_fresh() {
    let cached = Some(stamp_text(NOON + 3600));
    assert!(!should_sync(false, Some(&cached), at(NOON)));
}

#[test]
fn classify_reads_the_instant_of_a_stamp() {
    let cached = Some("2023-11-14T22:13:20+00:00".to_string());
    assert_eq!(classify(Some(&cached)), CacheEntry::SyncedAt(at(NOON)));
    let offset = Some("2023-11-15T00:13:20.250+02:00".to_string());
    assert_eq!(
        classify(Some(&offset)),
        CacheEntry::SyncedAt(Timestamp { secs: NOON, nanos: 250_000_000 })
    );
    assert_eq!(classify(None), CacheEntry::Unseen);
    assert_eq!(classify(Some(&None)), CacheEntry::NeverSynced);
}

#[test]
fn elapsed_counts_nanoseconds() {
    assert_eq!(elapsed(at(NOON), at(NOON - 540)), 540_000_000_000);
    assert_eq!(elapsed(at(NOON - 540), at(NOON)), -540_000_000_000);
    let a = Timestamp { secs: 10, nanos: 250 };
    let b = Timestamp { secs: 8, nanos: 750 };
    assert_eq!(elapsed(a, b), 1_999_999_500);
    assert_eq!(
        elapsed(Timestamp { secs: i64::MAX, nanos: 0 }, Timestamp { secs: i64::MIN, nanos: 0 }),
        (i64::MAX as i128 - i64::MIN as i128) * 1_000_000_000
    );
}

#[test]
fn elapsed_counts_a_leap_second_in_between() {
    // 23:59:60.5 on one day, written as second 86399 with the nanoseconds run over.
    let leap = Timestamp { secs: 86_399, nanos: 1_500_000_000 };
    let later_that_day_count = Timestamp { secs: 86_400 + 5, nanos: 0 };
    assert_eq!(elapsed(later_that_day_count, leap), 4_500_000_000);
    let earlier = Timestamp { secs: 86_390, nanos: 0 };
    assert_eq!(elapsed(leap, earlier), 10_500_000_000);
    let next_day_later_hour = Timestamp { secs: 2 * 86_400 - 1, nanos: 0 };
    assert_eq!(elapsed(next_day_later_hour, leap), 86_400_000_000_000 - 1_500_000_000);
}

#[test]
fn entry_due_follows_the_window() {
    assert_eq!(STALE_AFTER_NANOS, 600_000_000_000);
    assert!(!entry_due(false, CacheEntry::SyncedAt(at(NOON - 599)), at(NOON)));
    assert!(entry_due(false, CacheEntry::SyncedAt(at(NOON - 600)), at(NOON)));
    assert!(entry_due(true, CacheEntry::SyncedAt(at(NOON)), at(NOON)));
    assert!(entry_due(false, CacheEntry::Unseen, at(NOON)));
    assert!(entry_due(false, CacheEntry::NeverSynced, at(NOON)));
    assert!(entry_due(false, CacheEntry::Unreadable, at(NOON)));
}

#[test]
fn stamp_text_is_rfc3339_and_reads_back() {
    let stamp = Stamp::at(at(NOON)).unwrap();
    assert_eq!(stamp.as_str(), "2023-11-14T22:13:20+00:00");
    assert_eq!(stamp.timestamp(), at(NOON));
    assert_eq!(Timestamp::parse(stamp.as_str()), Some(at(NOON)));
    let fine = Stamp::at(Timestamp { secs: NOON, nanos: 123_456_789 }).unwrap();
    assert_eq!(fine.as_str(), "2023-11-14T22:13:20.123456789+00:00");
    assert_eq!(Timestamp::parse(fine.as_str()), Some(Timestamp { secs: NOON, nanos: 123_456_789 }));
}

#[test]
fn instants_without_a_readable_text_have_no_stamp() {
    assert!(Stamp::at(Timestamp { secs: i64::MAX, nanos: 0 }).is_none());
    assert!(Stamp::at(Timestamp { secs: NOON, nanos: 3_000_000_000 }).is_none());
}

#[test]
fn the_clock_gives_a_stamp_that_reads_back() {
    let stamp = Stamp::now().expect("the clock shows an ordinary instant");
    assert_eq!(Timestamp::parse(stamp.as_str()), Some(stamp.timestamp()));
}

#[test]
fn parse_rejects_what_is_no_date() {
    assert_eq!(Timestamp::parse(""), None);
    assert_eq!(Timestamp::parse("2023-11-14"), None);
    assert_eq!(Timestamp::parse("2023-13-40T00:00:00Z"), None);
    assert_eq!(Timestamp::parse("1970-01-01T00:00:00Z"), Some(at(0)));
    assert_eq!(Timestamp::parse("1969-12-31T23:59:59Z"), Some(at(-1)));
}

fn chrono_minutes(now: Timestamp, then: Timestamp) -> i64 {
    let now = chrono::DateTime::from_timestamp(now.secs, now.nanos).unwrap();
    let then = chrono::DateTime::from_timestamp(then.secs, then.nanos).unwrap();
    now.signed_duration_since(then).num_minutes()
}

fn chrono_nanos(now: Timestamp, then: Timestamp) -> i128 {
    let now = chrono::DateTime::from_timestamp(now.secs, now.nanos).unwrap();
    let then = chrono::DateTime::from_timestamp(then.secs, then.nanos).unwrap();
    let delta = now.signed_duration_since(then);
    delta.num_seconds() as i128 * 1_000_000_000 + delta.subsec_nanos() as i128
}

#[test]
fn elapsed_agrees_with_chrono() {
    let instants = [
        Timestamp { secs: 0, nanos: 0 },
        Timestamp { secs: -1, nanos: 999_999_999 },
        Timestamp { secs: -86_401, nanos: 5 },
        Timestamp { secs: 59, nanos: 1_500_000_000 },
        Timestamp { secs: 86_399, nanos: 1_000_000_000 },
        Timestamp { secs: 86_399, nanos: 1_999_999_999 },
        Timestamp { secs: 86_400, nanos: 0 },
        Timestamp { secs: 86_400 + 600, nanos: 0 },
        Timestamp { secs: 86_400 + 599, nanos: 999_999_999 },
        Timestamp { secs: NOON, nanos: 0 },
        Timestamp { secs: NOON + 599, nanos: 1 },
        Timestamp { secs: NOON + 600, nanos: 0 },
        Timestamp { secs: NOON - 600, nanos: 1 },
        Timestamp { secs: 1_719_791_999, nanos: 1_250_000_000 },
        Timestamp { secs: 1_719_792_000 + 598, nanos: 500_000_000 },
        Timestamp { secs: 1_719_792_000 + 599, nanos: 250_000_000 },
    ];
    for now in instants {
        for then in instants {
            assert_eq!(elapsed(now, then), chrono_nanos(now, then), "{:?} since {:?}", now, then);
            assert_eq!(
                entry_due(false, CacheEntry::SyncedAt(then), now),
                chrono_minutes(now, then) >= 10,
                "{:?} since {:?}",
                now,
                then
            );
        }
    }
}
