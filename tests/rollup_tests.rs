use chrono::{TimeZone, Utc};
use vaportrail::policy::{
    default_policies, retention_actions, rollup_ladder, rollup_steps, select_window, validate_retention_policies,
    RetentionAction, RetentionPolicy,
};
use vaportrail::rollup::{plan_rollup_windows, split_raw_latencies, sum_timeouts};
use vaportrail::sample::{Latency, RawSample};
use vaportrail::time::{truncate_to_window, Timestamp};
use vaportrail::writer::{BatchBuffer, WriterEvent};

fn at(h: u32, m: u32, s: u32) -> Timestamp {
    Timestamp::from_secs(Utc.with_ymd_and_hms(2024, 1, 1, h, m, s).unwrap().timestamp())
}

fn pol(window: i32) -> RetentionPolicy {
    RetentionPolicy { window, retention: 86400 }
}

#[test]
fn test_truncate_to_window() {
    let dt = at(12, 34, 56);
    assert_eq!(truncate_to_window(dt, 60), at(12, 34, 0));
    assert_eq!(truncate_to_window(dt, 300), at(12, 30, 0));
    assert_eq!(truncate_to_window(dt, 3600), at(12, 0, 0));
}

#[test]
fn clock_readings_are_clamped() {
    assert_eq!(Timestamp::clamped(5, 1_500_000_000), Timestamp::new(5, 999_999_999));
    assert_eq!(Timestamp::clamped(i64::MIN, 3), Timestamp::new(-100_000_000_000_000, 3));
    assert_eq!(Timestamp::clamped(i64::MAX, 0).secs, 100_000_000_000_000);
    assert_eq!(Timestamp::clamped(-7, 42), Timestamp::new(-7, 42));
}

#[test]
fn truncate_drops_nanos_and_floors_negatives() {
    let t = Timestamp::new(125, 999_999_999);
    assert_eq!(truncate_to_window(t, 60), Timestamp::new(120, 0));
    assert_eq!(truncate_to_window(Timestamp::new(-1, 5), 60), Timestamp::new(-60, 0));
    assert_eq!(truncate_to_window(Timestamp::new(-60, 0), 60), Timestamp::new(-60, 0));
    for secs in [-7i64, 0, 1, 59, 60, 61, 1_704_112_496] {
        for w in [1i32, 7, 60, 86400] {
            let r = truncate_to_window(Timestamp::new(secs, 3), w);
            assert_eq!(r.secs.rem_euclid(w as i64), 0);
            assert!(r.secs <= secs && secs < r.secs + w as i64);
        }
    }
}

#[test]
fn test_validate_retention_policies() {
    let valid = vec![
        RetentionPolicy { window: 0, retention: 86400 },
        RetentionPolicy { window: 60, retention: 2592000 },
        RetentionPolicy { window: 300, retention: 31536000 },
    ];
    assert!(validate_retention_policies(&valid).is_ok());

    let invalid = vec![
        RetentionPolicy { window: 60, retention: 86400 },
        RetentionPolicy { window: 90, retention: 86400 },
    ];
    assert!(validate_retention_policies(&invalid).is_err());

    let negative = vec![RetentionPolicy { window: -1, retention: 86400 }];
    assert!(validate_retention_policies(&negative).is_err());
}

#[test]
fn retention_validation_scenarios() {
    assert!(validate_retention_policies(&[pol(0), pol(60), pol(300), pol(3600)]).is_ok());
    assert!(validate_retention_policies(&[pol(3600), pol(0), pol(300), pol(60)]).is_ok());
    assert!(validate_retention_policies(&[pol(60), pol(60), pol(120)]).is_ok());
    assert!(validate_retention_policies(&[]).is_ok());
    assert_eq!(
        validate_retention_policies(&[pol(90), pol(60)]).unwrap_err(),
        "window 90 is not a multiple of smaller window 60"
    );
    assert_eq!(
        validate_retention_policies(&[pol(60), pol(-1)]).unwrap_err(),
        "retention window cannot be negative"
    );
    assert!(validate_retention_policies(&[pol(60), pol(120), pol(180)]).is_err());
}

#[test]
fn test_default_policies() {
    let policies = default_policies();
    assert!(!policies.is_empty());
    assert!(policies.iter().any(|p| p.window == 0));
    assert!(policies.iter().any(|p| p.window == 60));
    assert!(validate_retention_policies(&policies).is_ok());
}

#[test]
fn ladder_and_steps() {
    let ps = [pol(3600), pol(0), pol(60), pol(300), pol(60)];
    assert_eq!(rollup_ladder(&ps), vec![60, 300, 3600]);
    assert_eq!(rollup_steps(&ps), vec![(60, 0), (300, 60), (3600, 300)]);
    assert!(rollup_steps(&[pol(0)]).is_empty());
}

#[test]
fn window_selection() {
    let ps = default_policies();
    assert_eq!(select_window(&ps, 3600), 60);
    assert_eq!(select_window(&ps, 200 * 300), 300);
    assert_eq!(select_window(&ps, 200 * 300 - 1), 60);
    assert_eq!(select_window(&ps, 86400 * 365), 86400);
    assert_eq!(select_window(&ps, -5), 60);
    assert_eq!(select_window(&[pol(0), pol(300)], 10), 300);
    assert_eq!(select_window(&[pol(0)], 1_000_000), 60);
}

#[test]
fn retention_cutoffs() {
    let now = Timestamp::new(1_000_000, 7);
    let ps = [RetentionPolicy { window: 0, retention: 604800 }, RetentionPolicy { window: 60, retention: 100 }];
    assert_eq!(
        retention_actions(&ps, now),
        vec![
            RetentionAction::DeleteRawBefore(Timestamp::new(1_000_000 - 604800, 7)),
            RetentionAction::DeleteAggregatedBefore(60, Timestamp::new(999_900, 7)),
        ]
    );
    let huge = [RetentionPolicy { window: 0, retention: i64::MAX }];
    assert_eq!(retention_actions(&huge, Timestamp::new(-10, 0)), vec![RetentionAction::DeleteRawBefore(Timestamp::new(i64::MIN, 0))]);
}

#[test]
fn first_rollup_window() {
    let earliest = at(12, 34, 17);
    let plan = plan_rollup_windows(None, Some(earliest), 60, at(12, 35, 8), 5_000_000_000);
    assert_eq!(plan, vec![at(12, 34, 0).secs]);
    let later = plan_rollup_windows(None, Some(earliest), 60, at(12, 37, 30), 5_000_000_000);
    assert_eq!(later, vec![at(12, 34, 0).secs, at(12, 35, 0).secs, at(12, 36, 0).secs]);
}

#[test]
fn safety_cutoff_holds_back_open_window() {
    let earliest = at(12, 34, 17);
    assert!(plan_rollup_windows(None, Some(earliest), 60, at(12, 35, 2), 5_000_000_000).is_empty());
    assert!(plan_rollup_windows(None, Some(earliest), 60, Timestamp::new(at(12, 35, 7).secs, 999_999_999), 5_000_000_000).is_empty());
    assert_eq!(plan_rollup_windows(None, Some(earliest), 60, at(12, 35, 8), 5_000_000_000).len(), 1);
}

#[test]
fn fractional_timeout_counts_to_the_nanosecond() {
    let earliest = Some(at(12, 34, 17));
    let t = 2_500_000_000u64;
    assert!(plan_rollup_windows(None, earliest, 60, at(12, 35, 5), t).is_empty());
    assert!(plan_rollup_windows(None, earliest, 60, Timestamp::new(at(12, 35, 5).secs, 499_999_999), t).is_empty());
    assert_eq!(plan_rollup_windows(None, earliest, 60, Timestamp::new(at(12, 35, 5).secs, 500_000_000), t), vec![at(12, 34, 0).secs]);
}

#[test]
fn rollup_resumes_after_last_tile() {
    let last = at(12, 0, 0).secs;
    let plan = plan_rollup_windows(Some(last), None, 300, at(12, 20, 0), 5_000_000_000);
    assert_eq!(plan, vec![at(12, 5, 0).secs, at(12, 10, 0).secs]);
    assert!(plan_rollup_windows(None, None, 60, at(12, 20, 0), 5_000_000_000).is_empty());
}

#[test]
fn rollup_twice_is_idempotent_and_monotone() {
    let now = at(13, 0, 0);
    let earliest = Some(at(12, 34, 17));
    let first = plan_rollup_windows(None, earliest, 60, now, 5_000_000_000);
    assert!(!first.is_empty());
    let last = *first.last().unwrap();
    let second = plan_rollup_windows(Some(last), earliest, 60, now, 5_000_000_000);
    assert!(second.is_empty());
    let same_minute = plan_rollup_windows(Some(last), earliest, 60, Timestamp::new(now.secs + 4, 999_999_999), 5_000_000_000);
    assert!(same_minute.is_empty());
    let later = plan_rollup_windows(Some(last), earliest, 60, at(13, 5, 0), 5_000_000_000);
    assert!(later.iter().all(|t| *t > last));
}

#[test]
fn timeouts_are_counted_apart() {
    let t = at(12, 34, 1);
    let samples = vec![
        RawSample { time: t, target_id: 1, latency: Latency::Timeout },
        RawSample { time: t, target_id: 1, latency: Latency::Nanos(10) },
        RawSample { time: t, target_id: 1, latency: Latency::Timeout },
        RawSample { time: t, target_id: 1, latency: Latency::Nanos(30) },
    ];
    assert_eq!(split_raw_latencies(&samples), (2, vec![10, 30]));
    let only_timeouts = vec![RawSample { time: t, target_id: 1, latency: Latency::Timeout }];
    assert_eq!(split_raw_latencies(&only_timeouts), (1, vec![]));
    assert_eq!(sum_timeouts(&vec![1, 2, 3]), 6);
    assert_eq!(sum_timeouts(&vec![i64::MAX, 1]), i64::MAX);
    assert_eq!(sum_timeouts(&vec![]), 0);
}

#[test]
fn batch_buffer_flushes_by_size_tick_and_close() {
    let mut b = BatchBuffer::new();
    let s = RawSample { time: Timestamp::new(1, 0), target_id: 1, latency: Latency::Nanos(5) };
    assert!(b.handle(WriterEvent::Tick).is_none());
    for _ in 0..499 {
        assert!(b.handle(WriterEvent::Received(s)).is_none());
    }
    let batch = b.handle(WriterEvent::Received(s)).unwrap();
    assert_eq!(batch.len(), 500);
    assert_eq!(b.pending_len(), 0);
    b.handle(WriterEvent::Received(s));
    assert_eq!(b.handle(WriterEvent::Tick).unwrap().len(), 1);
    b.handle(WriterEvent::Received(s));
    b.handle(WriterEvent::Received(s));
    assert_eq!(b.handle(WriterEvent::Closed).unwrap().len(), 2);
    assert!(b.handle(WriterEvent::Closed).is_none());
}
