use idm_core::progress::ProgressTracker;
use idm_core::queue::{QueueItem, TaskQueue};
use idm_core::segment::{build_segments, calculate_smart_concurrency, Segment, SegmentStatus};
use idm_core::stop::StopSignal;
use idm_core::task::{TaskId, TaskStatus};
use idm_core::throttle::{Throttle, ThrottleState};
use idm_core::transfer::{
    finalize_status, join_errors, plan_segments, response_status_ok, segment_request,
};

#[test]
fn smart_concurrency_brackets() {
    assert_eq!(calculate_smart_concurrency(0), 1);
    assert_eq!(calculate_smart_concurrency(20 * 1024 * 1024), 1);
    assert_eq!(calculate_smart_concurrency(20 * 1024 * 1024 + 1), 4);
    assert_eq!(calculate_smart_concurrency(200 * 1024 * 1024), 4);
    assert_eq!(calculate_smart_concurrency(200 * 1024 * 1024 + 1), 8);
    assert_eq!(calculate_smart_concurrency(2048 * 1024 * 1024), 8);
    assert_eq!(calculate_smart_concurrency(2048 * 1024 * 1024 + 1), 16);
}

#[test]
fn build_segments_zero_total_is_one_placeholder() {
    let segs = build_segments(0, 8, 1);
    assert_eq!(segs.len(), 1);
    assert_eq!(segs[0].range_start, 0);
    assert_eq!(segs[0].range_end, 0);
    assert_eq!(segs[0].status, SegmentStatus::Pending);
}

#[test]
fn build_segments_partitions_exactly() {
    // 300 MiB suggests eight connections; the configured cap of three wins
    let total: u64 = 300 * 1024 * 1024;
    let segs = build_segments(total, 3, 1);
    assert_eq!(segs.len(), 3);
    assert_eq!(segs[0].range_start, 0);
    let mut covered: u64 = 0;
    for (i, s) in segs.iter().enumerate() {
        assert_eq!(s.index as usize, i);
        assert!(s.range_start <= s.range_end);
        if i > 0 {
            assert_eq!(s.range_start, segs[i - 1].range_end + 1);
        }
        covered += s.range_end - s.range_start + 1;
        assert_eq!(s.downloaded_bytes, 0);
    }
    assert_eq!(covered, total);
    assert_eq!(segs[2].range_end, total - 1);
}

#[test]
fn build_segments_respects_min_size() {
    // 30 MiB suggests four connections, but 16 MiB minimum allows one
    let total: u64 = 30 * 1024 * 1024;
    let segs = build_segments(total, 8, 16 * 1024 * 1024);
    assert_eq!(segs.len(), 1);
    assert_eq!(segs[0].range_end, total - 1);
    // and a tiny file smaller than the minimum still gets one segment
    let tiny = build_segments(100, 8, 1024);
    assert_eq!(tiny.len(), 1);
}

#[test]
fn build_segments_distributes_remainder() {
    let total: u64 = 100 * 1024 * 1024 + 3;
    let segs = build_segments(total, 4, 1);
    assert_eq!(segs.len(), 4);
    let base = total / 4;
    for (i, s) in segs.iter().enumerate() {
        let size = s.range_end - s.range_start + 1;
        if (i as u64) < total % 4 {
            assert_eq!(size, base + 1);
        } else {
            assert_eq!(size, base);
        }
    }
}

#[test]
fn queue_pops_in_lexicographic_order() {
    let mut q = TaskQueue::new();
    q.push(QueueItem::with_time(TaskId::from_bits(1), 0, 100));
    q.push(QueueItem::with_time(TaskId::from_bits(2), 5, 200));
    q.push(QueueItem::with_time(TaskId::from_bits(3), 5, 150));
    q.push(QueueItem::with_time(TaskId::from_bits(5), 5, 150));
    q.push(QueueItem::with_time(TaskId::from_bits(4), -1, 50));
    assert_eq!(q.len(), 5);

    // highest priority first; ties by earlier insertion, then smaller id
    assert_eq!(q.pop().unwrap().id, TaskId::from_bits(3));
    assert_eq!(q.pop().unwrap().id, TaskId::from_bits(5));
    assert_eq!(q.pop().unwrap().id, TaskId::from_bits(2));
    assert_eq!(q.pop().unwrap().id, TaskId::from_bits(1));
    assert_eq!(q.pop().unwrap().id, TaskId::from_bits(4));
    assert!(q.pop().is_none());
    assert!(q.is_empty());
}

#[test]
fn throttle_owes_expected_minus_elapsed() {
    let mut state = ThrottleState::new(1000);
    // 500 bytes at 1000 B/s is 500 ms of expected pace
    assert_eq!(state.reserve_sleep(500, 0), 500);
    // 250 ms late into the next 500 bytes: a full second is expected
    assert_eq!(state.reserve_sleep(500, 250), 750);
    // far behind the clock: nothing is owed
    assert_eq!(state.reserve_sleep(0, 10_000), 0);
}

#[test]
fn throttle_zero_limit_never_sleeps() {
    let mut state = ThrottleState::new(0);
    assert_eq!(state.reserve_sleep(1_000_000, 0), 0);
}

#[test]
fn throttle_pair_takes_the_longer_sleep() {
    let mut t = Throttle::new(Some(1000), Some(500));
    // 500 bytes: global expects 500 ms, per-task expects 1000 ms
    let sleep = t.throttle(500, 0, 0);
    assert_eq!(sleep, 1000);
    let mut none = Throttle::new(None, None);
    assert_eq!(none.throttle(12345, 0, 0), 0);
}

#[test]
fn tracker_keeps_aggregate_equal_to_sum() {
    let segs = build_segments(10, 1, 1);
    let mut tracker = ProgressTracker::new(segs, 0, 4, 3);
    let credited = tracker.add_bytes(0, 6, true);
    assert_eq!(credited, 6);
    assert_eq!(tracker.downloaded, 6);
    assert_eq!(tracker.segments[0].downloaded_bytes, 6);
    // clamped at the segment size
    let credited = tracker.add_bytes(0, 100, true);
    assert_eq!(credited, 4);
    assert_eq!(tracker.downloaded, 10);
    assert_eq!(tracker.segments[0].downloaded_bytes, 10);
}

#[test]
fn tracker_watermarks_fire_once() {
    let segs = build_segments(100, 1, 1);
    let mut tracker = ProgressTracker::new(segs, 0, 10, 5);
    tracker.add_bytes(0, 9, true);
    assert!(!tracker.take_flush_due());
    assert!(tracker.take_status_check_due());
    assert!(!tracker.take_status_check_due());
    tracker.add_bytes(0, 1, true);
    assert!(tracker.take_flush_due());
    assert!(!tracker.take_flush_due());
}

#[test]
fn plan_keeps_valid_persisted_segments() {
    let total: u64 = 300 * 1024 * 1024;
    let mut persisted = build_segments(total, 3, 1);
    persisted[0].downloaded_bytes = 1234;
    persisted[1].status = SegmentStatus::Active;
    persisted[2].downloaded_bytes = persisted[2].range_end - persisted[2].range_start + 1;
    let planned = plan_segments(persisted.clone(), total, true, 3, 1);
    assert_eq!(planned.len(), 3);
    // no byte regresses on resume
    assert_eq!(planned[0].downloaded_bytes, 1234);
    // a leftover active segment returns to pending
    assert_eq!(planned[1].status, SegmentStatus::Pending);
    // a finished segment is recognized as completed
    assert_eq!(planned[2].status, SegmentStatus::Completed);
}

#[test]
fn plan_rebuilds_when_coverage_changed() {
    let persisted = build_segments(1000, 3, 1);
    let planned = plan_segments(persisted, 2000, true, 3, 1);
    // the old plan covered [0, 999]; a new total forces a rebuild
    assert_eq!(planned.last().unwrap().range_end, 1999);
    for s in &planned {
        assert_eq!(s.downloaded_bytes, 0);
    }
}

#[test]
fn plan_single_segment_without_ranges() {
    let planned = plan_segments(Vec::new(), 10, false, 8, 1);
    assert_eq!(planned.len(), 1);
    assert_eq!(planned[0].range_start, 0);
    assert_eq!(planned[0].range_end, 9);
    let unknown = plan_segments(Vec::new(), 0, false, 8, 1);
    assert_eq!(unknown.len(), 1);
    assert_eq!(unknown[0].range_end, 0);
}

#[test]
fn segment_request_resumes_mid_range() {
    let mut seg = Segment::new(1, 100, 199);
    seg.downloaded_bytes = 40;
    let plan = segment_request(&seg, 1000).expect("not yet done");
    assert_eq!(plan, (true, 140, 199));
    seg.downloaded_bytes = 100;
    assert!(segment_request(&seg, 1000).is_none());
    let whole = Segment::new(0, 0, 0);
    assert_eq!(segment_request(&whole, 0).unwrap(), (false, 0, 0));
}

#[test]
fn response_validation_distinguishes_modes() {
    assert!(response_status_ok(true, 206).is_ok());
    assert!(response_status_ok(true, 200).is_err());
    assert!(response_status_ok(false, 200).is_ok());
    assert!(response_status_ok(false, 206).is_ok());
    assert!(response_status_ok(false, 404).is_err());
    let err = response_status_ok(true, 404).unwrap_err();
    assert_eq!(err.message(), "network error: range not supported (status 404)");
}

#[test]
fn stop_signal_first_writer_wins() {
    let mut flag = StopSignal::Clear;
    assert!(!flag.is_set());
    flag.upgrade(StopSignal::Paused);
    assert_eq!(flag, StopSignal::Paused);
    flag.upgrade(StopSignal::Canceled);
    assert_eq!(flag, StopSignal::Paused);
    assert!(flag.is_set());
}

#[test]
fn finalize_maps_stop_and_checksum() {
    assert_eq!(finalize_status(StopSignal::Paused, None).0, TaskStatus::Paused);
    assert_eq!(finalize_status(StopSignal::Canceled, None).0, TaskStatus::Canceled);
    assert_eq!(finalize_status(StopSignal::Failed, None).0, TaskStatus::Failed);
    let done = finalize_status(StopSignal::Clear, Some(true));
    assert_eq!(done.0, TaskStatus::Completed);
    assert!(done.1.is_none());
    let mismatch = finalize_status(StopSignal::Clear, Some(false));
    assert_eq!(mismatch.0, TaskStatus::Failed);
    assert_eq!(mismatch.1.unwrap(), "checksum mismatch");
}

#[test]
fn failed_segment_errors_join_with_semicolons() {
    let errors = vec!["first broke".to_string(), "second broke".to_string()];
    assert_eq!(join_errors(&errors), "first broke; second broke");
    let one = vec!["only".to_string()];
    assert_eq!(join_errors(&one), "only");
    let none: Vec<String> = Vec::new();
    assert_eq!(join_errors(&none), "");
}
