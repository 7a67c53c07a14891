use idm_core::progress::{sum_downloaded, ProgressTracker};
use idm_core::segment::SegmentStatus;
use idm_core::stop::StopSignal;
use idm_core::task::TaskStatus;
use idm_core::transfer::{finalize_status, plan_segments, segment_request};

/// A small file without range support: one segment covering the whole
/// body, every byte accounted for, and a clean completion.
#[test]
fn small_file_without_ranges_completes() {
    let segments = plan_segments(Vec::new(), 10, false, 8, 2 * 1024 * 1024);
    assert_eq!(segments.len(), 1);
    assert_eq!(segments[0].range_start, 0);
    assert_eq!(segments[0].range_end, 9);

    let mut tracker = ProgressTracker::new(segments, 0, 1024 * 1024, 512 * 1024);
    let plan = segment_request(&tracker.segments[0], 10).expect("pending work");
    assert_eq!(plan, (true, 0, 9));

    // the body arrives as one ten-byte chunk
    let credited = tracker.add_bytes(0, 10, true);
    assert_eq!(credited, 10);
    tracker.set_status(0, SegmentStatus::Completed);
    assert!(segment_request(&tracker.segments[0], 10).is_none());
    assert_eq!(tracker.downloaded, 10);
    assert_eq!(sum_downloaded(&tracker.segments), 10);

    let (status, error) = finalize_status(StopSignal::Clear, None);
    assert_eq!(status, TaskStatus::Completed);
    assert!(error.is_none());
}

/// A pause mid-transfer: the worker observes the signal within one
/// status-check interval, stops without completing the segment, and the
/// persisted aggregate equals the per-segment sum; the later resume keeps
/// every byte.
#[test]
fn pause_then_resume_keeps_bytes() {
    let total: u64 = 1024 * 1024;
    let segments = plan_segments(Vec::new(), total, false, 1, 2 * 1024 * 1024);
    assert_eq!(segments.len(), 1);
    let mut tracker = ProgressTracker::new(segments, 0, 1024 * 1024, 512 * 1024);
    let mut stop = StopSignal::Clear;

    // 300 KiB arrive in 64 KiB chunks before the user pauses
    let chunk: u64 = 64 * 1024;
    let mut received: u64 = 0;
    while received < 300 * 1024 {
        tracker.add_bytes(0, chunk, true);
        received += chunk;
        if tracker.take_status_check_due() {
            stop.upgrade(StopSignal::Paused);
        }
    }
    // the pause lands within one further status-check interval
    while !stop.is_set() {
        tracker.add_bytes(0, chunk, true);
        received += chunk;
        if tracker.take_status_check_due() {
            stop.upgrade(StopSignal::Paused);
        }
        assert!(received <= 300 * 1024 + 512 * 1024 + chunk);
    }

    let (status, _) = finalize_status(stop, None);
    assert_eq!(status, TaskStatus::Paused);
    assert_eq!(tracker.downloaded, sum_downloaded(&tracker.segments));
    assert_eq!(tracker.downloaded, received);

    // resume: the persisted segments come back unchanged, nothing regresses
    let resumed = plan_segments(tracker.segments.clone(), total, false, 1, 2 * 1024 * 1024);
    assert_eq!(resumed[0].downloaded_bytes, received);
    assert_eq!(resumed[0].status, SegmentStatus::Pending);
    let plan = segment_request(&resumed[0], total).expect("work remains");
    assert_eq!(plan, (true, received, total - 1));

    // the remainder arrives and the task completes
    let mut tracker = ProgressTracker::new(resumed, received, 1024 * 1024, 512 * 1024);
    tracker.add_bytes(0, total - received, true);
    assert_eq!(tracker.downloaded, total);
    let (status, error) = finalize_status(StopSignal::Clear, None);
    assert_eq!(status, TaskStatus::Completed);
    assert!(error.is_none());
}

/// A failed worker joins its errors; a checksum mismatch after a clean
/// transfer fails the task with the fixed text.
#[test]
fn failure_paths_carry_errors() {
    let (status, error) = finalize_status(StopSignal::Failed, None);
    assert_eq!(status, TaskStatus::Failed);
    assert!(error.is_none());
    let (status, error) = finalize_status(StopSignal::Clear, Some(false));
    assert_eq!(status, TaskStatus::Failed);
    assert_eq!(error.as_deref(), Some("checksum mismatch"));
}
