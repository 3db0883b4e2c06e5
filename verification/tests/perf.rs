use godot_vim::perf::{FrameMetrics, Microseconds, PerfTracker};
fn us(val: u64) -> Microseconds {
    Microseconds(val)
}

#[test]
fn empty_tracker_returns_zeros() {
    let tracker = PerfTracker::new(100, us(2000));
    assert_eq!(tracker.percentiles(), (us(0), us(0), us(0), us(0)));
}

#[test]
fn single_frame() {
    let mut tracker = PerfTracker::new(100, us(2000));
    tracker.record(FrameMetrics {
        total_us: us(500),
        ..Default::default()
    });
    let (p50, _, _, max) = tracker.percentiles();
    assert_eq!(p50, us(500));
    assert_eq!(max, us(500));
}

#[test]
fn ring_buffer_wraps() {
    let mut tracker = PerfTracker::new(3, us(2000));
    tracker.record(FrameMetrics {
        total_us: us(100),
        ..Default::default()
    });
    tracker.record(FrameMetrics {
        total_us: us(200),
        ..Default::default()
    });
    tracker.record(FrameMetrics {
        total_us: us(300),
        ..Default::default()
    });
    tracker.record(FrameMetrics {
        total_us: us(400),
        ..Default::default()
    });
    // Capacity 3, so oldest (100) was overwritten
    assert_eq!(tracker.count, 3);
    let (_, _, _, max) = tracker.percentiles();
    assert_eq!(max, us(400));
}

#[test]
fn reset_clears() {
    let mut tracker = PerfTracker::new(100, us(2000));
    tracker.record(FrameMetrics {
        total_us: us(500),
        ..Default::default()
    });
    tracker.reset();
    assert_eq!(tracker.percentiles(), (us(0), us(0), us(0), us(0)));
}

#[test]
fn format_report_includes_stats() {
    let mut tracker = PerfTracker::new(100, us(2000));
    tracker.record(FrameMetrics {
        total_us: us(500),
        ..Default::default()
    });
    let report = tracker.format_report();
    assert!(report.contains(":perf"));
    assert!(report.contains("500us"));
}
