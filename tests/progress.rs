use ocr_subtitles::progress::{parse_u64, FfmpegProgressTracker};

const SECOND_NS: u64 = 1_000_000_000;

#[test]
fn tracker_parses_out_time_us_and_computes_progress() {
    let mut tracker = FfmpegProgressTracker::new(Some(1_000_000));
    let update = tracker.handle_line("out_time_us=500000").expect("progress update should exist");
    assert_eq!(update.progress, Some(50));
    assert!(!update.is_end);
}

#[test]
fn tracker_clamps_running_progress_and_sets_100_on_end() {
    let mut tracker = FfmpegProgressTracker::new(Some(1_000_000));
    let running = tracker.handle_line("out_time_us=5000000").expect("running progress should exist");
    assert_eq!(running.progress, Some(99));

    let finished = tracker.handle_line("progress=end").expect("end progress should exist");
    assert_eq!(finished.progress, Some(100));
    assert!(finished.is_end);
}

#[test]
fn tracker_calculates_smoothed_speed_with_ema() {
    let mut tracker = FfmpegProgressTracker::new(Some(1_000_000));

    tracker.update_speed(1_000_000, SECOND_NS);
    assert!(tracker.smoothed_speed_bytes_per_sec.is_none());

    tracker.update_speed(2_000_000, 2 * SECOND_NS);
    let first_speed = tracker.smoothed_speed_bytes_per_sec.expect("speed should be available after second sample");
    assert_eq!(first_speed, 1_000_000);

    tracker.update_speed(4_000_000, 3 * SECOND_NS);
    let second_speed = tracker.smoothed_speed_bytes_per_sec.expect("speed should remain available");
    assert_eq!(second_speed, 1_250_000);
}

#[test]
fn tracker_ignores_non_positive_speed_samples() {
    let mut tracker = FfmpegProgressTracker::new(None);
    tracker.update_speed(2_000, SECOND_NS);
    tracker.update_speed(2_000, 2 * SECOND_NS);
    assert!(tracker.smoothed_speed_bytes_per_sec.is_none());
}

#[test]
fn tracker_emits_speed_update_from_total_size_without_duration() {
    let mut tracker = FfmpegProgressTracker::new(None);

    let first = tracker.handle_line("total_size=1000000");
    assert!(first.is_none());

    let second = tracker.handle_line("total_size=2000000").expect("speed update should be emitted");
    assert_eq!(second.progress, None);
    assert!(second.speed_bytes_per_sec.is_some());
    assert!(!second.is_end);
}

#[test]
fn tracker_without_duration_reports_no_percentage() {
    let mut tracker = FfmpegProgressTracker::new(Some(0));
    let update = tracker.handle_line("out_time_us=10").expect("update should exist");
    assert_eq!(update.progress, None);
    assert!(tracker.handle_line("frame=12").is_none());
    assert!(tracker.handle_line("out_time_us=abc").is_none());
}

#[test]
fn parse_u64_reads_plain_decimal_numbers() {
    assert_eq!(parse_u64("123456"), Some(123_456));
    assert_eq!(parse_u64("+7"), Some(7));
    assert_eq!(parse_u64("18446744073709551615"), Some(u64::MAX));
    assert_eq!(parse_u64("18446744073709551616"), None);
    assert_eq!(parse_u64(""), None);
    assert_eq!(parse_u64("+"), None);
    assert_eq!(parse_u64("-1"), None);
    assert_eq!(parse_u64("12a"), None);
}
