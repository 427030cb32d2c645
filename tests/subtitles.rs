use ocr_subtitles::model::{OcrError, OcrFrameResult, OcrSubtitleCleanupOptions, OcrSubtitleEntry};
use ocr_subtitles::selector::{select_segment_text, SegmentCandidate};
use ocr_subtitles::cleanup::infer_frame_step_ms;
use ocr_subtitles::subtitles::generate_subtitles_core;

fn cand(key: &str, text: &str, confidence: u32) -> SegmentCandidate {
    SegmentCandidate { key: key.to_string(), text: text.to_string(), confidence }
}

fn run(frames: &[OcrFrameResult], fps_milli: i64, min_confidence: u32, cleanup: OcrSubtitleCleanupOptions) -> Vec<OcrSubtitleEntry> {
    generate_subtitles_core(frames, fps_milli, min_confidence, cleanup, |_current, _total| {}).expect("subtitle generation should succeed")
}

#[test]
fn select_segment_text_prefers_highest_confidence_candidate() {
    let candidates = vec![cand("hello", "hello", 820_000), cand("hello", "hello!", 950_000), cand("hullo", "hullo", 900_000)];
    let selected = select_segment_text(&candidates).expect("candidate should be selected");
    assert_eq!(selected.0, "hello!");
    assert_eq!(selected.1, 950_000);
}

#[test]
fn select_segment_text_prefers_longest_when_confidence_is_close() {
    let candidates = vec![cand("关门", "关门", 961_000), cand("关", "关", 995_000), cand("关门", "关门", 994_000)];
    let selected = select_segment_text(&candidates).expect("candidate should be selected");
    assert_eq!(selected.0, "关门");
}

#[test]
fn select_segment_text_prefers_frequent_when_confidence_is_close() {
    let candidates = vec![cand("A", "A", 950_000), cand("A", "A", 950_000), cand("A", "A", 950_000), cand("B", "B", 960_000)];
    let selected = select_segment_text(&candidates).expect("candidate should be selected");
    assert_eq!(selected.0, "A");
}

#[test]
fn select_segment_text_of_no_candidates_is_none() {
    assert!(select_segment_text(&[]).is_none());
}

#[test]
fn select_segment_text_breaks_score_ties_by_first_group() {
    let candidates = vec![cand("b", "B", 900_000), cand("a", "A", 900_000)];
    let selected = select_segment_text(&candidates).expect("candidate should be selected");
    assert_eq!(selected, ("B".to_string(), 900_000));
}

#[test]
fn generate_subtitles_merges_similar_adjacent_frames() {
    let frames = vec![OcrFrameResult { frame_index: 0, time_ms: 0, text: "Hello world".to_string(), confidence: 920000 }, OcrFrameResult { frame_index: 1, time_ms: 500, text: "Hello world".to_string(), confidence: 930000 }, OcrFrameResult { frame_index: 2, time_ms: 1000, text: "Hello world".to_string(), confidence: 940000 }];
    let subtitles = run(&frames, 2_000, 500_000, OcrSubtitleCleanupOptions::default());
    assert_eq!(subtitles.len(), 1);
    assert_eq!(subtitles[0].id, "sub-1");
    assert_eq!(subtitles[0].start_time, 0);
    assert!(subtitles[0].text.to_lowercase().contains("hello"));
    assert!(subtitles[0].end_time > subtitles[0].start_time);
}

#[test]
fn generate_subtitles_uses_time_ms_for_end_time_when_fps_is_wrong() {
    let frames = vec![OcrFrameResult { frame_index: 0, time_ms: 0, text: "Timing test".to_string(), confidence: 950000 }, OcrFrameResult { frame_index: 1, time_ms: 67, text: "Timing test".to_string(), confidence: 950000 }, OcrFrameResult { frame_index: 2, time_ms: 133, text: "Timing test".to_string(), confidence: 950000 }];
    let subtitles = run(&frames, 10_000, 500_000, OcrSubtitleCleanupOptions::default());
    assert_eq!(subtitles.len(), 1);
    assert_eq!(subtitles[0].start_time, 0);
    assert_eq!(subtitles[0].end_time, 200);
}

#[test]
fn generate_subtitles_falls_back_to_fps_when_time_deltas_are_unusable() {
    let frames = vec![OcrFrameResult { frame_index: 0, time_ms: 0, text: "Fallback timing".to_string(), confidence: 950000 }, OcrFrameResult { frame_index: 1, time_ms: 0, text: "Fallback timing".to_string(), confidence: 950000 }, OcrFrameResult { frame_index: 2, time_ms: 0, text: "Fallback timing".to_string(), confidence: 950000 }];
    let subtitles = run(&frames, 10_000, 500_000, OcrSubtitleCleanupOptions::default());
    assert_eq!(subtitles.len(), 1);
    assert_eq!(subtitles[0].start_time, 0);
    assert_eq!(subtitles[0].end_time, 300);
}

#[test]
fn generate_subtitles_ignores_isolated_anomalous_frames() {
    let frames = vec![OcrFrameResult { frame_index: 0, time_ms: 0, text: "Je suis une longue phrase".to_string(), confidence: 950000 }, OcrFrameResult { frame_index: 1, time_ms: 500, text: "Je su1s unel0ngu phrase".to_string(), confidence: 960000 }, OcrFrameResult { frame_index: 2, time_ms: 1000, text: "Je suis une longue phrase".to_string(), confidence: 950000 }];
    let subtitles = run(&frames, 2_000, 500_000, OcrSubtitleCleanupOptions { merge_similar: true, similarity_threshold: 950000, max_gap_ms: 1000, min_cue_duration_ms: 500, filter_url_like: false });
    assert_eq!(subtitles.len(), 1);
    assert_eq!(subtitles[0].start_time, 0);
    assert!(subtitles[0].end_time >= 1000);
    assert_eq!(subtitles[0].end_time, 1500);
    assert_eq!(subtitles[0].text, "Je suis une longue phrase");
}

#[test]
fn generate_subtitles_aba_blip_does_not_extend_past_last_matching_frame() {
    let frames = vec![OcrFrameResult { frame_index: 0, time_ms: 0, text: "Je suis une longue phrase".to_string(), confidence: 950000 }, OcrFrameResult { frame_index: 1, time_ms: 500, text: "Je su1s unel0ngu phrase".to_string(), confidence: 960000 }, OcrFrameResult { frame_index: 2, time_ms: 1000, text: "Je suis une longue phrase".to_string(), confidence: 950000 }, OcrFrameResult { frame_index: 3, time_ms: 1500, text: "Une autre phrase".to_string(), confidence: 950000 }];
    let subtitles = run(&frames, 2_000, 500_000, OcrSubtitleCleanupOptions { merge_similar: true, similarity_threshold: 950000, max_gap_ms: 1000, min_cue_duration_ms: 500, filter_url_like: false });
    assert_eq!(subtitles.len(), 2);
    assert_eq!(subtitles[0].text, "Je suis une longue phrase");
    assert_eq!(subtitles[0].end_time, 1500);
    assert_eq!(subtitles[1].start_time, 1500);
}

#[test]
fn generate_subtitles_filters_url_like_text_when_enabled() {
    let frames = vec![OcrFrameResult { frame_index: 0, time_ms: 0, text: "www.example.com".to_string(), confidence: 990000 }, OcrFrameResult { frame_index: 1, time_ms: 1000, text: "Real subtitle".to_string(), confidence: 990000 }];
    let subtitles = run(&frames, 1_000, 500_000, OcrSubtitleCleanupOptions { merge_similar: false, similarity_threshold: 920000, max_gap_ms: 250, min_cue_duration_ms: 300, filter_url_like: true });
    assert_eq!(subtitles.len(), 1);
    assert_eq!(subtitles[0].text, "Real subtitle");
}

#[test]
fn generate_subtitles_keeps_url_like_text_when_filter_is_off() {
    let frames = vec![OcrFrameResult { frame_index: 0, time_ms: 0, text: "www.example.com".to_string(), confidence: 990000 }, OcrFrameResult { frame_index: 1, time_ms: 1000, text: "Real subtitle".to_string(), confidence: 990000 }];
    let subtitles = run(&frames, 1_000, 500_000, OcrSubtitleCleanupOptions { merge_similar: false, similarity_threshold: 920000, max_gap_ms: 250, min_cue_duration_ms: 300, filter_url_like: false });
    assert_eq!(subtitles.len(), 2);
    assert_eq!(subtitles[0].text, "www.example.com");
    assert_eq!(subtitles[1].id, "sub-2");
}

#[test]
fn generate_subtitles_rejects_zero_or_negative_fps() {
    let frames = vec![OcrFrameResult { frame_index: 0, time_ms: 0, text: "Hello".to_string(), confidence: 990000 }];
    let zero_error = generate_subtitles_core(&frames, 0, 500_000, OcrSubtitleCleanupOptions::default(), |_current, _total| {}).expect_err("zero fps should fail");
    assert!(zero_error.message().contains("FPS must be greater than 0"));
    assert_eq!(zero_error, OcrError::Configuration);
    let negative_error = generate_subtitles_core(&frames, -1_000, 500_000, OcrSubtitleCleanupOptions::default(), |_current, _total| {}).expect_err("negative fps should fail");
    assert!(negative_error.message().contains("FPS must be greater than 0"));
}

#[test]
fn generate_subtitles_returns_empty_for_empty_frame_results() {
    let subtitles = generate_subtitles_core(&[], 1_000, 500_000, OcrSubtitleCleanupOptions::default(), |_current, _total| {}).expect("empty frame input should succeed");
    assert!(subtitles.is_empty());
}

#[test]
fn generate_subtitles_returns_empty_when_all_frames_below_confidence_threshold() {
    let frames = vec![OcrFrameResult { frame_index: 0, time_ms: 0, text: "Hello".to_string(), confidence: 100000 }, OcrFrameResult { frame_index: 1, time_ms: 1000, text: "World".to_string(), confidence: 150000 }];
    let subtitles = run(&frames, 1_000, 800_000, OcrSubtitleCleanupOptions::default());
    assert!(subtitles.is_empty());
}

#[test]
fn generate_subtitles_handles_single_frame_input() {
    let frames = vec![OcrFrameResult { frame_index: 0, time_ms: 0, text: "Single frame".to_string(), confidence: 990000 }];
    let subtitles = run(&frames, 1_000, 500_000, OcrSubtitleCleanupOptions::default());
    assert_eq!(subtitles.len(), 1);
    assert_eq!(subtitles[0].text, "Single frame");
    assert!(subtitles[0].end_time > subtitles[0].start_time);
    assert_eq!(subtitles[0].end_time, 1000);
}

#[test]
fn generate_subtitles_merges_short_adjacent_cues_when_min_duration_requires_it() {
    let frames = vec![OcrFrameResult { frame_index: 0, time_ms: 0, text: "today we fight together".to_string(), confidence: 950000 }, OcrFrameResult { frame_index: 1, time_ms: 500, text: "today we fight togather".to_string(), confidence: 960000 }];
    let subtitles = run(&frames, 2_000, 500_000, OcrSubtitleCleanupOptions { merge_similar: true, similarity_threshold: 980000, max_gap_ms: 1000, min_cue_duration_ms: 800, filter_url_like: false });
    assert_eq!(subtitles.len(), 1);
    assert_eq!(subtitles[0].start_time, 0);
    assert!(subtitles[0].end_time >= 1000);
    assert_eq!(subtitles[0].text, "today we fight togather");
    assert_eq!(subtitles[0].confidence, 960_000);
}

#[test]
fn generate_subtitles_keeps_short_cues_apart_without_merging() {
    let frames = vec![OcrFrameResult { frame_index: 0, time_ms: 0, text: "today we fight together".to_string(), confidence: 950000 }, OcrFrameResult { frame_index: 1, time_ms: 500, text: "today we fight togather".to_string(), confidence: 960000 }];
    let subtitles = run(&frames, 2_000, 500_000, OcrSubtitleCleanupOptions { merge_similar: false, similarity_threshold: 980000, max_gap_ms: 1000, min_cue_duration_ms: 800, filter_url_like: false });
    assert_eq!(subtitles.len(), 2);
    assert_eq!(subtitles[1].id, "sub-2");
}

#[test]
fn generate_subtitles_closes_a_segment_after_a_long_gap() {
    let frames = vec![OcrFrameResult { frame_index: 0, time_ms: 0, text: "Same line".to_string(), confidence: 950000 }, OcrFrameResult { frame_index: 1, time_ms: 1000, text: "Same line".to_string(), confidence: 950000 }, OcrFrameResult { frame_index: 2, time_ms: 3000, text: "Same line".to_string(), confidence: 950000 }];
    let subtitles = run(&frames, 1_000, 500_000, OcrSubtitleCleanupOptions { merge_similar: false, similarity_threshold: 920000, max_gap_ms: 1500, min_cue_duration_ms: 0, filter_url_like: false });
    assert_eq!(subtitles.len(), 2);
    assert_eq!(subtitles[0].end_time, 3000);
    assert_eq!(subtitles[1].start_time, 3000);
}

#[test]
fn generate_subtitles_clamps_min_confidence_to_one() {
    let frames = vec![OcrFrameResult { frame_index: 0, time_ms: 0, text: "Perfect".to_string(), confidence: 1000000 }];
    let subtitles = run(&frames, 1_000, 2_000_000, OcrSubtitleCleanupOptions::default());
    assert_eq!(subtitles.len(), 1);
}

#[test]
fn generate_subtitles_uses_the_frame_rate_when_only_one_step_is_known() {
    let frames = vec![
        OcrFrameResult { frame_index: 0, time_ms: 0, text: "One step".to_string(), confidence: 950_000 },
        OcrFrameResult { frame_index: 1, time_ms: 100, text: "One step".to_string(), confidence: 950_000 },
    ];
    let subtitles = run(&frames, 1_000, 500_000, OcrSubtitleCleanupOptions::default());
    assert_eq!(subtitles.len(), 1);
    assert_eq!(subtitles[0].start_time, 0);
    assert_eq!(subtitles[0].end_time, 2000);
}

#[test]
fn infer_frame_step_needs_two_positive_steps() {
    let f = |t: u64| OcrFrameResult { frame_index: 0, time_ms: t, text: String::new(), confidence: 0 };
    assert_eq!(infer_frame_step_ms(&[f(0), f(100)]), None);
    assert_eq!(infer_frame_step_ms(&[f(0), f(0), f(100)]), None);
    assert_eq!(infer_frame_step_ms(&[f(0), f(100), f(300)]), Some(200));
    assert_eq!(infer_frame_step_ms(&[f(0), f(100), f(300), f(400)]), Some(100));
}
