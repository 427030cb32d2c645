use ocr_subtitles::cleanup::merge_adjacent;
use ocr_subtitles::model::{OcrFrameResult, OcrSubtitleCleanupOptions, OcrSubtitleEntry};
use ocr_subtitles::subtitles::generate_subtitles_core;

fn frame(i: u32, t: u64, text: &str, c: u32) -> OcrFrameResult {
    OcrFrameResult { frame_index: i, time_ms: t, text: text.to_string(), confidence: c }
}

fn cue(id: &str, text: &str, start_time: u64, end_time: u64, confidence: u32) -> OcrSubtitleEntry {
    OcrSubtitleEntry { id: id.to_string(), text: text.to_string(), start_time, end_time, confidence }
}

fn views(v: &[OcrSubtitleEntry]) -> Vec<(String, String, u64, u64, u32)> {
    v.iter().map(|e| (e.id.clone(), e.text.clone(), e.start_time, e.end_time, e.confidence)).collect()
}

fn sample_frames() -> Vec<OcrFrameResult> {
    vec![
        frame(0, 0, "First line", 900_000),
        frame(1, 500, "First line", 950_000),
        frame(2, 1000, "", 0),
        frame(3, 1500, "Second line here", 970_000),
        frame(4, 2000, "Second line here", 800_000),
        frame(5, 2500, "visit example.com", 990_000),
        frame(6, 3000, "Third", 1_000_000),
    ]
}

#[test]
fn every_cue_ends_after_it_starts_and_has_a_unit_confidence() {
    let subs = generate_subtitles_core(&sample_frames(), 2_000, 500_000, OcrSubtitleCleanupOptions::default(), |_current, _total| {}).unwrap();
    assert!(!subs.is_empty());
    for s in &subs {
        assert!(s.end_time > s.start_time);
        assert!(s.confidence <= 1_000_000);
    }
}

#[test]
fn cues_are_ordered_and_do_not_overlap() {
    for merge in [false, true] {
        let cleanup = OcrSubtitleCleanupOptions { merge_similar: merge, similarity_threshold: 900_000, max_gap_ms: 400, min_cue_duration_ms: 600, filter_url_like: false };
        let subs = generate_subtitles_core(&sample_frames(), 2_000, 500_000, cleanup, |_current, _total| {}).unwrap();
        assert!(subs.len() >= 3);
        for w in subs.windows(2) {
            assert!(w[0].start_time <= w[1].start_time);
            assert!(w[0].end_time <= w[1].start_time);
        }
    }
}

#[test]
fn merge_pass_twice_is_the_same_as_once() {
    let cues = vec![
        cue("sub-1", "good morning", 0, 500, 900_000),
        cue("sub-2", "good morning", 500, 900, 800_000),
        cue("sub-3", "see you later", 900, 1500, 950_000),
        cue("sub-4", "see you later!", 1500, 1800, 940_000),
    ];
    let once = merge_adjacent(&cues, 920_000, 250, 500);
    let twice = merge_adjacent(&once, 920_000, 250, 500);
    assert_eq!(once.len(), 2);
    assert_eq!(views(&once), views(&twice));
}

#[test]
fn merge_pass_can_merge_again_after_a_text_switch() {
    let cues = vec![
        cue("sub-1", "abcdefgh", 0, 1000, 900_000),
        cue("sub-2", "abcdefghijklmno", 1000, 2000, 900_000),
        cue("sub-3", "abcdefghijk", 2000, 3000, 950_000),
    ];
    let once = merge_adjacent(&cues, 920_000, 250, 500);
    assert_eq!(once.len(), 2);
    assert_eq!(once[1].text, "abcdefghijk");
    let twice = merge_adjacent(&once, 920_000, 250, 500);
    assert_eq!(twice.len(), 1);
}

#[test]
fn scenario_every_frame_below_confidence_gives_nothing() {
    let frames = vec![frame(0, 0, "Hello", 100_000), frame(1, 500, "Hello", 200_000)];
    let subs = generate_subtitles_core(&frames, 2_000, 800_000, OcrSubtitleCleanupOptions::default(), |_current, _total| {}).unwrap();
    assert!(subs.is_empty());
}

#[test]
fn cues_start_in_order_when_times_repeat() {
    let frames = vec![
        frame(0, 0, "alpha line", 900_000),
        frame(1, 0, "beta words", 900_000),
        frame(2, 500, "gamma text", 900_000),
        frame(3, 500, "delta bits", 900_000),
    ];
    let subs = generate_subtitles_core(&frames, 2_000, 500_000, OcrSubtitleCleanupOptions::default(), |_current, _total| {}).unwrap();
    assert_eq!(subs.len(), 4);
    for w in subs.windows(2) {
        assert!(w[0].start_time <= w[1].start_time);
    }
}
