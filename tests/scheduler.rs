use ocr_subtitles::model::{OcrError, OcrFrameResult};
use ocr_subtitles::scheduler::{
    frame_observation, frame_time_ms, merge_regions, plan_chunks, sort_by_frame_index, stable_sort_keyed, ChunkWork,
    FrameOutcome, TextRegion,
};

fn region(top: i32, text: &str, confidence: u32) -> TextRegion {
    TextRegion { top, text: text.to_string(), confidence }
}

fn frame(frame_index: u32, text: &str) -> OcrFrameResult {
    OcrFrameResult { frame_index, time_ms: frame_index as u64 * 100, text: text.to_string(), confidence: 900_000 }
}

#[test]
fn merge_regions_reads_top_to_bottom() {
    let regions = vec![region(50, " second line ", 800_000), region(10, "first", 900_000), region(30, "   ", 700_000)];
    let (text, confidence) = merge_regions(&regions);
    assert_eq!(text, "first second line");
    assert_eq!(confidence, 800_000);
}

#[test]
fn merge_regions_keeps_engine_order_on_equal_tops() {
    let regions = vec![region(5, "a", 1), region(5, "b", 2), region(1, "c", 3)];
    let (text, confidence) = merge_regions(&regions);
    assert_eq!(text, "c a b");
    assert_eq!(confidence, 2);
}

#[test]
fn merge_regions_of_nothing_is_empty() {
    assert_eq!(merge_regions(&[]), (String::new(), 0));
}

#[test]
fn frame_time_rounds_to_the_nearest_millisecond() {
    assert_eq!(frame_time_ms(0, 2_000), 0);
    assert_eq!(frame_time_ms(3, 2_000), 1500);
    assert_eq!(frame_time_ms(1, 29_970), 33);
    assert_eq!(frame_time_ms(2, 3_000), 667);
}

#[test]
fn frame_observation_combines_time_and_text() {
    let obs = frame_observation(4, 10_000, &[region(0, "Hi", 500_000)]);
    assert_eq!(obs.frame_index, 4);
    assert_eq!(obs.time_ms, 400);
    assert_eq!(obs.text, "Hi");
    assert_eq!(obs.confidence, 500_000);
}

#[test]
fn plan_chunks_splits_evenly_with_a_short_tail() {
    assert_eq!(plan_chunks(10, 3), vec![(0, 4), (4, 8), (8, 10)]);
    assert_eq!(plan_chunks(4, 8), vec![(0, 1), (1, 2), (2, 3), (3, 4)]);
    assert_eq!(plan_chunks(5, 0), vec![(0, 5)]);
    assert!(plan_chunks(0, 4).is_empty());
}

#[test]
fn stable_sort_keeps_equal_keys_in_order() {
    let sorted = stable_sort_keyed(&vec![(3, 0), (1, 1), (3, 2), (-2, 3)]);
    assert_eq!(sorted, vec![(-2, 3), (1, 1), (3, 0), (3, 2)]);
}

#[test]
fn results_are_put_back_in_frame_order() {
    let results = vec![frame(4, "e"), frame(0, "a"), frame(2, "c")];
    let sorted = sort_by_frame_index(&results);
    let order: Vec<u32> = sorted.iter().map(|f| f.frame_index).collect();
    assert_eq!(order, vec![0, 2, 4]);
    assert_eq!(sorted[1].text, "c");
}

#[test]
fn chunk_work_skips_unreadable_frames_but_counts_them() {
    let mut work = ChunkWork::new();
    work.record(0, 1_000, &FrameOutcome::Recognized(vec![region(0, "x", 900_000)]));
    work.record(1, 1_000, &FrameOutcome::Unreadable);
    work.record(2, 1_000, &FrameOutcome::Recognized(vec![]));
    assert_eq!(work.processed, 3);
    assert_eq!(work.results.len(), 2);
    assert_eq!(work.results[1].frame_index, 2);
    assert_eq!(work.results[1].time_ms, 2000);
    assert_eq!(work.results[1].text, "");
}

#[test]
fn cancellation_stops_a_worker() {
    assert_eq!(ChunkWork::check_cancelled(true), Err(OcrError::Cancelled));
    assert_eq!(ChunkWork::check_cancelled(false), Ok(()));
}
