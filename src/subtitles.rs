//! The whole pass from ordered frame readings to finished cues.
use vstd::prelude::*;
use crate::cleanup::{
    cue_id, drop_url_like, drop_url_like_spec, id_spec, infer_frame_step_ms, infer_step_spec,
    merge_adjacent, merge_spec, renumber_spec, segment_end_spec, segment_end_time_ms,
};
use crate::model::{entry_views, EntryView, OcrError, OcrFrameResult, OcrSubtitleCleanupOptions, OcrSubtitleEntry};
use crate::selector::{select_segment_text, selection_spec};
use crate::similarity::SCALE;
use crate::stabilizer::{segment_views, segments_spec, stabilize, SegmentView, StabilizerConfig};

verus! {

/// Lowest similarity threshold, in millionths, that the options may ask for.
pub const MIN_SIMILARITY_THRESHOLD: u32 = 800_000;

/// Highest similarity threshold, in millionths, that the options may ask for.
pub const MAX_SIMILARITY_THRESHOLD: u32 = 980_000;

/// The threshold in force: the requested one held between the two bounds when similar
/// readings are merged, and one whole (exact match) otherwise.
pub open spec fn threshold_spec(c: OcrSubtitleCleanupOptions) -> u32 {
    if c.merge_similar {
        if c.similarity_threshold < MIN_SIMILARITY_THRESHOLD {
            MIN_SIMILARITY_THRESHOLD
        } else if c.similarity_threshold > MAX_SIMILARITY_THRESHOLD {
            MAX_SIMILARITY_THRESHOLD
        } else {
            c.similarity_threshold
        }
    } else {
        SCALE
    }
}

/// How the stabilizer is run for these options; the confidence floor is held at one whole.
pub open spec fn config_spec(c: OcrSubtitleCleanupOptions, min_confidence: u32) -> StabilizerConfig {
    StabilizerConfig {
        min_confidence: if min_confidence > SCALE {
            SCALE
        } else {
            min_confidence
        },
        max_gap_ms: c.max_gap_ms as u64,
        merge_similar: c.merge_similar,
        similarity_threshold: threshold_spec(c),
    }
}

/// The cue that segment `seg` yields as the `n`th one.
pub open spec fn entry_spec(seg: SegmentView, n: nat, step: Option<u64>, fps_milli: i64) -> EntryView {
    let chosen = selection_spec(seg.candidates)->0;
    EntryView {
        id: id_spec(n),
        text: chosen.0,
        start_time: seg.start_time,
        end_time: segment_end_spec(
            seg.start_time,
            seg.last_seen_time,
            seg.last_seen_frame_index,
            step,
            fps_milli,
        ),
        confidence: chosen.1,
    }
}

/// One cue per segment, numbered from one.
pub open spec fn raw_entries_spec(segs: Seq<SegmentView>, step: Option<u64>, fps_milli: i64) -> Seq<EntryView> {
    Seq::new(segs.len(), |k: int| entry_spec(segs[k], (k + 1) as nat, step, fps_milli))
}

/// The cues that the readings yield under these options.
pub open spec fn subtitles_spec(
    frames: Seq<OcrFrameResult>,
    fps_milli: i64,
    min_confidence: u32,
    c: OcrSubtitleCleanupOptions,
) -> Seq<EntryView> {
    let segs = segments_spec(frames, config_spec(c, min_confidence));
    let raw = raw_entries_spec(segs, infer_step_spec(frames), fps_milli);
    let kept = if c.filter_url_like {
        drop_url_like_spec(raw)
    } else {
        raw
    };
    if c.merge_similar && kept.len() > 1 {
        renumber_spec(merge_spec(kept, threshold_spec(c), c.max_gap_ms, c.min_cue_duration_ms))
    } else {
        kept
    }
}

/// Turns ordered frame readings into subtitle cues: segments them, picks each segment's text,
/// times it, then drops link-like cues and merges similar neighbours as the options say.
/// `fps_milli` is the frame rate in thousandths of a frame per second; `on_progress` hears
/// `(position, total)` at every hundredth reading.
pub fn generate_subtitles_core<F: Fn(usize, usize)>(
    frame_results: &[OcrFrameResult],
    fps_milli: i64,
    min_confidence: u32,
    cleanup: OcrSubtitleCleanupOptions,
    on_progress: F,
) -> (r: Result<Vec<OcrSubtitleEntry>, OcrError>)
    requires
        forall|i: usize, n: usize| on_progress.requires((i, n)),
    ensures
        r is Err <==> fps_milli <= 0,
        r is Err ==> r == Err::<Vec<OcrSubtitleEntry>, OcrError>(OcrError::Configuration),
        r matches Ok(v) ==> entry_views(v@) == subtitles_spec(frame_results@, fps_milli, min_confidence, cleanup),
{
    if fps_milli <= 0 {
        return Err(OcrError::Configuration);
    }
    let threshold = if cleanup.merge_similar {
        if cleanup.similarity_threshold < MIN_SIMILARITY_THRESHOLD {
            MIN_SIMILARITY_THRESHOLD
        } else if cleanup.similarity_threshold > MAX_SIMILARITY_THRESHOLD {
            MAX_SIMILARITY_THRESHOLD
        } else {
            cleanup.similarity_threshold
        }
    } else {
        SCALE
    };
    let cfg = StabilizerConfig {
        min_confidence: if min_confidence > SCALE {
            SCALE
        } else {
            min_confidence
        },
        max_gap_ms: cleanup.max_gap_ms as u64,
        merge_similar: cleanup.merge_similar,
        similarity_threshold: threshold,
    };
    assert(cfg == config_spec(cleanup, min_confidence));
    let step = infer_frame_step_ms(frame_results);
    let segments = stabilize(frame_results, cfg, on_progress);
    let ghost segs = segment_views(segments@);
    let mut subtitles: Vec<OcrSubtitleEntry> = Vec::new();
    let mut k: usize = 0;
    while k < segments.len()
        invariant
            fps_milli > 0,
            segs == segment_views(segments@),
            step == infer_step_spec(frame_results@),
            k <= segments@.len(),
            forall|q: int| 0 <= q < segments@.len() ==> (#[trigger] segments@[q]).candidates@.len() > 0,
            entry_views(subtitles@) == raw_entries_spec(segs, step, fps_milli).subrange(0, k as int),
        decreases segments@.len() - k,
    {
        let seg = &segments[k];
        assert(segs[k as int] == seg@);
        match select_segment_text(seg.candidates.as_slice()) {
            Some((text, confidence)) => {
                let end_time = segment_end_time_ms(
                    seg.start_time,
                    seg.last_seen_time,
                    seg.last_seen_frame_index,
                    step,
                    fps_milli,
                );
                let entry = OcrSubtitleEntry {
                    id: cue_id(k as u64 + 1),
                    text,
                    start_time: seg.start_time,
                    end_time,
                    confidence,
                };
                assert(entry@ == raw_entries_spec(segs, step, fps_milli)[k as int]);
                let ghost before = entry_views(subtitles@);
                subtitles.push(entry);
                assert(entry_views(subtitles@) =~= before.push(entry@));
            },
            None => {},
        }
        assert(entry_views(subtitles@) =~= raw_entries_spec(segs, step, fps_milli).subrange(0, k + 1));
        k = k + 1;
    }
    assert(raw_entries_spec(segs, step, fps_milli).subrange(0, segs.len() as int) == raw_entries_spec(segs, step, fps_milli));
    if cleanup.filter_url_like {
        subtitles = drop_url_like(&subtitles);
    }
    if cleanup.merge_similar && subtitles.len() > 1 {
        subtitles = merge_adjacent(&subtitles, threshold, cleanup.max_gap_ms, cleanup.min_cue_duration_ms);
    }
    Ok(subtitles)
}

} // verus!
