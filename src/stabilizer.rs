//! The segment stabilizer: a two-state machine that folds ordered frame readings into
//! segments of steady on-screen text.
use vstd::prelude::*;
use crate::model::OcrFrameResult;
use crate::selector::{CandidateView, SegmentCandidate, candidate_views};
use crate::similarity::{similar_spec, texts_are_similar};
use crate::text::{collapse_spec, collapse_whitespace, key_spec, normalize_text_for_compare};

verus! {

/// How readings are judged while segments are built.
#[derive(Clone, Copy, Debug)]
pub struct StabilizerConfig {
    /// Readings below this confidence (in millionths) are invalid.
    pub min_confidence: u32,
    /// Longest silence, in milliseconds, that keeps a segment open.
    pub max_gap_ms: u64,
    /// Compare keys by similarity rather than exact equality.
    pub merge_similar: bool,
    /// Similarity threshold, in millionths.
    pub similarity_threshold: u32,
}

/// A run of readings judged to show the same text.
#[derive(Debug)]
pub struct SubtitleSegment {
    pub start_time: u64,
    pub last_seen_time: u64,
    pub last_seen_frame_index: u32,
    /// Key of the most confident reading so far, the anchor for comparisons.
    pub baseline_key: String,
    pub baseline_confidence: u32,
    pub candidates: Vec<SegmentCandidate>,
}

/// What a segment holds, as plain values.
pub struct SegmentView {
    pub start_time: u64,
    pub last_seen_time: u64,
    pub last_seen_frame_index: u32,
    pub baseline_key: Seq<char>,
    pub baseline_confidence: u32,
    pub candidates: Seq<CandidateView>,
}

impl View for SubtitleSegment {
    type V = SegmentView;

    open spec fn view(&self) -> SegmentView {
        SegmentView {
            start_time: self.start_time,
            last_seen_time: self.last_seen_time,
            last_seen_frame_index: self.last_seen_frame_index,
            baseline_key: self.baseline_key@,
            baseline_confidence: self.baseline_confidence,
            candidates: candidate_views(self.candidates@),
        }
    }
}

/// The views of a list of segments.
pub open spec fn segment_views(v: Seq<SubtitleSegment>) -> Seq<SegmentView> {
    v.map_values(|s: SubtitleSegment| s@)
}

/// The view of the open segment, if any.
pub open spec fn option_view(o: Option<SubtitleSegment>) -> Option<SegmentView> {
    match o {
        Some(s) => Some(s@),
        None => None,
    }
}

/// The text of a reading as it is shown: whitespace collapsed.
pub open spec fn display_spec(f: OcrFrameResult) -> Seq<char> {
    collapse_spec(f.text@)
}

/// The comparison key of a reading.
pub open spec fn frame_key(f: OcrFrameResult) -> Seq<char> {
    key_spec(display_spec(f))
}

/// A reading takes part when it is confident enough and its key is not empty.
pub open spec fn frame_valid(f: OcrFrameResult, cfg: StabilizerConfig) -> bool {
    f.confidence >= cfg.min_confidence && frame_key(f).len() > 0
}

/// Whether `key` reads as the same text as `base`.
pub open spec fn same_text(cfg: StabilizerConfig, base: Seq<char>, key: Seq<char>) -> bool {
    if cfg.merge_similar {
        similar_spec(base, key, cfg.similarity_threshold as int)
    } else {
        base == key
    }
}

/// Milliseconds from `last` to `t`, zero if `t` is earlier.
pub open spec fn gap_spec(t: u64, last: u64) -> int {
    if t >= last {
        t - last
    } else {
        0
    }
}

/// The candidate that reading `f` contributes.
pub open spec fn candidate_spec(f: OcrFrameResult) -> CandidateView {
    CandidateView { key: frame_key(f), text: display_spec(f), confidence: f.confidence }
}

/// A segment opened by reading `f`.
pub open spec fn open_spec(f: OcrFrameResult) -> SegmentView {
    SegmentView {
        start_time: f.time_ms,
        last_seen_time: f.time_ms,
        last_seen_frame_index: f.frame_index,
        baseline_key: frame_key(f),
        baseline_confidence: f.confidence,
        candidates: seq![candidate_spec(f)],
    }
}

/// `seg` extended by the similar reading `f`, which becomes the baseline if it is more
/// confident.
pub open spec fn extend_spec(seg: SegmentView, f: OcrFrameResult) -> SegmentView {
    let promote = f.confidence > seg.baseline_confidence;
    SegmentView {
        start_time: seg.start_time,
        last_seen_time: f.time_ms,
        last_seen_frame_index: f.frame_index,
        baseline_key: if promote {
            frame_key(f)
        } else {
            seg.baseline_key
        },
        baseline_confidence: if promote {
            f.confidence
        } else {
            seg.baseline_confidence
        },
        candidates: seg.candidates.push(candidate_spec(f)),
    }
}

/// `seg` marked as seen at `f` without taking `f` in.
pub open spec fn touch_spec(seg: SegmentView, f: OcrFrameResult) -> SegmentView {
    SegmentView { last_seen_time: f.time_ms, last_seen_frame_index: f.frame_index, ..seg }
}

/// Reading `i + o` exists, is valid and reads as `base`.
pub open spec fn ahead_matches(
    frames: Seq<OcrFrameResult>,
    i: int,
    o: int,
    cfg: StabilizerConfig,
    base: Seq<char>,
) -> bool {
    i + o < frames.len() && frame_valid(frames[i + o], cfg) && same_text(cfg, base, frame_key(frames[i + o]))
}

/// One of the next two readings matches the baseline: the present reading is a blip.
pub open spec fn blip_spec(frames: Seq<OcrFrameResult>, i: int, cfg: StabilizerConfig, base: Seq<char>) -> bool {
    ahead_matches(frames, i, 1, cfg, base) || ahead_matches(frames, i, 2, cfg, base)
}

/// The machine's state after reading `i`: closed segments, and the open one if any.
pub open spec fn step_spec(
    frames: Seq<OcrFrameResult>,
    i: int,
    cfg: StabilizerConfig,
    closed: Seq<SegmentView>,
    current: Option<SegmentView>,
) -> (Seq<SegmentView>, Option<SegmentView>) {
    let f = frames[i];
    match current {
        None => if frame_valid(f, cfg) {
            (closed, Some(open_spec(f)))
        } else {
            (closed, None)
        },
        Some(seg) => {
            let timed_out = gap_spec(f.time_ms, seg.last_seen_time) > cfg.max_gap_ms;
            if !frame_valid(f, cfg) {
                if timed_out {
                    (closed.push(seg), None)
                } else {
                    (closed, current)
                }
            } else if timed_out {
                (closed.push(seg), Some(open_spec(f)))
            } else if same_text(cfg, seg.baseline_key, frame_key(f)) {
                (closed, Some(extend_spec(seg, f)))
            } else if blip_spec(frames, i, cfg, seg.baseline_key) {
                (closed, Some(touch_spec(seg, f)))
            } else {
                (closed.push(seg), Some(open_spec(f)))
            }
        },
    }
}

/// The state after the first `n` readings.
pub open spec fn run_spec(frames: Seq<OcrFrameResult>, n: int, cfg: StabilizerConfig) -> (
    Seq<SegmentView>,
    Option<SegmentView>,
)
    decreases n,
{
    if n <= 0 {
        (Seq::empty(), None)
    } else {
        let (closed, current) = run_spec(frames, n - 1, cfg);
        step_spec(frames, n - 1, cfg, closed, current)
    }
}

/// All segments of the readings, the one left open at the end included.
pub open spec fn segments_spec(frames: Seq<OcrFrameResult>, cfg: StabilizerConfig) -> Seq<SegmentView> {
    let (closed, current) = run_spec(frames, frames.len() as int, cfg);
    match current {
        Some(seg) => closed.push(seg),
        None => closed,
    }
}

fn same_text_exec(cfg: StabilizerConfig, base: &String, key: &String) -> (r: bool)
    ensures
        r == same_text(cfg, base@, key@),
{
    if cfg.merge_similar {
        texts_are_similar(base.as_str(), key.as_str(), cfg.similarity_threshold)
    } else {
        *base == *key
    }
}

/// The display text and key of a reading, and whether it is valid.
fn read_frame(f: &OcrFrameResult, cfg: StabilizerConfig) -> (r: (String, String, bool))
    ensures
        r.0@ == display_spec(*f),
        r.1@ == frame_key(*f),
        r.2 == frame_valid(*f, cfg),
{
    let display = collapse_whitespace(f.text.as_str());
    let key = normalize_text_for_compare(display.as_str());
    let valid = f.confidence >= cfg.min_confidence && !key.as_str().is_empty();
    (display, key, valid)
}

fn open_segment(f: &OcrFrameResult, display: String, key: String) -> (r: SubtitleSegment)
    requires
        display@ == display_spec(*f),
        key@ == frame_key(*f),
    ensures
        r@ == open_spec(*f),
        r.candidates@.len() == 1,
{
    let mut candidates: Vec<SegmentCandidate> = Vec::new();
    candidates.push(SegmentCandidate { key: key.clone(), text: display, confidence: f.confidence });
    let r = SubtitleSegment {
        start_time: f.time_ms,
        last_seen_time: f.time_ms,
        last_seen_frame_index: f.frame_index,
        baseline_key: key,
        baseline_confidence: f.confidence,
        candidates,
    };
    assert(r@.candidates =~= seq![candidate_spec(*f)]);
    r
}

fn blip_ahead(frames: &[OcrFrameResult], i: usize, cfg: StabilizerConfig, base: &String) -> (r: bool)
    requires
        i < frames@.len(),
    ensures
        r == blip_spec(frames@, i as int, cfg, base@),
{
    let mut o: usize = 1;
    while o <= 2
        invariant
            1 <= o <= 3,
            i < frames@.len(),
            forall|q: int| 1 <= q < o ==> !ahead_matches(frames@, i as int, q, cfg, base@),
        decreases 3 - o,
    {
        if o < frames.len() - i {
            let (_, next_key, next_valid) = read_frame(&frames[i + o], cfg);
            if next_valid && same_text_exec(cfg, base, &next_key) {
                assert(ahead_matches(frames@, i as int, o as int, cfg, base@));
                return true;
            }
        }
        o = o + 1;
    }
    assert(!ahead_matches(frames@, i as int, 1, cfg, base@));
    assert(!ahead_matches(frames@, i as int, 2, cfg, base@));
    false
}

/// Folds ordered readings into segments, reporting `(position, total)` to `on_progress` at
/// every hundredth reading.
pub fn stabilize<F: Fn(usize, usize)>(frames: &[OcrFrameResult], cfg: StabilizerConfig, on_progress: F) -> (r: Vec<SubtitleSegment>)
    requires
        forall|i: usize, n: usize| on_progress.requires((i, n)),
    ensures
        segment_views(r@) == segments_spec(frames@, cfg),
        forall|k: int| 0 <= k < r@.len() ==> (#[trigger] r@[k]).candidates@.len() > 0,
{
    let mut segments: Vec<SubtitleSegment> = Vec::new();
    let mut current: Option<SubtitleSegment> = None;
    let mut i: usize = 0;
    while i < frames.len()
        invariant
            forall|i: usize, n: usize| on_progress.requires((i, n)),
            i <= frames@.len(),
            (segment_views(segments@), option_view(current)) == run_spec(frames@, i as int, cfg),
            forall|k: int| 0 <= k < segments@.len() ==> (#[trigger] segments@[k]).candidates@.len() > 0,
            current matches Some(seg) ==> seg.candidates@.len() > 0,
        decreases frames@.len() - i,
    {
        let frame = &frames[i];
        let (display, key, valid) = read_frame(frame, cfg);
        let ghost before = segment_views(segments@);
        let cur = current;
        current = None;
        match cur {
            None => {
                if valid {
                    current = Some(open_segment(frame, display, key));
                }
            },
            Some(mut seg) => {
                let gap = frame.time_ms.saturating_sub(seg.last_seen_time);
                if !valid {
                    if gap > cfg.max_gap_ms {
                        segments.push(seg);
                        assert(segment_views(segments@) =~= before.push(option_view(cur)->0));
                    } else {
                        current = Some(seg);
                    }
                } else if gap > cfg.max_gap_ms {
                    segments.push(seg);
                    assert(segment_views(segments@) =~= before.push(option_view(cur)->0));
                    current = Some(open_segment(frame, display, key));
                } else if same_text_exec(cfg, &seg.baseline_key, &key) {
                    let ghost old_seg = seg@;
                    seg.last_seen_time = frame.time_ms;
                    seg.last_seen_frame_index = frame.frame_index;
                    let promote = frame.confidence > seg.baseline_confidence;
                    seg.candidates.push(SegmentCandidate { key: key.clone(), text: display, confidence: frame.confidence });
                    if promote {
                        seg.baseline_key = key;
                        seg.baseline_confidence = frame.confidence;
                    }
                    assert(seg@.candidates =~= old_seg.candidates.push(candidate_spec(*frame)));
                    assert(seg@ == extend_spec(old_seg, *frame));
                    current = Some(seg);
                } else if blip_ahead(frames, i, cfg, &seg.baseline_key) {
                    assert(seg.candidates@.len() > 0);
                    seg.last_seen_time = frame.time_ms;
                    seg.last_seen_frame_index = frame.frame_index;
                    current = Some(seg);
                } else {
                    segments.push(seg);
                    assert(segment_views(segments@) =~= before.push(option_view(cur)->0));
                    current = Some(open_segment(frame, display, key));
                }
            },
        }
        if i % 100 == 0 {
            on_progress(i, frames.len());
        }
        i = i + 1;
    }
    let ghost closed = segment_views(segments@);
    match current {
        Some(seg) => {
            segments.push(seg);
            assert(segment_views(segments@) =~= closed.push(seg@));
        },
        None => {},
    }
    segments
}

} // verus!
