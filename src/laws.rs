//! Properties of the whole pipeline, proved over its specification.
use vstd::prelude::*;
use crate::cleanup::{absorb_spec, infer_step_spec, mergeable_spec, drop_url_like_spec, merge_spec, renumber_spec, segment_end_spec};
use crate::model::{EntryView, OcrFrameResult, OcrSubtitleCleanupOptions};
use crate::selector::{group_max, is_winner, lemma_group_max_member, lemma_winner_exists, selection_spec, CandidateView};
use crate::similarity::SCALE;
use crate::stabilizer::{run_spec, segments_spec, SegmentView, StabilizerConfig};
use crate::subtitles::{config_spec, entry_spec, raw_entries_spec, subtitles_spec, threshold_spec};

verus! {

/// A cue's confidence lies in `[lo, hi]`, and it lasts at least a millisecond when starts are
/// bounded below the last representable millisecond (`tmax < u64::MAX`).
pub open spec fn entry_ok(e: EntryView, lo: u32, hi: u32, tmax: u64) -> bool {
    &&& tmax < u64::MAX ==> e.end_time > e.start_time
    &&& lo <= e.confidence <= hi
}

/// Every cue of `s` is well formed.
pub open spec fn all_entries_ok(s: Seq<EntryView>, lo: u32, hi: u32, tmax: u64) -> bool {
    forall|k: int| 0 <= k < s.len() ==> entry_ok(#[trigger] s[k], lo, hi, tmax)
}

/// A segment starts no later than `tmax`, holds a reading, and all its confidences lie in
/// `[lo, hi]`.
pub open spec fn segment_ok(s: SegmentView, lo: u32, hi: u32, tmax: u64) -> bool {
    &&& s.start_time <= tmax
    &&& s.candidates.len() > 0
    &&& forall|k: int| 0 <= k < s.candidates.len() ==> lo <= (#[trigger] s.candidates[k]).confidence <= hi
}

/// Every reading has a confidence of at most `hi` and a time of at most `tmax`.
pub open spec fn frames_ok(frames: Seq<OcrFrameResult>, hi: u32, tmax: u64) -> bool {
    forall|i: int| 0 <= i < frames.len() ==> (#[trigger] frames[i]).confidence <= hi && frames[i].time_ms <= tmax
}

proof fn lemma_run_ok(frames: Seq<OcrFrameResult>, n: int, cfg: StabilizerConfig, hi: u32, tmax: u64)
    requires
        frames_ok(frames, hi, tmax),
        0 <= n <= frames.len(),
    ensures
        forall|k: int| 0 <= k < run_spec(frames, n, cfg).0.len() ==> segment_ok(#[trigger] run_spec(frames, n, cfg).0[k], cfg.min_confidence, hi, tmax),
        run_spec(frames, n, cfg).1 matches Some(s) ==> segment_ok(s, cfg.min_confidence, hi, tmax),
    decreases n,
{
    if n > 0 {
        lemma_run_ok(frames, n - 1, cfg, hi, tmax);
        let f = frames[n - 1];
        assert(f.confidence <= hi && f.time_ms <= tmax);
        let (closed, cur) = run_spec(frames, n - 1, cfg);
        match cur {
            Some(seg) => {
                assert(segment_ok(seg, cfg.min_confidence, hi, tmax));
                if crate::stabilizer::frame_valid(f, cfg) {
                    assert forall|k: int| 0 <= k < seg.candidates.len() + 1 implies cfg.min_confidence <= (#[trigger] seg.candidates.push(crate::stabilizer::candidate_spec(f))[k]).confidence <= hi by {
                        if k < seg.candidates.len() {
                            assert(seg.candidates.push(crate::stabilizer::candidate_spec(f))[k] == seg.candidates[k]);
                        }
                    }
                }
            },
            None => {},
        }
    }
}

proof fn lemma_segments_ok(frames: Seq<OcrFrameResult>, cfg: StabilizerConfig, hi: u32, tmax: u64)
    requires
        frames_ok(frames, hi, tmax),
    ensures
        forall|k: int| 0 <= k < segments_spec(frames, cfg).len() ==> segment_ok(#[trigger] segments_spec(frames, cfg)[k], cfg.min_confidence, hi, tmax),
{
    lemma_run_ok(frames, frames.len() as int, cfg, hi, tmax);
    let (closed, cur) = run_spec(frames, frames.len() as int, cfg);
    match cur {
        Some(s) => {
            assert forall|k: int| 0 <= k < closed.push(s).len() implies segment_ok(#[trigger] closed.push(s)[k], cfg.min_confidence, hi, tmax) by {
                if k < closed.len() {
                    assert(closed.push(s)[k] == closed[k]);
                }
            }
        },
        None => {},
    }
}

proof fn lemma_group_max_bounded(c: Seq<CandidateView>, key: Seq<char>, hi: u32)
    requires
        forall|k: int| 0 <= k < c.len() ==> (#[trigger] c[k]).confidence <= hi,
    ensures
        group_max(c, key) <= hi,
    decreases c.len(),
{
    if c.len() > 0 {
        assert forall|k: int| 0 <= k < c.drop_last().len() implies (#[trigger] c.drop_last()[k]).confidence <= hi by {
            assert(c.drop_last()[k] == c[k]);
        }
        lemma_group_max_bounded(c.drop_last(), key, hi);
        assert(c.last() == c[c.len() - 1]);
    }
}

proof fn lemma_raw_ok(segs: Seq<SegmentView>, step: Option<u64>, fps_milli: i64, lo: u32, hi: u32, tmax: u64)
    requires
        forall|k: int| 0 <= k < segs.len() ==> segment_ok(#[trigger] segs[k], lo, hi, tmax),
    ensures
        all_entries_ok(raw_entries_spec(segs, step, fps_milli), lo, hi, tmax),
{
    let raw = raw_entries_spec(segs, step, fps_milli);
    assert forall|k: int| 0 <= k < raw.len() implies entry_ok(#[trigger] raw[k], lo, hi, tmax) by {
        let s = segs[k];
        assert(segment_ok(s, lo, hi, tmax));
        lemma_winner_exists(s.candidates);
        let i = choose|i: int| is_winner(s.candidates, i);
        assert forall|q: int| 0 <= q < s.candidates.len() implies (#[trigger] s.candidates[q]).confidence <= hi by {
            assert(lo <= s.candidates[q].confidence <= hi);
        }
        lemma_group_max_bounded(s.candidates, s.candidates[i].key, hi);
        lemma_group_max_member(s.candidates, s.candidates[i].key, i);
        assert(lo <= s.candidates[i].confidence);
    }
}

proof fn lemma_drop_url_like_ok(s: Seq<EntryView>, lo: u32, hi: u32, tmax: u64)
    requires
        all_entries_ok(s, lo, hi, tmax),
    ensures
        all_entries_ok(drop_url_like_spec(s), lo, hi, tmax),
    decreases s.len(),
{
    if s.len() > 0 {
        assert(all_entries_ok(s.drop_last(), lo, hi, tmax)) by {
            assert forall|k: int| 0 <= k < s.drop_last().len() implies entry_ok(#[trigger] s.drop_last()[k], lo, hi, tmax) by {
                assert(s.drop_last()[k] == s[k]);
            }
        }
        lemma_drop_url_like_ok(s.drop_last(), lo, hi, tmax);
        let prev = drop_url_like_spec(s.drop_last());
        assert(entry_ok(s[s.len() - 1], lo, hi, tmax));
        assert forall|k: int| 0 <= k < prev.push(s.last()).len() implies entry_ok(#[trigger] prev.push(s.last())[k], lo, hi, tmax) by {
            if k < prev.len() {
                assert(prev.push(s.last())[k] == prev[k]);
            }
        }
    }
}

proof fn lemma_merge_ok(s: Seq<EntryView>, threshold: u32, max_gap_ms: u32, min_cue_duration_ms: u32, lo: u32, hi: u32, tmax: u64)
    requires
        all_entries_ok(s, lo, hi, tmax),
    ensures
        all_entries_ok(merge_spec(s, threshold, max_gap_ms, min_cue_duration_ms), lo, hi, tmax),
    decreases s.len(),
{
    if s.len() > 0 {
        assert(all_entries_ok(s.drop_last(), lo, hi, tmax)) by {
            assert forall|k: int| 0 <= k < s.drop_last().len() implies entry_ok(#[trigger] s.drop_last()[k], lo, hi, tmax) by {
                assert(s.drop_last()[k] == s[k]);
            }
        }
        lemma_merge_ok(s.drop_last(), threshold, max_gap_ms, min_cue_duration_ms, lo, hi, tmax);
        let acc = merge_spec(s.drop_last(), threshold, max_gap_ms, min_cue_duration_ms);
        let sub = s.last();
        assert(entry_ok(s[s.len() - 1], lo, hi, tmax));
        if acc.len() > 0 {
            assert(entry_ok(acc[acc.len() - 1], lo, hi, tmax));
            let merged = absorb_spec(acc.last(), sub);
            assert(entry_ok(merged, lo, hi, tmax));
            assert forall|k: int| 0 <= k < acc.len() implies entry_ok(#[trigger] acc.update(acc.len() - 1, merged)[k], lo, hi, tmax) by {
                if k < acc.len() - 1 {
                    assert(acc.update(acc.len() - 1, merged)[k] == acc[k]);
                }
            }
        }
        assert forall|k: int| 0 <= k < acc.push(sub).len() implies entry_ok(#[trigger] acc.push(sub)[k], lo, hi, tmax) by {
            if k < acc.len() {
                assert(acc.push(sub)[k] == acc[k]);
            }
        }
    }
}

proof fn lemma_all_entries_ok(
    frames: Seq<OcrFrameResult>,
    fps_milli: i64,
    min_confidence: u32,
    cleanup: OcrSubtitleCleanupOptions,
    hi: u32,
    tmax: u64,
)
    requires
        fps_milli > 0,
        frames_ok(frames, hi, tmax),
    ensures
        all_entries_ok(subtitles_spec(frames, fps_milli, min_confidence, cleanup), config_spec(cleanup, min_confidence).min_confidence, hi, tmax),
{
    let cfg = config_spec(cleanup, min_confidence);
    let lo = cfg.min_confidence;
    let segs = segments_spec(frames, cfg);
    lemma_segments_ok(frames, cfg, hi, tmax);
    let raw = raw_entries_spec(segs, crate::cleanup::infer_step_spec(frames), fps_milli);
    lemma_raw_ok(segs, crate::cleanup::infer_step_spec(frames), fps_milli, lo, hi, tmax);
    let kept = if cleanup.filter_url_like {
        drop_url_like_spec(raw)
    } else {
        raw
    };
    if cleanup.filter_url_like {
        lemma_drop_url_like_ok(raw, lo, hi, tmax);
    }
    if cleanup.merge_similar && kept.len() > 1 {
        let m = merge_spec(kept, threshold_spec(cleanup), cleanup.max_gap_ms, cleanup.min_cue_duration_ms);
        lemma_merge_ok(kept, threshold_spec(cleanup), cleanup.max_gap_ms, cleanup.min_cue_duration_ms, lo, hi, tmax);
        assert forall|k: int| 0 <= k < renumber_spec(m).len() implies entry_ok(#[trigger] renumber_spec(m)[k], lo, hi, tmax) by {
            assert(entry_ok(m[k], lo, hi, tmax));
        }
    }
}

/// Every cue ends after it starts, when no reading is stamped at the last representable
/// millisecond (a segment opened there could not end later).
pub proof fn lemma_entries_end_after_start(
    frames: Seq<OcrFrameResult>,
    fps_milli: i64,
    min_confidence: u32,
    cleanup: OcrSubtitleCleanupOptions,
)
    requires
        fps_milli > 0,
        forall|i: int| 0 <= i < frames.len() ==> (#[trigger] frames[i]).time_ms < u64::MAX,
    ensures
        forall|k: int| 0 <= k < subtitles_spec(frames, fps_milli, min_confidence, cleanup).len() ==> {
            let e = #[trigger] subtitles_spec(frames, fps_milli, min_confidence, cleanup)[k];
            e.end_time > e.start_time
        },
{
    lemma_all_entries_ok(frames, fps_milli, min_confidence, cleanup, 0xffff_ffff, (u64::MAX - 1) as u64);
    let out = subtitles_spec(frames, fps_milli, min_confidence, cleanup);
    assert forall|k: int| 0 <= k < out.len() implies (#[trigger] out[k]).end_time > out[k].start_time by {
        assert(entry_ok(out[k], config_spec(cleanup, min_confidence).min_confidence, 0xffff_ffff, (u64::MAX - 1) as u64));
    }
}

/// Every cue's confidence lies in `[0, 1]` when every reading's does; it is the raw confidence
/// of an accepted reading, so it is also at least the confidence floor (held at one whole).
pub proof fn lemma_entry_confidence_bounds(
    frames: Seq<OcrFrameResult>,
    fps_milli: i64,
    min_confidence: u32,
    cleanup: OcrSubtitleCleanupOptions,
)
    requires
        fps_milli > 0,
        forall|i: int| 0 <= i < frames.len() ==> (#[trigger] frames[i]).confidence <= SCALE,
    ensures
        forall|k: int| 0 <= k < subtitles_spec(frames, fps_milli, min_confidence, cleanup).len() ==> {
            let e = #[trigger] subtitles_spec(frames, fps_milli, min_confidence, cleanup)[k];
            &&& e.confidence <= SCALE
            &&& e.confidence >= (if min_confidence > SCALE { SCALE } else { min_confidence })
        },
{
    lemma_all_entries_ok(frames, fps_milli, min_confidence, cleanup, SCALE, u64::MAX);
    let out = subtitles_spec(frames, fps_milli, min_confidence, cleanup);
    assert forall|k: int| 0 <= k < out.len() implies (#[trigger] out[k]).confidence <= SCALE
        && out[k].confidence >= (if min_confidence > SCALE { SCALE } else { min_confidence }) by {
        assert(entry_ok(out[k], config_spec(cleanup, min_confidence).min_confidence, SCALE, u64::MAX));
    }
}


/// Reading times strictly increase.
pub open spec fn times_increasing(frames: Seq<OcrFrameResult>) -> bool {
    forall|i: int| 0 <= i < frames.len() - 1 ==> (#[trigger] frames[i]).time_ms < frames[i + 1].time_ms
}

/// No step between neighbouring readings is shorter than `m`.
pub open spec fn spaced_by(frames: Seq<OcrFrameResult>, m: u64) -> bool {
    forall|i: int| 0 <= i < frames.len() - 1 ==> frames[i + 1].time_ms - (#[trigger] frames[i]).time_ms >= m
}

/// Some reading is stamped `t`.
pub open spec fn is_frame_time(frames: Seq<OcrFrameResult>, t: u64) -> bool {
    exists|i: int| 0 <= i < frames.len() && (#[trigger] frames[i]).time_ms == t
}

/// Cues in order of start; with `ends`, each also starts after all cues before it have ended.
pub open spec fn ordered_by(s: Seq<EntryView>, ends: bool) -> bool {
    forall|a: int, b: int|
        0 <= a < b < s.len() ==> (#[trigger] s[a]).start_time <= (#[trigger] s[b]).start_time
            && (ends ==> s[a].end_time <= s[b].start_time)
}

/// Cues in order: each starts no earlier than any before it, and after all of them have ended.
pub open spec fn cues_ordered(s: Seq<EntryView>) -> bool {
    ordered_by(s, true)
}

/// Cues in order of start.
pub open spec fn starts_ordered(s: Seq<EntryView>) -> bool {
    ordered_by(s, false)
}

/// The closed segments of a state, followed by the open one if there is one.
pub open spec fn all_segments(state: (Seq<SegmentView>, Option<SegmentView>)) -> Seq<SegmentView> {
    match state.1 {
        Some(s) => state.0.push(s),
        None => state.0,
    }
}

/// A segment starts no later than it was last seen, and both times are times of readings.
pub open spec fn segment_times_ok(frames: Seq<OcrFrameResult>, s: SegmentView) -> bool {
    s.start_time <= s.last_seen_time && is_frame_time(frames, s.start_time) && is_frame_time(
        frames,
        s.last_seen_time,
    )
}

/// Segments with reading times, each last seen before the next one starts.
pub open spec fn segments_in_order(frames: Seq<OcrFrameResult>, l: Seq<SegmentView>) -> bool {
    &&& forall|k: int| 0 <= k < l.len() ==> segment_times_ok(frames, #[trigger] l[k])
    &&& forall|a: int, b: int| 0 <= a < b < l.len() ==> (#[trigger] l[a]).last_seen_time < (#[trigger] l[b]).start_time
}

proof fn lemma_times_monotone(frames: Seq<OcrFrameResult>, i: int, j: int)
    requires
        times_increasing(frames),
        0 <= i < j < frames.len(),
    ensures
        frames[i].time_ms < frames[j].time_ms,
    decreases j - i,
{
    if j > i + 1 {
        lemma_times_monotone(frames, i, j - 1);
    }
    assert(frames[j - 1].time_ms < frames[j].time_ms);
}

proof fn lemma_frame_times_spaced(frames: Seq<OcrFrameResult>, m: u64, x: u64, y: u64)
    requires
        times_increasing(frames),
        spaced_by(frames, m),
        is_frame_time(frames, x),
        is_frame_time(frames, y),
        x < y,
    ensures
        y - x >= m,
{
    let i = choose|i: int| 0 <= i < frames.len() && (#[trigger] frames[i]).time_ms == x;
    let j = choose|j: int| 0 <= j < frames.len() && (#[trigger] frames[j]).time_ms == y;
    if j <= i {
        if j < i {
            lemma_times_monotone(frames, j, i);
        }
    } else {
        assert(frames[i + 1].time_ms - frames[i].time_ms >= m);
        if i + 1 < j {
            lemma_times_monotone(frames, i + 1, j);
        }
    }
}

proof fn lemma_run_in_order(frames: Seq<OcrFrameResult>, n: int, cfg: StabilizerConfig)
    requires
        times_increasing(frames),
        0 <= n <= frames.len(),
    ensures
        segments_in_order(frames, all_segments(run_spec(frames, n, cfg))),
        n > 0 ==> forall|k: int| 0 <= k < all_segments(run_spec(frames, n, cfg)).len() ==>
            (#[trigger] all_segments(run_spec(frames, n, cfg))[k]).last_seen_time <= frames[n - 1].time_ms,
    decreases n,
{
    if n > 0 {
        lemma_run_in_order(frames, n - 1, cfg);
        let (closed, cur) = run_spec(frames, n - 1, cfg);
        let l = all_segments((closed, cur));
        let f = frames[n - 1];
        let t = f.time_ms;
        assert(is_frame_time(frames, t)) by {
            assert(frames[n - 1].time_ms == t);
        }
        if n > 1 {
            assert(frames[n - 2].time_ms < t);
        }
        assert forall|k: int| 0 <= k < l.len() implies (#[trigger] l[k]).last_seen_time < t by {
        }
        let next = all_segments(run_spec(frames, n, cfg));
        let opened = crate::stabilizer::open_spec(f);
        match cur {
            None => {
                if crate::stabilizer::frame_valid(f, cfg) {
                    assert(next == l.push(opened));
                    assert(segment_times_ok(frames, opened));
                    assert forall|a: int, b: int| 0 <= a < b < next.len() implies (#[trigger] next[a]).last_seen_time < (#[trigger] next[b]).start_time by {
                        if b == next.len() - 1 {
                            assert(next[a] == l[a]);
                        } else {
                            assert(next[a] == l[a] && next[b] == l[b]);
                        }
                    }
                    assert forall|k: int| 0 <= k < next.len() implies segment_times_ok(frames, #[trigger] next[k]) by {
                        if k < l.len() {
                            assert(next[k] == l[k]);
                        }
                    }
                    assert forall|k: int| 0 <= k < next.len() implies (#[trigger] next[k]).last_seen_time <= t by {
                        if k < l.len() {
                            assert(next[k] == l[k]);
                        }
                    }
                }
            },
            Some(seg) => {
                assert(l == closed.push(seg));
                assert(l[l.len() - 1] == seg);
                let timed_out = crate::stabilizer::gap_spec(t, seg.last_seen_time) > cfg.max_gap_ms;
                let valid = crate::stabilizer::frame_valid(f, cfg);
                let base = seg.baseline_key;
                if (!valid && !timed_out) {
                    assert(next == l);
                } else if !valid {
                    assert(next == l);
                } else if timed_out || (!crate::stabilizer::same_text(cfg, base, crate::stabilizer::frame_key(f))
                    && !crate::stabilizer::blip_spec(frames, n - 1, cfg, base)) {
                    assert(next == l.push(opened));
                    assert(segment_times_ok(frames, opened));
                    assert forall|a: int, b: int| 0 <= a < b < next.len() implies (#[trigger] next[a]).last_seen_time < (#[trigger] next[b]).start_time by {
                        if b == next.len() - 1 {
                            assert(next[a] == l[a]);
                        } else {
                            assert(next[a] == l[a] && next[b] == l[b]);
                        }
                    }
                    assert forall|k: int| 0 <= k < next.len() implies segment_times_ok(frames, #[trigger] next[k]) by {
                        if k < l.len() {
                            assert(next[k] == l[k]);
                        }
                    }
                    assert forall|k: int| 0 <= k < next.len() implies (#[trigger] next[k]).last_seen_time <= t by {
                        if k < l.len() {
                            assert(next[k] == l[k]);
                        }
                    }
                } else {
                    let seg2 = if crate::stabilizer::same_text(cfg, base, crate::stabilizer::frame_key(f)) {
                        crate::stabilizer::extend_spec(seg, f)
                    } else {
                        crate::stabilizer::touch_spec(seg, f)
                    };
                    assert(next == closed.push(seg2));
                    assert(seg2.start_time == seg.start_time && seg2.last_seen_time == t);
                    assert(segment_times_ok(frames, seg));
                    assert(segment_times_ok(frames, seg2));
                    assert forall|a: int, b: int| 0 <= a < b < next.len() implies (#[trigger] next[a]).last_seen_time < (#[trigger] next[b]).start_time by {
                        assert(next[a] == l[a]);
                        if b < next.len() - 1 {
                            assert(next[b] == l[b]);
                        } else {
                            assert(l[b] == seg);
                        }
                    }
                    assert forall|k: int| 0 <= k < next.len() implies segment_times_ok(frames, #[trigger] next[k]) by {
                        if k < next.len() - 1 {
                            assert(next[k] == l[k]);
                        }
                    }
                    assert forall|k: int| 0 <= k < next.len() implies (#[trigger] next[k]).last_seen_time <= t by {
                        if k < next.len() - 1 {
                            assert(next[k] == l[k]);
                        }
                    }
                }
            },
        }
    }
}


proof fn lemma_run_count(frames: Seq<OcrFrameResult>, n: int, cfg: StabilizerConfig)
    requires
        0 <= n <= frames.len(),
    ensures
        all_segments(run_spec(frames, n, cfg)).len() <= n,
    decreases n,
{
    if n > 0 {
        lemma_run_count(frames, n - 1, cfg);
    }
}

proof fn lemma_raw_ordered(
    frames: Seq<OcrFrameResult>,
    segs: Seq<SegmentView>,
    m: u64,
    fps_milli: i64,
)
    requires
        times_increasing(frames),
        spaced_by(frames, m),
        segments_in_order(frames, segs),
        forall|k: int| 0 <= k < segs.len() ==> (#[trigger] segs[k]).last_seen_time + m <= u64::MAX,
    ensures
        cues_ordered(raw_entries_spec(segs, Some(m), fps_milli)),
{
    let raw = raw_entries_spec(segs, Some(m), fps_milli);
    assert forall|a: int, b: int| 0 <= a < b < raw.len() implies (#[trigger] raw[a]).start_time <= (#[trigger] raw[b]).start_time
        && raw[a].end_time <= raw[b].start_time by {
        let sa = segs[a];
        let sb = segs[b];
        assert(segment_times_ok(frames, sa));
        assert(segment_times_ok(frames, sb));
        assert(sa.last_seen_time < sb.start_time);
        assert(sa.last_seen_time + m <= u64::MAX);
        lemma_frame_times_spaced(frames, m, sa.last_seen_time, sb.start_time);
    }
}

/// No cue of `s` starts after `bound`; with `ends`, none ends after it either.
pub open spec fn bounded_by(s: Seq<EntryView>, bound: u64, ends: bool) -> bool {
    forall|k: int| 0 <= k < s.len() ==> (#[trigger] s[k]).start_time <= bound && (ends ==> s[k].end_time <= bound)
}

proof fn lemma_ordered_prefix(s: Seq<EntryView>, ends: bool)
    requires
        ordered_by(s, ends),
        s.len() > 0,
    ensures
        ordered_by(s.drop_last(), ends),
        bounded_by(s.drop_last(), s.last().start_time, ends),
{
    let p = s.drop_last();
    assert forall|a: int, b: int| 0 <= a < b < p.len() implies (#[trigger] p[a]).start_time <= (#[trigger] p[b]).start_time
        && (ends ==> p[a].end_time <= p[b].start_time) by {
        assert(p[a] == s[a] && p[b] == s[b]);
    }
    assert forall|k: int| 0 <= k < p.len() implies (#[trigger] p[k]).start_time <= s.last().start_time && (ends ==> p[k].end_time <= s.last().start_time) by {
        assert(p[k] == s[k]);
        assert(s.last() == s[s.len() - 1]);
    }
}

proof fn lemma_drop_bounded(s: Seq<EntryView>, bound: u64, ends: bool)
    requires
        bounded_by(s, bound, ends),
    ensures
        bounded_by(drop_url_like_spec(s), bound, ends),
    decreases s.len(),
{
    if s.len() > 0 {
        assert(bounded_by(s.drop_last(), bound, ends)) by {
            assert forall|k: int| 0 <= k < s.drop_last().len() implies (#[trigger] s.drop_last()[k]).start_time <= bound && (ends ==> s.drop_last()[k].end_time <= bound) by {
                assert(s.drop_last()[k] == s[k]);
            }
        }
        lemma_drop_bounded(s.drop_last(), bound, ends);
        let prev = drop_url_like_spec(s.drop_last());
        assert(s.last() == s[s.len() - 1]);
        assert forall|k: int| 0 <= k < prev.push(s.last()).len() implies (#[trigger] prev.push(s.last())[k]).start_time <= bound && (ends ==> prev.push(s.last())[k].end_time <= bound) by {
            if k < prev.len() {
                assert(prev.push(s.last())[k] == prev[k]);
            }
        }
    }
}

proof fn lemma_drop_ordered(s: Seq<EntryView>, ends: bool)
    requires
        ordered_by(s, ends),
    ensures
        ordered_by(drop_url_like_spec(s), ends),
    decreases s.len(),
{
    if s.len() > 0 {
        lemma_ordered_prefix(s, ends);
        lemma_drop_ordered(s.drop_last(), ends);
        lemma_drop_bounded(s.drop_last(), s.last().start_time, ends);
        let prev = drop_url_like_spec(s.drop_last());
        let next = prev.push(s.last());
        assert forall|a: int, b: int| 0 <= a < b < next.len() implies (#[trigger] next[a]).start_time <= (#[trigger] next[b]).start_time
            && (ends ==> next[a].end_time <= next[b].start_time) by {
            assert(next[a] == prev[a]);
            if b < prev.len() {
                assert(next[b] == prev[b]);
            }
        }
    }
}

proof fn lemma_merge_bounded(s: Seq<EntryView>, threshold: u32, max_gap_ms: u32, min_cue_duration_ms: u32, bound: u64, ends: bool)
    requires
        bounded_by(s, bound, ends),
    ensures
        bounded_by(merge_spec(s, threshold, max_gap_ms, min_cue_duration_ms), bound, ends),
    decreases s.len(),
{
    if s.len() > 0 {
        assert(bounded_by(s.drop_last(), bound, ends)) by {
            assert forall|k: int| 0 <= k < s.drop_last().len() implies (#[trigger] s.drop_last()[k]).start_time <= bound && (ends ==> s.drop_last()[k].end_time <= bound) by {
                assert(s.drop_last()[k] == s[k]);
            }
        }
        lemma_merge_bounded(s.drop_last(), threshold, max_gap_ms, min_cue_duration_ms, bound, ends);
        let acc = merge_spec(s.drop_last(), threshold, max_gap_ms, min_cue_duration_ms);
        let sub = s.last();
        assert(sub == s[s.len() - 1]);
        if acc.len() > 0 {
            let merged = acc.update(acc.len() - 1, absorb_spec(acc.last(), sub));
            assert(acc.last() == acc[acc.len() - 1]);
            assert forall|k: int| 0 <= k < merged.len() implies (#[trigger] merged[k]).start_time <= bound && (ends ==> merged[k].end_time <= bound) by {
                if k < acc.len() - 1 {
                    assert(merged[k] == acc[k]);
                }
            }
        }
        assert forall|k: int| 0 <= k < acc.push(sub).len() implies (#[trigger] acc.push(sub)[k]).start_time <= bound && (ends ==> acc.push(sub)[k].end_time <= bound) by {
            if k < acc.len() {
                assert(acc.push(sub)[k] == acc[k]);
            }
        }
    }
}

proof fn lemma_merge_ordered(s: Seq<EntryView>, threshold: u32, max_gap_ms: u32, min_cue_duration_ms: u32, ends: bool)
    requires
        ordered_by(s, ends),
    ensures
        ordered_by(merge_spec(s, threshold, max_gap_ms, min_cue_duration_ms), ends),
    decreases s.len(),
{
    if s.len() > 0 {
        lemma_ordered_prefix(s, ends);
        lemma_merge_ordered(s.drop_last(), threshold, max_gap_ms, min_cue_duration_ms, ends);
        lemma_merge_bounded(s.drop_last(), threshold, max_gap_ms, min_cue_duration_ms, s.last().start_time, ends);
        let acc = merge_spec(s.drop_last(), threshold, max_gap_ms, min_cue_duration_ms);
        let sub = s.last();
        if acc.len() > 0 {
            let merged = acc.update(acc.len() - 1, absorb_spec(acc.last(), sub));
            assert(acc.last() == acc[acc.len() - 1]);
            assert forall|a: int, b: int| 0 <= a < b < merged.len() implies (#[trigger] merged[a]).start_time <= (#[trigger] merged[b]).start_time
                && (ends ==> merged[a].end_time <= merged[b].start_time) by {
                assert(merged[a] == acc[a]);
                if b < acc.len() - 1 {
                    assert(merged[b] == acc[b]);
                }
            }
        }
        let pushed = acc.push(sub);
        assert forall|a: int, b: int| 0 <= a < b < pushed.len() implies (#[trigger] pushed[a]).start_time <= (#[trigger] pushed[b]).start_time
            && (ends ==> pushed[a].end_time <= pushed[b].start_time) by {
            assert(pushed[a] == acc[a]);
            if b < acc.len() {
                assert(pushed[b] == acc[b]);
            }
        }
    }
}

/// The clean-up passes keep cues in order: filtering drops some and merging folds some into
/// the one before, and neither moves a start.
proof fn lemma_cleanup_ordered(raw: Seq<EntryView>, cleanup: OcrSubtitleCleanupOptions, ends: bool)
    requires
        ordered_by(raw, ends),
    ensures
        ({
            let kept = if cleanup.filter_url_like {
                drop_url_like_spec(raw)
            } else {
                raw
            };
            let out = if cleanup.merge_similar && kept.len() > 1 {
                renumber_spec(merge_spec(kept, threshold_spec(cleanup), cleanup.max_gap_ms, cleanup.min_cue_duration_ms))
            } else {
                kept
            };
            ordered_by(out, ends)
        }),
{
    let kept = if cleanup.filter_url_like {
        drop_url_like_spec(raw)
    } else {
        raw
    };
    if cleanup.filter_url_like {
        lemma_drop_ordered(raw, ends);
    }
    if cleanup.merge_similar && kept.len() > 1 {
        let th = threshold_spec(cleanup);
        let mg = merge_spec(kept, th, cleanup.max_gap_ms, cleanup.min_cue_duration_ms);
        lemma_merge_ordered(kept, th, cleanup.max_gap_ms, cleanup.min_cue_duration_ms, ends);
        let r = renumber_spec(mg);
        assert forall|a: int, b: int| 0 <= a < b < r.len() implies (#[trigger] r[a]).start_time <= (#[trigger] r[b]).start_time
            && (ends ==> r[a].end_time <= r[b].start_time) by {
            assert(mg[a].start_time <= mg[b].start_time);
        }
    }
}

/// When reading times strictly increase and no step between readings is shorter than the
/// median step (so that a cue's derived end never passes the next reading), the cues come out
/// ordered by start and without overlap, after the merge pass as before it. Two or more readings
/// must give a median step: with fewer than two positive steps, ends come from the frame rate
/// and may pass the next reading.
pub proof fn lemma_cues_ordered(
    frames: Seq<OcrFrameResult>,
    fps_milli: i64,
    min_confidence: u32,
    cleanup: OcrSubtitleCleanupOptions,
)
    requires
        fps_milli > 0,
        times_increasing(frames),
        frames.len() >= 2 ==> infer_step_spec(frames) is Some,
        infer_step_spec(frames) matches Some(m) ==> spaced_by(frames, m) && frames.last().time_ms + m <= u64::MAX,
    ensures
        cues_ordered(subtitles_spec(frames, fps_milli, min_confidence, cleanup)),
{
    let cfg = config_spec(cleanup, min_confidence);
    let segs = segments_spec(frames, cfg);
    let n = frames.len() as int;
    assert(segs == all_segments(run_spec(frames, n, cfg)));
    lemma_run_in_order(frames, n, cfg);
    lemma_run_count(frames, n, cfg);
    let step = infer_step_spec(frames);
    let raw = raw_entries_spec(segs, step, fps_milli);
    if frames.len() >= 2 {
        let m = step->0;
        assert forall|k: int| 0 <= k < segs.len() implies (#[trigger] segs[k]).last_seen_time + m <= u64::MAX by {
            assert(segs[k].last_seen_time <= frames[n - 1].time_ms);
            assert(frames.last() == frames[n - 1]);
        }
        lemma_raw_ordered(frames, segs, m, fps_milli);
    } else {
        assert(raw.len() <= 1);
    }
    lemma_cleanup_ordered(raw, cleanup, true);
}

/// Reading times never decrease.
pub open spec fn times_nondecreasing(frames: Seq<OcrFrameResult>) -> bool {
    forall|i: int| 0 <= i < frames.len() - 1 ==> (#[trigger] frames[i]).time_ms <= frames[i + 1].time_ms
}

proof fn lemma_times_nondecreasing(frames: Seq<OcrFrameResult>, i: int, j: int)
    requires
        times_nondecreasing(frames),
        0 <= i <= j < frames.len(),
    ensures
        frames[i].time_ms <= frames[j].time_ms,
    decreases j - i,
{
    if j > i {
        lemma_times_nondecreasing(frames, i, j - 1);
        assert(frames[j - 1].time_ms <= frames[j].time_ms);
    }
}

proof fn lemma_run_starts_ordered(frames: Seq<OcrFrameResult>, n: int, cfg: StabilizerConfig)
    requires
        times_nondecreasing(frames),
        0 <= n <= frames.len(),
    ensures
        forall|a: int, b: int| 0 <= a < b < all_segments(run_spec(frames, n, cfg)).len() ==>
            (#[trigger] all_segments(run_spec(frames, n, cfg))[a]).start_time <= (#[trigger] all_segments(run_spec(frames, n, cfg))[b]).start_time,
        n > 0 ==> forall|k: int| 0 <= k < all_segments(run_spec(frames, n, cfg)).len() ==>
            (#[trigger] all_segments(run_spec(frames, n, cfg))[k]).start_time <= frames[n - 1].time_ms,
    decreases n,
{
    if n > 0 {
        lemma_run_starts_ordered(frames, n - 1, cfg);
        let (closed, cur) = run_spec(frames, n - 1, cfg);
        let l = all_segments((closed, cur));
        let f = frames[n - 1];
        let t = f.time_ms;
        if n > 1 {
            assert(frames[n - 2].time_ms <= t);
        }
        let next = all_segments(run_spec(frames, n, cfg));
        let opened = crate::stabilizer::open_spec(f);
        assert forall|k: int| 0 <= k < l.len() implies (#[trigger] l[k]).start_time <= t by {}
        if next.len() == l.len() + 1 && next == l.push(opened) {
            assert forall|a: int, b: int| 0 <= a < b < next.len() implies (#[trigger] next[a]).start_time <= (#[trigger] next[b]).start_time by {
                assert(next[a] == l[a]);
                if b < l.len() {
                    assert(next[b] == l[b]);
                }
            }
            assert forall|k: int| 0 <= k < next.len() implies (#[trigger] next[k]).start_time <= t by {
                if k < l.len() {
                    assert(next[k] == l[k]);
                }
            }
        } else {
            match cur {
                None => {
                    assert(next == l);
                },
                Some(seg) => {
                    assert(l == closed.push(seg));
                    assert(next.len() == l.len());
                    assert forall|k: int| 0 <= k < next.len() implies (#[trigger] next[k]).start_time == l[k].start_time by {
                        if k < l.len() - 1 {
                            assert(next[k] == l[k]);
                        }
                    }
                    assert forall|a: int, b: int| 0 <= a < b < next.len() implies (#[trigger] next[a]).start_time <= (#[trigger] next[b]).start_time by {
                        assert(next[a].start_time == l[a].start_time);
                        assert(next[b].start_time == l[b].start_time);
                    }
                    assert forall|k: int| 0 <= k < next.len() implies (#[trigger] next[k]).start_time <= t by {
                        assert(next[k].start_time == l[k].start_time);
                    }
                },
            }
        }
    }
}

/// When reading times never decrease, the cues come out in order of start, after the merge
/// pass as before it.
pub proof fn lemma_cue_starts_ordered(
    frames: Seq<OcrFrameResult>,
    fps_milli: i64,
    min_confidence: u32,
    cleanup: OcrSubtitleCleanupOptions,
)
    requires
        fps_milli > 0,
        times_nondecreasing(frames),
    ensures
        starts_ordered(subtitles_spec(frames, fps_milli, min_confidence, cleanup)),
{
    let cfg = config_spec(cleanup, min_confidence);
    let segs = segments_spec(frames, cfg);
    let n = frames.len() as int;
    assert(segs == all_segments(run_spec(frames, n, cfg)));
    lemma_run_starts_ordered(frames, n, cfg);
    let raw = raw_entries_spec(segs, infer_step_spec(frames), fps_milli);
    assert forall|a: int, b: int| 0 <= a < b < raw.len() implies (#[trigger] raw[a]).start_time <= (#[trigger] raw[b]).start_time
        && (false ==> raw[a].end_time <= raw[b].start_time) by {
        assert(segs[a].start_time <= segs[b].start_time);
    }
    lemma_cleanup_ordered(raw, cleanup, false);
}

/// The merge pass as a whole: merge, then number the cues afresh.
pub open spec fn merge_pass_spec(s: Seq<EntryView>, threshold: u32, max_gap_ms: u32, min_cue_duration_ms: u32) -> Seq<EntryView> {
    renumber_spec(merge_spec(s, threshold, max_gap_ms, min_cue_duration_ms))
}

/// No two neighbouring cues would merge.
pub open spec fn settled(s: Seq<EntryView>, threshold: u32, max_gap_ms: u32, min_cue_duration_ms: u32) -> bool {
    forall|k: int| 0 <= k < s.len() - 1 ==> !mergeable_spec(#[trigger] s[k], s[k + 1], threshold, max_gap_ms, min_cue_duration_ms)
}

/// No merge of the pass replaces the text of the cue that absorbs.
pub open spec fn keeps_texts(s: Seq<EntryView>, threshold: u32, max_gap_ms: u32, min_cue_duration_ms: u32) -> bool
    decreases s.len(),
{
    if s.len() == 0 {
        true
    } else {
        let acc = merge_spec(s.drop_last(), threshold, max_gap_ms, min_cue_duration_ms);
        &&& keeps_texts(s.drop_last(), threshold, max_gap_ms, min_cue_duration_ms)
        &&& (acc.len() > 0 && mergeable_spec(acc.last(), s.last(), threshold, max_gap_ms, min_cue_duration_ms)
            ==> absorb_spec(acc.last(), s.last()).text == acc.last().text)
    }
}

proof fn lemma_settled_prefix(s: Seq<EntryView>, threshold: u32, max_gap_ms: u32, min_cue_duration_ms: u32)
    requires
        settled(s, threshold, max_gap_ms, min_cue_duration_ms),
        s.len() > 0,
    ensures
        settled(s.drop_last(), threshold, max_gap_ms, min_cue_duration_ms),
{
    let p = s.drop_last();
    assert forall|k: int| 0 <= k < p.len() - 1 implies !mergeable_spec(#[trigger] p[k], p[k + 1], threshold, max_gap_ms, min_cue_duration_ms) by {
        assert(p[k] == s[k] && p[k + 1] == s[k + 1]);
    }
}

proof fn lemma_merge_of_settled(s: Seq<EntryView>, threshold: u32, max_gap_ms: u32, min_cue_duration_ms: u32)
    requires
        settled(s, threshold, max_gap_ms, min_cue_duration_ms),
    ensures
        merge_spec(s, threshold, max_gap_ms, min_cue_duration_ms) == s,
    decreases s.len(),
{
    if s.len() > 0 {
        lemma_settled_prefix(s, threshold, max_gap_ms, min_cue_duration_ms);
        lemma_merge_of_settled(s.drop_last(), threshold, max_gap_ms, min_cue_duration_ms);
        if s.len() > 1 {
            assert(s.drop_last().last() == s[s.len() - 2]);
            assert(!mergeable_spec(s[s.len() - 2], s[s.len() - 1], threshold, max_gap_ms, min_cue_duration_ms));
        }
        assert(s.drop_last().push(s.last()) =~= s);
    }
}

proof fn lemma_merge_len(s: Seq<EntryView>, threshold: u32, max_gap_ms: u32, min_cue_duration_ms: u32)
    ensures
        merge_spec(s, threshold, max_gap_ms, min_cue_duration_ms).len() <= s.len(),
        s.len() > 0 ==> merge_spec(s, threshold, max_gap_ms, min_cue_duration_ms).len() > 0,
    decreases s.len(),
{
    if s.len() > 0 {
        lemma_merge_len(s.drop_last(), threshold, max_gap_ms, min_cue_duration_ms);
    }
}

/// A list with two neighbours that would merge comes out of the merge shorter.
proof fn lemma_merge_shrinks(s: Seq<EntryView>, threshold: u32, max_gap_ms: u32, min_cue_duration_ms: u32)
    requires
        !settled(s, threshold, max_gap_ms, min_cue_duration_ms),
    ensures
        merge_spec(s, threshold, max_gap_ms, min_cue_duration_ms).len() < s.len(),
    decreases s.len(),
{
    let p = s.drop_last();
    if settled(p, threshold, max_gap_ms, min_cue_duration_ms) {
        let k = choose|k: int| 0 <= k < s.len() - 1 && !!mergeable_spec(#[trigger] s[k], s[k + 1], threshold, max_gap_ms, min_cue_duration_ms);
        if k < s.len() - 2 {
            assert(p[k] == s[k] && p[k + 1] == s[k + 1]);
        }
        lemma_merge_of_settled(p, threshold, max_gap_ms, min_cue_duration_ms);
        assert(p.last() == s[s.len() - 2]);
        assert(s.last() == s[s.len() - 1]);
    } else {
        lemma_merge_shrinks(p, threshold, max_gap_ms, min_cue_duration_ms);
    }
}

/// A cue that absorbed a neighbour, and kept its text, merges with its predecessor only if it
/// did so before.
proof fn lemma_absorbed_no_likelier(
    p: EntryView,
    prev: EntryView,
    sub: EntryView,
    threshold: u32,
    max_gap_ms: u32,
    min_cue_duration_ms: u32,
)
    requires
        absorb_spec(prev, sub).text == prev.text,
        mergeable_spec(p, absorb_spec(prev, sub), threshold, max_gap_ms, min_cue_duration_ms),
    ensures
        mergeable_spec(p, prev, threshold, max_gap_ms, min_cue_duration_ms),
{
}

proof fn lemma_merge_settles(s: Seq<EntryView>, threshold: u32, max_gap_ms: u32, min_cue_duration_ms: u32)
    requires
        keeps_texts(s, threshold, max_gap_ms, min_cue_duration_ms),
    ensures
        settled(merge_spec(s, threshold, max_gap_ms, min_cue_duration_ms), threshold, max_gap_ms, min_cue_duration_ms),
    decreases s.len(),
{
    if s.len() > 0 {
        lemma_merge_settles(s.drop_last(), threshold, max_gap_ms, min_cue_duration_ms);
        let acc = merge_spec(s.drop_last(), threshold, max_gap_ms, min_cue_duration_ms);
        let sub = s.last();
        if acc.len() > 0 && mergeable_spec(acc.last(), sub, threshold, max_gap_ms, min_cue_duration_ms) {
            let merged = acc.update(acc.len() - 1, absorb_spec(acc.last(), sub));
            assert(acc.last() == acc[acc.len() - 1]);
            assert forall|k: int| 0 <= k < merged.len() - 1 implies !mergeable_spec(#[trigger] merged[k], merged[k + 1], threshold, max_gap_ms, min_cue_duration_ms) by {
                assert(merged[k] == acc[k]);
                if k + 1 < acc.len() - 1 {
                    assert(merged[k + 1] == acc[k + 1]);
                } else {
                    if mergeable_spec(acc[k], merged[k + 1], threshold, max_gap_ms, min_cue_duration_ms) {
                        lemma_absorbed_no_likelier(acc[k], acc.last(), sub, threshold, max_gap_ms, min_cue_duration_ms);
                    }
                }
            }
        } else {
            let pushed = acc.push(sub);
            assert forall|k: int| 0 <= k < pushed.len() - 1 implies !mergeable_spec(#[trigger] pushed[k], pushed[k + 1], threshold, max_gap_ms, min_cue_duration_ms) by {
                assert(pushed[k] == acc[k]);
                if k + 1 < acc.len() {
                    assert(pushed[k + 1] == acc[k + 1]);
                } else {
                    assert(acc.last() == acc[acc.len() - 1]);
                }
            }
        }
    }
}

proof fn lemma_renumber_settled(s: Seq<EntryView>, threshold: u32, max_gap_ms: u32, min_cue_duration_ms: u32)
    ensures
        settled(renumber_spec(s), threshold, max_gap_ms, min_cue_duration_ms) == settled(s, threshold, max_gap_ms, min_cue_duration_ms),
        renumber_spec(renumber_spec(s)) == renumber_spec(s),
{
    let r = renumber_spec(s);
    assert forall|k: int| 0 <= k < s.len() - 1 implies mergeable_spec(#[trigger] r[k], r[k + 1], threshold, max_gap_ms, min_cue_duration_ms)
        == mergeable_spec(s[k], s[k + 1], threshold, max_gap_ms, min_cue_duration_ms) by {}
    if !settled(s, threshold, max_gap_ms, min_cue_duration_ms) {
        let k = choose|k: int| 0 <= k < s.len() - 1 && !!mergeable_spec(#[trigger] s[k], s[k + 1], threshold, max_gap_ms, min_cue_duration_ms);
        assert(mergeable_spec(r[k], r[k + 1], threshold, max_gap_ms, min_cue_duration_ms));
    }
    assert(renumber_spec(r) =~= r);
}

/// Running the merge pass on its own output changes nothing exactly when no two neighbouring
/// cues of that output would merge.
pub proof fn lemma_merge_pass_idempotent_iff_settled(
    s: Seq<EntryView>,
    threshold: u32,
    max_gap_ms: u32,
    min_cue_duration_ms: u32,
)
    ensures
        (merge_pass_spec(merge_pass_spec(s, threshold, max_gap_ms, min_cue_duration_ms), threshold, max_gap_ms, min_cue_duration_ms)
            == merge_pass_spec(s, threshold, max_gap_ms, min_cue_duration_ms))
            <==> settled(merge_pass_spec(s, threshold, max_gap_ms, min_cue_duration_ms), threshold, max_gap_ms, min_cue_duration_ms),
{
    let y = merge_pass_spec(s, threshold, max_gap_ms, min_cue_duration_ms);
    lemma_renumber_settled(merge_spec(s, threshold, max_gap_ms, min_cue_duration_ms), threshold, max_gap_ms, min_cue_duration_ms);
    if settled(y, threshold, max_gap_ms, min_cue_duration_ms) {
        lemma_merge_of_settled(y, threshold, max_gap_ms, min_cue_duration_ms);
    } else {
        lemma_merge_shrinks(y, threshold, max_gap_ms, min_cue_duration_ms);
        assert(merge_pass_spec(y, threshold, max_gap_ms, min_cue_duration_ms).len() < y.len());
    }
}

/// The merge pass is idempotent on every list in which no merge replaces the absorbing cue's
/// text (a replaced text may read as similar to the cue before, which the first pass never
/// compared).
pub proof fn lemma_merge_pass_idempotent(s: Seq<EntryView>, threshold: u32, max_gap_ms: u32, min_cue_duration_ms: u32)
    requires
        keeps_texts(s, threshold, max_gap_ms, min_cue_duration_ms),
    ensures
        merge_pass_spec(merge_pass_spec(s, threshold, max_gap_ms, min_cue_duration_ms), threshold, max_gap_ms, min_cue_duration_ms)
            == merge_pass_spec(s, threshold, max_gap_ms, min_cue_duration_ms),
{
    lemma_merge_settles(s, threshold, max_gap_ms, min_cue_duration_ms);
    lemma_renumber_settled(merge_spec(s, threshold, max_gap_ms, min_cue_duration_ms), threshold, max_gap_ms, min_cue_duration_ms);
    lemma_merge_pass_idempotent_iff_settled(s, threshold, max_gap_ms, min_cue_duration_ms);
}

} // verus!
