//! Cue timing and the clean-up passes that run after segmentation.
use vstd::prelude::*;
use vstd::relations::{sorted_by, total_ordering};
use vstd::utf8::encode_utf8;
use crate::model::{EntryView, OcrFrameResult, OcrSubtitleEntry};
use crate::similarity::{similar_spec, texts_are_similar};
use crate::text::{key_spec, normalize_text_for_compare, string_from_chars};
use crate::url_filter::{text_looks_url_like, url_like_spec};

verus! {

/// Relaxed threshold, in millionths, at which a too-short cue merges with its neighbour.
pub const SHORT_CUE_THRESHOLD: u32 = 800_000;

/// The ascending order on `u64`.
pub open spec fn ascending() -> spec_fn(u64, u64) -> bool {
    |x: u64, y: u64| x <= y
}

/// The positive time steps between neighbouring readings, in order.
pub open spec fn positive_deltas(f: Seq<OcrFrameResult>) -> Seq<u64>
    decreases f.len(),
{
    if f.len() < 2 {
        Seq::empty()
    } else {
        let prev = positive_deltas(f.drop_last());
        let a = f[f.len() - 2].time_ms;
        let b = f.last().time_ms;
        if b > a {
            prev.push((b - a) as u64)
        } else {
            prev
        }
    }
}

/// The median positive step between readings (the upper one of an even count), when there
/// are at least two positive steps; otherwise end times fall back to the frame rate.
pub open spec fn infer_step_spec(f: Seq<OcrFrameResult>) -> Option<u64> {
    let d = positive_deltas(f);
    if d.len() < 2 {
        None
    } else {
        Some(d.sort_by(ascending())[(d.len() / 2) as int])
    }
}

/// Relies on `slice::sort_unstable`: the same elements, in ascending order.
#[verifier::external_body]
fn sort_ascending(v: &mut Vec<u64>)
    ensures
        sorted_by(final(v)@, ascending()),
        final(v)@.to_multiset() == old(v)@.to_multiset(),
{
    v.sort_unstable();
}

/// The median time step between readings, used to tell when a cue ends.
pub fn infer_frame_step_ms(frame_results: &[OcrFrameResult]) -> (r: Option<u64>)
    ensures
        r == infer_step_spec(frame_results@),
{
    let f = frame_results;
    let mut deltas: Vec<u64> = Vec::new();
    let mut i: usize = 1;
    if f.len() < 2 {
        return None;
    }
    while i < f.len()
        invariant
            1 <= i <= f@.len(),
            deltas@ == positive_deltas(f@.subrange(0, i as int)),
        decreases f@.len() - i,
    {
        proof {
            let pre = f@.subrange(0, i + 1);
            assert(pre.drop_last() == f@.subrange(0, i as int));
        }
        if f[i].time_ms > f[i - 1].time_ms {
            deltas.push(f[i].time_ms - f[i - 1].time_ms);
        }
        i = i + 1;
    }
    assert(f@.subrange(0, f@.len() as int) == f@);
    if deltas.len() < 2 {
        return None;
    }
    let ghost d = deltas@;
    sort_ascending(&mut deltas);
    proof {
        broadcast use vstd::seq_lib::group_to_multiset_ensures;
        assert(deltas@.len() == deltas@.to_multiset().len());
        assert(d.len() == d.to_multiset().len());
        assert(total_ordering(ascending()));
        d.lemma_sort_by_ensures(ascending());
        vstd::seq_lib::lemma_sorted_unique(deltas@, d.sort_by(ascending()), ascending());
    }
    Some(deltas[deltas.len() / 2])
}

/// `(frame_index + 1) * 1000 / fps` milliseconds, rounded half up, for a frame rate given in
/// thousandths of a frame per second.
pub open spec fn frame_end_spec(frame_index: u32, fps_milli: i64) -> int {
    ((frame_index + 1) * 2_000_000 + fps_milli) / (2 * fps_milli)
}

/// When a frame stops showing, by the frame rate alone.
pub fn frame_end_time_ms(frame_index: u32, fps_milli: i64) -> (r: u64)
    requires
        fps_milli > 0,
    ensures
        r == frame_end_spec(frame_index, fps_milli),
{
    let n: u64 = frame_index as u64 + 1;
    let fps: u64 = fps_milli as u64;
    assert(n * 2_000_000 <= 0x1_0000_0000 * 2_000_000) by (nonlinear_arith)
        requires n <= 0x1_0000_0000;
    (n * 2_000_000 + fps) / (2 * fps)
}

/// A cue's end: the last sighting plus one step between readings, or the frame rate's
/// estimate when no step is known; always at least a millisecond after the start.
pub open spec fn segment_end_spec(
    start_time: u64,
    last_seen_time: u64,
    last_seen_frame_index: u32,
    frame_step_ms: Option<u64>,
    fps_milli: i64,
) -> u64 {
    let end = match frame_step_ms {
        Some(step) if last_seen_time + step <= u64::MAX => (last_seen_time + step) as u64,
        _ => frame_end_spec(last_seen_frame_index, fps_milli) as u64,
    };
    if end <= start_time {
        if start_time < u64::MAX {
            (start_time + 1) as u64
        } else {
            start_time
        }
    } else {
        end
    }
}

/// The end of a cue; see [`segment_end_spec`].
pub fn segment_end_time_ms(
    start_time: u64,
    last_seen_time: u64,
    last_seen_frame_index: u32,
    frame_step_ms: Option<u64>,
    fps_milli: i64,
) -> (r: u64)
    requires
        fps_milli > 0,
    ensures
        r == segment_end_spec(start_time, last_seen_time, last_seen_frame_index, frame_step_ms, fps_milli),
{
    let end = match frame_step_ms {
        Some(step) => match last_seen_time.checked_add(step) {
            Some(e) => e,
            None => frame_end_time_ms(last_seen_frame_index, fps_milli),
        },
        None => frame_end_time_ms(last_seen_frame_index, fps_milli),
    };
    if end <= start_time {
        start_time.saturating_add(1)
    } else {
        end
    }
}

/// The decimal digits of `n`.
pub open spec fn decimal_spec(n: nat) -> Seq<char>
    decreases n,
{
    if n < 10 {
        seq![digit_char(n)]
    } else {
        decimal_spec(n / 10).push(digit_char(n % 10))
    }
}

/// The decimal digit for `d` below ten.
pub open spec fn digit_char(d: nat) -> char {
    ((d + 48) as u32) as char
}

/// Appends the decimal digits of `n` to `out`.
pub fn push_decimal(n: u64, out: &mut Vec<char>)
    ensures
        final(out)@ == old(out)@ + decimal_spec(n as nat),
    decreases n,
{
    if n >= 10 {
        push_decimal(n / 10, out);
    }
    let d = (n % 10) as u8;
    out.push((48u8 + d) as char);
    assert(final(out)@ =~= old(out)@ + decimal_spec(n as nat));
}

/// `sub-<n>`.
pub open spec fn id_spec(n: nat) -> Seq<char> {
    seq!['s', 'u', 'b', '-'] + decimal_spec(n)
}

/// The id of the `n`th cue.
pub fn cue_id(n: u64) -> (r: String)
    ensures
        r@ == id_spec(n as nat),
{
    let mut out: Vec<char> = Vec::new();
    out.push('s');
    out.push('u');
    out.push('b');
    out.push('-');
    push_decimal(n, &mut out);
    assert(out@ =~= id_spec(n as nat));
    string_from_chars(out.as_slice())
}

/// `a - b`, or zero.
pub open spec fn sub_or_zero(a: u64, b: u64) -> int {
    if a >= b {
        a - b
    } else {
        0
    }
}

/// The cues left once those that look like links are dropped.
pub open spec fn drop_url_like_spec(s: Seq<EntryView>) -> Seq<EntryView>
    decreases s.len(),
{
    if s.len() == 0 {
        s
    } else {
        let prev = drop_url_like_spec(s.drop_last());
        if url_like_spec(s.last().text) {
            prev
        } else {
            prev.push(s.last())
        }
    }
}

/// Whether cue `sub` merges into the cue `prev` before it.
pub open spec fn mergeable_spec(
    prev: EntryView,
    sub: EntryView,
    threshold: u32,
    max_gap_ms: u32,
    min_cue_duration_ms: u32,
) -> bool {
    let a = key_spec(prev.text);
    let b = key_spec(sub.text);
    let short = sub_or_zero(prev.end_time, prev.start_time) < min_cue_duration_ms || sub_or_zero(
        sub.end_time,
        sub.start_time,
    ) < min_cue_duration_ms;
    &&& sub_or_zero(sub.start_time, prev.end_time) <= max_gap_ms
    &&& (similar_spec(a, b, threshold as int) || (short && similar_spec(a, b, SHORT_CUE_THRESHOLD as int)))
}

/// Length of a text in UTF-8 bytes.
pub open spec fn utf8_len(t: Seq<char>) -> int {
    encode_utf8(t).len() as int
}

/// `prev` after absorbing `sub`: it ends at the later end, keeps the more confident text
/// (the longer one on equal confidence) and the higher confidence.
pub open spec fn absorb_spec(prev: EntryView, sub: EntryView) -> EntryView {
    let take = sub.confidence > prev.confidence || (sub.confidence == prev.confidence && utf8_len(
        sub.text,
    ) > utf8_len(prev.text));
    EntryView {
        id: prev.id,
        text: if take {
            sub.text
        } else {
            prev.text
        },
        start_time: prev.start_time,
        end_time: if sub.end_time > prev.end_time {
            sub.end_time
        } else {
            prev.end_time
        },
        confidence: if sub.confidence > prev.confidence {
            sub.confidence
        } else {
            prev.confidence
        },
    }
}

/// The left-to-right merge of neighbouring similar cues (ids not yet renumbered).
pub open spec fn merge_spec(
    s: Seq<EntryView>,
    threshold: u32,
    max_gap_ms: u32,
    min_cue_duration_ms: u32,
) -> Seq<EntryView>
    decreases s.len(),
{
    if s.len() == 0 {
        s
    } else {
        let acc = merge_spec(s.drop_last(), threshold, max_gap_ms, min_cue_duration_ms);
        let sub = s.last();
        if acc.len() > 0 && mergeable_spec(acc.last(), sub, threshold, max_gap_ms, min_cue_duration_ms) {
            acc.update(acc.len() - 1, absorb_spec(acc.last(), sub))
        } else {
            acc.push(sub)
        }
    }
}

/// The cues with ids `sub-1`, `sub-2`, ... in order.
pub open spec fn renumber_spec(s: Seq<EntryView>) -> Seq<EntryView> {
    Seq::new(s.len(), |k: int| EntryView { id: id_spec((k + 1) as nat), ..s[k] })
}

fn copy_entry(e: &OcrSubtitleEntry) -> (r: OcrSubtitleEntry)
    ensures
        r@ == e@,
{
    OcrSubtitleEntry {
        id: e.id.clone(),
        text: e.text.clone(),
        start_time: e.start_time,
        end_time: e.end_time,
        confidence: e.confidence,
    }
}

/// Drops the cues whose text looks like a link or a domain name; ids are kept.
pub fn drop_url_like(entries: &Vec<OcrSubtitleEntry>) -> (r: Vec<OcrSubtitleEntry>)
    ensures
        crate::model::entry_views(r@) == drop_url_like_spec(crate::model::entry_views(entries@)),
{
    let ghost s = crate::model::entry_views(entries@);
    let mut out: Vec<OcrSubtitleEntry> = Vec::new();
    let mut i: usize = 0;
    while i < entries.len()
        invariant
            s == crate::model::entry_views(entries@),
            i <= entries@.len(),
            crate::model::entry_views(out@) == drop_url_like_spec(s.subrange(0, i as int)),
        decreases entries@.len() - i,
    {
        let ghost before = crate::model::entry_views(out@);
        proof {
            let pre = s.subrange(0, i + 1);
            assert(pre.drop_last() == s.subrange(0, i as int));
        }
        if !text_looks_url_like(entries[i].text.as_str()) {
            out.push(copy_entry(&entries[i]));
            assert(crate::model::entry_views(out@) =~= before.push(s[i as int]));
        }
        i = i + 1;
    }
    assert(s.subrange(0, s.len() as int) == s);
    out
}

fn mergeable(
    prev: &OcrSubtitleEntry,
    sub: &OcrSubtitleEntry,
    threshold: u32,
    max_gap_ms: u32,
    min_cue_duration_ms: u32,
) -> (r: bool)
    ensures
        r == mergeable_spec(prev@, sub@, threshold, max_gap_ms, min_cue_duration_ms),
{
    let gap = sub.start_time.saturating_sub(prev.end_time);
    let prev_key = normalize_text_for_compare(prev.text.as_str());
    let sub_key = normalize_text_for_compare(sub.text.as_str());
    let prev_dur = prev.end_time.saturating_sub(prev.start_time);
    let sub_dur = sub.end_time.saturating_sub(sub.start_time);
    let similar_strict = texts_are_similar(prev_key.as_str(), sub_key.as_str(), threshold);
    let similar_short = texts_are_similar(prev_key.as_str(), sub_key.as_str(), SHORT_CUE_THRESHOLD);
    let is_short = prev_dur < min_cue_duration_ms as u64 || sub_dur < min_cue_duration_ms as u64;
    gap <= max_gap_ms as u64 && (similar_strict || (is_short && similar_short))
}

fn absorb(prev: &OcrSubtitleEntry, sub: &OcrSubtitleEntry) -> (r: OcrSubtitleEntry)
    ensures
        r@ == absorb_spec(prev@, sub@),
{
    let sub_len = sub.text.as_str().as_bytes().len();
    let prev_len = prev.text.as_str().as_bytes().len();
    let take = sub.confidence > prev.confidence || (sub.confidence == prev.confidence && sub_len
        > prev_len);
    OcrSubtitleEntry {
        id: prev.id.clone(),
        text: if take {
            sub.text.clone()
        } else {
            prev.text.clone()
        },
        start_time: prev.start_time,
        end_time: if sub.end_time > prev.end_time {
            sub.end_time
        } else {
            prev.end_time
        },
        confidence: if sub.confidence > prev.confidence {
            sub.confidence
        } else {
            prev.confidence
        },
    }
}

/// Merges each cue into the one before it when they are close in time and similar in text,
/// then numbers the cues afresh.
pub fn merge_adjacent(
    entries: &Vec<OcrSubtitleEntry>,
    threshold: u32,
    max_gap_ms: u32,
    min_cue_duration_ms: u32,
) -> (r: Vec<OcrSubtitleEntry>)
    ensures
        crate::model::entry_views(r@) == renumber_spec(
            merge_spec(crate::model::entry_views(entries@), threshold, max_gap_ms, min_cue_duration_ms),
        ),
{
    let ghost s = crate::model::entry_views(entries@);
    let mut merged: Vec<OcrSubtitleEntry> = Vec::new();
    let mut i: usize = 0;
    while i < entries.len()
        invariant
            s == crate::model::entry_views(entries@),
            i <= entries@.len(),
            crate::model::entry_views(merged@) == merge_spec(s.subrange(0, i as int), threshold, max_gap_ms, min_cue_duration_ms),
        decreases entries@.len() - i,
    {
        let ghost before = crate::model::entry_views(merged@);
        proof {
            let pre = s.subrange(0, i + 1);
            assert(pre.drop_last() == s.subrange(0, i as int));
            assert(pre.last() == s[i as int]);
        }
        let sub = &entries[i];
        let n = merged.len();
        if n > 0 && mergeable(&merged[n - 1], sub, threshold, max_gap_ms, min_cue_duration_ms) {
            let updated = absorb(&merged[n - 1], sub);
            merged.set(n - 1, updated);
            assert(crate::model::entry_views(merged@) =~= before.update(n - 1, absorb_spec(before.last(), s[i as int])));
        } else {
            merged.push(copy_entry(sub));
            assert(crate::model::entry_views(merged@) =~= before.push(s[i as int]));
        }
        i = i + 1;
    }
    assert(s.subrange(0, s.len() as int) == s);
    let ghost m = crate::model::entry_views(merged@);
    let mut out: Vec<OcrSubtitleEntry> = Vec::new();
    let mut k: usize = 0;
    while k < merged.len()
        invariant
            m == crate::model::entry_views(merged@),
            k <= merged@.len(),
            crate::model::entry_views(out@) == renumber_spec(m).subrange(0, k as int),
        decreases merged@.len() - k,
    {
        let e = &merged[k];
        let id = cue_id(k as u64 + 1);
        let entry = OcrSubtitleEntry { id, text: e.text.clone(), start_time: e.start_time, end_time: e.end_time, confidence: e.confidence };
        assert(m[k as int] == e@);
        assert(entry@ == renumber_spec(m)[k as int]);
        let ghost before = crate::model::entry_views(out@);
        out.push(entry);
        assert(crate::model::entry_views(out@) =~= before.push(entry@));
        assert(crate::model::entry_views(out@) =~= renumber_spec(m).subrange(0, k + 1));
        k = k + 1;
    }
    assert(renumber_spec(m).subrange(0, m.len() as int) == renumber_spec(m));
    out
}

} // verus!
