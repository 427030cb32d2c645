//! The decisions of the frame OCR scheduler: how frames are split among workers, how the
//! regions found in one frame become one reading, and how results are put back in order.
//! Running the workers and the recognition engine is left to the caller.
use vstd::prelude::*;
use crate::model::{OcrError, OcrFrameResult};
use crate::text::{string_from_chars, trim_chars, trim_spec, TrimSet};

verus! {

/// A key paired with the position of the item it belongs to.
pub type Keyed = (i64, usize);

/// Where `key` goes in `s`: after every leading entry whose key is not greater.
pub open spec fn insert_pos(s: Seq<Keyed>, key: i64) -> nat
    decreases s.len(),
{
    if s.len() == 0 {
        0
    } else if s[0].0 > key {
        0
    } else {
        1 + insert_pos(s.drop_first(), key)
    }
}

/// Stable insertion sort by key: equal keys keep their order.
pub open spec fn stable_sort_spec(s: Seq<Keyed>) -> Seq<Keyed>
    decreases s.len(),
{
    if s.len() == 0 {
        s
    } else {
        let sorted = stable_sort_spec(s.drop_last());
        sorted.insert(insert_pos(sorted, s.last().0) as int, s.last())
    }
}

/// Keys never decrease along `s`.
pub open spec fn keys_ascending(s: Seq<Keyed>) -> bool {
    forall|a: int, b: int| 0 <= a < b < s.len() ==> (#[trigger] s[a]).0 <= (#[trigger] s[b]).0
}

proof fn lemma_insert_pos(s: Seq<Keyed>, key: i64)
    ensures
        insert_pos(s, key) <= s.len(),
        forall|k: int| 0 <= k < insert_pos(s, key) ==> (#[trigger] s[k]).0 <= key,
        insert_pos(s, key) < s.len() ==> s[insert_pos(s, key) as int].0 > key,
    decreases s.len(),
{
    if s.len() > 0 && s[0].0 <= key {
        lemma_insert_pos(s.drop_first(), key);
        assert forall|k: int| 0 <= k < insert_pos(s, key) implies (#[trigger] s[k]).0 <= key by {
            if k > 0 {
                assert(s[k] == s.drop_first()[k - 1]);
            }
        }
    }
}

/// The stable sort leaves the keys in ascending order.
pub proof fn lemma_stable_sort_ascending(s: Seq<Keyed>)
    ensures
        keys_ascending(stable_sort_spec(s)),
        stable_sort_spec(s).len() == s.len(),
    decreases s.len(),
{
    if s.len() > 0 {
        lemma_stable_sort_ascending(s.drop_last());
        let sorted = stable_sort_spec(s.drop_last());
        let x = s.last();
        let p = insert_pos(sorted, x.0) as int;
        lemma_insert_pos(sorted, x.0);
        let r = sorted.insert(p, x);
        assert forall|a: int, b: int| 0 <= a < b < r.len() implies (#[trigger] r[a]).0 <= (#[trigger] r[b]).0 by {
            if b < p {
                assert(r[a] == sorted[a] && r[b] == sorted[b]);
            } else if b == p {
                assert(r[a] == sorted[a]);
            } else if a < p {
                assert(r[a] == sorted[a] && r[b] == sorted[b - 1]);
            } else if a == p {
                assert(r[b] == sorted[b - 1]);
                assert(sorted[p].0 > x.0);
                if b - 1 > p {
                    assert(sorted[p].0 <= sorted[b - 1].0);
                }
            } else {
                assert(r[a] == sorted[a - 1] && r[b] == sorted[b - 1]);
            }
        }
    }
}

/// Sorts keyed positions by key, keeping the order of equal keys.
pub fn stable_sort_keyed(items: &Vec<Keyed>) -> (r: Vec<Keyed>)
    ensures
        r@ == stable_sort_spec(items@),
        r@.len() == items@.len(),
        forall|k: int| 0 <= k < r@.len() ==> exists|j: int| 0 <= j < items@.len() && (#[trigger] r@[k]) == items@[j],
{
    let mut out: Vec<Keyed> = Vec::new();
    let mut n: usize = 0;
    while n < items.len()
        invariant
            n <= items@.len(),
            out@ == stable_sort_spec(items@.subrange(0, n as int)),
            out@.len() == n,
            forall|k: int| 0 <= k < out@.len() ==> exists|j: int| 0 <= j < n && (#[trigger] out@[k]) == items@[j],
        decreases items@.len() - n,
    {
        let x = items[n];
        proof {
            let pre = items@.subrange(0, n + 1);
            assert(pre.drop_last() == items@.subrange(0, n as int));
            assert(pre.last() == x);
        }
        let mut i: usize = 0;
        proof {
            assert(out@.subrange(0, out@.len() as int) == out@);
        }
        while i < out.len() && out[i].0 <= x.0
            invariant
                i <= out@.len(),
                insert_pos(out@, x.0) == i + insert_pos(out@.subrange(i as int, out@.len() as int), x.0),
            decreases out@.len() - i,
        {
            proof {
                let rest = out@.subrange(i as int, out@.len() as int);
                assert(rest.drop_first() == out@.subrange(i + 1, out@.len() as int));
            }
            i = i + 1;
        }
        let ghost before = out@;
        out.insert(i, x);
        proof {
            assert forall|k: int| 0 <= k < out@.len() implies exists|j: int| 0 <= j < n + 1 && (#[trigger] out@[k]) == items@[j] by {
                if k < i {
                    assert(out@[k] == before[k]);
                } else if k == i {
                    assert(out@[k] == items@[n as int]);
                } else {
                    assert(out@[k] == before[k - 1]);
                }
            }
        }
        n = n + 1;
    }
    assert(items@.subrange(0, items@.len() as int) == items@);
    out
}

/// One text region that the recognition engine found in a frame.
#[derive(Clone, Debug)]
pub struct TextRegion {
    /// Top edge of the region's box, in pixels.
    pub top: i32,
    pub text: String,
    /// Recognition confidence, in millionths.
    pub confidence: u32,
}

/// The regions, keyed by their top edge, in the order the engine gave them.
pub open spec fn region_keys(regions: Seq<TextRegion>) -> Seq<Keyed> {
    Seq::new(regions.len(), |i: int| (regions[i].top as i64, i as usize))
}

/// The regions from top to bottom (equal tops in the engine's order).
pub open spec fn regions_top_down(regions: Seq<TextRegion>) -> Seq<TextRegion> {
    let order = stable_sort_spec(region_keys(regions));
    Seq::new(order.len(), |k: int| regions[order[k].1 as int])
}

/// The non-empty pieces of `parts`, joined by single spaces.
pub open spec fn join_spec(parts: Seq<Seq<char>>) -> Seq<char>
    decreases parts.len(),
{
    if parts.len() == 0 {
        Seq::empty()
    } else {
        let prev = join_spec(parts.drop_last());
        let t = parts.last();
        if t.len() == 0 {
            prev
        } else if prev.len() == 0 {
            t
        } else {
            prev + seq![' '] + t
        }
    }
}

/// The trimmed texts of the regions, top to bottom.
pub open spec fn region_lines(regions: Seq<TextRegion>) -> Seq<Seq<char>> {
    let down = regions_top_down(regions);
    Seq::new(down.len(), |k: int| trim_spec(down[k].text@, TrimSet::WhiteSpace))
}

/// The sum of the regions' confidences.
pub open spec fn confidence_sum(regions: Seq<TextRegion>) -> int
    decreases regions.len(),
{
    if regions.len() == 0 {
        0
    } else {
        confidence_sum(regions.drop_last()) + regions.last().confidence
    }
}

/// The mean confidence of the regions, rounded down; zero when there are none.
pub open spec fn mean_confidence(regions: Seq<TextRegion>) -> int {
    if regions.len() == 0 {
        0
    } else {
        confidence_sum(regions) / (regions.len() as int)
    }
}

proof fn lemma_sum_bound(regions: Seq<TextRegion>)
    ensures
        0 <= confidence_sum(regions) <= regions.len() * 0xffff_ffff,
    decreases regions.len(),
{
    if regions.len() > 0 {
        lemma_sum_bound(regions.drop_last());
    }
}

/// One reading of a frame from its regions: their trimmed, non-empty texts from top to bottom
/// joined by spaces, and their mean confidence.
pub fn merge_regions(regions: &[TextRegion]) -> (r: (String, u32))
    ensures
        r.0@ == join_spec(region_lines(regions@)),
        r.1 == mean_confidence(regions@),
{
    let n = regions.len();
    let mut keys: Vec<Keyed> = Vec::new();
    let mut i: usize = 0;
    while i < n
        invariant
            n == regions@.len(),
            i <= n,
            keys@ == region_keys(regions@).subrange(0, i as int),
        decreases n - i,
    {
        keys.push((regions[i].top as i64, i));
        assert(keys@ =~= region_keys(regions@).subrange(0, i + 1));
        i = i + 1;
    }
    assert(keys@ =~= region_keys(regions@));
    let order = stable_sort_keyed(&keys);
    let ghost lines = region_lines(regions@);
    let mut out: Vec<char> = Vec::new();
    let mut k: usize = 0;
    proof {
        assert forall|q: int| 0 <= q < order@.len() implies (#[trigger] order@[q]).1 < n by {
            let j = choose|j: int| 0 <= j < keys@.len() && order@[q] == keys@[j];
        }
    }
    while k < order.len()
        invariant
            n == regions@.len(),
            order@ == stable_sort_spec(region_keys(regions@)),
            order@.len() == n,
            forall|q: int| 0 <= q < order@.len() ==> (#[trigger] order@[q]).1 < n,
            lines == region_lines(regions@),
            k <= order@.len(),
            out@ == join_spec(lines.subrange(0, k as int)),
        decreases order@.len() - k,
    {
        let idx = order[k].1;
        let chars = crate::text::chars_of(regions[idx].text.as_str());
        let t = trim_chars(chars.as_slice(), TrimSet::WhiteSpace);
        proof {
            let pre = lines.subrange(0, k + 1);
            assert(pre.drop_last() == lines.subrange(0, k as int));
            assert(pre.last() == t@);
        }
        if t.len() > 0 {
            let ghost before = out@;
            if out.len() > 0 {
                out.push(' ');
            }
            let mut q: usize = 0;
            let ghost mid = out@;
            while q < t.len()
                invariant
                    q <= t@.len(),
                    out@ == mid + t@.subrange(0, q as int),
                decreases t@.len() - q,
            {
                out.push(t[q]);
                assert(out@ =~= mid + t@.subrange(0, q + 1));
                q = q + 1;
            }
            proof {
                assert(t@.subrange(0, t@.len() as int) == t@);
                if before.len() == 0 {
                    assert(out@ =~= t@);
                } else {
                    assert(out@ =~= before + seq![' '] + t@);
                }
            }
        }
        k = k + 1;
    }
    assert(lines.subrange(0, n as int) == lines);
    let mut sum: u128 = 0;
    let mut j: usize = 0;
    while j < n
        invariant
            n == regions@.len(),
            j <= n,
            sum == confidence_sum(regions@.subrange(0, j as int)),
            sum <= j * 0xffff_ffff,
        decreases n - j,
    {
        proof {
            let pre = regions@.subrange(0, j + 1);
            assert(pre.drop_last() == regions@.subrange(0, j as int));
        }
        sum = sum + regions[j].confidence as u128;
        j = j + 1;
    }
    assert(regions@.subrange(0, n as int) == regions@);
    let mean: u32 = if n == 0 {
        0
    } else {
        assert(sum / (n as u128) <= 0xffff_ffff) by (nonlinear_arith)
            requires
                sum <= n * 0xffff_ffff,
                n > 0,
        ;
        (sum / (n as u128)) as u32
    };
    (string_from_chars(out.as_slice()), mean)
}

/// `frame_index * 1000 / fps` milliseconds, rounded half up, for a frame rate in thousandths.
pub open spec fn frame_time_spec(frame_index: u32, fps_milli: i64) -> int {
    (frame_index * 2_000_000 + fps_milli) / (2 * fps_milli)
}

/// The presentation time of a frame, from its position and the frame rate.
pub fn frame_time_ms(frame_index: u32, fps_milli: i64) -> (r: u64)
    requires
        fps_milli > 0,
    ensures
        r == frame_time_spec(frame_index, fps_milli),
{
    let n: u64 = frame_index as u64;
    let fps: u64 = fps_milli as u64;
    assert(n * 2_000_000 <= 0x1_0000_0000 * 2_000_000) by (nonlinear_arith)
        requires n <= 0x1_0000_0000;
    (n * 2_000_000 + fps) / (2 * fps)
}

/// The reading of frame `frame_index` from the regions found in it.
pub fn frame_observation(frame_index: u32, fps_milli: i64, regions: &[TextRegion]) -> (r: OcrFrameResult)
    requires
        fps_milli > 0,
    ensures
        r.frame_index == frame_index,
        r.time_ms == frame_time_spec(frame_index, fps_milli),
        r.text@ == join_spec(region_lines(regions@)),
        r.confidence == mean_confidence(regions@),
{
    let (text, confidence) = merge_regions(regions);
    OcrFrameResult { frame_index, time_ms: frame_time_ms(frame_index, fps_milli), text, confidence }
}

/// Frames per worker: the frame count divided by the worker count (at least one), rounded up.
pub open spec fn chunk_size_spec(total: nat, workers: u32) -> nat {
    let w: nat = if workers == 0 {
        1
    } else {
        workers as nat
    };
    ((total + w - 1) / (w as int)) as nat
}

/// The frames of each worker, as half-open ranges `[start, end)` of consecutive frames.
pub open spec fn chunks_spec(total: nat, workers: u32) -> Seq<(usize, usize)> {
    let c = chunk_size_spec(total, workers);
    if total == 0 {
        Seq::empty()
    } else {
        Seq::new(
            ((total + c - 1) / (c as int)) as nat,
            |k: int| ((k * c) as usize, (if (k + 1) * c < total { (k + 1) * c } else { total as int }) as usize),
        )
    }
}

proof fn lemma_ceil(k: int, c: int, total: int)
    requires
        c >= 1,
        k >= 0,
        total >= 0,
    ensures
        (k * c < total) <==> (k < (total + c - 1) / c),
{
    let q = (total + c - 1) / c;
    let r = (total + c - 1) % c;
    assert(total + c - 1 == q * c + r && 0 <= r < c) by (nonlinear_arith)
        requires c >= 1, q == (total + c - 1) / c, r == (total + c - 1) % c;
    if k < q {
        assert(k * c <= (q - 1) * c) by (nonlinear_arith)
            requires k <= q - 1, c >= 1;
        assert((q - 1) * c == q * c - c) by (nonlinear_arith);
    } else {
        assert(k * c >= q * c) by (nonlinear_arith)
            requires k >= q, c >= 1;
    }
}

/// Splits `total` frames into consecutive chunks of the same size (the last may be shorter),
/// one per worker.
pub fn plan_chunks(total: usize, workers: u32) -> (r: Vec<(usize, usize)>)
    ensures
        r@ == chunks_spec(total as nat, workers),
{
    if total == 0 {
        return Vec::new();
    }
    let w: usize = if workers == 0 {
        1
    } else {
        workers as usize
    };
    let c: usize = (total - 1) / w + 1;
    assert(c == (total + w - 1) / (w as int)) by (nonlinear_arith)
        requires
            w >= 1,
            total >= 1,
            c == ((total - 1) as int) / (w as int) + 1,
    {
        assert((((total - 1) as int) + w) / (w as int) == ((total - 1) as int) / (w as int) + 1) by (nonlinear_arith)
            requires w >= 1, total >= 1;
    }
    assert(c >= 1);
    assert(c <= total) by (nonlinear_arith)
        requires w >= 1, total >= 1, c == ((total - 1) as int) / (w as int) + 1;
    let ghost count: int = (total + c - 1) / (c as int);
    let mut out: Vec<(usize, usize)> = Vec::new();
    let mut start: usize = 0;
    let mut k: usize = 0;
    proof {
        lemma_ceil(0, c as int, total as int);
    }
    while start < total
        invariant
            1 <= c <= total,
            k <= count,
            c == chunk_size_spec(total as nat, workers),
            count == (total + c - 1) / (c as int),
            chunks_spec(total as nat, workers).len() == count,
            k <= start || k == 0,
            start <= total,
            k * c < total ==> start == k * c,
            start < total ==> k * c < total,
            (k * c < total) <==> (k < count),
            out@ == chunks_spec(total as nat, workers).subrange(0, k as int),
        decreases total - start,
    {
        let end: usize = if total - start > c {
            start + c
        } else {
            total
        };
        assert((k + 1) * c == k * c + c) by (nonlinear_arith);
        out.push((start, end));
        assert(out@ =~= chunks_spec(total as nat, workers).subrange(0, k + 1));
        proof {
            lemma_ceil(k + 1, c as int, total as int);
            assert(k * c >= k) by (nonlinear_arith) requires c >= 1, k >= 0;
        }
        start = end;
        k = k + 1;
    }
    assert(k == count);
    assert(chunks_spec(total as nat, workers).subrange(0, k as int) =~= chunks_spec(total as nat, workers));
    out
}


/// The readings keyed by frame index, in the order they came.
pub open spec fn frame_keys(f: Seq<OcrFrameResult>) -> Seq<Keyed> {
    Seq::new(f.len(), |i: int| (f[i].frame_index as i64, i as usize))
}

/// The readings ordered by frame index (equal indices in the order they came).
pub open spec fn by_frame_index(f: Seq<OcrFrameResult>) -> Seq<OcrFrameResult> {
    let order = stable_sort_spec(frame_keys(f));
    Seq::new(order.len(), |k: int| f[order[k].1 as int])
}

fn copy_frame(f: &OcrFrameResult) -> (r: OcrFrameResult)
    ensures
        r == *f,
{
    OcrFrameResult {
        frame_index: f.frame_index,
        time_ms: f.time_ms,
        text: f.text.clone(),
        confidence: f.confidence,
    }
}

/// Puts the readings that the workers returned back in frame order.
pub fn sort_by_frame_index(results: &[OcrFrameResult]) -> (r: Vec<OcrFrameResult>)
    ensures
        r@ == by_frame_index(results@),
        r@.len() == results@.len(),
        forall|a: int, b: int| 0 <= a < b < r@.len() ==> (#[trigger] r@[a]).frame_index <= (#[trigger] r@[b]).frame_index,
{
    let n = results.len();
    let mut keys: Vec<Keyed> = Vec::new();
    let mut i: usize = 0;
    while i < n
        invariant
            n == results@.len(),
            i <= n,
            keys@ == frame_keys(results@).subrange(0, i as int),
        decreases n - i,
    {
        keys.push((results[i].frame_index as i64, i));
        assert(keys@ =~= frame_keys(results@).subrange(0, i + 1));
        i = i + 1;
    }
    assert(keys@ =~= frame_keys(results@));
    let order = stable_sort_keyed(&keys);
    proof {
        assert forall|q: int| 0 <= q < order@.len() implies (#[trigger] order@[q]).1 < n by {
            let j = choose|j: int| 0 <= j < keys@.len() && order@[q] == keys@[j];
        }
    }
    let mut out: Vec<OcrFrameResult> = Vec::new();
    let mut k: usize = 0;
    while k < order.len()
        invariant
            n == results@.len(),
            order@ == stable_sort_spec(frame_keys(results@)),
            forall|q: int| 0 <= q < order@.len() ==> (#[trigger] order@[q]).1 < n,
            k <= order@.len(),
            out@ == by_frame_index(results@).subrange(0, k as int),
        decreases order@.len() - k,
    {
        out.push(copy_frame(&results[order[k].1]));
        assert(out@ =~= by_frame_index(results@).subrange(0, k + 1));
        k = k + 1;
    }
    assert(out@ =~= by_frame_index(results@));
    proof {
        lemma_stable_sort_ascending(frame_keys(results@));
        assert forall|a: int, b: int| 0 <= a < b < out@.len() implies (#[trigger] out@[a]).frame_index <= (#[trigger] out@[b]).frame_index by {
            let ia = order@[a].1 as int;
            let ib = order@[b].1 as int;
            assert(order@[a].0 <= order@[b].0);
            let ja = choose|j: int| 0 <= j < keys@.len() && order@[a] == keys@[j];
            let jb = choose|j: int| 0 <= j < keys@.len() && order@[b] == keys@[j];
            assert(keys@[ja] == frame_keys(results@)[ja]);
            assert(keys@[jb] == frame_keys(results@)[jb]);
        }
    }
    out
}

/// What became of one frame of a chunk.
#[derive(Debug)]
pub enum FrameOutcome {
    /// The image could not be read or recognition failed: the frame is skipped.
    Unreadable,
    /// The regions that recognition found.
    Recognized(Vec<TextRegion>),
}

/// One worker's progress through its chunk.
#[derive(Debug)]
pub struct ChunkWork {
    /// Readings of the frames recognised so far, in chunk order.
    pub results: Vec<OcrFrameResult>,
    /// Frames handled so far, skipped ones included.
    pub processed: u64,
}

impl ChunkWork {
    /// A worker that has handled no frame yet.
    pub fn new() -> (r: ChunkWork)
        ensures
            r.results@.len() == 0,
            r.processed == 0,
    {
        ChunkWork { results: Vec::new(), processed: 0 }
    }

    /// The worker stops at once, with a cancellation, when the job has been cancelled.
    pub fn check_cancelled(cancelled: bool) -> (r: Result<(), OcrError>)
        ensures
            r is Err <==> cancelled,
            r is Err ==> r == Err::<(), OcrError>(OcrError::Cancelled),
    {
        if cancelled {
            Err(OcrError::Cancelled)
        } else {
            Ok(())
        }
    }

    /// Takes in the outcome of frame `frame_index`: a recognised frame adds its reading, an
    /// unreadable one adds nothing; either way the frame counts as handled.
    pub fn record(&mut self, frame_index: u32, fps_milli: i64, outcome: &FrameOutcome)
        requires
            fps_milli > 0,
            old(self).processed < u64::MAX,
        ensures
            final(self).processed == old(self).processed + 1,
            outcome is Unreadable ==> final(self).results@ == old(self).results@,
            outcome matches FrameOutcome::Recognized(regions) ==> {
                let r = final(self).results@;
                &&& r.len() == old(self).results@.len() + 1
                &&& r.subrange(0, r.len() - 1) == old(self).results@
                &&& r.last().frame_index == frame_index
                &&& r.last().time_ms == frame_time_spec(frame_index, fps_milli)
                &&& r.last().text@ == join_spec(region_lines(regions@))
                &&& r.last().confidence == mean_confidence(regions@)
            },
    {
        match outcome {
            FrameOutcome::Unreadable => {},
            FrameOutcome::Recognized(regions) => {
                let obs = frame_observation(frame_index, fps_milli, regions.as_slice());
                self.results.push(obs);
                assert(self.results@.subrange(0, self.results@.len() - 1) =~= old(self).results@);
            },
        }
        self.processed = self.processed + 1;
    }
}

} // verus!
