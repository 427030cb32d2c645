//! Choosing the text that represents a segment from the readings gathered for it.
use vstd::prelude::*;
use crate::similarity::min2;
use crate::text::chars_of;

verus! {

/// Weight of a group's share of the readings, in millionths.
pub const FREQUENCY_BONUS: u32 = 50_000;

/// Bonus per character of a group's text, in millionths.
pub const LENGTH_BONUS_PER_CHAR: u32 = 5_000;

/// Cap on the length bonus, in millionths.
pub const LENGTH_BONUS_CAP: u32 = 50_000;

/// One reading gathered for a segment.
#[derive(Clone, Debug)]
pub struct SegmentCandidate {
    /// Comparison key of the reading.
    pub key: String,
    /// The reading with whitespace collapsed, as it will be shown.
    pub text: String,
    /// Recognition confidence, in millionths.
    pub confidence: u32,
}

/// What a reading holds, as plain values.
pub struct CandidateView {
    pub key: Seq<char>,
    pub text: Seq<char>,
    pub confidence: u32,
}

impl View for SegmentCandidate {
    type V = CandidateView;

    open spec fn view(&self) -> CandidateView {
        CandidateView { key: self.key@, text: self.text@, confidence: self.confidence }
    }
}

/// The views of a list of readings.
pub open spec fn candidate_views(c: Seq<SegmentCandidate>) -> Seq<CandidateView> {
    c.map_values(|x: SegmentCandidate| x@)
}

/// How many readings carry `key`.
pub open spec fn group_count(c: Seq<CandidateView>, key: Seq<char>) -> nat
    decreases c.len(),
{
    if c.len() == 0 {
        0
    } else {
        group_count(c.drop_last(), key) + if c.last().key == key {
            1nat
        } else {
            0nat
        }
    }
}

/// The highest confidence among the readings that carry `key` (zero if there are none).
pub open spec fn group_max(c: Seq<CandidateView>, key: Seq<char>) -> u32
    decreases c.len(),
{
    if c.len() == 0 {
        0
    } else {
        let m = group_max(c.drop_last(), key);
        if c.last().key == key && c.last().confidence > m {
            c.last().confidence
        } else {
            m
        }
    }
}

/// The text of the earliest reading that carries `key` and reaches its group's highest
/// confidence.
pub open spec fn group_text(c: Seq<CandidateView>, key: Seq<char>) -> Seq<char>
    decreases c.len(),
{
    if c.len() == 0 {
        Seq::empty()
    } else {
        let prev = c.drop_last();
        if c.last().key == key && (group_count(prev, key) == 0 || c.last().confidence
            > group_max(prev, key)) {
            c.last().text
        } else {
            group_text(prev, key)
        }
    }
}

/// A group's score, multiplied by the number of readings: highest confidence, plus a bonus
/// for its share of the readings, plus a capped bonus for the length of its text.
pub open spec fn group_score(c: Seq<CandidateView>, key: Seq<char>) -> int {
    group_max(c, key) * c.len() + group_count(c, key) * FREQUENCY_BONUS + min2(
        LENGTH_BONUS_PER_CHAR * group_text(c, key).len(),
        LENGTH_BONUS_CAP as int,
    ) * c.len()
}

/// Reading `i` is the first to carry its key.
pub open spec fn first_of_key(c: Seq<CandidateView>, i: int) -> bool {
    0 <= i < c.len() && forall|k: int| 0 <= k < i ==> (#[trigger] c[k]).key != c[i].key
}

/// The key of reading `i` wins: no group scores higher, and every group that appears earlier
/// scores lower.
pub open spec fn is_winner(c: Seq<CandidateView>, i: int) -> bool {
    &&& first_of_key(c, i)
    &&& forall|k: int|
        0 <= k < c.len() ==> group_score(c, (#[trigger] c[k]).key) <= group_score(c, c[i].key)
    &&& forall|k: int| 0 <= k < i ==> group_score(c, (#[trigger] c[k]).key) < group_score(c, c[i].key)
}

/// A key that no reading carries has a highest confidence of zero.
pub proof fn lemma_group_empty(c: Seq<CandidateView>, key: Seq<char>)
    requires
        group_count(c, key) == 0,
    ensures
        group_max(c, key) == 0,
    decreases c.len(),
{
    if c.len() > 0 {
        lemma_group_empty(c.drop_last(), key);
    }
}

/// The key of a reading is carried by at least one reading.
pub proof fn lemma_group_present(c: Seq<CandidateView>, k: int)
    requires
        0 <= k < c.len(),
    ensures
        group_count(c, c[k].key) > 0,
    decreases c.len(),
{
    if k < c.len() - 1 {
        lemma_group_present(c.drop_last(), k);
    }
}

struct Group {
    key: String,
    count: usize,
    max_conf: u32,
    text: String,
    first: usize,
}

/// The text and confidence that a segment's readings yield: those of the winning group.
pub open spec fn selection_spec(c: Seq<CandidateView>) -> Option<(Seq<char>, u32)> {
    if c.len() == 0 {
        None
    } else {
        let i = choose|i: int| is_winner(c, i);
        Some((group_text(c, c[i].key), group_max(c, c[i].key)))
    }
}

/// Among the first `n` readings, the first one whose key scores highest.
pub open spec fn best_index(c: Seq<CandidateView>, n: int) -> int
    decreases n,
{
    if n <= 1 {
        0
    } else {
        let b = best_index(c, n - 1);
        if group_score(c, c[n - 1].key) > group_score(c, c[b].key) {
            n - 1
        } else {
            b
        }
    }
}

proof fn lemma_best_index(c: Seq<CandidateView>, n: int)
    requires
        1 <= n <= c.len(),
    ensures
        0 <= best_index(c, n) < n,
        forall|k: int| 0 <= k < n ==> group_score(c, (#[trigger] c[k]).key) <= group_score(c, c[best_index(c, n)].key),
        forall|k: int| 0 <= k < best_index(c, n) ==> group_score(c, (#[trigger] c[k]).key) < group_score(c, c[best_index(c, n)].key),
    decreases n,
{
    if n > 1 {
        lemma_best_index(c, n - 1);
    }
}

/// Every non-empty list of readings has a winner.
pub proof fn lemma_winner_exists(c: Seq<CandidateView>)
    requires
        c.len() > 0,
    ensures
        exists|i: int| is_winner(c, i),
{
    lemma_best_index(c, c.len() as int);
    let i = best_index(c, c.len() as int);
    assert forall|k: int| 0 <= k < i implies (#[trigger] c[k]).key != c[i].key by {
        assert(group_score(c, c[k].key) < group_score(c, c[i].key));
    }
    assert(is_winner(c, i));
}

/// A group's highest confidence is at least that of each of its readings.
pub proof fn lemma_group_max_member(c: Seq<CandidateView>, key: Seq<char>, k: int)
    requires
        0 <= k < c.len(),
        c[k].key == key,
    ensures
        group_max(c, key) >= c[k].confidence,
    decreases c.len(),
{
    if k < c.len() - 1 {
        lemma_group_max_member(c.drop_last(), key, k);
    }
}

/// At most one reading wins.
pub proof fn lemma_winner_unique(c: Seq<CandidateView>, i: int, j: int)
    requires
        is_winner(c, i),
        is_winner(c, j),
    ensures
        i == j,
{
    if i < j {
        assert(group_score(c, c[i].key) < group_score(c, c[j].key));
    } else if j < i {
        assert(group_score(c, c[j].key) < group_score(c, c[i].key));
    }
}

/// The winning text of a segment's readings and its highest confidence; `None` when there are
/// no readings.
pub fn select_segment_text(candidates: &[SegmentCandidate]) -> (r: Option<(String, u32)>)
    ensures
        r is None <==> candidates@.len() == 0,
        r matches Some((text, conf)) ==> selection_spec(candidate_views(candidates@)) == Some(
            (text@, conf),
        ),
        r is Some ==> exists|i: int| is_winner(candidate_views(candidates@), i),
{
    let c = candidates;
    if c.len() == 0 {
        return None;
    }
    let ghost cs = candidate_views(c@);
    let mut groups: Vec<Group> = Vec::new();
    let ghost mut group_of: Seq<int> = Seq::empty();
    let mut n: usize = 0;
    while n < c.len()
        invariant
            cs == candidate_views(c@),
            n <= cs.len(),
            group_of.len() == n,
            forall|k: int| 0 <= k < n ==> 0 <= #[trigger] group_of[k] < groups@.len() && groups@[group_of[k]].key@ == cs[k].key,
            forall|g: int|
                0 <= g < groups@.len() ==> {
                    let gr = #[trigger] groups@[g];
                    &&& gr.first < n
                    &&& first_of_key(cs, gr.first as int)
                    &&& gr.key@ == cs[gr.first as int].key
                    &&& gr.count == group_count(cs.subrange(0, n as int), gr.key@)
                    &&& gr.max_conf == group_max(cs.subrange(0, n as int), gr.key@)
                    &&& gr.text@ == group_text(cs.subrange(0, n as int), gr.key@)
                },
            forall|g1: int, g2: int|
                0 <= g1 < g2 < groups@.len() ==> (#[trigger] groups@[g1]).first < (#[trigger] groups@[g2]).first,
        decreases cs.len() - n,
    {
        let x = &c[n];
        let ghost p = cs.subrange(0, n as int);
        let ghost p2 = cs.subrange(0, n + 1);
        assert(p2.drop_last() == p);
        assert(p2.last() == x@);
        let mut g: usize = 0;
        while g < groups.len() && groups[g].key != x.key
            invariant
                g <= groups@.len(),
                forall|h: int| 0 <= h < g ==> (#[trigger] groups@[h]).key@ != x.key@,
            decreases groups@.len() - g,
        {
            g = g + 1;
        }
        if g < groups.len() {
            let old_group = &groups[g];
            proof {
                lemma_count_le(p, old_group.key@);
            }
            let count = old_group.count + 1;
            let (max_conf, text) = if x.confidence > old_group.max_conf {
                (x.confidence, x.text.clone())
            } else {
                (old_group.max_conf, old_group.text.clone())
            };
            proof {
                lemma_group_present(p, old_group.first as int);
            }
            let updated = Group { key: old_group.key.clone(), count, max_conf, text, first: old_group.first };
            groups.set(g, updated);
            proof {
                group_of = group_of.push(g as int);
            }
        } else {
            proof {
                assert forall|k: int| 0 <= k < n implies cs[k].key != x.key@ by {
                    assert(groups@[group_of[k]].key@ == cs[k].key);
                }
                assert forall|k: int| 0 <= k < n implies (#[trigger] cs[k]).key != cs[n as int].key by {
                    assert(cs[k].key != x.key@);
                }
                if group_count(p, x.key@) > 0 {
                    lemma_count_witness(p, x.key@);
                }
                lemma_group_empty(p, x.key@);
            }
            let fresh = Group { key: x.key.clone(), count: 1, max_conf: x.confidence, text: x.text.clone(), first: n };
            groups.push(fresh);
            proof {
                group_of = group_of.push(g as int);
            }
        }
        n = n + 1;
    }
    assert(cs.subrange(0, cs.len() as int) == cs);
    assert(0 <= group_of[0] < groups@.len());
    let total = c.len();
    let mut best: usize = 0;
    let mut best_score: u128 = 0;
    let mut w: usize = 0;
    while w < groups.len()
        invariant
            cs == candidate_views(c@),
            total == cs.len(),
            total > 0,
            groups@.len() > 0,
            w <= groups@.len(),
            best < groups@.len(),
            w > 0 ==> best < w,
            w > 0 ==> best_score == group_score(cs, groups@[best as int].key@),
            forall|h: int| 0 <= h < w ==> group_score(cs, (#[trigger] groups@[h]).key@) <= best_score,
            forall|h: int| 0 <= h < best ==> group_score(cs, (#[trigger] groups@[h]).key@) < best_score,
            forall|g: int|
                0 <= g < groups@.len() ==> {
                    let gr = #[trigger] groups@[g];
                    &&& gr.first < cs.len()
                    &&& first_of_key(cs, gr.first as int)
                    &&& gr.key@ == cs[gr.first as int].key
                    &&& gr.count == group_count(cs, gr.key@)
                    &&& gr.max_conf == group_max(cs, gr.key@)
                    &&& gr.text@ == group_text(cs, gr.key@)
                },
        decreases groups@.len() - w,
    {
        let gr = &groups[w];
        let chars = chars_of(gr.text.as_str());
        let len_bonus: u128 = if (chars.len() as u128) * (LENGTH_BONUS_PER_CHAR as u128) < LENGTH_BONUS_CAP as u128 {
            (chars.len() as u128) * (LENGTH_BONUS_PER_CHAR as u128)
        } else {
            LENGTH_BONUS_CAP as u128
        };
        assert((gr.max_conf as u128) * (total as u128) <= 0xffff_ffff * 0xffff_ffff_ffff_ffff) by (nonlinear_arith)
            requires gr.max_conf <= 0xffff_ffff, total <= 0xffff_ffff_ffff_ffff;
        assert((gr.count as u128) * (FREQUENCY_BONUS as u128) <= 0xffff_ffff_ffff_ffff * 50_000) by (nonlinear_arith)
            requires gr.count <= 0xffff_ffff_ffff_ffff, FREQUENCY_BONUS == 50_000;
        assert(len_bonus * (total as u128) <= 50_000 * 0xffff_ffff_ffff_ffff) by (nonlinear_arith)
            requires len_bonus <= 50_000, total <= 0xffff_ffff_ffff_ffff;
        let score: u128 = (gr.max_conf as u128) * (total as u128) + (gr.count as u128) * (FREQUENCY_BONUS as u128) + len_bonus * (total as u128);
        assert(score == group_score(cs, gr.key@));
        if w == 0 || score > best_score {
            best = w;
            best_score = score;
        }
        w = w + 1;
    }
    let winner = &groups[best];
    proof {
        let i = winner.first as int;
        assert forall|k: int| 0 <= k < cs.len() implies group_score(cs, (#[trigger] cs[k]).key) <= group_score(cs, cs[i].key) by {
            let h = group_of[k];
            assert(groups@[h].key@ == cs[k].key);
        }
        assert forall|k: int| 0 <= k < i implies group_score(cs, (#[trigger] cs[k]).key) < group_score(cs, cs[i].key) by {
            let h = group_of[k];
            assert(groups@[h].key@ == cs[k].key);
            let gh = groups@[h];
            if h >= best {
                if h > best {
                    assert(groups@[best as int].first < groups@[h].first);
                }
                assert(first_of_key(cs, gh.first as int));
                assert(gh.first <= k);
            }
        }
        assert(is_winner(cs, i));
        let j = choose|j: int| is_winner(cs, j);
        lemma_winner_unique(cs, i, j);
    }
    Some((winner.text.clone(), winner.max_conf))
}

proof fn lemma_count_le(c: Seq<CandidateView>, key: Seq<char>)
    ensures
        group_count(c, key) <= c.len(),
    decreases c.len(),
{
    if c.len() > 0 {
        lemma_count_le(c.drop_last(), key);
    }
}

proof fn lemma_count_witness(c: Seq<CandidateView>, key: Seq<char>)
    requires
        group_count(c, key) > 0,
    ensures
        exists|k: int| 0 <= k < c.len() && (#[trigger] c[k]).key == key,
    decreases c.len(),
{
    if c.last().key == key {
        assert(c[c.len() - 1].key == key);
    } else {
        lemma_count_witness(c.drop_last(), key);
        let k = choose|k: int| 0 <= k < c.drop_last().len() && (#[trigger] c.drop_last()[k]).key == key;
        assert(c[k].key == key);
    }
}

} // verus!
