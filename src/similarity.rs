//! Bounded edit distance and the similarity test between two comparison keys.
use vstd::prelude::*;
use crate::text::chars_of;

verus! {

/// One whole, in the millionths in which confidences and thresholds are written.
pub const SCALE: u32 = 1_000_000;

/// The smaller of two integers.
pub open spec fn min2(x: int, y: int) -> int {
    if x <= y { x } else { y }
}

/// The larger of two integers.
pub open spec fn max2(x: int, y: int) -> int {
    if x >= y { x } else { y }
}

/// Levenshtein distance: the fewest insertions, deletions and substitutions of single
/// characters that turn `a` into `b`.
pub open spec fn edit_distance(a: Seq<char>, b: Seq<char>) -> nat
    decreases a.len() + b.len(),
{
    if a.len() == 0 {
        b.len()
    } else if b.len() == 0 {
        a.len()
    } else {
        let del = edit_distance(a.drop_last(), b) + 1;
        let ins = edit_distance(a, b.drop_last()) + 1;
        let sub = edit_distance(a.drop_last(), b.drop_last()) + if a.last() == b.last() {
            0nat
        } else {
            1nat
        };
        min2(min2(del as int, ins as int), sub as int) as nat
    }
}

/// Edit distance does not depend on the order of its arguments.
pub proof fn lemma_edit_distance_symmetric(a: Seq<char>, b: Seq<char>)
    ensures
        edit_distance(a, b) == edit_distance(b, a),
    decreases a.len() + b.len(),
{
    if a.len() > 0 && b.len() > 0 {
        lemma_edit_distance_symmetric(a.drop_last(), b);
        lemma_edit_distance_symmetric(a, b.drop_last());
        lemma_edit_distance_symmetric(a.drop_last(), b.drop_last());
    }
}

/// Edit distance lies between the difference and the larger of the two lengths.
pub proof fn lemma_edit_distance_bounds(a: Seq<char>, b: Seq<char>)
    ensures
        edit_distance(a, b) >= a.len() - b.len(),
        edit_distance(a, b) >= b.len() - a.len(),
        edit_distance(a, b) <= max2(a.len() as int, b.len() as int),
    decreases a.len() + b.len(),
{
    if a.len() > 0 && b.len() > 0 {
        lemma_edit_distance_bounds(a.drop_last(), b);
        lemma_edit_distance_bounds(a, b.drop_last());
        lemma_edit_distance_bounds(a.drop_last(), b.drop_last());
    }
}

/// If every prefix of `s` is at least `bound` away from `l[..j]`, the same holds for `l[..j + 1]`.
proof fn lemma_row_step(s: Seq<char>, l: Seq<char>, j: int, bound: int)
    requires
        0 <= j < l.len(),
        forall|i: int| 0 <= i <= s.len() ==> edit_distance(#[trigger] s.subrange(0, i), l.subrange(0, j)) >= bound,
    ensures
        forall|i: int| 0 <= i <= s.len() ==> edit_distance(#[trigger] s.subrange(0, i), l.subrange(0, j + 1)) >= bound,
{
    assert forall|i: int| 0 <= i <= s.len() implies edit_distance(#[trigger] s.subrange(0, i), l.subrange(0, j + 1)) >= bound by {
        lemma_row_step_at(s, l, j, bound, i);
    }
}

proof fn lemma_row_step_at(s: Seq<char>, l: Seq<char>, j: int, bound: int, i: int)
    requires
        0 <= j < l.len(),
        0 <= i <= s.len(),
        forall|k: int| 0 <= k <= s.len() ==> edit_distance(#[trigger] s.subrange(0, k), l.subrange(0, j)) >= bound,
    ensures
        edit_distance(s.subrange(0, i), l.subrange(0, j + 1)) >= bound,
    decreases i,
{
    let a = s.subrange(0, i);
    let b = l.subrange(0, j + 1);
    assert(b.drop_last() == l.subrange(0, j));
    if i == 0 {
        assert(edit_distance(s.subrange(0, 0), l.subrange(0, j)) >= bound);
    } else {
        assert(a.drop_last() == s.subrange(0, i - 1));
        lemma_row_step_at(s, l, j, bound, i - 1);
        assert(edit_distance(s.subrange(0, i - 1), l.subrange(0, j)) >= bound);
        assert(edit_distance(s.subrange(0, i), l.subrange(0, j)) >= bound);
    }
}

/// A lower bound on a whole row of the table bounds the final distance.
proof fn lemma_rows_bound(s: Seq<char>, l: Seq<char>, j: int, bound: int)
    requires
        0 <= j <= l.len(),
        forall|i: int| 0 <= i <= s.len() ==> edit_distance(#[trigger] s.subrange(0, i), l.subrange(0, j)) >= bound,
    ensures
        edit_distance(s, l) >= bound,
    decreases l.len() - j,
{
    if j < l.len() {
        lemma_row_step(s, l, j, bound);
        lemma_rows_bound(s, l, j + 1, bound);
    } else {
        assert(s.subrange(0, s.len() as int) == s);
        assert(l.subrange(0, j) == l);
    }
}

/// The edit distance between `a` and `b` when it is at most `max_dist`, and `None` otherwise.
pub fn levenshtein_distance_bounded(a: &[char], b: &[char], max_dist: usize) -> (r: Option<usize>)
    ensures
        r == (if edit_distance(a@, b@) <= max_dist {
            Some(edit_distance(a@, b@) as usize)
        } else {
            None
        }),
{
    let (short, long) = if a.len() <= b.len() {
        (a, b)
    } else {
        (b, a)
    };
    proof {
        lemma_edit_distance_symmetric(a@, b@);
        lemma_edit_distance_bounds(short@, long@);
    }
    let short_len = short.len();
    let long_len = long.len();
    if long_len - short_len > max_dist {
        return None;
    }
    let ghost s = short@;
    let ghost l = long@;
    let mut prev: Vec<usize> = Vec::new();
    let mut k: usize = 0;
    loop
        invariant_except_break
            k <= short_len,
            prev@.len() == k,
            forall|i: int| 0 <= i < k ==> prev@[i] == i,
        ensures
            prev@.len() == short_len + 1,
            forall|i: int| 0 <= i <= short_len ==> prev@[i] == i,
        decreases short_len - k,
    {
        prev.push(k);
        if k == short_len {
            break;
        }
        k = k + 1;
    }
    proof {
        assert forall|i: int| 0 <= i <= short_len implies prev@[i] == edit_distance(
            #[trigger] s.subrange(0, i),
            l.subrange(0, 0),
        ) by {
            assert(l.subrange(0, 0).len() == 0);
            assert(s.subrange(0, i).len() == i);
        }
    }
    let mut cur: Vec<usize> = prev.clone();
    let mut j: usize = 0;
    while j < long_len
        invariant
            s == short@,
            l == long@,
            edit_distance(a@, b@) == edit_distance(s, l),
            short_len == s.len(),
            long_len == l.len(),
            short_len <= long_len,
            j <= long_len,
            prev@.len() == short_len + 1,
            cur@.len() == short_len + 1,
            forall|i: int| 0 <= i <= short_len ==> prev@[i] == edit_distance(
                #[trigger] s.subrange(0, i),
                l.subrange(0, j as int),
            ),
        decreases long_len - j,
    {
        let long_ch = long[j];
        cur.set(0, j + 1);
        let mut row_min: usize = j + 1;
        proof {
            assert(s.subrange(0, 0).len() == 0);
        }
        let mut i: usize = 0;
        while i < short_len
            invariant
                s == short@,
                l == long@,
                edit_distance(a@, b@) == edit_distance(s, l),
                short_len == s.len(),
                long_len == l.len(),
                short_len <= long_len,
                j < long_len,
                long_ch == l[j as int],
                i <= short_len,
                prev@.len() == short_len + 1,
                cur@.len() == short_len + 1,
                forall|k: int| 0 <= k <= short_len ==> prev@[k] == edit_distance(
                    #[trigger] s.subrange(0, k),
                    l.subrange(0, j as int),
                ),
                forall|k: int| 0 <= k <= i ==> cur@[k] == edit_distance(
                    #[trigger] s.subrange(0, k),
                    l.subrange(0, j + 1),
                ),
                forall|k: int| 0 <= k <= i ==> row_min <= #[trigger] cur@[k],
            decreases short_len - i,
        {
            let cost: usize = if short[i] != long_ch {
                1
            } else {
                0
            };
            let ins = cur[i].saturating_add(1);
            let del = prev[i + 1].saturating_add(1);
            let sub = prev[i].saturating_add(cost);
            let val = if ins <= del && ins <= sub {
                ins
            } else if del <= sub {
                del
            } else {
                sub
            };
            proof {
                let aa = s.subrange(0, i + 1);
                let bb = l.subrange(0, j + 1);
                assert(aa.drop_last() == s.subrange(0, i as int));
                assert(bb.drop_last() == l.subrange(0, j as int));
                assert(aa.last() == short@[i as int]);
                assert(bb.last() == long_ch);
                lemma_edit_distance_bounds(aa, bb);
            }
            cur.set(i + 1, val);
            if val < row_min {
                row_min = val;
            }
            i = i + 1;
        }
        if row_min > max_dist {
            proof {
                assert forall|k: int| 0 <= k <= s.len() implies edit_distance(
                    #[trigger] s.subrange(0, k),
                    l.subrange(0, j + 1),
                ) >= row_min by {
                    assert(row_min <= cur@[k]);
                }
                lemma_rows_bound(s, l, j + 1, row_min as int);
                assert(edit_distance(s, l) > max_dist);
            }
            return None;
        }
        let tmp = prev;
        prev = cur;
        cur = tmp;
        j = j + 1;
    }
    proof {
        assert(s.subrange(0, short_len as int) == s);
        assert(l.subrange(0, long_len as int) == l);
    }
    if prev[short_len] <= max_dist {
        Some(prev[short_len])
    } else {
        None
    }
}


/// Whether `needle` occurs in `hay` as a contiguous run.
pub open spec fn contains_spec(hay: Seq<char>, needle: Seq<char>) -> bool {
    exists|i: int|
        0 <= i <= hay.len() - needle.len() && #[trigger] hay.subrange(i, i + needle.len())
            == needle
}

/// Whether `needle` occurs in `hay` as a contiguous run.
pub fn contains_chars(hay: &[char], needle: &[char]) -> (r: bool)
    ensures
        r == contains_spec(hay@, needle@),
{
    let hay_len = hay.len();
    let needle_len = needle.len();
    if needle_len > hay_len {
        return false;
    }
    let last = hay_len - needle_len;
    let mut i: usize = 0;
    loop
        invariant
            hay_len == hay@.len(),
            needle_len == needle@.len(),
            needle_len <= hay_len,
            last == hay_len - needle_len,
            i <= last,
            forall|p: int| 0 <= p < i ==> #[trigger] hay@.subrange(p, p + needle@.len()) != needle@,
        decreases last - i,
    {
        let mut k: usize = 0;
        let mut ok = true;
        while ok && k < needle_len
            invariant
                hay_len == hay@.len(),
                needle_len == needle@.len(),
                i <= last,
                last == hay_len - needle_len,
                k <= needle_len,
                forall|q: int| 0 <= q < k ==> hay@[i + q] == needle@[q],
                !ok ==> k < needle_len && hay@[i + k] != needle@[k as int],
            ensures
                k <= needle_len,
                forall|q: int| 0 <= q < k ==> hay@[i + q] == needle@[q],
                ok ==> k == needle_len,
                !ok ==> k < needle_len && hay@[i + k] != needle@[k as int],
            decreases needle_len - k,
        {
            if hay[i + k] != needle[k] {
                ok = false;
                break;
            } else {
                k = k + 1;
            }
        }
        if ok {
            assert(hay@.subrange(i as int, i + needle@.len()) =~= needle@);
            return true;
        }
        assert(hay@.subrange(i as int, i + needle@.len())[k as int] != needle@[k as int]);
        if i == last {
            return false;
        }
        i = i + 1;
    }
}

/// The similarity test on two comparison keys at `threshold` (in millionths; values above
/// one whole count as one).
pub open spec fn similar_spec(a: Seq<char>, b: Seq<char>, threshold: int) -> bool {
    let t = min2(threshold, SCALE as int);
    let min_len = min2(a.len() as int, b.len() as int);
    let max_len = max2(a.len() as int, b.len() as int);
    let dist = edit_distance(a, b) as int;
    let max_dist = ((SCALE - t) * max_len + SCALE - 1) / (SCALE as int);
    if a == b {
        true
    } else if (contains_spec(a, b) || contains_spec(b, a)) && (max_len - min_len <= 2 || 10
        * min_len >= 7 * max_len) {
        true
    } else if min_len < 6 {
        a.len() == b.len() && dist <= 1
    } else {
        max_dist > 0 && dist <= max_dist && (max_len - dist) * SCALE >= t * max_len
    }
}

/// Similarity does not depend on the order of the two keys.
pub proof fn lemma_similarity_symmetric(a: Seq<char>, b: Seq<char>, threshold: int)
    ensures
        similar_spec(a, b, threshold) == similar_spec(b, a, threshold),
{
    lemma_edit_distance_symmetric(a, b);
}

/// The number of positions at which two keys of equal length differ.
pub open spec fn differing_positions(a: Seq<char>, b: Seq<char>) -> nat
    decreases a.len(),
{
    if a.len() == 0 || b.len() == 0 {
        0
    } else {
        differing_positions(a.drop_last(), b.drop_last()) + if a.last() == b.last() {
            0nat
        } else {
            1nat
        }
    }
}

proof fn lemma_distance_at_most_differing(a: Seq<char>, b: Seq<char>)
    requires
        a.len() == b.len(),
    ensures
        edit_distance(a, b) <= differing_positions(a, b),
    decreases a.len(),
{
    if a.len() > 0 {
        lemma_distance_at_most_differing(a.drop_last(), b.drop_last());
    }
}

proof fn lemma_differing_at_most_small_distance(a: Seq<char>, b: Seq<char>)
    requires
        a.len() == b.len(),
        edit_distance(a, b) <= 1,
    ensures
        differing_positions(a, b) <= edit_distance(a, b),
    decreases a.len(),
{
    if a.len() > 0 {
        lemma_edit_distance_bounds(a.drop_last(), b);
        lemma_edit_distance_bounds(a, b.drop_last());
        lemma_differing_at_most_small_distance(a.drop_last(), b.drop_last());
    }
}

proof fn lemma_differing_means_unequal(a: Seq<char>, b: Seq<char>)
    requires
        a.len() == b.len(),
        differing_positions(a, b) > 0,
    ensures
        a != b,
    decreases a.len(),
{
    if a.len() > 0 && a.last() == b.last() {
        lemma_differing_means_unequal(a.drop_last(), b.drop_last());
        if a == b {
            assert(a.drop_last() == b.drop_last());
        }
    }
}

proof fn lemma_same_length_containment(a: Seq<char>, b: Seq<char>)
    requires
        a.len() == b.len(),
        contains_spec(a, b),
    ensures
        a == b,
{
    let i = choose|i: int| 0 <= i <= a.len() - b.len() && #[trigger] a.subrange(i, i + b.len()) == b;
    assert(i == 0);
    assert(a.subrange(0, a.len() as int) == a);
}

/// Two short keys (under six characters) of equal length that differ in exactly one position
/// are similar, at any threshold.
pub proof fn lemma_short_keys_one_apart_similar(a: Seq<char>, b: Seq<char>, threshold: int)
    requires
        a.len() == b.len(),
        a.len() < 6,
        differing_positions(a, b) == 1,
    ensures
        similar_spec(a, b, threshold),
{
    lemma_distance_at_most_differing(a, b);
}

/// Two short keys (under six characters) of equal length that differ in exactly two positions
/// are not similar, at any threshold.
pub proof fn lemma_short_keys_two_apart_not_similar(a: Seq<char>, b: Seq<char>, threshold: int)
    requires
        a.len() == b.len(),
        a.len() < 6,
        differing_positions(a, b) == 2,
    ensures
        !similar_spec(a, b, threshold),
{
    lemma_differing_means_unequal(a, b);
    if contains_spec(a, b) {
        lemma_same_length_containment(a, b);
    }
    if contains_spec(b, a) {
        lemma_same_length_containment(b, a);
    }
    if edit_distance(a, b) <= 1 {
        lemma_differing_at_most_small_distance(a, b);
    }
}

/// Whether two comparison keys name the same on-screen text, at `threshold` in millionths.
pub fn texts_are_similar(a_key: &str, b_key: &str, threshold: u32) -> (r: bool)
    ensures
        r == similar_spec(a_key@, b_key@, threshold as int),
{
    let a_chars = chars_of(a_key);
    let b_chars = chars_of(b_key);
    let a = a_chars.as_slice();
    let b = b_chars.as_slice();
    let a_len = a.len();
    let b_len = b.len();
    let min_len = if a_len <= b_len { a_len } else { b_len };
    let max_len = if a_len >= b_len { a_len } else { b_len };
    proof {
        lemma_edit_distance_bounds(a@, b@);
        if a@ == b@ {
            assert(a@.subrange(0int, 0int + b@.len()) == b@);
            assert(contains_spec(a@, b@));
        }
    }
    if a_len == b_len && contains_chars(a, b) {
        proof {
            let i = choose|i: int|
                0 <= i <= a@.len() - b@.len() && #[trigger] a@.subrange(i, i + b@.len()) == b@;
            assert(a@.subrange(i, i + b@.len()) == a@);
        }
        return true;
    }
    if contains_chars(a, b) || contains_chars(b, a) {
        if max_len - min_len <= 2 || 10 * (min_len as u128) >= 7 * (max_len as u128) {
            return true;
        }
    }
    if min_len < 6 {
        if a_len != b_len {
            return false;
        }
        let r = match levenshtein_distance_bounded(a, b, 1) {
            Some(dist) => dist <= 1,
            None => false,
        };
        assert(r == (edit_distance(a@, b@) <= 1));
        assert(!(a@ == b@));
        return r;
    }
    let t: u32 = if threshold > SCALE { SCALE } else { threshold };
    let room: u128 = (SCALE - t) as u128;
    assert(room * (max_len as u128) <= 1_000_000 * 0x1_0000_0000_0000_0000) by (nonlinear_arith)
        requires
            room <= 1_000_000,
            max_len < 0x1_0000_0000_0000_0000,
    ;
    let max_dist_wide: u128 = (room * max_len as u128 + SCALE as u128 - 1)
        / SCALE as u128;
    assert(max_dist_wide <= max_len) by (nonlinear_arith)
        requires
            max_dist_wide == ((SCALE - t) * max_len + SCALE - 1) / (SCALE as int),
            t <= SCALE,
            SCALE == 1_000_000,
    ;
    let max_dist = max_dist_wide as usize;
    if max_dist == 0 {
        return false;
    }
    assert(t * max_len <= 1_000_000 * 0x1_0000_0000_0000_0000) by (nonlinear_arith)
        requires
            t <= 1_000_000,
            max_len < 0x1_0000_0000_0000_0000,
    ;
    match levenshtein_distance_bounded(a, b, max_dist) {
        Some(dist) => {
            (max_len - dist) as u128 * SCALE as u128 >= t as u128 * max_len as u128
        },
        None => false,
    }
}

} // verus!
