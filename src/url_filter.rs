//! Recognising subtitle cues that are really web addresses or watermarks.
use vstd::prelude::*;
use crate::similarity::{contains_chars, contains_spec};
use crate::text::{ascii_lower_chars, ascii_lower_spec, is_white_space, is_white_space_spec, is_ascii_alphabetic, is_ascii_alphabetic_spec, chars_of, trim_chars, trim_spec, TrimSet};

verus! {

/// The pieces of `s` between occurrences of `sep`; `k` separators give `k + 1` pieces.
pub open spec fn split_spec(s: Seq<char>, sep: char) -> Seq<Seq<char>>
    decreases s.len(),
{
    if s.len() == 0 {
        seq![Seq::empty()]
    } else {
        let prev = split_spec(s.drop_last(), sep);
        if s.last() == sep {
            prev.push(Seq::empty())
        } else {
            prev.update(prev.len() - 1, prev.last().push(s.last()))
        }
    }
}

/// Splitting always yields at least one piece.
pub proof fn lemma_split_len(s: Seq<char>, sep: char)
    ensures
        split_spec(s, sep).len() >= 1,
    decreases s.len(),
{
    if s.len() > 0 {
        lemma_split_len(s.drop_last(), sep);
    }
}

/// `s` cut at every `sep`.
pub fn split_chars(s: &[char], sep: char) -> (r: Vec<Vec<char>>)
    ensures
        Seq::new(r@.len(), |k: int| r@[k]@) == split_spec(s@, sep),
{
    let mut done: Vec<Vec<char>> = Vec::new();
    let mut current: Vec<char> = Vec::new();
    let mut i: usize = 0;
    assert(s@.subrange(0, 0) == Seq::<char>::empty());
    assert(split_spec(Seq::<char>::empty(), sep) =~= seq![Seq::<char>::empty()]);
    while i < s.len()
        invariant
            i <= s@.len(),
            split_spec(s@.subrange(0, i as int), sep) == Seq::new(done@.len(), |k: int| done@[k]@).push(current@),
        decreases s@.len() - i,
    {
        let c = s[i];
        let ghost before = Seq::new(done@.len(), |k: int| done@[k]@);
        proof {
            let pre = s@.subrange(0, i + 1);
            assert(pre.drop_last() == s@.subrange(0, i as int));
            assert(pre.last() == c);
        }
        if c == sep {
            let finished = current;
            done.push(finished);
            current = Vec::new();
            assert(Seq::new(done@.len(), |k: int| done@[k]@) =~= before.push(finished@));
        } else {
            current.push(c);
            assert(before.push(current@) =~= before.push(current@.drop_last()).update(before.len() as int, current@));
        }
        i = i + 1;
    }
    assert(s@.subrange(0, s@.len() as int) == s@);
    let ghost before = Seq::new(done@.len(), |k: int| done@[k]@);
    done.push(current);
    assert(Seq::new(done@.len(), |k: int| done@[k]@) =~= before.push(current@));
    done
}

/// A top-level domain: two to six ASCII letters.
pub open spec fn is_tld_spec(p: Seq<char>) -> bool {
    2 <= p.len() <= 6 && forall|i: int| 0 <= i < p.len() ==> is_ascii_alphabetic_spec(#[trigger] p[i])
}

/// A domain label in front of the top-level domain: two characters or more, one of them an
/// ASCII letter.
pub open spec fn is_label_spec(p: Seq<char>) -> bool {
    p.len() >= 2 && exists|i: int| 0 <= i < p.len() && is_ascii_alphabetic_spec(#[trigger] p[i])
}

/// Whether a token, once stripped of surrounding characters that cannot occur in a host name,
/// reads `label.tld` with no empty piece between its dots.
pub open spec fn looks_like_domain_spec(token: Seq<char>) -> bool {
    let parts = split_spec(trim_spec(token, TrimSet::NotHostName), '.');
    &&& parts.len() >= 2
    &&& forall|i: int| 0 <= i < parts.len() ==> (#[trigger] parts[i]).len() > 0
    &&& is_tld_spec(parts.last())
    &&& is_label_spec(parts[parts.len() - 2])
}

fn is_tld(p: &Vec<char>) -> (r: bool)
    ensures
        r == is_tld_spec(p@),
{
    if p.len() < 2 || p.len() > 6 {
        return false;
    }
    let mut i: usize = 0;
    while i < p.len()
        invariant
            i <= p@.len(),
            forall|k: int| 0 <= k < i ==> is_ascii_alphabetic_spec(#[trigger] p@[k]),
        decreases p@.len() - i,
    {
        if !is_ascii_alphabetic(p[i]) {
            return false;
        }
        i = i + 1;
    }
    true
}

fn is_label(p: &Vec<char>) -> (r: bool)
    ensures
        r == is_label_spec(p@),
{
    if p.len() < 2 {
        return false;
    }
    let mut i: usize = 0;
    while i < p.len()
        invariant
            i <= p@.len(),
            p@.len() >= 2,
            forall|k: int| 0 <= k < i ==> !is_ascii_alphabetic_spec(#[trigger] p@[k]),
        decreases p@.len() - i,
    {
        if is_ascii_alphabetic(p[i]) {
            assert(is_ascii_alphabetic_spec(p@[i as int]));
            return true;
        }
        i = i + 1;
    }
    false
}

/// Whether `token` looks like a domain name such as `example.com`.
pub fn token_looks_like_domain(token: &str) -> (r: bool)
    ensures
        r == looks_like_domain_spec(token@),
{
    let chars = chars_of(token);
    domain_like(chars.as_slice())
}

fn domain_like(token: &[char]) -> (r: bool)
    ensures
        r == looks_like_domain_spec(token@),
{
    let t = trim_chars(token, TrimSet::NotHostName);
    let mut parts_v = split_chars(t.as_slice(), '.');
    let current = match parts_v.pop() {
        Some(last) => last,
        None => {
            proof {
                lemma_split_len(t@, '.');
            }
            return false;
        },
    };
    let done = parts_v;
    proof {
        lemma_split_len(t@, '.');
        let ps = split_spec(t@, '.');
        assert(ps == Seq::new(done@.len(), |k: int| done@[k]@).push(current@)) by {
            assert(ps =~= Seq::new(done@.len(), |k: int| done@[k]@).push(current@));
        }
    }
    let ghost parts = split_spec(t@, '.');
    if done.len() == 0 {
        assert(parts.len() == 1);
        return false;
    }
    if current.len() == 0 {
        assert(parts[parts.len() - 1].len() == 0);
        return false;
    }
    let mut k: usize = 0;
    while k < done.len()
        invariant
            k <= done@.len(),
            parts == split_spec(trim_spec(token@, TrimSet::NotHostName), '.'),
            parts == Seq::new(done@.len(), |q: int| done@[q]@).push(current@),
            forall|q: int| 0 <= q < k ==> done@[q]@.len() > 0,
        decreases done@.len() - k,
    {
        if done[k].len() == 0 {
            assert(parts[k as int].len() == 0);
            return false;
        }
        k = k + 1;
    }
    assert forall|q: int| 0 <= q < parts.len() implies (#[trigger] parts[q]).len() > 0 by {
        if q < done@.len() {
            assert(parts[q] == done@[q]@);
        }
    }
    let last_label = done.len() - 1;
    assert(parts[parts.len() - 2] == done@[last_label as int]@);
    is_tld(&current) && is_label(&done[last_label])
}


/// `s[i..j]` is a whole whitespace-separated token of `s`.
pub open spec fn is_token_at(s: Seq<char>, i: int, j: int) -> bool {
    &&& 0 <= i < j <= s.len()
    &&& (i == 0 || is_white_space_spec(s[i - 1]))
    &&& (j == s.len() || is_white_space_spec(s[j]))
    &&& forall|k: int| i <= k < j ==> !is_white_space_spec(#[trigger] s[k])
}

/// Some whitespace-separated token of `s` looks like a domain name.
pub open spec fn has_domain_token_spec(s: Seq<char>) -> bool {
    exists|i: int, j: int| is_token_at(s, i, j) && looks_like_domain_spec(#[trigger] s.subrange(i, j))
}

/// Whether a cue reads like a link: a scheme or `www.` prefix, a common top-level-domain
/// suffix anywhere, or a token shaped like a domain name (ASCII case ignored).
pub open spec fn url_like_spec(text: Seq<char>) -> bool {
    let lower = ascii_lower_spec(text);
    ||| contains_spec(lower, "http://"@)
    ||| contains_spec(lower, "https://"@)
    ||| contains_spec(lower, "www."@)
    ||| contains_spec(lower, ".com"@)
    ||| contains_spec(lower, ".net"@)
    ||| contains_spec(lower, ".org"@)
    ||| contains_spec(lower, ".co"@)
    ||| contains_spec(lower, ".io"@)
    ||| contains_spec(lower, ".me"@)
    ||| contains_spec(lower, ".tv"@)
    ||| contains_spec(lower, ".app"@)
    ||| has_domain_token_spec(lower)
}

fn contains_str(hay: &[char], needle: &str) -> (r: bool)
    ensures
        r == contains_spec(hay@, needle@),
{
    let n = chars_of(needle);
    contains_chars(hay, n.as_slice())
}

fn has_domain_token(s: &[char]) -> (r: bool)
    ensures
        r == has_domain_token_spec(s@),
{
    let n = s.len();
    let mut i: usize = 0;
    while i < n
        invariant
            n == s@.len(),
            i <= n,
            i == 0 || i == n || is_white_space_spec(s@[i - 1]) || is_white_space_spec(s@[i as int]),
            forall|a: int, b: int|
                #![trigger s@.subrange(a, b)]
                is_token_at(s@, a, b) && a < i ==> !looks_like_domain_spec(s@.subrange(a, b)),
        decreases n - i,
    {
        if is_white_space(s[i]) {
            i = i + 1;
        } else {
            let mut j: usize = i;
            while j < n && !is_white_space(s[j])
                invariant
                    n == s@.len(),
                    i <= j <= n,
                    forall|k: int| i <= k < j ==> !is_white_space_spec(#[trigger] s@[k]),
                decreases n - j,
            {
                j = j + 1;
            }
            assert(is_token_at(s@, i as int, j as int));
            let mut token: Vec<char> = Vec::new();
            let mut k: usize = i;
            while k < j
                invariant
                    i <= k <= j <= n,
                    n == s@.len(),
                    token@ == s@.subrange(i as int, k as int),
                decreases j - k,
            {
                token.push(s[k]);
                k = k + 1;
            }
            if domain_like(token.as_slice()) {
                return true;
            }
            assert forall|a: int, b: int|
                #![trigger s@.subrange(a, b)]
                is_token_at(s@, a, b) && a < j implies !looks_like_domain_spec(s@.subrange(a, b)) by {
                if a >= i && a < j {
                    if a > i {
                        assert(!is_white_space_spec(s@[a - 1]));
                    } else {
                        if b < j {
                            assert(!is_white_space_spec(s@[b]));
                        } else if b > j {
                            assert(!is_white_space_spec(s@[j as int]));
                        }
                    }
                }
            }
            i = j;
        }
    }
    false
}

/// Whether a cue's text looks like a URL or a domain name rather than dialogue.
pub fn text_looks_url_like(text: &str) -> (r: bool)
    ensures
        r == url_like_spec(text@),
{
    let chars = chars_of(text);
    let lower = ascii_lower_chars(chars.as_slice());
    let l = lower.as_slice();
    if contains_str(l, "http://") || contains_str(l, "https://") || contains_str(l, "www.") {
        return true;
    }
    if contains_str(l, ".com") || contains_str(l, ".net") || contains_str(l, ".org")
        || contains_str(l, ".co") || contains_str(l, ".io") || contains_str(l, ".me")
        || contains_str(l, ".tv") || contains_str(l, ".app") {
        return true;
    }
    has_domain_token(l)
}

} // verus!
