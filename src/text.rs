//! Character-level text handling: whitespace, punctuation and comparison keys.
use vstd::prelude::*;

verus! {

/// The characters that carry the Unicode `White_Space` property.
pub open spec fn is_white_space_spec(c: char) -> bool {
    ('\u{9}' <= c && c <= '\u{d}') || c == ' ' || c == '\u{85}' || c == '\u{a0}'
        || c == '\u{1680}' || ('\u{2000}' <= c && c <= '\u{200a}') || c == '\u{2028}'
        || c == '\u{2029}' || c == '\u{202f}' || c == '\u{205f}' || c == '\u{3000}'
}

/// Whether `c` has the Unicode `White_Space` property.
pub fn is_white_space(c: char) -> (r: bool)
    ensures
        r == is_white_space_spec(c),
{
    ('\u{9}' <= c && c <= '\u{d}') || c == ' ' || c == '\u{85}' || c == '\u{a0}'
        || c == '\u{1680}' || ('\u{2000}' <= c && c <= '\u{200a}') || c == '\u{2028}'
        || c == '\u{2029}' || c == '\u{202f}' || c == '\u{205f}' || c == '\u{3000}'
}

/// The characters of `s`, in order.
pub fn chars_of(s: &str) -> (r: Vec<char>)
    ensures
        r@ == s@,
{
    let mut out: Vec<char> = Vec::new();
    for c in it: s.chars()
        invariant
            out@ == it.seq().subrange(0, it.index() as int),
            it.seq() == s@,
    {
        out.push(c);
    }
    out
}


/// Relies on `String`'s `FromIterator<char>`: the string holds exactly the given characters.
#[verifier::external_body]
pub(crate) fn string_from_chars(v: &[char]) -> (r: String)
    ensures
        r@ == v@,
{
    v.iter().collect()
}

/// Whether two character slices hold the same characters.
pub fn chars_equal(a: &[char], b: &[char]) -> (r: bool)
    ensures
        r == (a@ == b@),
{
    if a.len() != b.len() {
        return false;
    }
    let mut i: usize = 0;
    while i < a.len()
        invariant
            a@.len() == b@.len(),
            i <= a@.len(),
            forall|k: int| 0 <= k < i ==> a@[k] == b@[k],
        decreases a@.len() - i,
    {
        if a[i] != b[i] {
            return false;
        }
        i = i + 1;
    }
    assert(a@ =~= b@);
    true
}

/// Whether two strings hold the same characters.
pub fn str_eq(a: &str, b: &str) -> (r: bool)
    ensures
        r == (a@ == b@),
{
    let x = chars_of(a);
    let y = chars_of(b);
    chars_equal(x.as_slice(), y.as_slice())
}

/// Appends the characters of `s` to `out`.
pub fn push_str(out: &mut Vec<char>, s: &str)
    ensures
        final(out)@ == old(out)@ + s@,
{
    let chars = chars_of(s);
    let ghost start = out@;
    let mut i: usize = 0;
    while i < chars.len()
        invariant
            chars@ == s@,
            i <= chars@.len(),
            out@ == start + chars@.subrange(0, i as int),
        decreases chars@.len() - i,
    {
        out.push(chars[i]);
        assert(out@ =~= start + chars@.subrange(0, i + 1));
        i = i + 1;
    }
    assert(chars@.subrange(0, chars@.len() as int) == chars@);
}

/// `s` with every run of whitespace turned into one space, and none left at either end.
pub open spec fn collapse_spec(s: Seq<char>) -> Seq<char>
    decreases s.len(),
{
    if s.len() == 0 {
        Seq::empty()
    } else {
        let prev = collapse_spec(s.drop_last());
        let c = s.last();
        if is_white_space_spec(c) {
            prev
        } else if s.len() >= 2 && is_white_space_spec(s[s.len() - 2]) && prev.len() > 0 {
            prev.push(' ').push(c)
        } else {
            prev.push(c)
        }
    }
}

pub(crate) fn collapse_chars(s: &[char]) -> (r: Vec<char>)
    ensures
        r@ == collapse_spec(s@),
{
    let mut out: Vec<char> = Vec::new();
    let mut last_was_space = false;
    let mut i: usize = 0;
    while i < s.len()
        invariant
            i <= s@.len(),
            out@ == collapse_spec(s@.subrange(0, i as int)),
            last_was_space == (i > 0 && is_white_space_spec(s@[i - 1])),
        decreases s@.len() - i,
    {
        let c = s[i];
        proof {
            let pre = s@.subrange(0, i + 1);
            assert(pre.drop_last() == s@.subrange(0, i as int));
            assert(pre.last() == c);
        }
        if is_white_space(c) {
            last_was_space = true;
        } else {
            if last_was_space && out.len() > 0 {
                out.push(' ');
            }
            out.push(c);
            last_was_space = false;
        }
        i = i + 1;
    }
    assert(s@.subrange(0, s@.len() as int) == s@);
    out
}

/// Collapses every run of whitespace in `text` to a single space and trims both ends.
pub fn collapse_whitespace(text: &str) -> (r: String)
    ensures
        r@ == collapse_spec(text@),
{
    let chars = chars_of(text);
    let out = collapse_chars(chars.as_slice());
    string_from_chars(out.as_slice())
}

/// ASCII punctuation: the printable ASCII characters that are neither letters, digits nor space.
pub open spec fn is_ascii_punctuation_spec(c: char) -> bool {
    ('!' <= c && c <= '/') || (':' <= c && c <= '@') || ('[' <= c && c <= '`') || ('{' <= c
        && c <= '~')
}

/// Characters stripped from both ends of a comparison key: whitespace, ASCII punctuation
/// and common CJK punctuation.
pub open spec fn is_edge_punctuation_spec(c: char) -> bool {
    is_white_space_spec(c) || is_ascii_punctuation_spec(c) || c == '，' || c == '。' || c == '！'
        || c == '？' || c == '：' || c == '；' || c == '、' || c == '“' || c == '”' || c == '‘'
        || c == '’' || c == '《' || c == '》' || c == '（' || c == '）' || c == '【' || c == '】'
        || c == '—' || c == '…' || c == '～' || c == '·'
}

/// Whether `c` is stripped from the ends of a comparison key.
pub fn is_edge_punctuation(c: char) -> (r: bool)
    ensures
        r == is_edge_punctuation_spec(c),
{
    if is_white_space(c) || ('!' <= c && c <= '/') || (':' <= c && c <= '@') || ('[' <= c && c
        <= '`') || ('{' <= c && c <= '~') {
        return true;
    }
    match c {
        '，' | '。' | '！' | '？' | '：' | '；' | '、' | '“' | '”' | '‘' | '’' | '《' | '》' | '（'
        | '）' | '【' | '】' | '—' | '…' | '～' | '·' => true,
        _ => false,
    }
}

/// Which characters a trim removes from the ends of a string.
#[derive(Clone, Copy, Debug, PartialEq, Eq)]
pub enum TrimSet {
    /// Whitespace, ASCII punctuation and common CJK punctuation.
    EdgePunctuation,
    /// Everything but ASCII letters, digits, `.` and `-`.
    NotHostName,
    /// Whitespace alone.
    WhiteSpace,
}

/// An ASCII letter.
pub open spec fn is_ascii_alphabetic_spec(c: char) -> bool {
    ('a' <= c && c <= 'z') || ('A' <= c && c <= 'Z')
}

/// An ASCII letter or digit.
pub open spec fn is_ascii_alphanumeric_spec(c: char) -> bool {
    is_ascii_alphabetic_spec(c) || ('0' <= c && c <= '9')
}

/// Whether `c` is an ASCII letter.
pub fn is_ascii_alphabetic(c: char) -> (r: bool)
    ensures
        r == is_ascii_alphabetic_spec(c),
{
    ('a' <= c && c <= 'z') || ('A' <= c && c <= 'Z')
}

/// Whether `c` is an ASCII letter or digit.
pub fn is_ascii_alphanumeric(c: char) -> (r: bool)
    ensures
        r == is_ascii_alphanumeric_spec(c),
{
    is_ascii_alphabetic(c) || ('0' <= c && c <= '9')
}

impl TrimSet {
    /// Whether the set removes `c`.
    pub open spec fn strips(self, c: char) -> bool {
        match self {
            TrimSet::EdgePunctuation => is_edge_punctuation_spec(c),
            TrimSet::NotHostName => !(is_ascii_alphanumeric_spec(c) || c == '.' || c == '-'),
            TrimSet::WhiteSpace => is_white_space_spec(c),
        }
    }

    /// Whether the set removes `c`.
    pub fn strips_char(self, c: char) -> (r: bool)
        ensures
            r == self.strips(c),
    {
        match self {
            TrimSet::EdgePunctuation => is_edge_punctuation(c),
            TrimSet::NotHostName => !(is_ascii_alphanumeric(c) || c == '.' || c == '-'),
            TrimSet::WhiteSpace => is_white_space(c),
        }
    }
}

/// `s` without the leading characters that `set` strips.
pub open spec fn trim_front_spec(s: Seq<char>, set: TrimSet) -> Seq<char>
    decreases s.len(),
{
    if s.len() > 0 && set.strips(s[0]) {
        trim_front_spec(s.drop_first(), set)
    } else {
        s
    }
}

/// `s` without the trailing characters that `set` strips.
pub open spec fn trim_back_spec(s: Seq<char>, set: TrimSet) -> Seq<char>
    decreases s.len(),
{
    if s.len() > 0 && set.strips(s.last()) {
        trim_back_spec(s.drop_last(), set)
    } else {
        s
    }
}

/// `s` without the characters that `set` strips at either end.
pub open spec fn trim_spec(s: Seq<char>, set: TrimSet) -> Seq<char> {
    trim_back_spec(trim_front_spec(s, set), set)
}

/// Removes the characters that `set` strips from both ends of `s`.
pub fn trim_chars(s: &[char], set: TrimSet) -> (r: Vec<char>)
    ensures
        r@ == trim_spec(s@, set),
{
    let mut start: usize = 0;
    assert(s@.subrange(0, s@.len() as int) == s@);
    while start < s.len() && set.strips_char(s[start])
        invariant
            start <= s@.len(),
            trim_front_spec(s@.subrange(start as int, s@.len() as int), set) == trim_front_spec(s@, set),
        decreases s@.len() - start,
    {
        assert(s@.subrange(start as int, s@.len() as int).drop_first() == s@.subrange(
            start + 1,
            s@.len() as int,
        ));
        start = start + 1;
    }
    let ghost front = s@.subrange(start as int, s@.len() as int);
    assert(trim_front_spec(front, set) == front);
    let mut end: usize = s.len();
    while end > start && set.strips_char(s[end - 1])
        invariant
            start <= end <= s@.len(),
            trim_back_spec(s@.subrange(start as int, end as int), set) == trim_back_spec(front, set),
        decreases end,
    {
        assert(s@.subrange(start as int, end as int).drop_last() == s@.subrange(
            start as int,
            end - 1,
        ));
        end = end - 1;
    }
    let mut out: Vec<char> = Vec::new();
    let mut k: usize = start;
    while k < end
        invariant
            start <= k <= end <= s@.len(),
            out@ == s@.subrange(start as int, k as int),
        decreases end - k,
    {
        out.push(s[k]);
        k = k + 1;
    }
    out
}

/// `c` with an ASCII capital replaced by its small letter.
pub open spec fn ascii_lower_char_spec(c: char) -> char {
    if 'A' <= c && c <= 'Z' {
        ((c as u32) + 32) as char
    } else {
        c
    }
}

/// `s` with ASCII capitals made small.
pub open spec fn ascii_lower_spec(s: Seq<char>) -> Seq<char> {
    s.map_values(|c: char| ascii_lower_char_spec(c))
}

/// Every character of `s` is ASCII.
pub open spec fn is_ascii_spec(s: Seq<char>) -> bool {
    forall|i: int| 0 <= i < s.len() ==> (#[trigger] s[i]) <= '\u{7f}'
}

/// `c` with an ASCII capital replaced by its small letter.
pub fn ascii_lower_char(c: char) -> (r: char)
    ensures
        r == ascii_lower_char_spec(c),
{
    if 'A' <= c && c <= 'Z' {
        ((c as u8) + 32) as char
    } else {
        c
    }
}

/// `s` with ASCII capitals made small.
pub fn ascii_lower_chars(s: &[char]) -> (r: Vec<char>)
    ensures
        r@ == ascii_lower_spec(s@),
{
    let mut out: Vec<char> = Vec::new();
    let mut i: usize = 0;
    while i < s.len()
        invariant
            i <= s@.len(),
            out@ == ascii_lower_spec(s@.subrange(0, i as int)),
        decreases s@.len() - i,
    {
        out.push(ascii_lower_char(s[i]));
        i = i + 1;
        assert(ascii_lower_spec(s@.subrange(0, i as int)) =~= ascii_lower_spec(s@.subrange(0, i - 1)).push(ascii_lower_char_spec(s@[i - 1])));
    }
    assert(s@.subrange(0, s@.len() as int) == s@);
    out
}

/// The lower-case mapping of a string, as the Unicode tables define it.
pub uninterp spec fn lower_of(s: Seq<char>) -> Seq<char>;

/// Relies on `str::to_lowercase`: the result depends on the characters of `s` alone; each
/// character maps to one or more characters, and ASCII capitals map to their small letters.
#[verifier::external_body]
pub(crate) fn lowercase(s: &str) -> (r: String)
    ensures
        r@ == lower_of(s@),
        s@.len() == 0 ==> r@.len() == 0,
        r@.len() >= s@.len(),
        is_ascii_spec(s@) ==> r@ == ascii_lower_spec(s@),
{
    s.to_lowercase()
}

/// The key under which two readings are compared.
pub open spec fn key_spec(text: Seq<char>) -> Seq<char> {
    lower_of(trim_spec(collapse_spec(text), TrimSet::EdgePunctuation))
}

/// The comparison key of `text`: whitespace collapsed, edge punctuation stripped, lower-cased.
pub fn normalize_text_for_compare(text: &str) -> (r: String)
    ensures
        r@ == key_spec(text@),
        trim_spec(collapse_spec(text@), TrimSet::EdgePunctuation).len() == 0 ==> r@.len() == 0,
        trim_spec(collapse_spec(text@), TrimSet::EdgePunctuation).len() > 0 ==> r@.len() > 0,
        is_ascii_spec(trim_spec(collapse_spec(text@), TrimSet::EdgePunctuation)) ==> r@ == ascii_lower_spec(
            trim_spec(collapse_spec(text@), TrimSet::EdgePunctuation),
        ),
{
    let chars = chars_of(text);
    let collapsed = collapse_chars(chars.as_slice());
    let trimmed = trim_chars(collapsed.as_slice(), TrimSet::EdgePunctuation);
    let s = string_from_chars(trimmed.as_slice());
    lowercase(s.as_str())
}

} // verus!
