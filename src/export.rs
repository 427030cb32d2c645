//! Rendering cues as SRT, WebVTT or plain text.
use vstd::prelude::*;
use crate::cleanup::{decimal_spec, push_decimal};
use crate::model::{entry_views, EntryView, OcrSubtitleEntry};
use crate::text::{push_str, string_from_chars};

verus! {

/// The decimal digits of `n`, left-padded with zeros to `width`.
pub open spec fn padded_spec(n: nat, width: nat) -> Seq<char> {
    let d = decimal_spec(n);
    if d.len() < width {
        Seq::new((width - d.len()) as nat, |i: int| '0') + d
    } else {
        d
    }
}

/// `hh:mm:ss` then `sep` then the milliseconds in three digits; hours take as many digits as
/// they need, at least two.
pub open spec fn time_spec(ms: u64, sep: char) -> Seq<char> {
    padded_spec((ms / 3_600_000) as nat, 2) + seq![':'] + padded_spec(((ms % 3_600_000) / 60_000) as nat, 2)
        + seq![':'] + padded_spec(((ms % 60_000) / 1000) as nat, 2) + seq![sep] + padded_spec(
        (ms % 1000) as nat,
        3,
    )
}

proof fn lemma_decimal_nonempty(n: nat)
    ensures
        decimal_spec(n).len() >= 1,
    decreases n,
{
    if n >= 10 {
        lemma_decimal_nonempty(n / 10);
    }
}

fn push_padded(n: u64, width: usize, out: &mut Vec<char>)
    requires
        width <= 3,
    ensures
        final(out)@ == old(out)@ + padded_spec(n as nat, width as nat),
{
    let mut digits: Vec<char> = Vec::new();
    push_decimal(n, &mut digits);
    assert(digits@ =~= decimal_spec(n as nat));
    let mut k: usize = digits.len();
    let ghost start = out@;
    while k < width
        invariant
            digits.len() <= k <= width || (width < digits.len() && k == digits.len()),
            out@ == start + Seq::new((k - digits.len()) as nat, |i: int| '0'),
        decreases width - k,
    {
        out.push('0');
        assert(out@ =~= start + Seq::new((k + 1 - digits.len()) as nat, |i: int| '0'));
        k = k + 1;
    }
    let ghost mid = out@;
    let mut i: usize = 0;
    while i < digits.len()
        invariant
            i <= digits@.len(),
            out@ == mid + digits@.subrange(0, i as int),
        decreases digits@.len() - i,
    {
        out.push(digits[i]);
        assert(out@ =~= mid + digits@.subrange(0, i + 1));
        i = i + 1;
    }
    assert(digits@.subrange(0, digits@.len() as int) == digits@);
    if digits.len() < width {
        assert(out@ =~= start + padded_spec(n as nat, width as nat));
    } else {
        assert(Seq::new(0, |i: int| '0') + digits@ =~= digits@);
        assert(out@ =~= start + padded_spec(n as nat, width as nat));
    }
}

fn push_time(ms: u64, sep: char, out: &mut Vec<char>)
    ensures
        final(out)@ == old(out)@ + time_spec(ms, sep),
{
    let ghost start = out@;
    push_padded(ms / 3_600_000, 2, out);
    out.push(':');
    push_padded((ms % 3_600_000) / 60_000, 2, out);
    out.push(':');
    push_padded((ms % 60_000) / 1000, 2, out);
    out.push(sep);
    push_padded(ms % 1000, 3, out);
    assert(out@ =~= start + time_spec(ms, sep));
}

/// An SRT timestamp, `00:00:00,000`.
pub fn format_srt_time(ms: u64) -> (r: String)
    ensures
        r@ == time_spec(ms, ','),
{
    let mut out: Vec<char> = Vec::new();
    push_time(ms, ',', &mut out);
    assert(out@ =~= time_spec(ms, ','));
    string_from_chars(out.as_slice())
}

/// A WebVTT timestamp, `00:00:00.000`.
pub fn format_vtt_time(ms: u64) -> (r: String)
    ensures
        r@ == time_spec(ms, '.'),
{
    let mut out: Vec<char> = Vec::new();
    push_time(ms, '.', &mut out);
    assert(out@ =~= time_spec(ms, '.'));
    string_from_chars(out.as_slice())
}

/// `start --> end` on one line, with timestamps joined by `sep`.
pub open spec fn timing_spec(e: EntryView, sep: char) -> Seq<char> {
    time_spec(e.start_time, sep) + seq![' ', '-', '-', '>', ' '] + time_spec(e.end_time, sep)
}

/// The SRT block of the cue at position `i`.
pub open spec fn srt_block(i: nat, e: EntryView) -> Seq<char> {
    decimal_spec(i + 1) + seq!['\n'] + timing_spec(e, ',') + seq!['\n'] + e.text + seq!['\n']
}

/// The SRT document: numbered blocks separated by blank lines.
pub open spec fn srt_spec(s: Seq<EntryView>) -> Seq<char>
    decreases s.len(),
{
    if s.len() == 0 {
        Seq::empty()
    } else if s.len() == 1 {
        srt_block(0, s[0])
    } else {
        srt_spec(s.drop_last()) + seq!['\n'] + srt_block((s.len() - 1) as nat, s.last())
    }
}

/// The WebVTT document: a header, then one block per cue.
pub open spec fn vtt_spec(s: Seq<EntryView>) -> Seq<char>
    decreases s.len(),
{
    if s.len() == 0 {
        seq!['W', 'E', 'B', 'V', 'T', 'T', '\n', '\n']
    } else {
        vtt_spec(s.drop_last()) + timing_spec(s.last(), '.') + seq!['\n'] + s.last().text + seq!['\n', '\n']
    }
}

/// The cue texts, one per line.
pub open spec fn txt_spec(s: Seq<EntryView>) -> Seq<char>
    decreases s.len(),
{
    if s.len() == 0 {
        Seq::empty()
    } else if s.len() == 1 {
        s[0].text
    } else {
        txt_spec(s.drop_last()) + seq!['\n'] + s.last().text
    }
}

fn push_timing(e: &OcrSubtitleEntry, sep: char, out: &mut Vec<char>)
    ensures
        final(out)@ == old(out)@ + timing_spec(e@, sep),
{
    let ghost start = out@;
    push_time(e.start_time, sep, out);
    out.push(' ');
    out.push('-');
    out.push('-');
    out.push('>');
    out.push(' ');
    push_time(e.end_time, sep, out);
    assert(out@ =~= start + timing_spec(e@, sep));
}

/// Renders cues as an SRT document.
pub fn format_srt(subtitles: &[OcrSubtitleEntry]) -> (r: String)
    requires
        subtitles@.len() < u64::MAX,
    ensures
        r@ == srt_spec(entry_views(subtitles@)),
{
    let ghost s = entry_views(subtitles@);
    let mut out: Vec<char> = Vec::new();
    let mut i: usize = 0;
    while i < subtitles.len()
        invariant
            s == entry_views(subtitles@),
            subtitles@.len() < u64::MAX,
            i <= subtitles@.len(),
            out@ == srt_spec(s.subrange(0, i as int)),
        decreases subtitles@.len() - i,
    {
        let ghost start = out@;
        let ghost pre = s.subrange(0, i + 1);
        assert(pre.drop_last() == s.subrange(0, i as int));
        let e = &subtitles[i];
        if i > 0 {
            out.push('\n');
        }
        push_decimal(i as u64 + 1, &mut out);
        out.push('\n');
        push_timing(e, ',', &mut out);
        out.push('\n');
        push_str(&mut out, e.text.as_str());
        out.push('\n');
        if i == 0 {
            assert(out@ =~= srt_spec(pre));
        } else {
            assert(out@ =~= start + seq!['\n'] + srt_block(i as nat, s[i as int]));
        }
        i = i + 1;
    }
    assert(s.subrange(0, s.len() as int) == s);
    string_from_chars(out.as_slice())
}

/// Renders cues as a WebVTT document.
pub fn format_vtt(subtitles: &[OcrSubtitleEntry]) -> (r: String)
    ensures
        r@ == vtt_spec(entry_views(subtitles@)),
{
    let ghost s = entry_views(subtitles@);
    let mut out: Vec<char> = Vec::new();
    push_str(&mut out, "WEBVTT\n\n");
    proof {
        reveal_strlit("WEBVTT\n\n");
    }
    assert(out@ =~= vtt_spec(s.subrange(0, 0)));
    let mut i: usize = 0;
    while i < subtitles.len()
        invariant
            s == entry_views(subtitles@),
            i <= subtitles@.len(),
            out@ == vtt_spec(s.subrange(0, i as int)),
        decreases subtitles@.len() - i,
    {
        let ghost start = out@;
        let ghost pre = s.subrange(0, i + 1);
        assert(pre.drop_last() == s.subrange(0, i as int));
        let e = &subtitles[i];
        push_timing(e, '.', &mut out);
        out.push('\n');
        push_str(&mut out, e.text.as_str());
        out.push('\n');
        out.push('\n');
        assert(out@ =~= vtt_spec(pre));
        i = i + 1;
    }
    assert(s.subrange(0, s.len() as int) == s);
    string_from_chars(out.as_slice())
}

/// Renders the cue texts, one per line.
pub fn format_txt(subtitles: &[OcrSubtitleEntry]) -> (r: String)
    ensures
        r@ == txt_spec(entry_views(subtitles@)),
{
    let ghost s = entry_views(subtitles@);
    let mut out: Vec<char> = Vec::new();
    let mut i: usize = 0;
    while i < subtitles.len()
        invariant
            s == entry_views(subtitles@),
            i <= subtitles@.len(),
            out@ == txt_spec(s.subrange(0, i as int)),
        decreases subtitles@.len() - i,
    {
        let ghost start = out@;
        let ghost pre = s.subrange(0, i + 1);
        assert(pre.drop_last() == s.subrange(0, i as int));
        if i > 0 {
            out.push('\n');
        }
        push_str(&mut out, subtitles[i].text.as_str());
        if i == 0 {
            assert(out@ =~= txt_spec(pre));
        } else {
            assert(out@ =~= txt_spec(pre));
        }
        i = i + 1;
    }
    assert(s.subrange(0, s.len() as int) == s);
    string_from_chars(out.as_slice())
}

} // verus!
