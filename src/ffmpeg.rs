//! Building ffmpeg command lines and reading its progress output.
use vstd::prelude::*;
use crate::similarity::{contains_chars, contains_spec};
use crate::text::{ascii_lower_chars, ascii_lower_spec, chars_equal, chars_of, lower_of, lowercase, str_eq, string_from_chars, trim_chars, trim_spec, TrimSet};

verus! {

/// Codecs that ffmpeg cannot place by the output file's extension, with the container format
/// to name for them.
pub open spec fn codec_formats() -> Seq<(&'static str, &'static str)> {
    seq![
        ("wmav2", "asf"),
        ("wmav1", "asf"),
        ("wma", "asf"),
        ("wmapro", "asf"),
        ("wmavoice", "asf"),
        ("pcm_s16le", "wav"),
        ("pcm_s24le", "wav"),
        ("pcm_s32le", "wav"),
        ("pcm_s16be", "wav"),
        ("pcm_s24be", "wav"),
        ("pcm_s32be", "wav"),
        ("pcm_u8", "wav"),
        ("pcm_u16le", "wav"),
        ("pcm_u24le", "wav"),
        ("pcm_u32le", "wav"),
        ("pcm_u16be", "wav"),
        ("pcm_u24be", "wav"),
        ("pcm_u32be", "wav"),
        ("adpcm_ima_wav", "wav"),
        ("adpcm_ms", "wav"),
        ("adpcm_yamaha", "wav"),
        ("mp2", "mp3"),
        ("truehd", "mlp"),
        ("mlp", "mlp"),
        ("wavpack", "wv")
    ]
}

fn codec_format_table() -> (r: Vec<(&'static str, &'static str)>)
    ensures
        r@ == codec_formats(),
{
    let mut v: Vec<(&'static str, &'static str)> = Vec::new();
    v.push(("wmav2", "asf"));
    v.push(("wmav1", "asf"));
    v.push(("wma", "asf"));
    v.push(("wmapro", "asf"));
    v.push(("wmavoice", "asf"));
    v.push(("pcm_s16le", "wav"));
    v.push(("pcm_s24le", "wav"));
    v.push(("pcm_s32le", "wav"));
    v.push(("pcm_s16be", "wav"));
    v.push(("pcm_s24be", "wav"));
    v.push(("pcm_s32be", "wav"));
    v.push(("pcm_u8", "wav"));
    v.push(("pcm_u16le", "wav"));
    v.push(("pcm_u24le", "wav"));
    v.push(("pcm_u32le", "wav"));
    v.push(("pcm_u16be", "wav"));
    v.push(("pcm_u24be", "wav"));
    v.push(("pcm_u32be", "wav"));
    v.push(("adpcm_ima_wav", "wav"));
    v.push(("adpcm_ms", "wav"));
    v.push(("adpcm_yamaha", "wav"));
    v.push(("mp2", "mp3"));
    v.push(("truehd", "mlp"));
    v.push(("mlp", "mlp"));
    v.push(("wavpack", "wv"));
    assert(v@ =~= codec_formats());
    v
}

/// Output extensions from which ffmpeg infers the container.
pub open spec fn known_extensions() -> Seq<&'static str> {
    seq![
        ".mp4",
        ".mkv",
        ".avi",
        ".mov",
        ".webm",
        ".m4v",
        ".m4a",
        ".mp3",
        ".aac",
        ".ac3",
        ".eac3",
        ".dts",
        ".flac",
        ".ogg",
        ".opus",
        ".wav",
        ".wma",
        ".ass",
        ".ssa",
        ".srt",
        ".vtt",
        ".sub",
        ".sup"
    ]
}

fn known_extension_table() -> (r: Vec<&'static str>)
    ensures
        r@ == known_extensions(),
{
    let mut v: Vec<&'static str> = Vec::new();
    v.push(".mp4");
    v.push(".mkv");
    v.push(".avi");
    v.push(".mov");
    v.push(".webm");
    v.push(".m4v");
    v.push(".m4a");
    v.push(".mp3");
    v.push(".aac");
    v.push(".ac3");
    v.push(".eac3");
    v.push(".dts");
    v.push(".flac");
    v.push(".ogg");
    v.push(".opus");
    v.push(".wav");
    v.push(".wma");
    v.push(".ass");
    v.push(".ssa");
    v.push(".srt");
    v.push(".vtt");
    v.push(".sub");
    v.push(".sup");
    assert(v@ =~= known_extensions());
    v
}

/// Entry `i` is the first of the table whose codec equals `codec` up to ASCII case.
pub open spec fn codec_entry_at(codec: Seq<char>, i: int) -> bool {
    let t = codec_formats();
    &&& 0 <= i < t.len()
    &&& ascii_lower_spec(t[i].0@) == ascii_lower_spec(codec)
    &&& forall|k: int| 0 <= k < i ==> ascii_lower_spec((#[trigger] t[k]).0@) != ascii_lower_spec(codec)
}

/// The container format to name for `codec`, if it needs one.
pub open spec fn codec_format_spec(codec: Seq<char>) -> Option<Seq<char>> {
    if exists|i: int| codec_entry_at(codec, i) {
        let i = choose|i: int| codec_entry_at(codec, i);
        Some(codec_formats()[i].1@)
    } else {
        None
    }
}

/// The container format that ffmpeg must be told for `codec` (ASCII case ignored), or `None`
/// when it can infer one.
pub fn get_ffmpeg_format_for_codec(codec: &str) -> (r: Option<String>)
    ensures
        r matches Some(f) ==> codec_format_spec(codec@) == Some(f@),
        r is None ==> codec_format_spec(codec@) is None,
{
    let table = codec_format_table();
    let wanted = ascii_lower_chars(chars_of(codec).as_slice());
    let mut i: usize = 0;
    while i < table.len()
        invariant
            table@ == codec_formats(),
            wanted@ == ascii_lower_spec(codec@),
            i <= table@.len(),
            forall|k: int| 0 <= k < i ==> ascii_lower_spec((#[trigger] codec_formats()[k]).0@) != ascii_lower_spec(codec@),
        decreases table@.len() - i,
    {
        let entry = ascii_lower_chars(chars_of(table[i].0).as_slice());
        if chars_equal(entry.as_slice(), wanted.as_slice()) {
            proof {
                assert(codec_entry_at(codec@, i as int));
                let j = choose|j: int| codec_entry_at(codec@, j);
                assert(j == i) by {
                    if j < i {
                        assert(ascii_lower_spec(codec_formats()[j].0@) != ascii_lower_spec(codec@));
                    } else if j > i {
                        assert(ascii_lower_spec(codec_formats()[i as int].0@) != ascii_lower_spec(codec@));
                    }
                }
            }
            return Some(table[i].1.to_owned());
        }
        i = i + 1;
    }
    proof {
        assert forall|j: int| !codec_entry_at(codec@, j) by {
            if 0 <= j < codec_formats().len() {
                assert(ascii_lower_spec(codec_formats()[j].0@) != ascii_lower_spec(codec@));
            }
        }
    }
    None
}

/// `s` ends with `suffix`.
pub open spec fn ends_with_spec(s: Seq<char>, suffix: Seq<char>) -> bool {
    suffix.len() <= s.len() && s.subrange(s.len() - suffix.len(), s.len() as int) == suffix
}

pub(crate) fn ends_with(s: &Vec<char>, suffix: &Vec<char>) -> (r: bool)
    ensures
        r == ends_with_spec(s@, suffix@),
{
    if suffix.len() > s.len() {
        return false;
    }
    let off = s.len() - suffix.len();
    let mut i: usize = 0;
    while i < suffix.len()
        invariant
            off == s@.len() - suffix@.len(),
            suffix@.len() <= s@.len(),
            s@.len() <= usize::MAX,
            i <= suffix@.len(),
            forall|k: int| 0 <= k < i ==> s@[off + k] == suffix@[k],
        decreases suffix@.len() - i,
    {
        if s[off + i] != suffix[i] {
            assert(s@.subrange(off as int, s@.len() as int)[i as int] != suffix@[i as int]);
            return false;
        }
        i = i + 1;
    }
    assert(s@.subrange(off as int, s@.len() as int) =~= suffix@);
    true
}

/// The lower-cased path ends with an extension from which ffmpeg infers the container.
pub open spec fn recognized_extension_spec(path: Seq<char>) -> bool {
    exists|i: int| 0 <= i < known_extensions().len() && ends_with_spec(lower_of(path), (#[trigger] known_extensions()[i])@)
}

/// Whether ffmpeg can infer the output container from the path's extension.
pub fn has_recognized_extension(path: &str) -> (r: bool)
    ensures
        r == recognized_extension_spec(path@),
{
    let lower = lowercase(path);
    let lower_chars = chars_of(lower.as_str());
    let table = known_extension_table();
    let mut i: usize = 0;
    while i < table.len()
        invariant
            table@ == known_extensions(),
            lower_chars@ == lower_of(path@),
            i <= table@.len(),
            forall|k: int| 0 <= k < i ==> !ends_with_spec(lower_of(path@), (#[trigger] known_extensions()[k])@),
        decreases table@.len() - i,
    {
        let ext = chars_of(table[i]);
        if ends_with(&lower_chars, &ext) {
            assert(ends_with_spec(lower_of(path@), known_extensions()[i as int]@));
            return true;
        }
        i = i + 1;
    }
    false
}

/// Position of the first `c` in `s`, if any.
pub open spec fn first_index_spec(s: Seq<char>, c: char) -> Option<int> {
    if exists|i: int| 0 <= i < s.len() && s[i] == c {
        Some(choose|i: int| 0 <= i < s.len() && s[i] == c && forall|k: int| 0 <= k < i ==> s[k] != c)
    } else {
        None
    }
}

/// A `key=value` progress line, split at its first `=`, each side trimmed of whitespace.
pub open spec fn progress_kv_spec(line: Seq<char>) -> Option<(Seq<char>, Seq<char>)> {
    let t = trim_spec(line, TrimSet::WhiteSpace);
    match first_index_spec(t, '=') {
        Some(i) => Some(
            (
                trim_spec(t.subrange(0, i), TrimSet::WhiteSpace),
                trim_spec(t.subrange(i + 1, t.len() as int), TrimSet::WhiteSpace),
            ),
        ),
        None => None,
    }
}

fn slice_of(s: &Vec<char>, from: usize, to: usize) -> (r: Vec<char>)
    requires
        from <= to <= s@.len(),
    ensures
        r@ == s@.subrange(from as int, to as int),
{
    let mut out: Vec<char> = Vec::new();
    let mut k: usize = from;
    while k < to
        invariant
            from <= k <= to <= s@.len(),
            out@ == s@.subrange(from as int, k as int),
        decreases to - k,
    {
        out.push(s[k]);
        k = k + 1;
    }
    out
}

/// Splits one line of ffmpeg's `-progress` output into its key and value.
pub fn parse_progress_kv(line: &str) -> (r: Option<(String, String)>)
    ensures
        r matches Some((k, v)) ==> progress_kv_spec(line@) == Some((k@, v@)),
        r is None ==> progress_kv_spec(line@) is None,
{
    let chars = chars_of(line);
    let t = trim_chars(chars.as_slice(), TrimSet::WhiteSpace);
    let mut i: usize = 0;
    while i < t.len() && t[i] != '='
        invariant
            i <= t@.len(),
            forall|k: int| 0 <= k < i ==> t@[k] != '=',
        decreases t@.len() - i,
    {
        i = i + 1;
    }
    if i == t.len() {
        return None;
    }
    proof {
        let j = choose|j: int| 0 <= j < t@.len() && t@[j] == '=' && forall|k: int| 0 <= k < j ==> t@[k] != '=';
        assert(j == i) by {
            if j < i {
                assert(t@[j] != '=');
            } else if j > i {
                assert(t@[i as int] != '=');
            }
        }
    }
    let key = slice_of(&t, 0, i);
    let value = slice_of(&t, i + 1, t.len());
    let key = trim_chars(key.as_slice(), TrimSet::WhiteSpace);
    let value = trim_chars(value.as_slice(), TrimSet::WhiteSpace);
    Some((string_from_chars(key.as_slice()), string_from_chars(value.as_slice())))
}


/// The views of a list of strings.
pub open spec fn string_views(v: Seq<String>) -> Seq<Seq<char>> {
    v.map_values(|s: String| s@)
}

/// A signed integer in decimal.
pub open spec fn signed_decimal_spec(n: int) -> Seq<char> {
    if n < 0 {
        seq!['-'] + crate::cleanup::decimal_spec((-n) as nat)
    } else {
        crate::cleanup::decimal_spec(n as nat)
    }
}

/// The codec options for a track of the given type.
pub open spec fn codec_args_spec(track_type: Seq<char>, codec: Seq<char>) -> Seq<Seq<char>> {
    if track_type == "subtitle"@ {
        if codec == "subrip"@ || codec == "srt"@ {
            seq!["-c:s"@, "srt"@]
        } else if codec == "webvtt"@ {
            seq!["-c:s"@, "webvtt"@]
        } else {
            seq!["-c:s"@, "copy"@]
        }
    } else if track_type == "audio"@ {
        seq!["-c:a"@, "copy"@, "-vn"@] + match codec_format_spec(codec) {
            Some(f) => seq!["-f"@, f],
            None => Seq::empty(),
        }
    } else if track_type == "video"@ {
        seq!["-c:v"@, "copy"@, "-an"@, "-sn"@]
    } else {
        seq!["-c"@, "copy"@]
    }
}

/// The ffmpeg arguments that copy track `track_index` of `input` into `output`, reporting
/// progress on standard output.
pub open spec fn extract_args_spec(
    input: Seq<char>,
    output: Seq<char>,
    track_index: i32,
    track_type: Seq<char>,
    codec: Seq<char>,
) -> Seq<Seq<char>> {
    seq!["-y"@, "-i"@, input, "-map"@, seq!['0', ':'] + signed_decimal_spec(track_index as int)]
        + codec_args_spec(track_type, codec) + seq!["-progress"@, "pipe:1"@, output]
}

fn push_arg(args: &mut Vec<String>, s: &str)
    ensures
        string_views(final(args)@) == string_views(old(args)@).push(s@),
{
    let ghost before = string_views(args@);
    args.push(s.to_owned());
    assert(string_views(args@) =~= before.push(s@));
}

/// The ffmpeg command line that extracts one track; audio codecs that ffmpeg cannot place by
/// extension get an explicit container format.
pub fn build_extract_args(
    input_path: &str,
    output_path: &str,
    track_index: i32,
    track_type: &str,
    codec: &str,
) -> (r: Vec<String>)
    ensures
        string_views(r@) == extract_args_spec(input_path@, output_path@, track_index, track_type@, codec@),
{
    let mut map_arg: Vec<char> = Vec::new();
    map_arg.push('0');
    map_arg.push(':');
    if track_index < 0 {
        map_arg.push('-');
        crate::cleanup::push_decimal((-(track_index as i64)) as u64, &mut map_arg);
    } else {
        crate::cleanup::push_decimal(track_index as u64, &mut map_arg);
    }
    assert(map_arg@ =~= seq!['0', ':'] + signed_decimal_spec(track_index as int));
    let mut args: Vec<String> = Vec::new();
    push_arg(&mut args, "-y");
    push_arg(&mut args, "-i");
    push_arg(&mut args, input_path);
    push_arg(&mut args, "-map");
    let ghost before_map = string_views(args@);
    args.push(string_from_chars(map_arg.as_slice()));
    assert(string_views(args@) =~= before_map.push(map_arg@));
    let ghost head = string_views(args@);
    if str_eq(track_type, "subtitle") {
        if str_eq(codec, "subrip") || str_eq(codec, "srt") {
            push_arg(&mut args, "-c:s");
            push_arg(&mut args, "srt");
        } else if str_eq(codec, "webvtt") {
            push_arg(&mut args, "-c:s");
            push_arg(&mut args, "webvtt");
        } else {
            push_arg(&mut args, "-c:s");
            push_arg(&mut args, "copy");
        }
    } else if str_eq(track_type, "audio") {
        push_arg(&mut args, "-c:a");
        push_arg(&mut args, "copy");
        push_arg(&mut args, "-vn");
        match get_ffmpeg_format_for_codec(codec) {
            Some(format) => {
                push_arg(&mut args, "-f");
                let ghost before_f = string_views(args@);
                args.push(format);
                assert(string_views(args@) =~= before_f.push(codec_format_spec(codec@)->0));
            },
            None => {},
        }
    } else if str_eq(track_type, "video") {
        push_arg(&mut args, "-c:v");
        push_arg(&mut args, "copy");
        push_arg(&mut args, "-an");
        push_arg(&mut args, "-sn");
    } else {
        push_arg(&mut args, "-c");
        push_arg(&mut args, "copy");
    }
    assert(string_views(args@) =~= head + codec_args_spec(track_type@, codec@));
    push_arg(&mut args, "-progress");
    push_arg(&mut args, "pipe:1");
    push_arg(&mut args, output_path);
    assert(string_views(args@) =~= extract_args_spec(input_path@, output_path@, track_index, track_type@, codec@));
    args
}

} // verus!
