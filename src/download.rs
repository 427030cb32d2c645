//! Picking the right ffmpeg build to download.
use vstd::prelude::*;
use crate::ffmpeg::{ends_with, ends_with_spec};
use crate::similarity::{contains_chars, contains_spec};
use crate::text::{chars_of, push_str, str_eq, string_from_chars};
use crate::url_filter::{split_chars, split_spec};

verus! {

/// The BtbN build variant for an operating system and CPU architecture.
pub open spec fn btbn_variant_spec(os: Seq<char>, arch: Seq<char>) -> Option<Seq<char>> {
    if os == "windows"@ && arch == "x86_64"@ {
        Some("win64-gpl-8.0"@)
    } else if os == "windows"@ && arch == "aarch64"@ {
        Some("winarm64-gpl-8.0"@)
    } else if os == "linux"@ && arch == "x86_64"@ {
        Some("linux64-gpl-8.0"@)
    } else if os == "linux"@ && arch == "aarch64"@ {
        Some("linuxarm64-gpl-8.0"@)
    } else {
        None
    }
}

/// The BtbN build variant for `os` and `arch`, or an error naming the platform.
pub fn resolve_btbn_variant(os: &str, arch: &str) -> (r: Result<&'static str, String>)
    ensures
        r matches Ok(v) ==> btbn_variant_spec(os@, arch@) == Some(v@),
        r matches Err(e) ==> btbn_variant_spec(os@, arch@) is None && e@ == "Unsupported platform: "@ + os@ + seq![' '] + arch@,
{
    if str_eq(os, "windows") && str_eq(arch, "x86_64") {
        Ok("win64-gpl-8.0")
    } else if str_eq(os, "windows") && str_eq(arch, "aarch64") {
        Ok("winarm64-gpl-8.0")
    } else if str_eq(os, "linux") && str_eq(arch, "x86_64") {
        Ok("linux64-gpl-8.0")
    } else if str_eq(os, "linux") && str_eq(arch, "aarch64") {
        Ok("linuxarm64-gpl-8.0")
    } else {
        let mut msg: Vec<char> = Vec::new();
        push_str(&mut msg, "Unsupported platform: ");
        push_str(&mut msg, os);
        msg.push(' ');
        push_str(&mut msg, arch);
        Err(string_from_chars(msg.as_slice()))
    }
}

/// A quoted piece of the release page that is a download link for `variant` ending in `ext`.
pub open spec fn is_build_link(token: Seq<char>, variant: Seq<char>, ext: Seq<char>) -> bool {
    &&& contains_spec(token, "releases/download/"@)
    &&& contains_spec(token, variant)
    &&& ends_with_spec(token, ext)
    &&& (starts_with_spec(token, "http"@) || starts_with_spec(token, "/"@))
}

/// `s` begins with `prefix`.
pub open spec fn starts_with_spec(s: Seq<char>, prefix: Seq<char>) -> bool {
    prefix.len() <= s.len() && s.subrange(0, prefix.len() as int) == prefix
}

/// The link as an absolute URL.
pub open spec fn absolute_link(token: Seq<char>) -> Seq<char> {
    if starts_with_spec(token, "http"@) {
        token
    } else {
        "https://github.com"@ + token
    }
}

/// The first build link on the page (pieces taken between double quotes), made absolute.
pub open spec fn btbn_url_spec(page: Seq<char>, variant: Seq<char>, ext: Seq<char>) -> Option<Seq<char>> {
    let tokens = split_spec(page, '"');
    if exists|i: int| 0 <= i < tokens.len() && is_build_link(#[trigger] tokens[i], variant, ext) {
        let i = choose|i: int|
            0 <= i < tokens.len() && is_build_link(#[trigger] tokens[i], variant, ext) && forall|k: int|
                0 <= k < i ==> !is_build_link(#[trigger] tokens[k], variant, ext);
        Some(absolute_link(tokens[i]))
    } else {
        None
    }
}

fn starts_with(s: &Vec<char>, prefix: &str) -> (r: bool)
    ensures
        r == starts_with_spec(s@, prefix@),
{
    let p = chars_of(prefix);
    if p.len() > s.len() {
        return false;
    }
    let mut i: usize = 0;
    while i < p.len()
        invariant
            p@ == prefix@,
            p@.len() <= s@.len(),
            i <= p@.len(),
            forall|k: int| 0 <= k < i ==> s@[k] == p@[k],
        decreases p@.len() - i,
    {
        if s[i] != p[i] {
            assert(s@.subrange(0, p@.len() as int)[i as int] != p@[i as int]);
            return false;
        }
        i = i + 1;
    }
    assert(s@.subrange(0, p@.len() as int) =~= p@);
    true
}

fn is_link(token: &Vec<char>, variant: &str, ext: &str) -> (r: bool)
    ensures
        r == is_build_link(token@, variant@, ext@),
{
    let marker = chars_of("releases/download/");
    let v = chars_of(variant);
    contains_chars(token.as_slice(), marker.as_slice()) && contains_chars(token.as_slice(), v.as_slice())
        && ends_with(token, &chars_of(ext)) && (starts_with(token, "http") || starts_with(token, "/"))
}

/// The first download link on the release page for `variant` with extension `ext`.
pub fn find_btbn_url_with_ext(page: &str, variant: &str, ext: &str) -> (r: Option<String>)
    ensures
        r matches Some(u) ==> btbn_url_spec(page@, variant@, ext@) == Some(u@),
        r is None ==> btbn_url_spec(page@, variant@, ext@) is None,
{
    let chars = chars_of(page);
    let tokens = split_chars(chars.as_slice(), '"');
    let ghost ts = split_spec(page@, '"');
    let mut i: usize = 0;
    while i < tokens.len()
        invariant
            ts == split_spec(page@, '"'),
            Seq::new(tokens@.len(), |k: int| tokens@[k]@) == ts,
            i <= tokens@.len(),
            forall|k: int| 0 <= k < i ==> !is_build_link(#[trigger] ts[k], variant@, ext@),
        decreases tokens@.len() - i,
    {
        assert(ts[i as int] == tokens@[i as int]@);
        if is_link(&tokens[i], variant, ext) {
            proof {
                let j = choose|j: int|
                    0 <= j < ts.len() && is_build_link(#[trigger] ts[j], variant@, ext@) && forall|k: int|
                        0 <= k < j ==> !is_build_link(#[trigger] ts[k], variant@, ext@);
                assert(j == i) by {
                    if j < i {
                        assert(!is_build_link(ts[j], variant@, ext@));
                    } else if j > i {
                        assert(!is_build_link(ts[i as int], variant@, ext@));
                    }
                }
            }
            if starts_with(&tokens[i], "http") {
                return Some(string_from_chars(tokens[i].as_slice()));
            }
            let mut url: Vec<char> = Vec::new();
            push_str(&mut url, "https://github.com");
            let ghost head = url@;
            let mut k: usize = 0;
            while k < tokens[i].len()
                invariant
                    i < tokens@.len(),
                    k <= tokens@[i as int]@.len(),
                    url@ == head + tokens@[i as int]@.subrange(0, k as int),
                decreases tokens@[i as int]@.len() - k,
            {
                url.push(tokens[i][k]);
                assert(url@ =~= head + tokens@[i as int]@.subrange(0, k + 1));
                k = k + 1;
            }
            assert(tokens@[i as int]@.subrange(0, tokens@[i as int]@.len() as int) == tokens@[i as int]@);
            return Some(string_from_chars(url.as_slice()));
        }
        i = i + 1;
    }
    None
}

/// The download link for `variant`, preferring `preferred_ext` and falling back to
/// `fallback_ext`.
pub fn find_btbn_url(page: &str, variant: &str, preferred_ext: &str, fallback_ext: &str) -> (r: Option<String>)
    ensures
        r matches Some(u) ==> (btbn_url_spec(page@, variant@, preferred_ext@) == Some(u@)
            || (btbn_url_spec(page@, variant@, preferred_ext@) is None && btbn_url_spec(page@, variant@, fallback_ext@) == Some(u@))),
        r is None ==> btbn_url_spec(page@, variant@, preferred_ext@) is None && btbn_url_spec(page@, variant@, fallback_ext@) is None,
{
    let preferred = find_btbn_url_with_ext(page, variant, preferred_ext);
    if preferred.is_some() {
        return preferred;
    }
    find_btbn_url_with_ext(page, variant, fallback_ext)
}


/// How a downloaded build is packed.
#[derive(Clone, Copy, Debug, PartialEq, Eq, Structural)]
pub enum ArchiveType {
    Zip,
    TarXz,
}

/// How the archive at `url` is packed, by its extension.
pub fn archive_type_from_url(url: &str) -> (r: Result<ArchiveType, String>)
    ensures
        ends_with_spec(url@, ".zip"@) ==> r == Ok::<ArchiveType, String>(ArchiveType::Zip),
        !ends_with_spec(url@, ".zip"@) && ends_with_spec(url@, ".tar.xz"@) ==> r == Ok::<ArchiveType, String>(ArchiveType::TarXz),
        r matches Err(e) ==> !ends_with_spec(url@, ".zip"@) && !ends_with_spec(url@, ".tar.xz"@)
            && e@ == "Unsupported archive type: "@ + url@,
{
    let chars = chars_of(url);
    if ends_with(&chars, &chars_of(".zip")) {
        Ok(ArchiveType::Zip)
    } else if ends_with(&chars, &chars_of(".tar.xz")) {
        Ok(ArchiveType::TarXz)
    } else {
        let mut msg: Vec<char> = Vec::new();
        push_str(&mut msg, "Unsupported archive type: ");
        push_str(&mut msg, url);
        Err(string_from_chars(msg.as_slice()))
    }
}

} // verus!
