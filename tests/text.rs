use ocr_subtitles::text::{collapse_whitespace, is_edge_punctuation, normalize_text_for_compare};
use ocr_subtitles::url_filter::{text_looks_url_like, token_looks_like_domain};

#[test]
fn collapse_whitespace_trims_and_deduplicates_spaces() {
    assert_eq!(collapse_whitespace("  hello   world \n\t"), "hello world");
}

#[test]
fn collapse_whitespace_of_blank_text_is_empty() {
    assert_eq!(collapse_whitespace(" \u{3000}\t "), "");
    assert_eq!(collapse_whitespace(""), "");
}

#[test]
fn normalize_text_for_compare_strips_punctuation() {
    assert_eq!(normalize_text_for_compare("《Hello, World!》"), "hello, world");
}

#[test]
fn normalize_text_for_compare_lowercases_beyond_ascii() {
    assert_eq!(normalize_text_for_compare("  ÉCOLE   Öffnen… "), "école öffnen");
}

#[test]
fn edge_punctuation_covers_ascii_and_cjk_marks() {
    assert!(is_edge_punctuation('!'));
    assert!(is_edge_punctuation('，'));
    assert!(is_edge_punctuation(' '));
    assert!(!is_edge_punctuation('a'));
    assert!(!is_edge_punctuation('好'));
}

#[test]
fn token_looks_like_domain_detects_common_domains() {
    assert!(token_looks_like_domain("example.com"));
    assert!(!token_looks_like_domain("not-a-domain"));
}

#[test]
fn token_looks_like_domain_rejects_bad_shapes() {
    assert!(token_looks_like_domain("(sub.example.info)"));
    assert!(!token_looks_like_domain("a.com"));
    assert!(!token_looks_like_domain("example..com"));
    assert!(!token_looks_like_domain("example.c0m"));
    assert!(!token_looks_like_domain("12.34"));
    assert!(!token_looks_like_domain("example.abcdefg"));
}

#[test]
fn text_looks_url_like_detects_links_and_domains() {
    assert!(text_looks_url_like("visit https://example.com now"));
    assert!(text_looks_url_like("example.org"));
    assert!(!text_looks_url_like("plain subtitle text"));
}

#[test]
fn text_looks_url_like_ignores_ascii_case_and_finds_tokens() {
    assert!(text_looks_url_like("WWW.SITE.XYZ"));
    assert!(text_looks_url_like("see fansub.de for more"));
    assert!(!text_looks_url_like("Wait. What?"));
}
