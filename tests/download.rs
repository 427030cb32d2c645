use ocr_subtitles::download::{archive_type_from_url, find_btbn_url, find_btbn_url_with_ext, resolve_btbn_variant, ArchiveType};
use ocr_subtitles::models::{get_charset_for_language, get_rec_model_for_language};

const PAGE: &str = "<a href=\"/BtbN/FFmpeg-Builds/releases/download/latest/ffmpeg-n8.0-latest-linux64-gpl-8.0.tar.xz\">x</a>\
<a href=\"https://github.com/BtbN/FFmpeg-Builds/releases/download/latest/ffmpeg-n8.0-latest-win64-gpl-8.0.zip\">y</a>\
<a href=\"/other/linux64-gpl-8.0.zip\">z</a>";

#[test]
fn resolve_btbn_variant_knows_supported_platforms() {
    assert_eq!(resolve_btbn_variant("linux", "x86_64"), Ok("linux64-gpl-8.0"));
    assert_eq!(resolve_btbn_variant("windows", "aarch64"), Ok("winarm64-gpl-8.0"));
    assert_eq!(resolve_btbn_variant("macos", "aarch64"), Err("Unsupported platform: macos aarch64".to_string()));
}

#[test]
fn find_btbn_url_with_ext_makes_relative_links_absolute() {
    assert_eq!(
        find_btbn_url_with_ext(PAGE, "linux64-gpl-8.0", ".tar.xz"),
        Some("https://github.com/BtbN/FFmpeg-Builds/releases/download/latest/ffmpeg-n8.0-latest-linux64-gpl-8.0.tar.xz".to_string())
    );
    assert_eq!(
        find_btbn_url_with_ext(PAGE, "win64-gpl-8.0", ".zip"),
        Some("https://github.com/BtbN/FFmpeg-Builds/releases/download/latest/ffmpeg-n8.0-latest-win64-gpl-8.0.zip".to_string())
    );
    assert_eq!(find_btbn_url_with_ext(PAGE, "linux64-gpl-8.0", ".zip"), None);
}

#[test]
fn find_btbn_url_falls_back_to_the_second_extension() {
    assert_eq!(
        find_btbn_url(PAGE, "linux64-gpl-8.0", ".zip", ".tar.xz"),
        Some("https://github.com/BtbN/FFmpeg-Builds/releases/download/latest/ffmpeg-n8.0-latest-linux64-gpl-8.0.tar.xz".to_string())
    );
    assert_eq!(find_btbn_url(PAGE, "linuxarm64-gpl-8.0", ".zip", ".tar.xz"), None);
}

#[test]
fn model_files_follow_the_language() {
    assert_eq!(get_rec_model_for_language("japanese"), "PP-OCRv5_mobile_rec.mnn");
    assert_eq!(get_rec_model_for_language("thai"), "th_PP-OCRv5_mobile_rec_infer.mnn");
    assert_eq!(get_rec_model_for_language("klingon"), "PP-OCRv5_mobile_rec.mnn");
    assert_eq!(get_charset_for_language("greek"), "ppocr_keys_el.txt");
    assert_eq!(get_charset_for_language("en"), "ppocr_keys_v5.txt");
}

#[test]
fn archive_type_follows_the_extension() {
    assert_eq!(archive_type_from_url("https://x/ffmpeg.zip"), Ok(ArchiveType::Zip));
    assert_eq!(archive_type_from_url("https://x/ffmpeg.tar.xz"), Ok(ArchiveType::TarXz));
    assert_eq!(archive_type_from_url("https://x/ffmpeg.7z"), Err("Unsupported archive type: https://x/ffmpeg.7z".to_string()));
}
