use ocr_subtitles::ffmpeg::{build_extract_args, get_ffmpeg_format_for_codec, has_recognized_extension, parse_progress_kv};

fn pair(k: &str, v: &str) -> Option<(String, String)> {
    Some((k.to_string(), v.to_string()))
}

#[test]
fn parse_progress_kv_extracts_key_and_value() {
    assert_eq!(parse_progress_kv("out_time_us=123456"), pair("out_time_us", "123456"));
    assert_eq!(parse_progress_kv("total_size = 1024"), pair("total_size", "1024"));
    assert_eq!(parse_progress_kv("invalid"), None);
}

#[test]
fn parse_progress_kv_splits_at_the_first_equals_sign() {
    assert_eq!(parse_progress_kv("  a = b=c \n"), pair("a", "b=c"));
    assert_eq!(parse_progress_kv("=x"), pair("", "x"));
}

#[test]
fn get_ffmpeg_format_for_codec_matches_known_codec_case_insensitive() {
    assert_eq!(get_ffmpeg_format_for_codec("WMAV2"), Some("asf".to_string()));
    assert_eq!(get_ffmpeg_format_for_codec("unknown"), None);
}

#[test]
fn get_ffmpeg_format_for_codec_covers_pcm_and_lossless() {
    assert_eq!(get_ffmpeg_format_for_codec("pcm_s24le"), Some("wav".to_string()));
    assert_eq!(get_ffmpeg_format_for_codec("TrueHD"), Some("mlp".to_string()));
    assert_eq!(get_ffmpeg_format_for_codec("wavpack"), Some("wv".to_string()));
}

#[test]
fn has_recognized_extension_supports_common_extensions() {
    assert!(has_recognized_extension("/tmp/file.MP3"));
    assert!(!has_recognized_extension("/tmp/file.custom"));
}

fn has_pair(args: &[String], a: &str, b: &str) -> bool {
    args.windows(2).any(|w| w[0] == a && w[1] == b)
}

#[test]
fn build_extract_args_adds_explicit_format_for_audio_codec_when_needed() {
    let args = build_extract_args("/tmp/input.mkv", "/tmp/output.bin", 1, "audio", "wmav2");
    assert!(has_pair(&args, "-f", "asf"));
}

#[test]
fn build_extract_args_for_video_disables_audio_and_subtitles() {
    let args = build_extract_args("/tmp/input.mkv", "/tmp/output.mkv", 0, "video", "h264");
    assert!(args.contains(&"-an".to_string()));
    assert!(args.contains(&"-sn".to_string()));
}

#[test]
fn build_extract_args_enables_progress_output() {
    let args = build_extract_args("/tmp/input.mkv", "/tmp/output.mkv", 0, "video", "h264");
    assert!(has_pair(&args, "-progress", "pipe:1"));
}

#[test]
fn build_extract_args_lays_out_a_subtitle_copy() {
    let args = build_extract_args("in.mkv", "out.srt", 12, "subtitle", "subrip");
    let expected: Vec<String> = ["-y", "-i", "in.mkv", "-map", "0:12", "-c:s", "srt", "-progress", "pipe:1", "out.srt"]
        .iter()
        .map(|s| s.to_string())
        .collect();
    assert_eq!(args, expected);
    let other = build_extract_args("in.mkv", "out.x", -3, "data", "bin");
    assert_eq!(other[4], "0:-3");
    assert!(has_pair(&other, "-c", "copy"));
}
