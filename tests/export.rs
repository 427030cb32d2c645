use ocr_subtitles::export::{format_srt, format_srt_time, format_txt, format_vtt, format_vtt_time};
use ocr_subtitles::model::OcrSubtitleEntry;

fn entry(text: &str, start_time: u64, end_time: u64) -> OcrSubtitleEntry {
    OcrSubtitleEntry { id: "sub-1".to_string(), text: text.to_string(), start_time, end_time, confidence: 900_000 }
}

#[test]
fn format_srt_time_pads_each_field() {
    assert_eq!(format_srt_time(0), "00:00:00,000");
    assert_eq!(format_srt_time(3_723_004), "01:02:03,004");
    assert_eq!(format_srt_time(360_000_000), "100:00:00,000");
}

#[test]
fn format_vtt_time_uses_a_dot() {
    assert_eq!(format_vtt_time(61_500), "00:01:01.500");
}

#[test]
fn format_srt_numbers_blocks() {
    let subs = vec![entry("Hello", 0, 1500), entry("World", 2000, 2500)];
    assert_eq!(
        format_srt(&subs),
        "1\n00:00:00,000 --> 00:00:01,500\nHello\n\n2\n00:00:02,000 --> 00:00:02,500\nWorld\n"
    );
}

#[test]
fn format_vtt_has_header() {
    let subs = vec![entry("Hi", 0, 10)];
    assert_eq!(format_vtt(&subs), "WEBVTT\n\n00:00:00.000 --> 00:00:00.010\nHi\n\n");
    assert_eq!(format_vtt(&[]), "WEBVTT\n\n");
}

#[test]
fn format_txt_joins_lines() {
    let subs = vec![entry("a", 0, 1), entry("b", 1, 2)];
    assert_eq!(format_txt(&subs), "a\nb");
    assert_eq!(format_txt(&[]), "");
}
