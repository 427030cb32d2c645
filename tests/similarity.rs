use ocr_subtitles::similarity::{levenshtein_distance_bounded, texts_are_similar};

#[test]
fn lib_texts_are_similar_merges_short_texts_with_single_char_difference() {
    assert!(texts_are_similar("吴昊 菲菲", "昊昊 菲菲", 850_000));
}

#[test]
fn lib_texts_are_similar_keeps_short_exact_matches() {
    assert!(texts_are_similar("哥哥", "哥哥", 920_000));
}

#[test]
fn lib_texts_are_similar_rejects_short_texts_with_multiple_char_differences() {
    assert!(!texts_are_similar("吴昊 菲菲", "叶昊 爸爸", 850_000));
}

#[test]
fn lib_texts_are_similar_preserves_long_text_similarity_behavior() {
    assert!(texts_are_similar("today we fight together", "today we fight togather", 920_000));
    assert!(!texts_are_similar("today we fight together", "tomorrow we run away", 920_000));
}

#[test]
fn subtitles_texts_are_similar_merges_short_texts_with_single_char_difference() {
    assert!(texts_are_similar("吴昊 菲菲", "昊昊 菲菲", 850_000));
}

#[test]
fn subtitles_texts_are_similar_keeps_short_exact_matches() {
    assert!(texts_are_similar("哥哥", "哥哥", 920_000));
}

#[test]
fn subtitles_texts_are_similar_rejects_short_texts_with_multiple_char_differences() {
    assert!(!texts_are_similar("吴昊 菲菲", "叶昊 爸爸", 850_000));
}

#[test]
fn subtitles_texts_are_similar_preserves_long_text_similarity_behavior() {
    assert!(texts_are_similar("today we fight together", "today we fight togather", 920_000));
    assert!(!texts_are_similar("today we fight together", "tomorrow we run away", 920_000));
}

#[test]
fn texts_are_similar_merges_short_substrings() {
    assert!(texts_are_similar("关门", "关", 900_000));
    assert!(texts_are_similar("关", "关门", 900_000));
}

#[test]
fn texts_are_similar_merges_long_substrings() {
    assert!(texts_are_similar("hello world", "hello worl", 900_000));
    assert!(texts_are_similar("这是一个长句子的开头", "这是一个长句子的开头和结尾", 800_000));
}

#[test]
fn texts_are_similar_rejects_too_short_substrings() {
    assert!(!texts_are_similar("这是一个非常长的句子", "一", 900_000));
}

#[test]
fn levenshtein_distance_bounded_returns_none_when_distance_too_large() {
    let a: Vec<char> = "abc".chars().collect();
    let b: Vec<char> = "xyz".chars().collect();
    assert_eq!(levenshtein_distance_bounded(&a, &b, 1), None);
}

#[test]
fn levenshtein_distance_bounded_returns_exact_distance_within_bound() {
    let a: Vec<char> = "kitten".chars().collect();
    let b: Vec<char> = "sitting".chars().collect();
    assert_eq!(levenshtein_distance_bounded(&a, &b, 3), Some(3));
    assert_eq!(levenshtein_distance_bounded(&b, &a, 5), Some(3));
    assert_eq!(levenshtein_distance_bounded(&a, &b, 2), None);
    assert_eq!(levenshtein_distance_bounded(&[], &b, 7), Some(7));
}

#[test]
fn similarity_is_symmetric_on_samples() {
    let samples = ["hello world", "hello worl", "吴昊 菲菲", "昊昊 菲菲", "today we fight together", "tomorrow we run away", "关", ""];
    for a in samples.iter() {
        for b in samples.iter() {
            for t in [0u32, 800_000, 920_000, 1_000_000] {
                assert_eq!(texts_are_similar(a, b, t), texts_are_similar(b, a, t));
            }
        }
    }
}

#[test]
fn cjk_fragments_one_apart_are_similar_and_two_apart_are_not() {
    assert!(texts_are_similar("吴昊菲菲", "昊昊菲菲", 850_000));
    assert!(!texts_are_similar("吴昊菲菲", "昊昊爸菲", 850_000));
}

#[test]
fn exact_threshold_accepts_only_equal_long_keys() {
    assert!(texts_are_similar("a long enough sentence", "a long enough sentence", 1_000_000));
    assert!(!texts_are_similar("a long enough sentence", "a long enougx sentence", 1_000_000));
}
