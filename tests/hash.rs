use ocr_subtitles::hash::md5_hash;

#[test]
fn md5_hash_is_stable_for_same_input() {
    let first = md5_hash("hello world");
    let second = md5_hash("hello world");
    assert_eq!(first, second);
}

#[test]
fn md5_hash_differs_for_different_inputs() {
    let first = md5_hash("hello");
    let second = md5_hash("world");
    assert_ne!(first, second);
}
