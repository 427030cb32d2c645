//! The recognition model files, by language.
use vstd::prelude::*;
use crate::text::str_eq;

verus! {

/// The text-detection model, shared by all languages.
pub const OCR_DET_MODEL: &'static str = "PP-OCRv5_mobile_det.mnn";

/// The character set of the multi-language model.
pub const OCR_CHARSET: &'static str = "ppocr_keys_v5.txt";

/// The recognition model for `language`; unknown languages get the multi-language model.
pub open spec fn rec_model_spec(language: Seq<char>) -> Seq<char> {
    if language == "multi"@ || language == "chinese"@ || language == "japanese"@ || language == "en"@ {
        "PP-OCRv5_mobile_rec.mnn"@
    } else if language == "korean"@ {
        "korean_PP-OCRv5_mobile_rec_infer.mnn"@
    } else if language == "latin"@ {
        "latin_PP-OCRv5_mobile_rec_infer.mnn"@
    } else if language == "cyrillic"@ {
        "cyrillic_PP-OCRv5_mobile_rec_infer.mnn"@
    } else if language == "arabic"@ {
        "arabic_PP-OCRv5_mobile_rec_infer.mnn"@
    } else if language == "devanagari"@ {
        "devanagari_PP-OCRv5_mobile_rec_infer.mnn"@
    } else if language == "thai"@ {
        "th_PP-OCRv5_mobile_rec_infer.mnn"@
    } else if language == "greek"@ {
        "el_PP-OCRv5_mobile_rec_infer.mnn"@
    } else if language == "tamil"@ {
        "ta_PP-OCRv5_mobile_rec_infer.mnn"@
    } else if language == "telugu"@ {
        "te_PP-OCRv5_mobile_rec_infer.mnn"@
    } else {
        "PP-OCRv5_mobile_rec.mnn"@
    }
}

/// The character set file for `language`; unknown languages get the multi-language set.
pub open spec fn charset_spec(language: Seq<char>) -> Seq<char> {
    if language == "korean"@ {
        "ppocr_keys_korean.txt"@
    } else if language == "latin"@ {
        "ppocr_keys_latin.txt"@
    } else if language == "cyrillic"@ {
        "ppocr_keys_cyrillic.txt"@
    } else if language == "arabic"@ {
        "ppocr_keys_arabic.txt"@
    } else if language == "devanagari"@ {
        "ppocr_keys_devanagari.txt"@
    } else if language == "thai"@ {
        "ppocr_keys_th.txt"@
    } else if language == "greek"@ {
        "ppocr_keys_el.txt"@
    } else if language == "tamil"@ {
        "ppocr_keys_ta.txt"@
    } else if language == "telugu"@ {
        "ppocr_keys_te.txt"@
    } else {
        OCR_CHARSET@
    }
}

/// The file name of the recognition model for `language`.
pub fn get_rec_model_for_language(language: &str) -> (r: &'static str)
    ensures
        r@ == rec_model_spec(language@),
{
    if str_eq(language, "multi") || str_eq(language, "chinese") || str_eq(language, "japanese") || str_eq(language, "en") {
        "PP-OCRv5_mobile_rec.mnn"
    } else if str_eq(language, "korean") {
        "korean_PP-OCRv5_mobile_rec_infer.mnn"
    } else if str_eq(language, "latin") {
        "latin_PP-OCRv5_mobile_rec_infer.mnn"
    } else if str_eq(language, "cyrillic") {
        "cyrillic_PP-OCRv5_mobile_rec_infer.mnn"
    } else if str_eq(language, "arabic") {
        "arabic_PP-OCRv5_mobile_rec_infer.mnn"
    } else if str_eq(language, "devanagari") {
        "devanagari_PP-OCRv5_mobile_rec_infer.mnn"
    } else if str_eq(language, "thai") {
        "th_PP-OCRv5_mobile_rec_infer.mnn"
    } else if str_eq(language, "greek") {
        "el_PP-OCRv5_mobile_rec_infer.mnn"
    } else if str_eq(language, "tamil") {
        "ta_PP-OCRv5_mobile_rec_infer.mnn"
    } else if str_eq(language, "telugu") {
        "te_PP-OCRv5_mobile_rec_infer.mnn"
    } else {
        "PP-OCRv5_mobile_rec.mnn"
    }
}

/// The file name of the character set for `language`.
pub fn get_charset_for_language(language: &str) -> (r: &'static str)
    ensures
        r@ == charset_spec(language@),
{
    if str_eq(language, "korean") {
        "ppocr_keys_korean.txt"
    } else if str_eq(language, "latin") {
        "ppocr_keys_latin.txt"
    } else if str_eq(language, "cyrillic") {
        "ppocr_keys_cyrillic.txt"
    } else if str_eq(language, "arabic") {
        "ppocr_keys_arabic.txt"
    } else if str_eq(language, "devanagari") {
        "ppocr_keys_devanagari.txt"
    } else if str_eq(language, "thai") {
        "ppocr_keys_th.txt"
    } else if str_eq(language, "greek") {
        "ppocr_keys_el.txt"
    } else if str_eq(language, "tamil") {
        "ppocr_keys_ta.txt"
    } else if str_eq(language, "telugu") {
        "ppocr_keys_te.txt"
    } else {
        OCR_CHARSET
    }
}

} // verus!
