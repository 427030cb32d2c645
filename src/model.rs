//! The records that flow through the pipeline: frame readings in, subtitle cues out.
use vstd::prelude::*;

verus! {

/// One OCR pass over one video frame.
#[derive(Clone, Debug)]
pub struct OcrFrameResult {
    /// Position of the frame in the extracted sequence.
    pub frame_index: u32,
    /// Presentation time of the frame, in milliseconds.
    pub time_ms: u64,
    /// Recognised text; may be empty or garbled.
    pub text: String,
    /// Recognition confidence, in millionths.
    pub confidence: u32,
}

/// One finished subtitle cue.
#[derive(Clone, Debug)]
pub struct OcrSubtitleEntry {
    /// `sub-<n>`, numbered from one.
    pub id: String,
    pub text: String,
    /// Start, in milliseconds.
    pub start_time: u64,
    /// End, in milliseconds.
    pub end_time: u64,
    /// Confidence of the chosen reading, in millionths.
    pub confidence: u32,
}

/// What a cue holds, as plain values.
pub struct EntryView {
    pub id: Seq<char>,
    pub text: Seq<char>,
    pub start_time: u64,
    pub end_time: u64,
    pub confidence: u32,
}

impl View for OcrSubtitleEntry {
    type V = EntryView;

    open spec fn view(&self) -> EntryView {
        EntryView {
            id: self.id@,
            text: self.text@,
            start_time: self.start_time,
            end_time: self.end_time,
            confidence: self.confidence,
        }
    }
}

/// The views of a list of cues.
pub open spec fn entry_views(v: Seq<OcrSubtitleEntry>) -> Seq<EntryView> {
    v.map_values(|e: OcrSubtitleEntry| e@)
}

/// How the segments are cleaned up into cues.
#[derive(Clone, Copy, Debug)]
pub struct OcrSubtitleCleanupOptions {
    /// Compare readings by similarity rather than exact equality, and merge similar
    /// neighbouring cues.
    pub merge_similar: bool,
    /// Similarity threshold, in millionths; held between 0.80 and 0.98 when used.
    pub similarity_threshold: u32,
    /// Longest gap, in milliseconds, that a segment or a merge bridges.
    pub max_gap_ms: u32,
    /// Cues shorter than this, in milliseconds, merge at a relaxed threshold.
    pub min_cue_duration_ms: u32,
    /// Drop cues whose text looks like a link or a domain name.
    pub filter_url_like: bool,
}

impl Default for OcrSubtitleCleanupOptions {
    fn default() -> (r: Self)
        ensures
            r.merge_similar,
            r.similarity_threshold == 920_000,
            r.max_gap_ms == 250,
            r.min_cue_duration_ms == 500,
            r.filter_url_like,
    {
        OcrSubtitleCleanupOptions {
            merge_similar: true,
            similarity_threshold: 920_000,
            max_gap_ms: 250,
            min_cue_duration_ms: 500,
            filter_url_like: true,
        }
    }
}

/// Failures of the subtitle pipeline.
#[derive(Clone, Copy, Debug, PartialEq, Eq, Structural)]
pub enum OcrError {
    /// The frame rate is zero or negative.
    Configuration,
    /// The recognition engine could not be built (missing or unloadable model files).
    EngineInitialization,
    /// The job was cancelled on request.
    Cancelled,
}

impl OcrError {
    /// A message for the user.
    pub fn message(&self) -> (r: String)
        ensures
            *self == OcrError::Configuration ==> r@ == "FPS must be greater than 0"@,
            *self == OcrError::EngineInitialization ==> r@ == "Failed to create OCR engine"@,
            *self == OcrError::Cancelled ==> r@ == "OCR cancelled"@,
    {
        match self {
            OcrError::Configuration => "FPS must be greater than 0".to_owned(),
            OcrError::EngineInitialization => "Failed to create OCR engine".to_owned(),
            OcrError::Cancelled => "OCR cancelled".to_owned(),
        }
    }
}

} // verus!
