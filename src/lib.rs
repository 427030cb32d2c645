//! Turns a noisy per-frame stream of OCR readings into a clean subtitle track.
//!
//! Confidences and thresholds are whole numbers of millionths, and frame rates are
//! thousandths of a frame per second, so that every rule is exact.
//!
//! - `text`, `similarity`: comparison keys and the bounded similarity test between them.
//! - `selector`, `stabilizer`: the text of a segment, and the machine that builds segments.
//! - `cleanup`, `url_filter`, `subtitles`: cue timing, clean-up passes and the whole pipeline.
//! - `laws`: properties of the pipeline, proved over its specification.
//! - `scheduler`, `models`: how frames are shared among recognition workers, and which
//!   model files a language needs.
//! - `export`, `ffmpeg`, `progress`, `download`, `hash`: SRT and WebVTT output, ffmpeg
//!   command lines and progress output, build selection, and cache-file hashes.
pub mod model;
pub mod text;
pub mod similarity;
pub mod url_filter;
pub mod selector;
pub mod stabilizer;
pub mod cleanup;
pub mod subtitles;
pub mod laws;
pub mod scheduler;
pub mod models;
pub mod export;
pub mod ffmpeg;
pub mod download;
pub mod hash;
pub mod progress;
