//! Turns a recorded video of a document into a searchable digital artifact:
//! near-duplicate frames are dropped by a streaming perceptual-hash analyzer,
//! the survivors are laid out one per page, and recognized words are placed as
//! an invisible, positionally aligned text layer over each page image.
//!
//! The analyzer and the document layout are verified; decoding, recognition
//! and file output live outside this crate and hand plain values in and out.

pub mod frame;
pub mod fingerprint;
pub mod frame_analyzer;
pub mod document_builder;
pub mod fonts;
pub mod geometry;
pub mod ocr;
pub mod report;
pub mod video_processor;

pub use frame::Frame;
pub use frame_analyzer::{AnalysisResult, FrameAnalyzer};
