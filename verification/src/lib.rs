//! Heuristic steganography detection: a byte-signature scanner for embedded
//! and polyglot file structures, least-significant-bit statistics for images,
//! spectrogram pattern analysis for audio, frame-sampling heuristics for
//! video, and an aggregator that fuses the findings into a confidence-scored
//! outcome.  Decoding of media into raw buffers is left to the callers; the
//! analyses here work on plain byte and integer data.

use vstd::prelude::*;

pub mod audio_parser;
pub mod bitstats;
pub mod exif_analyzer;
pub mod id3_analyzer;
pub mod image_filter;
pub mod image_parser;
pub mod lsb_analyzer;
pub mod magic_bytes_analyzer;
pub mod report;
pub mod spectrogram_analyzer;
pub mod strutil;
pub mod text_parser;
pub mod video_frame_analyzer;
pub mod video_parser;

use crate::exif_analyzer::{ExifAnalyzer, ExifAnalyzerError, ExifData};
use crate::id3_analyzer::{Id3Analyzer, Id3AnalyzerError, Id3Data};
use crate::image_filter::{ImageFilterAnalyzer, ImageFilterErrors};
use crate::lsb_analyzer::{LsbAnalysis, LsbAnalyzer, LsbAnalyzerError, PixelGrid};
use crate::magic_bytes_analyzer::{MagicBytesAnalysis, MagicBytesAnalyzer, MagicBytesError};
use crate::spectrogram_analyzer::{
    SpectrogramAnalyzer, SpectrogramAnalyzerError, SpectrogramData,
};
use crate::video_frame_analyzer::{
    VideoFrameAnalysis, VideoFrameAnalyzer, VideoFrameAnalyzerError,
};
use vstd::string::StringExecFns;

verus! {

/// One pass from a file path to its decoded form.  Reading and decoding
/// are a caller's work; implementations live with the code that owns the
/// file handles.
pub trait Parser {
    type Output;

    type Error;

    fn parse_path(file_path: &str) -> Result<Self::Output, Self::Error>;
}

/// One analysis pass from a decoded input to its findings.
pub trait Analyzer {
    type Input;

    type Output;

    type Error;

    fn analyze(input: Self::Input) -> Result<Self::Output, Self::Error>;
}

impl Analyzer for ExifAnalyzer {
    type Input = ();

    type Output = ExifData;

    type Error = ExifAnalyzerError;

    /// The empty record; metadata is fed in field by field.
    fn analyze(_input: ()) -> Result<ExifData, ExifAnalyzerError> {
        Result::Ok(ExifData::new())
    }
}

impl Analyzer for Id3Analyzer {
    type Input = ();

    type Output = Id3Data;

    type Error = Id3AnalyzerError;

    /// The empty record; tag frames are fed in one by one.
    fn analyze(_input: ()) -> Result<Id3Data, Id3AnalyzerError> {
        Result::Ok(Id3Data::new())
    }
}

impl Analyzer for MagicBytesAnalyzer {
    type Input = ();

    type Output = MagicBytesAnalysis;

    type Error = MagicBytesError;

    /// Scanning needs the file bytes; use `analyze_buffer` instead.
    fn analyze(_input: ()) -> Result<MagicBytesAnalysis, MagicBytesError> {
        Result::Err(
            MagicBytesError::Analysis("Use analyze_buffer with the file bytes instead".to_owned()),
        )
    }
}

impl Analyzer for LsbAnalyzer {
    type Input = PixelGrid;

    type Output = LsbAnalysis;

    type Error = LsbAnalyzerError;

    /// The bit-plane statistics of a well-formed pixel grid.
    fn analyze(input: PixelGrid) -> Result<LsbAnalysis, LsbAnalyzerError> {
        if !input.check() {
            return Result::Err(
                LsbAnalyzerError::ImageProcessing("Pixel buffer out of range".to_owned()),
            );
        }
        LsbAnalyzer::analyze(&input)
    }
}

impl Analyzer for VideoFrameAnalyzer {
    type Input = PixelGrid;

    type Output = VideoFrameAnalysis;

    type Error = VideoFrameAnalyzerError;

    /// The per-frame statistics of a well-formed pixel grid.
    fn analyze(input: PixelGrid) -> Result<VideoFrameAnalysis, VideoFrameAnalyzerError> {
        if !input.check() {
            return Result::Err(
                VideoFrameAnalyzerError::FrameProcessing("Pixel buffer out of range".to_owned()),
            );
        }
        VideoFrameAnalyzer::analyze(&input)
    }
}

impl Analyzer for ImageFilterAnalyzer {
    type Input = PixelGrid;

    type Output = Vec<PixelGrid>;

    type Error = ImageFilterErrors;

    /// The channel-isolating filters of a well-formed pixel grid.
    fn analyze(input: PixelGrid) -> Result<Vec<PixelGrid>, ImageFilterErrors> {
        if !input.check() {
            return Result::Err(
                ImageFilterErrors::Unrepresentable("Pixel buffer out of range".to_owned()),
            );
        }
        ImageFilterAnalyzer::analyze(&input)
    }
}

impl Analyzer for SpectrogramAnalyzer {
    type Input = Vec<Vec<u64>>;

    type Output = SpectrogramData;

    type Error = SpectrogramAnalyzerError;

    /// The spectral analysis of a rectangular, bounded magnitude grid.
    fn analyze(input: Vec<Vec<u64>>) -> Result<SpectrogramData, SpectrogramAnalyzerError> {
        let bins: usize = if input.len() > 0 {
            input[0].len()
        } else {
            0
        };
        if !crate::spectrogram_analyzer::check_grid(&input, bins) {
            return Result::Err(
                SpectrogramAnalyzerError::FFTError("Magnitude grid out of range".to_owned()),
            );
        }
        SpectrogramAnalyzer::analyze(&input, bins)
    }
}

} // verus!
