//! The audio stream parser's surface.  Decoding a stream into samples is a
//! codec-library concern done by callers; the analyses consume the decoded
//! magnitude grids.

use vstd::prelude::*;

verus! {

/// Marker type for the audio stream parser.
pub struct AudioParser;

/// Failure of the audio stream parser.
#[derive(Debug)]
pub enum AudioParserError {
    IO(String),
    Symphonia(String),
    Decode(String),
}

} // verus!
