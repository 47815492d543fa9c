//! The image parser's surface.  Decoding an image file into an RGBA buffer
//! is a codec-library concern done by callers; the analyses consume the
//! decoded pixel grid.

use vstd::prelude::*;

verus! {

/// Marker type for the image parser.
pub struct ImageParser;

} // verus!
