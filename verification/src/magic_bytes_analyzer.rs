//! Byte-signature scanner: finds known file-format magic numbers anywhere in
//! a raw buffer, merges them with hits from an external deep-scan signature
//! database, and derives polyglot and hidden-data indicators.

use vstd::prelude::*;
use vstd::string::StringSliceAdditionalSpecFns;
use vstd::string::StringExecFns;
use vstd::utf8::encode_utf8;
use crate::strutil::{
    contains_bytes, contains_seq, lower_bytes, match_at, matches_at, to_lower_bytes,
    to_upper_bytes, upper_bytes, usize_to_dec_string, usize_to_hex_string, dec_chars, hex_chars,
};

verus! {

/// Marker type for the scanner.
pub struct MagicBytesAnalyzer;

/// Failure of a scan: an unreadable input or an empty buffer.
#[derive(Debug)]
pub enum MagicBytesError {
    IO(String),
    Analysis(String),
}

/// One signature found in the buffer.
#[derive(Debug, Clone)]
pub struct EmbeddedFile {
    pub offset: usize,
    pub description: String,
    pub file_type: String,
    pub confidence: String,
}

/// Mathematical model of one found signature.
pub ghost struct EmbeddedFileView {
    pub offset: nat,
    pub description: Seq<char>,
    pub file_type: Seq<char>,
    pub confidence: Seq<char>,
}

impl View for EmbeddedFile {
    type V = EmbeddedFileView;

    open spec fn view(&self) -> EmbeddedFileView {
        EmbeddedFileView {
            offset: self.offset as nat,
            description: self.description@,
            file_type: self.file_type@,
            confidence: self.confidence@,
        }
    }
}

/// The views of a sequence of found signatures.
pub open spec fn views_of(s: Seq<EmbeddedFile>) -> Seq<EmbeddedFileView> {
    s.map_values(|e: EmbeddedFile| e@)
}

/// Count of found signatures per broad format family.
#[derive(Debug, Clone, Copy, PartialEq, Eq, Structural)]
pub struct FormatSummary {
    pub audio_files: usize,
    pub video_files: usize,
    pub image_files: usize,
    pub text_files: usize,
    pub archive_files: usize,
    pub executable_files: usize,
    pub other_files: usize,
}

impl Default for FormatSummary {
    /// The all-zero tally.
    fn default() -> (r: Self)
        ensures
            r == FormatSummary::empty_summary(),
    {
        FormatSummary {
            audio_files: 0,
            video_files: 0,
            image_files: 0,
            text_files: 0,
            archive_files: 0,
            executable_files: 0,
            other_files: 0,
        }
    }
}

impl FormatSummary {
    /// The all-zero tally.
    pub open spec fn empty_summary() -> FormatSummary {
        FormatSummary {
            audio_files: 0,
            video_files: 0,
            image_files: 0,
            text_files: 0,
            archive_files: 0,
            executable_files: 0,
            other_files: 0,
        }
    }
}

/// The broad format family a signature description falls in.
#[derive(Debug, Clone, Copy, PartialEq, Eq, Structural)]
pub enum FileCategory {
    Image,
    Audio,
    Video,
    TextDocument,
    Archive,
    Executable,
    Other,
}

/// A handle on a file whose bytes a caller will read and scan.
#[derive(Debug, Clone)]
pub struct MagicBytesAnalyzerWithPath {
    pub path: String,
}

impl MagicBytesAnalyzerWithPath {
    /// Remember the file to scan.
    pub fn new(path: String) -> (r: MagicBytesAnalyzerWithPath)
        ensures
            r.path@ == path@,
    {
        MagicBytesAnalyzerWithPath { path }
    }
}

/// The lowercased description contains the keyword.
pub open spec fn desc_has(d: Seq<u8>, kw: Seq<u8>) -> bool {
    contains_seq(lower_bytes(d), kw)
}

pub open spec fn is_image_desc(d: Seq<u8>) -> bool {
    ||| desc_has(d, "jpeg".spec_bytes())
    ||| desc_has(d, "png".spec_bytes())
    ||| desc_has(d, "gif".spec_bytes())
    ||| desc_has(d, "bmp".spec_bytes())
    ||| desc_has(d, "tiff".spec_bytes())
    ||| desc_has(d, "webp".spec_bytes())
    ||| desc_has(d, "image".spec_bytes())
}

pub open spec fn is_audio_desc(d: Seq<u8>) -> bool {
    ||| desc_has(d, "mp3".spec_bytes())
    ||| desc_has(d, "wav".spec_bytes())
    ||| desc_has(d, "flac".spec_bytes())
    ||| desc_has(d, "ogg".spec_bytes())
    ||| desc_has(d, "aac".spec_bytes())
    ||| desc_has(d, "audio".spec_bytes())
}

pub open spec fn is_video_desc(d: Seq<u8>) -> bool {
    ||| desc_has(d, "mp4".spec_bytes())
    ||| desc_has(d, "avi".spec_bytes())
    ||| desc_has(d, "mkv".spec_bytes())
    ||| desc_has(d, "webm".spec_bytes())
    ||| desc_has(d, "mov".spec_bytes())
    ||| desc_has(d, "video".spec_bytes())
}

pub open spec fn is_text_desc(d: Seq<u8>) -> bool {
    ||| desc_has(d, "pdf".spec_bytes())
    ||| desc_has(d, "doc".spec_bytes())
    ||| desc_has(d, "txt".spec_bytes())
    ||| desc_has(d, "rtf".spec_bytes())
    ||| desc_has(d, "xml".spec_bytes())
    ||| desc_has(d, "html".spec_bytes())
}

pub open spec fn is_archive_desc(d: Seq<u8>) -> bool {
    ||| desc_has(d, "zip".spec_bytes())
    ||| desc_has(d, "rar".spec_bytes())
    ||| desc_has(d, "tar".spec_bytes())
    ||| desc_has(d, "7z".spec_bytes())
    ||| desc_has(d, "gzip".spec_bytes())
    ||| desc_has(d, "archive".spec_bytes())
}

pub open spec fn is_executable_desc(d: Seq<u8>) -> bool {
    ||| desc_has(d, "exe".spec_bytes())
    ||| desc_has(d, "elf".spec_bytes())
    ||| desc_has(d, "mach-o".spec_bytes())
    ||| desc_has(d, "executable".spec_bytes())
}

/// The category of a description, by the first keyword family that matches.
pub open spec fn spec_category(d: Seq<u8>) -> FileCategory {
    if is_image_desc(d) {
        FileCategory::Image
    } else if is_audio_desc(d) {
        FileCategory::Audio
    } else if is_video_desc(d) {
        FileCategory::Video
    } else if is_text_desc(d) {
        FileCategory::TextDocument
    } else if is_archive_desc(d) {
        FileCategory::Archive
    } else if is_executable_desc(d) {
        FileCategory::Executable
    } else {
        FileCategory::Other
    }
}

/// The display name of a category.
pub open spec fn spec_category_name(c: FileCategory) -> Seq<char> {
    match c {
        FileCategory::Image => "Image"@,
        FileCategory::Audio => "Audio"@,
        FileCategory::Video => "Video"@,
        FileCategory::TextDocument => "Text/Document"@,
        FileCategory::Archive => "Archive"@,
        FileCategory::Executable => "Executable"@,
        FileCategory::Other => "Other"@,
    }
}

fn category_of_bytes(desc: &[u8]) -> (c: FileCategory)
    ensures
        c == spec_category(desc@),
{
    let lower: Vec<u8> = to_lower_bytes(desc);
    let l: &[u8] = lower.as_slice();
    if contains_bytes(l, "jpeg".as_bytes()) || contains_bytes(l, "png".as_bytes())
        || contains_bytes(l, "gif".as_bytes()) || contains_bytes(l, "bmp".as_bytes())
        || contains_bytes(l, "tiff".as_bytes()) || contains_bytes(l, "webp".as_bytes())
        || contains_bytes(l, "image".as_bytes()) {
        FileCategory::Image
    } else if contains_bytes(l, "mp3".as_bytes()) || contains_bytes(l, "wav".as_bytes())
        || contains_bytes(l, "flac".as_bytes()) || contains_bytes(l, "ogg".as_bytes())
        || contains_bytes(l, "aac".as_bytes()) || contains_bytes(l, "audio".as_bytes()) {
        FileCategory::Audio
    } else if contains_bytes(l, "mp4".as_bytes()) || contains_bytes(l, "avi".as_bytes())
        || contains_bytes(l, "mkv".as_bytes()) || contains_bytes(l, "webm".as_bytes())
        || contains_bytes(l, "mov".as_bytes()) || contains_bytes(l, "video".as_bytes()) {
        FileCategory::Video
    } else if contains_bytes(l, "pdf".as_bytes()) || contains_bytes(l, "doc".as_bytes())
        || contains_bytes(l, "txt".as_bytes()) || contains_bytes(l, "rtf".as_bytes())
        || contains_bytes(l, "xml".as_bytes()) || contains_bytes(l, "html".as_bytes()) {
        FileCategory::TextDocument
    } else if contains_bytes(l, "zip".as_bytes()) || contains_bytes(l, "rar".as_bytes())
        || contains_bytes(l, "tar".as_bytes()) || contains_bytes(l, "7z".as_bytes())
        || contains_bytes(l, "gzip".as_bytes()) || contains_bytes(l, "archive".as_bytes()) {
        FileCategory::Archive
    } else if contains_bytes(l, "exe".as_bytes()) || contains_bytes(l, "elf".as_bytes())
        || contains_bytes(l, "mach-o".as_bytes()) || contains_bytes(l, "executable".as_bytes()) {
        FileCategory::Executable
    } else {
        FileCategory::Other
    }
}

/// The display name of a description's format family.
pub fn determine_file_category(description: &str) -> (r: &'static str)
    ensures
        r@ == spec_category_name(spec_category(description.spec_bytes())),
{
    let c: FileCategory = category_of_bytes(description.as_bytes());
    match c {
        FileCategory::Image => "Image",
        FileCategory::Audio => "Audio",
        FileCategory::Video => "Video",
        FileCategory::TextDocument => "Text/Document",
        FileCategory::Archive => "Archive",
        FileCategory::Executable => "Executable",
        FileCategory::Other => "Other",
    }
}

/// The tally with the counter of the given category raised by one.
pub open spec fn spec_bump(s: FormatSummary, c: FileCategory) -> FormatSummary {
    match c {
        FileCategory::Image => FormatSummary { image_files: (s.image_files + 1) as usize, ..s },
        FileCategory::Audio => FormatSummary { audio_files: (s.audio_files + 1) as usize, ..s },
        FileCategory::Video => FormatSummary { video_files: (s.video_files + 1) as usize, ..s },
        FileCategory::TextDocument => FormatSummary {
            text_files: (s.text_files + 1) as usize,
            ..s
        },
        FileCategory::Archive => FormatSummary {
            archive_files: (s.archive_files + 1) as usize,
            ..s
        },
        FileCategory::Executable => FormatSummary {
            executable_files: (s.executable_files + 1) as usize,
            ..s
        },
        FileCategory::Other => FormatSummary { other_files: (s.other_files + 1) as usize, ..s },
    }
}

/// Every counter of the tally is below the machine limit.
pub open spec fn summary_has_room(s: FormatSummary) -> bool {
    &&& s.audio_files < usize::MAX
    &&& s.video_files < usize::MAX
    &&& s.image_files < usize::MAX
    &&& s.text_files < usize::MAX
    &&& s.archive_files < usize::MAX
    &&& s.executable_files < usize::MAX
    &&& s.other_files < usize::MAX
}

/// Count one description into the running tally.
pub fn categorize_file_type(description: &str, summary: &mut FormatSummary)
    requires
        summary_has_room(*old(summary)),
    ensures
        *final(summary) == spec_bump(*old(summary), spec_category(description.spec_bytes())),
{
    let c: FileCategory = category_of_bytes(description.as_bytes());
    match c {
        FileCategory::Image => {
            summary.image_files = summary.image_files + 1;
        },
        FileCategory::Audio => {
            summary.audio_files = summary.audio_files + 1;
        },
        FileCategory::Video => {
            summary.video_files = summary.video_files + 1;
        },
        FileCategory::TextDocument => {
            summary.text_files = summary.text_files + 1;
        },
        FileCategory::Archive => {
            summary.archive_files = summary.archive_files + 1;
        },
        FileCategory::Executable => {
            summary.executable_files = summary.executable_files + 1;
        },
        FileCategory::Other => {
            summary.other_files = summary.other_files + 1;
        },
    }
}

/// The description names a complete container or header rather than a
/// fragment.
pub open spec fn spec_is_complete(d: Seq<u8>) -> bool {
    ||| desc_has(d, "header".spec_bytes())
    ||| desc_has(d, "jpeg image".spec_bytes())
    ||| desc_has(d, "png image".spec_bytes())
    ||| desc_has(d, "gif image".spec_bytes())
    ||| desc_has(d, "pdf document".spec_bytes())
    ||| desc_has(d, "zip archive".spec_bytes())
    ||| desc_has(d, "rar archive".spec_bytes())
    ||| desc_has(d, "audio".spec_bytes())
    ||| desc_has(d, "video".spec_bytes())
}

/// Whether a description names a complete file header.
pub fn is_complete_file_signature(description: &str) -> (r: bool)
    ensures
        r == spec_is_complete(description.spec_bytes()),
{
    let lower: Vec<u8> = to_lower_bytes(description.as_bytes());
    let l: &[u8] = lower.as_slice();
    contains_bytes(l, "header".as_bytes()) || contains_bytes(l, "jpeg image".as_bytes())
        || contains_bytes(l, "png image".as_bytes()) || contains_bytes(l, "gif image".as_bytes())
        || contains_bytes(l, "pdf document".as_bytes()) || contains_bytes(
        l,
        "zip archive".as_bytes(),
    ) || contains_bytes(l, "rar archive".as_bytes()) || contains_bytes(l, "audio".as_bytes())
        || contains_bytes(l, "video".as_bytes())
}

/// A match past offset 0 is credible: preceded by four bytes of uniform
/// 0x00 or 0xFF padding, or aligned to a 512- or 1024-byte boundary.
pub open spec fn spec_likely_real(data: Seq<u8>, offset: nat) -> bool {
    ||| offset == 0
    ||| (offset >= 4 && data[offset - 4] == 0 && data[offset - 3] == 0 && data[offset - 2] == 0
        && data[offset - 1] == 0)
    ||| (offset >= 4 && data[offset - 4] == 0xff && data[offset - 3] == 0xff && data[offset - 2]
        == 0xff && data[offset - 1] == 0xff)
    ||| offset % 512 == 0
    ||| offset % 1024 == 0
}

/// Whether a signature at this offset is likely a real embedded file rather
/// than noise inside compressed data.
pub fn is_likely_real_file(data: &[u8], offset: usize, _sig_len: usize) -> (r: bool)
    requires
        offset <= data@.len(),
    ensures
        r == spec_likely_real(data@, offset as nat),
{
    if offset == 0 {
        return true;
    }
    if offset >= 4 {
        if data[offset - 4] == 0x00 && data[offset - 3] == 0x00 && data[offset - 2] == 0x00
            && data[offset - 1] == 0x00 {
            return true;
        }
        if data[offset - 4] == 0xff && data[offset - 3] == 0xff && data[offset - 2] == 0xff
            && data[offset - 1] == 0xff {
            return true;
        }
    }
    if offset % 512 == 0 || offset % 1024 == 0 {
        return true;
    }
    false
}

/// The format detected by inspecting the bytes at `offset`, or "UNKNOWN".
pub open spec fn spec_detect_format(data: Seq<u8>, offset: nat) -> Seq<char> {
    if offset >= data.len() || data.len() < offset + 4 {
        "UNKNOWN"@
    } else if data[offset as int] == 0x52 && data[offset as int + 1] == 0x49 && data[offset as int + 2] == 0x46
        && data[offset as int + 3] == 0x46 {
        if data.len() >= offset + 12 {
            if data[offset as int + 8] == 0x57 && data[offset as int + 9] == 0x41 && data[offset as int + 10] == 0x56
                && data[offset as int + 11] == 0x45 {
                "WAV audio"@
            } else if data[offset as int + 8] == 0x41 && data[offset as int + 9] == 0x56 && data[offset as int + 10]
                == 0x49 && data[offset as int + 11] == 0x20 {
                "AVI video"@
            } else if data[offset as int + 8] == 0x57 && data[offset as int + 9] == 0x45 && data[offset as int + 10]
                == 0x42 && data[offset as int + 11] == 0x50 {
                "WEBP image"@
            } else {
                "RIFF container"@
            }
        } else {
            "RIFF container"@
        }
    } else if data[offset as int] == 0xff && data[offset as int + 1] == 0xd8 && data[offset as int + 2] == 0xff {
        "JPEG image"@
    } else if data[offset as int] == 0x89 && data[offset as int + 1] == 0x50 && data[offset as int + 2] == 0x4e
        && data[offset as int + 3] == 0x47 {
        "PNG image"@
    } else if data[offset as int] == 0x47 && data[offset as int + 1] == 0x49 && data[offset as int + 2] == 0x46
        && data[offset as int + 3] == 0x38 {
        "GIF image"@
    } else if data[offset as int] == 0x25 && data[offset as int + 1] == 0x50 && data[offset as int + 2] == 0x44
        && data[offset as int + 3] == 0x46 {
        "PDF document"@
    } else if data[offset as int] == 0x50 && data[offset as int + 1] == 0x4b && data[offset as int + 2] == 0x03
        && data[offset as int + 3] == 0x04 {
        "ZIP archive"@
    } else if data[offset as int] == 0x49 && data[offset as int + 1] == 0x44 && data[offset as int + 2] == 0x33 {
        "MP3 audio (with ID3)"@
    } else if data[offset as int] == 0xff && (data[offset as int + 1] == 0xfb || data[offset as int + 1] == 0xf3
        || data[offset as int + 1] == 0xf2) {
        "MP3 audio"@
    } else if data[offset as int] == 0x66 && data[offset as int + 1] == 0x4c && data[offset as int + 2] == 0x61
        && data[offset as int + 3] == 0x43 {
        "FLAC audio"@
    } else {
        "UNKNOWN"@
    }
}

/// Detect the format whose magic bytes begin at `offset`.
pub fn detect_format_at_offset(data: &[u8], offset: usize) -> (r: String)
    ensures
        r@ == spec_detect_format(data@, offset as nat),
{
    let n: usize = data.len();
    if offset >= n || n - offset < 4 {
        return "UNKNOWN".to_owned();
    }
    if data[offset] == 0x52 && data[offset + 1] == 0x49 && data[offset + 2] == 0x46 && data[offset
        + 3] == 0x46 {
        if n - offset >= 12 {
            if data[offset + 8] == 0x57 && data[offset + 9] == 0x41 && data[offset + 10] == 0x56
                && data[offset + 11] == 0x45 {
                return "WAV audio".to_owned();
            }
            if data[offset + 8] == 0x41 && data[offset + 9] == 0x56 && data[offset + 10] == 0x49
                && data[offset + 11] == 0x20 {
                return "AVI video".to_owned();
            }
            if data[offset + 8] == 0x57 && data[offset + 9] == 0x45 && data[offset + 10] == 0x42
                && data[offset + 11] == 0x50 {
                return "WEBP image".to_owned();
            }
            return "RIFF container".to_owned();
        }
        return "RIFF container".to_owned();
    }
    if data[offset] == 0xff && data[offset + 1] == 0xd8 && data[offset + 2] == 0xff {
        return "JPEG image".to_owned();
    }
    if data[offset] == 0x89 && data[offset + 1] == 0x50 && data[offset + 2] == 0x4e && data[offset
        + 3] == 0x47 {
        return "PNG image".to_owned();
    }
    if data[offset] == 0x47 && data[offset + 1] == 0x49 && data[offset + 2] == 0x46 && data[offset
        + 3] == 0x38 {
        return "GIF image".to_owned();
    }
    if data[offset] == 0x25 && data[offset + 1] == 0x50 && data[offset + 2] == 0x44 && data[offset
        + 3] == 0x46 {
        return "PDF document".to_owned();
    }
    if data[offset] == 0x50 && data[offset + 1] == 0x4b && data[offset + 2] == 0x03 && data[offset
        + 3] == 0x04 {
        return "ZIP archive".to_owned();
    }
    if data[offset] == 0x49 && data[offset + 1] == 0x44 && data[offset + 2] == 0x33 {
        return "MP3 audio (with ID3)".to_owned();
    }
    if data[offset] == 0xff && (data[offset + 1] == 0xfb || data[offset + 1] == 0xf3 || data[offset
        + 1] == 0xf2) {
        return "MP3 audio".to_owned();
    }
    if data[offset] == 0x66 && data[offset + 1] == 0x4c && data[offset + 2] == 0x61 && data[offset
        + 3] == 0x43 {
        return "FLAC audio".to_owned();
    }
    "UNKNOWN".to_owned()
}

/// How many complete-header signatures the manual table holds.
pub open spec fn sig_table_len() -> int {
    15
}

/// The magic bytes of entry `k` of the manual signature table.
pub open spec fn sig_bytes(k: int) -> Seq<u8> {
    if k == 0 {
        seq![0x52u8, 0x49u8, 0x46u8, 0x46u8]
    } else if k == 1 {
        seq![0x49u8, 0x44u8, 0x33u8]
    } else if k == 2 {
        seq![0x66u8, 0x4cu8, 0x61u8, 0x43u8]
    } else if k == 3 {
        seq![0x4fu8, 0x67u8, 0x67u8, 0x53u8]
    } else if k == 4 {
        seq![0xffu8, 0xd8u8, 0xffu8, 0xe0u8]
    } else if k == 5 {
        seq![0xffu8, 0xd8u8, 0xffu8, 0xe1u8]
    } else if k == 6 {
        seq![0x89u8, 0x50u8, 0x4eu8, 0x47u8, 0x0du8, 0x0au8, 0x1au8, 0x0au8]
    } else if k == 7 {
        seq![0x47u8, 0x49u8, 0x46u8, 0x38u8, 0x37u8, 0x61u8]
    } else if k == 8 {
        seq![0x47u8, 0x49u8, 0x46u8, 0x38u8, 0x39u8, 0x61u8]
    } else if k == 9 {
        seq![0x25u8, 0x50u8, 0x44u8, 0x46u8, 0x2du8]
    } else if k == 10 {
        seq![0x50u8, 0x4bu8, 0x03u8, 0x04u8]
    } else if k == 11 {
        seq![0x52u8, 0x61u8, 0x72u8, 0x21u8, 0x1au8, 0x07u8]
    } else if k == 12 {
        seq![0x37u8, 0x7au8, 0xbcu8, 0xafu8, 0x27u8, 0x1cu8]
    } else if k == 13 {
        seq![0x1au8, 0x45u8, 0xdfu8, 0xa3u8]
    } else {
        seq![0x66u8, 0x74u8, 0x79u8, 0x70u8]
    }
}

/// The description of entry `k` of the manual signature table.
pub open spec fn sig_desc(k: int) -> Seq<char> {
    if k == 0 {
        "RIFF container"@
    } else if k == 1 {
        "ID3 tag"@
    } else if k == 2 {
        "FLAC audio"@
    } else if k == 3 {
        "OGG audio"@
    } else if k == 4 {
        "JPEG image (JFIF)"@
    } else if k == 5 {
        "JPEG image (Exif)"@
    } else if k == 6 {
        "PNG image"@
    } else if k == 7 {
        "GIF87a image"@
    } else if k == 8 {
        "GIF89a image"@
    } else if k == 9 {
        "PDF document"@
    } else if k == 10 {
        "ZIP archive"@
    } else if k == 11 {
        "RAR archive"@
    } else if k == 12 {
        "7-Zip archive"@
    } else if k == 13 {
        "Webm/mkv"@
    } else {
        "Mp4"@
    }
}

fn sig_pattern(k: usize) -> (v: Vec<u8>)
    requires
        k < 15,
    ensures
        v@ == sig_bytes(k as int),
        3 <= v@.len() <= 8,
{
    let v: Vec<u8> = if k == 0 {
        vec![0x52u8, 0x49u8, 0x46u8, 0x46u8]
    } else if k == 1 {
        vec![0x49u8, 0x44u8, 0x33u8]
    } else if k == 2 {
        vec![0x66u8, 0x4cu8, 0x61u8, 0x43u8]
    } else if k == 3 {
        vec![0x4fu8, 0x67u8, 0x67u8, 0x53u8]
    } else if k == 4 {
        vec![0xffu8, 0xd8u8, 0xffu8, 0xe0u8]
    } else if k == 5 {
        vec![0xffu8, 0xd8u8, 0xffu8, 0xe1u8]
    } else if k == 6 {
        vec![0x89u8, 0x50u8, 0x4eu8, 0x47u8, 0x0du8, 0x0au8, 0x1au8, 0x0au8]
    } else if k == 7 {
        vec![0x47u8, 0x49u8, 0x46u8, 0x38u8, 0x37u8, 0x61u8]
    } else if k == 8 {
        vec![0x47u8, 0x49u8, 0x46u8, 0x38u8, 0x39u8, 0x61u8]
    } else if k == 9 {
        vec![0x25u8, 0x50u8, 0x44u8, 0x46u8, 0x2du8]
    } else if k == 10 {
        vec![0x50u8, 0x4bu8, 0x03u8, 0x04u8]
    } else if k == 11 {
        vec![0x52u8, 0x61u8, 0x72u8, 0x21u8, 0x1au8, 0x07u8]
    } else if k == 12 {
        vec![0x37u8, 0x7au8, 0xbcu8, 0xafu8, 0x27u8, 0x1cu8]
    } else if k == 13 {
        vec![0x1au8, 0x45u8, 0xdfu8, 0xa3u8]
    } else {
        vec![0x66u8, 0x74u8, 0x79u8, 0x70u8]
    };
    proof {
        assert(v@ =~= sig_bytes(k as int));
    }
    v
}

fn sig_desc_str(k: usize) -> (r: &'static str)
    requires
        k < 15,
    ensures
        r@ == sig_desc(k as int),
{
    if k == 0 {
        "RIFF container"
    } else if k == 1 {
        "ID3 tag"
    } else if k == 2 {
        "FLAC audio"
    } else if k == 3 {
        "OGG audio"
    } else if k == 4 {
        "JPEG image (JFIF)"
    } else if k == 5 {
        "JPEG image (Exif)"
    } else if k == 6 {
        "PNG image"
    } else if k == 7 {
        "GIF87a image"
    } else if k == 8 {
        "GIF89a image"
    } else if k == 9 {
        "PDF document"
    } else if k == 10 {
        "ZIP archive"
    } else if k == 11 {
        "RAR archive"
    } else if k == 12 {
        "7-Zip archive"
    } else if k == 13 {
        "Webm/mkv"
    } else {
        "Mp4"
    }
}

/// The entry recorded for a match of table entry `k` at `pos`, empty where
/// the match is rejected.  RIFF matches are labelled by their subtype from
/// bytes 8..12 past the match; other matches past offset 0 are kept only
/// where `spec_likely_real` accepts them.
pub open spec fn entry_at(data: Seq<u8>, k: int, pos: nat) -> Seq<EmbeddedFileView> {
    if k == 0 {
        if pos + 12 <= data.len() {
            if data[pos as int + 8] == 0x57 && data[pos as int + 9] == 0x41 && data[pos as int
                + 10] == 0x56 && data[pos as int + 11] == 0x45 {
                seq![
                    EmbeddedFileView {
                        offset: pos,
                        description: "WAV audio (RIFF/WAVE)"@,
                        file_type: "Audio"@,
                        confidence: "high"@,
                    },
                ]
            } else if data[pos as int + 8] == 0x41 && data[pos as int + 9] == 0x56 && data[pos
                as int + 10] == 0x49 && data[pos as int + 11] == 0x20 {
                seq![
                    EmbeddedFileView {
                        offset: pos,
                        description: "AVI video (RIFF)"@,
                        file_type: "Video"@,
                        confidence: "high"@,
                    },
                ]
            } else if data[pos as int + 8] == 0x57 && data[pos as int + 9] == 0x45 && data[pos
                as int + 10] == 0x42 && data[pos as int + 11] == 0x50 {
                seq![
                    EmbeddedFileView {
                        offset: pos,
                        description: "WebP image (RIFF)"@,
                        file_type: "Image"@,
                        confidence: "high"@,
                    },
                ]
            } else {
                Seq::empty()
            }
        } else {
            Seq::empty()
        }
    } else {
        if pos == 0 || spec_likely_real(data, pos) {
            seq![
                EmbeddedFileView {
                    offset: pos,
                    description: sig_desc(k),
                    file_type: spec_category_name(spec_category(encode_utf8(sig_desc(k)))),
                    confidence: "medium"@,
                },
            ]
        } else {
            Seq::empty()
        }
    }
}

/// The position the scan continues from after examining `pos`.
pub open spec fn manual_step(data: Seq<u8>, k: int, pos: nat) -> nat {
    if matches_at(data, pos as int, sig_bytes(k)) {
        pos + sig_bytes(k).len()
    } else {
        pos + 1
    }
}

/// The entries contributed by position `pos`, empty unless the signature
/// matches there.
pub open spec fn manual_hit(data: Seq<u8>, k: int, pos: nat) -> Seq<EmbeddedFileView> {
    if matches_at(data, pos as int, sig_bytes(k)) {
        entry_at(data, k, pos)
    } else {
        Seq::empty()
    }
}

/// All entries the greedy scan for table entry `k` records from `pos` on.
/// After a match the scan continues past the matched bytes, so overlapping
/// occurrences are not recorded twice.
pub open spec fn manual_entries(data: Seq<u8>, k: int, pos: nat) -> Seq<EmbeddedFileView>
    decreases data.len() - pos,
        when pos <= data.len() && sig_bytes(k).len() >= 1
{
    if pos + sig_bytes(k).len() > data.len() {
        Seq::empty()
    } else {
        manual_hit(data, k, pos) + manual_entries(data, k, manual_step(data, k, pos))
    }
}

/// Everything the manual scan finds: the table entries in order, each
/// scanned greedily over the whole buffer.
pub open spec fn manual_scan_spec(data: Seq<u8>) -> Seq<EmbeddedFileView> {
    manual_entries(data, 0, 0) + manual_entries(data, 1, 0) + manual_entries(data, 2, 0)
        + manual_entries(data, 3, 0) + manual_entries(data, 4, 0) + manual_entries(data, 5, 0)
        + manual_entries(data, 6, 0) + manual_entries(data, 7, 0) + manual_entries(data, 8, 0)
        + manual_entries(data, 9, 0) + manual_entries(data, 10, 0) + manual_entries(data, 11, 0)
        + manual_entries(data, 12, 0) + manual_entries(data, 13, 0) + manual_entries(data, 14, 0)
}

/// Scan the buffer for one table entry, appending accepted matches.
fn scan_one_signature(data: &[u8], k: usize, results: &mut Vec<EmbeddedFile>)
    requires
        k < 15,
    ensures
        views_of(final(results)@) == views_of(old(results)@) + manual_entries(data@, k as int, 0),
{
    let sig: Vec<u8> = sig_pattern(k);
    let siglen: usize = sig.len();
    let n: usize = data.len();
    let ghost base: Seq<EmbeddedFileView> = views_of(results@);
    let ghost full: Seq<EmbeddedFileView> = manual_entries(data@, k as int, 0);
    if n < siglen {
        proof {
            assert(manual_entries(data@, k as int, 0) =~= Seq::empty());
            assert(views_of(results@) =~= views_of(old(results)@) + manual_entries(
                data@,
                k as int,
                0,
            ));
        }
        return ;
    }
    let mut pos: usize = 0;
    let ghost mut done: Seq<EmbeddedFileView> = Seq::empty();
    proof {
        assert(full =~= done + manual_entries(data@, k as int, 0));
        assert(views_of(results@) =~= base + done);
    }
    while pos <= n - siglen
        invariant
            k < 15,
            siglen == sig_bytes(k as int).len(),
            sig@ == sig_bytes(k as int),
            3 <= siglen <= 8,
            n == data@.len(),
            siglen <= n,
            pos <= n,
            views_of(results@) == base + done,
            full == manual_entries(data@, k as int, 0),
            full == done + manual_entries(data@, k as int, pos as nat),
        decreases n - pos,
    {
        let ghost pos0: nat = pos as nat;
        let is_match: bool = match_at(data, pos, sig.as_slice());
        proof {
            assert(manual_entries(data@, k as int, pos0) == manual_hit(data@, k as int, pos0)
                + manual_entries(data@, k as int, manual_step(data@, k as int, pos0)));
        }
        if is_match {
            if k == 0 {
                // RIFF container: label by the subtype in bytes 8..12
                if n - pos >= 12 {
                    let b8: u8 = data[pos + 8];
                    let b9: u8 = data[pos + 9];
                    let b10: u8 = data[pos + 10];
                    let b11: u8 = data[pos + 11];
                    if b8 == 0x57 && b9 == 0x41 && b10 == 0x56 && b11 == 0x45 {
                        let entry = EmbeddedFile {
                            offset: pos,
                            description: "WAV audio (RIFF/WAVE)".to_owned(),
                            file_type: "Audio".to_owned(),
                            confidence: "high".to_owned(),
                        };
                        proof {
                            assert(manual_hit(data@, k as int, pos0) =~= seq![entry@]);
                        }
                        results.push(entry);
                    } else if b8 == 0x41 && b9 == 0x56 && b10 == 0x49 && b11 == 0x20 {
                        let entry = EmbeddedFile {
                            offset: pos,
                            description: "AVI video (RIFF)".to_owned(),
                            file_type: "Video".to_owned(),
                            confidence: "high".to_owned(),
                        };
                        proof {
                            assert(manual_hit(data@, k as int, pos0) =~= seq![entry@]);
                        }
                        results.push(entry);
                    } else if b8 == 0x57 && b9 == 0x45 && b10 == 0x42 && b11 == 0x50 {
                        let entry = EmbeddedFile {
                            offset: pos,
                            description: "WebP image (RIFF)".to_owned(),
                            file_type: "Image".to_owned(),
                            confidence: "high".to_owned(),
                        };
                        proof {
                            assert(manual_hit(data@, k as int, pos0) =~= seq![entry@]);
                        }
                        results.push(entry);
                    } else {
                        proof {
                            assert(manual_hit(data@, k as int, pos0) =~= Seq::empty());
                        }
                    }
                } else {
                    proof {
                        assert(manual_hit(data@, k as int, pos0) =~= Seq::empty());
                    }
                }
            } else {
                let accept: bool = if pos == 0 {
                    true
                } else {
                    is_likely_real_file(data, pos, siglen)
                };
                if accept {
                    let desc: &'static str = sig_desc_str(k);
                    let cat: &'static str = determine_file_category(desc);
                    let entry = EmbeddedFile {
                        offset: pos,
                        description: desc.to_owned(),
                        file_type: cat.to_owned(),
                        confidence: "medium".to_owned(),
                    };
                    proof {
                        assert(manual_hit(data@, k as int, pos0) =~= seq![entry@]);
                    }
                    results.push(entry);
                } else {
                    proof {
                        assert(manual_hit(data@, k as int, pos0) =~= Seq::empty());
                    }
                }
            }
            proof {
                let prev = done;
                done = done + manual_hit(data@, k as int, pos0);
                assert(base + done =~= (base + prev) + manual_hit(data@, k as int, pos0));
                assert(views_of(results@) =~= (base + prev) + manual_hit(data@, k as int, pos0));
            }
            pos = pos + siglen;
        } else {
            proof {
                let prev = done;
                done = done + manual_hit(data@, k as int, pos0);
                assert(base + done =~= (base + prev) + manual_hit(data@, k as int, pos0));
                assert(views_of(results@) =~= (base + prev) + manual_hit(data@, k as int, pos0));
            }
            pos = pos + 1;
        }
        proof {
            assert(full =~= done + manual_entries(data@, k as int, pos as nat));
        }
    }
    proof {
        assert(manual_entries(data@, k as int, pos as nat) =~= Seq::empty());
        assert(views_of(results@) =~= views_of(old(results)@) + manual_entries(
            data@,
            k as int,
            0,
        ));
    }
}

/// Scan the whole buffer with the fixed table of complete-header
/// signatures.
pub fn manual_signature_scan(data: &[u8]) -> (results: Vec<EmbeddedFile>)
    ensures
        views_of(results@) == manual_scan_spec(data@),
{
    let mut results: Vec<EmbeddedFile> = Vec::new();
    let mut k: usize = 0;
    while k < 15
        invariant
            k <= 15,
            views_of(results@) == spec_scan_prefix(data@, k as int),
        decreases 15 - k,
    {
        proof {
            assert(spec_scan_prefix(data@, k as int + 1) == spec_scan_prefix(data@, k as int)
                + manual_entries(data@, k as int, 0));
        }
        scan_one_signature(data, k, &mut results);
        k = k + 1;
    }
    proof {
        reveal_with_fuel(spec_scan_prefix, 16);
        assert(spec_scan_prefix(data@, 15) =~= manual_scan_spec(data@));
    }
    results
}

/// The manual entries of the first `k` table rows, in table order.
pub open spec fn spec_scan_prefix(data: Seq<u8>, k: int) -> Seq<EmbeddedFileView>
    decreases k,
{
    if k <= 0 {
        Seq::empty()
    } else {
        spec_scan_prefix(data, k - 1) + manual_entries(data, k - 1, 0)
    }
}

// ---------------------------------------------------------------------------
// Deep-scan hits, merge and sort
// ---------------------------------------------------------------------------

/// One raw hit from the external deep-scan signature database.
#[derive(Debug, Clone)]
pub struct DeepScanHit {
    pub offset: usize,
    pub name: String,
    pub confidence: u8,
}

/// The label for a deep-scan confidence byte: 0..100 low, 100..200 medium,
/// 200..256 high.
pub open spec fn conf_label(c: u8) -> Seq<char> {
    if c < 100 {
        "low"@
    } else if c < 200 {
        "medium"@
    } else {
        "high"@
    }
}

/// The signature record a deep-scan hit becomes.
pub open spec fn hit_converted(h: DeepScanHit) -> EmbeddedFileView {
    EmbeddedFileView {
        offset: h.offset as nat,
        description: h.name@,
        file_type: spec_category_name(spec_category(encode_utf8(h.name@))),
        confidence: conf_label(h.confidence),
    }
}

/// The signature records of a list of deep-scan hits, in order.
pub open spec fn hits_converted(s: Seq<DeepScanHit>) -> Seq<EmbeddedFileView> {
    s.map_values(|h: DeepScanHit| hit_converted(h))
}

/// Convert the raw deep-scan hits to signature records.
fn convert_hits(hits: &Vec<DeepScanHit>) -> (r: Vec<EmbeddedFile>)
    ensures
        views_of(r@) == hits_converted(hits@),
{
    let n: usize = hits.len();
    let mut r: Vec<EmbeddedFile> = Vec::new();
    let mut i: usize = 0;
    while i < n
        invariant
            i <= n == hits@.len(),
            views_of(r@) == hits_converted(hits@.take(i as int)),
        decreases n - i,
    {
        let h: &DeepScanHit = &hits[i];
        let cat: &'static str = determine_file_category(h.name.as_str());
        let conf: &'static str = if h.confidence < 100 {
            "low"
        } else if h.confidence < 200 {
            "medium"
        } else {
            "high"
        };
        let entry = EmbeddedFile {
            offset: h.offset,
            description: h.name.clone(),
            file_type: cat.to_owned(),
            confidence: conf.to_owned(),
        };
        proof {
            assert(entry@ == hit_converted(hits@[i as int]));
        }
        let ghost prev: Seq<EmbeddedFileView> = views_of(r@);
        r.push(entry);
        proof {
            assert(views_of(r@) =~= prev.push(entry@));
            assert(hits@.take(i + 1) =~= hits@.take(i as int).push(hits@[i as int]));
            assert(hits_converted(hits@.take(i + 1)) =~= hits_converted(
                hits@.take(i as int),
            ).push(hit_converted(hits@[i as int])));
            assert(views_of(r@) =~= hits_converted(hits@.take(i + 1)));
        }
        i = i + 1;
    }
    proof {
        assert(hits@.take(n as int) =~= hits@);
    }
    r
}

/// Some record in the list sits at the given offset.
pub open spec fn has_offset(s: Seq<EmbeddedFileView>, off: nat) -> bool {
    exists|i: int| 0 <= i < s.len() && s[i].offset == off
}

/// Append the manual entries whose offsets are still free, in order.
pub open spec fn merge_manual(acc: Seq<EmbeddedFileView>, manual: Seq<EmbeddedFileView>) -> Seq<
    EmbeddedFileView,
>
    decreases manual.len(),
{
    if manual.len() == 0 {
        acc
    } else if has_offset(acc, manual[0].offset) {
        merge_manual(acc, manual.drop_first())
    } else {
        merge_manual(acc.push(manual[0]), manual.drop_first())
    }
}

proof fn lemma_merge_push(acc: Seq<EmbeddedFileView>, s: Seq<EmbeddedFileView>, e: EmbeddedFileView)
    ensures
        merge_manual(acc, s.push(e)) == (if has_offset(merge_manual(acc, s), e.offset) {
            merge_manual(acc, s)
        } else {
            merge_manual(acc, s).push(e)
        }),
    decreases s.len(),
{
    reveal_with_fuel(merge_manual, 3);
    if s.len() == 0 {
        assert(s.push(e)[0] == e);
        assert(s.push(e).drop_first() =~= s);
    } else {
        assert(s.push(e)[0] == s[0]);
        assert(s.push(e).drop_first() =~= s.drop_first().push(e));
        if has_offset(acc, s[0].offset) {
            lemma_merge_push(acc, s.drop_first(), e);
        } else {
            lemma_merge_push(acc.push(s[0]), s.drop_first(), e);
        }
    }
}

/// Whether any record in the list sits at the given offset.
fn offset_present(all: &Vec<EmbeddedFile>, off: usize) -> (r: bool)
    ensures
        r == has_offset(views_of(all@), off as nat),
{
    let n: usize = all.len();
    let mut i: usize = 0;
    while i < n
        invariant
            i <= n == all@.len(),
            forall|k: int| 0 <= k < i ==> views_of(all@)[k].offset != off as nat,
        decreases n - i,
    {
        if all[i].offset == off {
            assert(views_of(all@)[i as int].offset == off as nat);
            return true;
        }
        i = i + 1;
    }
    false
}

/// The index before which a record with this offset is inserted to keep the
/// list sorted: the first index holding a strictly larger offset.
pub open spec fn first_gt(s: Seq<EmbeddedFileView>, off: nat) -> int
    decreases s.len(),
{
    if s.len() == 0 {
        0
    } else if s[0].offset > off {
        0
    } else {
        1 + first_gt(s.drop_first(), off)
    }
}

proof fn lemma_first_gt_props(s: Seq<EmbeddedFileView>, off: nat)
    ensures
        0 <= first_gt(s, off) <= s.len(),
        forall|k: int| 0 <= k < first_gt(s, off) ==> s[k].offset <= off,
        first_gt(s, off) < s.len() ==> s[first_gt(s, off)].offset > off,
    decreases s.len(),
{
    if s.len() > 0 && s[0].offset <= off {
        lemma_first_gt_props(s.drop_first(), off);
        let fg = first_gt(s, off);
        assert forall|k: int| 0 <= k < fg implies s[k].offset <= off by {
            if k >= 1 {
                assert(s.drop_first()[k - 1] == s[k]);
                assert(s.drop_first()[k - 1].offset <= off);
            }
        };
        if fg < s.len() {
            assert(s.drop_first()[fg - 1] == s[fg]);
        }
    }
}

/// Insert one record before the first strictly larger offset.
pub open spec fn insert_sorted(acc: Seq<EmbeddedFileView>, e: EmbeddedFileView) -> Seq<
    EmbeddedFileView,
> {
    acc.insert(first_gt(acc, e.offset), e)
}

/// Sort by ascending offset, keeping the original order of equal offsets.
pub open spec fn sort_by_offset(s: Seq<EmbeddedFileView>) -> Seq<EmbeddedFileView>
    decreases s.len(),
{
    if s.len() == 0 {
        Seq::empty()
    } else {
        insert_sorted(sort_by_offset(s.drop_last()), s.last())
    }
}

/// Offsets never decrease along the list.
pub open spec fn sorted_by_offset(s: Seq<EmbeddedFileView>) -> bool {
    forall|i: int, j: int| 0 <= i < j < s.len() ==> s[i].offset <= s[j].offset
}

proof fn lemma_insert_sorted_keeps(acc: Seq<EmbeddedFileView>, e: EmbeddedFileView)
    requires
        sorted_by_offset(acc),
    ensures
        sorted_by_offset(insert_sorted(acc, e)),
{
    lemma_first_gt_props(acc, e.offset);
    let p = first_gt(acc, e.offset);
    let r = insert_sorted(acc, e);
    assert forall|i: int, j: int| 0 <= i < j < r.len() implies r[i].offset <= r[j].offset by {
        if i < p && j < p {
        } else if i == p {
            assert(r[i] == e);
            assert(r[j] == acc[j - 1]);
            assert(acc[j - 1].offset > e.offset || acc[j - 1].offset >= acc[p].offset);
        } else if j == p {
            assert(r[i] == acc[i]);
            assert(acc[i].offset <= e.offset);
        }
    };
}

/// The sorted list is in ascending offset order.
pub proof fn lemma_sort_by_offset_sorted(s: Seq<EmbeddedFileView>)
    ensures
        sorted_by_offset(sort_by_offset(s)),
    decreases s.len(),
{
    if s.len() > 0 {
        lemma_sort_by_offset_sorted(s.drop_last());
        lemma_insert_sorted_keeps(sort_by_offset(s.drop_last()), s.last());
    }
}

/// Stable sort of the records by ascending offset.
fn sort_embedded(input: Vec<EmbeddedFile>) -> (r: Vec<EmbeddedFile>)
    ensures
        views_of(r@) == sort_by_offset(views_of(input@)),
{
    let ghost orig: Seq<EmbeddedFileView> = views_of(input@);
    let mut rest: Vec<EmbeddedFile> = input;
    let mut out: Vec<EmbeddedFile> = Vec::new();
    let ghost mut i: int = 0;
    proof {
        assert(views_of(rest@) =~= orig.skip(0));
        assert(views_of(out@) =~= sort_by_offset(orig.take(0)));
    }
    while rest.len() > 0
        invariant
            0 <= i <= orig.len(),
            views_of(rest@) == orig.skip(i),
            views_of(out@) == sort_by_offset(orig.take(i)),
        decreases orig.len() - i,
    {
        proof {
            assert(views_of(rest@).len() == rest@.len());
        }
        let ghost prev_rest: Seq<EmbeddedFile> = rest@;
        let e: EmbeddedFile = rest.remove(0);
        proof {
            assert(e == prev_rest[0]);
            assert(views_of(prev_rest)[0] == e@);
            assert(orig.skip(i)[0] == orig[i]);
            assert(e@ == orig[i]);
            assert(rest@ =~= prev_rest.remove(0));
            assert(views_of(rest@) =~= views_of(prev_rest).remove(0));
            assert(views_of(prev_rest).remove(0) =~= orig.skip(i + 1));
        }
        // find the insertion point: before the first strictly larger offset
        let m: usize = out.len();
        let mut j: usize = 0;
        while j < m
            invariant
                j <= m == out@.len(),
                forall|k: int| 0 <= k < j ==> views_of(out@)[k].offset <= e@.offset,
            ensures
                j <= m == out@.len(),
                forall|k: int| 0 <= k < j ==> views_of(out@)[k].offset <= e@.offset,
                j == m || views_of(out@)[j as int].offset > e@.offset,
            decreases m - j,
        {
            if out[j].offset > e.offset {
                proof {
                    assert(views_of(out@)[j as int].offset > e@.offset);
                }
                break ;
            }
            proof {
                assert(views_of(out@)[j as int].offset <= e@.offset);
            }
            j = j + 1;
        }
        proof {
            lemma_first_gt_props(views_of(out@), e@.offset);
            assert(j == first_gt(views_of(out@), e@.offset)) by {
                let p = first_gt(views_of(out@), e@.offset);
                if p < j {
                    assert(views_of(out@)[p].offset <= e@.offset);
                    assert(views_of(out@)[p].offset > e@.offset);
                } else if j < p {
                    assert(views_of(out@)[j as int].offset <= e@.offset);
                    assert(views_of(out@)[j as int].offset > e@.offset);
                }
            };
        }
        let ghost out_before: Seq<EmbeddedFileView> = views_of(out@);
        out.insert(j, e);
        proof {
            assert(views_of(out@) =~= out_before.insert(j as int, e@));
            assert(orig.take(i + 1).drop_last() =~= orig.take(i));
            assert(orig.take(i + 1).last() == orig[i]);
            assert(views_of(out@) == sort_by_offset(orig.take(i + 1)));
            i = i + 1;
        }
    }
    proof {
        assert(orig.take(i) =~= orig);
    }
    out
}

// ---------------------------------------------------------------------------
// Primary format, tally, findings
// ---------------------------------------------------------------------------

/// The index of the first record at offset 0, or the length if none is.
pub open spec fn first_zero(s: Seq<EmbeddedFileView>) -> int
    decreases s.len(),
{
    if s.len() == 0 {
        0
    } else if s[0].offset == 0 {
        0
    } else {
        1 + first_zero(s.drop_first())
    }
}

proof fn lemma_first_zero_props(s: Seq<EmbeddedFileView>)
    ensures
        0 <= first_zero(s) <= s.len(),
        forall|k: int| 0 <= k < first_zero(s) ==> s[k].offset != 0,
        first_zero(s) < s.len() ==> s[first_zero(s)].offset == 0,
        (first_zero(s) < s.len()) == has_offset(s, 0),
    decreases s.len(),
{
    if s.len() > 0 && s[0].offset != 0 {
        lemma_first_zero_props(s.drop_first());
        let fz = first_zero(s);
        assert forall|k: int| 0 <= k < fz implies s[k].offset != 0 by {
            if k >= 1 {
                assert(s.drop_first()[k - 1] == s[k]);
            }
        };
        if fz < s.len() {
            assert(s.drop_first()[fz - 1] == s[fz]);
        }
        if has_offset(s, 0) {
            let w = choose|i: int| 0 <= i < s.len() && s[i].offset == 0;
            assert(s.drop_first()[w - 1] == s[w]);
            assert(has_offset(s.drop_first(), 0));
        }
        if has_offset(s.drop_first(), 0) {
            let w = choose|i: int| 0 <= i < s.drop_first().len() && s.drop_first()[i].offset == 0;
            assert(s.drop_first()[w] == s[w + 1]);
            assert(has_offset(s, 0));
        }
    }
}

/// The primary format of the buffer: the description of the first record at
/// offset 0, or what the magic bytes at offset 0 say.
pub open spec fn spec_primary(data: Seq<u8>, sorted: Seq<EmbeddedFileView>) -> Seq<char> {
    if has_offset(sorted, 0) {
        sorted[first_zero(sorted)].description
    } else {
        spec_detect_format(data, 0)
    }
}

fn primary_format_of(data: &[u8], all: &Vec<EmbeddedFile>) -> (r: String)
    ensures
        r@ == spec_primary(data@, views_of(all@)),
{
    let n: usize = all.len();
    let mut i: usize = 0;
    proof {
        lemma_first_zero_props(views_of(all@));
    }
    while i < n
        invariant
            i <= n == all@.len(),
            forall|k: int| 0 <= k < i ==> views_of(all@)[k].offset != 0,
        decreases n - i,
    {
        if all[i].offset == 0 {
            proof {
                lemma_first_zero_props(views_of(all@));
                assert(views_of(all@)[i as int].offset == 0);
                let fz = first_zero(views_of(all@));
                if fz < i {
                    assert(views_of(all@)[fz].offset != 0);
                }
                assert(fz == i);
            }
            return all[i].description.clone();
        }
        i = i + 1;
    }
    proof {
        lemma_first_zero_props(views_of(all@));
        if has_offset(views_of(all@), 0) {
            assert(views_of(all@)[first_zero(views_of(all@))].offset != 0);
        }
    }
    detect_format_at_offset(data, 0)
}

/// The tally over the first `n` records, each counted by its description.
pub open spec fn spec_tally(s: Seq<EmbeddedFileView>, n: int) -> FormatSummary
    decreases n,
{
    if n <= 0 {
        FormatSummary::empty_summary()
    } else {
        spec_bump(spec_tally(s, n - 1), spec_category(encode_utf8(s[n - 1].description)))
    }
}

/// The tally with one count of the given category taken back, stopping at
/// zero.
pub open spec fn spec_drop_one(t: FormatSummary, c: FileCategory) -> FormatSummary {
    match c {
        FileCategory::Image => FormatSummary {
            image_files: if t.image_files > 0 {
                (t.image_files - 1) as usize
            } else {
                0
            },
            ..t
        },
        FileCategory::Audio => FormatSummary {
            audio_files: if t.audio_files > 0 {
                (t.audio_files - 1) as usize
            } else {
                0
            },
            ..t
        },
        FileCategory::Video => FormatSummary {
            video_files: if t.video_files > 0 {
                (t.video_files - 1) as usize
            } else {
                0
            },
            ..t
        },
        FileCategory::TextDocument => FormatSummary {
            text_files: if t.text_files > 0 {
                (t.text_files - 1) as usize
            } else {
                0
            },
            ..t
        },
        FileCategory::Archive => FormatSummary {
            archive_files: if t.archive_files > 0 {
                (t.archive_files - 1) as usize
            } else {
                0
            },
            ..t
        },
        FileCategory::Executable => FormatSummary {
            executable_files: if t.executable_files > 0 {
                (t.executable_files - 1) as usize
            } else {
                0
            },
            ..t
        },
        FileCategory::Other => FormatSummary {
            other_files: if t.other_files > 0 {
                (t.other_files - 1) as usize
            } else {
                0
            },
            ..t
        },
    }
}

/// The final tally: every record counted once, with the primary format at
/// offset 0 taken back out so it is not counted as embedded.
pub open spec fn spec_adjusted_tally(sorted: Seq<EmbeddedFileView>) -> FormatSummary {
    let t = spec_tally(sorted, sorted.len() as int);
    if sorted.len() > 0 && sorted[0].offset == 0 {
        spec_drop_one(t, spec_category(encode_utf8(sorted[0].description)))
    } else {
        t
    }
}

/// All counters of the tally stay at or below `n`.
spec fn tally_bounded(t: FormatSummary, n: int) -> bool {
    &&& t.audio_files <= n
    &&& t.video_files <= n
    &&& t.image_files <= n
    &&& t.text_files <= n
    &&& t.archive_files <= n
    &&& t.executable_files <= n
    &&& t.other_files <= n
}

fn adjusted_tally(all: &Vec<EmbeddedFile>) -> (t: FormatSummary)
    ensures
        t == spec_adjusted_tally(views_of(all@)),
{
    let n: usize = all.len();
    let mut summary: FormatSummary = FormatSummary::default();
    let mut i: usize = 0;
    while i < n
        invariant
            i <= n == all@.len(),
            summary == spec_tally(views_of(all@), i as int),
            tally_bounded(summary, i as int),
        decreases n - i,
    {
        proof {
            assert(views_of(all@)[i as int].description == all@[i as int].description@);
        }
        categorize_file_type(all[i].description.as_str(), &mut summary);
        i = i + 1;
    }
    if n > 0 {
        if all[0].offset == 0 {
            let c: FileCategory = category_of_bytes(all[0].description.as_str().as_bytes());
            proof {
                assert(views_of(all@)[0].description == all@[0].description@);
            }
            match c {
                FileCategory::Image => {
                    if summary.image_files > 0 {
                        summary.image_files = summary.image_files - 1;
                    }
                },
                FileCategory::Audio => {
                    if summary.audio_files > 0 {
                        summary.audio_files = summary.audio_files - 1;
                    }
                },
                FileCategory::Video => {
                    if summary.video_files > 0 {
                        summary.video_files = summary.video_files - 1;
                    }
                },
                FileCategory::TextDocument => {
                    if summary.text_files > 0 {
                        summary.text_files = summary.text_files - 1;
                    }
                },
                FileCategory::Archive => {
                    if summary.archive_files > 0 {
                        summary.archive_files = summary.archive_files - 1;
                    }
                },
                FileCategory::Executable => {
                    if summary.executable_files > 0 {
                        summary.executable_files = summary.executable_files - 1;
                    }
                },
                FileCategory::Other => {
                    if summary.other_files > 0 {
                        summary.other_files = summary.other_files - 1;
                    }
                },
            }
        }
    }
    summary
}

/// Some record past offset 0 carries a complete-header description.
pub open spec fn spec_has_suspicious(s: Seq<EmbeddedFileView>) -> bool {
    exists|i: int|
        0 <= i < s.len() && s[i].offset > 0 && spec_is_complete(encode_utf8(s[i].description))
}

fn has_suspicious_data_of(all: &Vec<EmbeddedFile>) -> (r: bool)
    ensures
        r == spec_has_suspicious(views_of(all@)),
{
    let n: usize = all.len();
    let mut i: usize = 0;
    while i < n
        invariant
            i <= n == all@.len(),
            forall|k: int|
                0 <= k < i ==> !(views_of(all@)[k].offset > 0 && spec_is_complete(
                    encode_utf8(views_of(all@)[k].description),
                )),
        decreases n - i,
    {
        if all[i].offset > 0 {
            if is_complete_file_signature(all[i].description.as_str()) {
                proof {
                    assert(views_of(all@)[i as int].offset > 0 && spec_is_complete(
                        encode_utf8(views_of(all@)[i as int].description),
                    ));
                }
                return true;
            }
        }
        proof {
            assert(views_of(all@)[i as int].description == all@[i as int].description@);
        }
        i = i + 1;
    }
    false
}

/// The views of a list of strings.
pub open spec fn str_views(s: Seq<String>) -> Seq<Seq<char>> {
    s.map_values(|x: String| x@)
}

/// The hidden-data finding for one record past offset 0.
pub open spec fn complete_finding(e: EmbeddedFileView) -> Seq<char> {
    "Complete file signature found at offset 0x"@ + hex_chars(e.offset) + ": "@ + e.description
}

/// The complete-header findings of the first `n` records, in order.
pub open spec fn spec_complete_findings(s: Seq<EmbeddedFileView>, n: int) -> Seq<Seq<char>>
    decreases n,
{
    if n <= 0 {
        Seq::empty()
    } else {
        spec_complete_findings(s, n - 1) + (if s[n - 1].offset > 0 && spec_is_complete(
            encode_utf8(s[n - 1].description),
        ) {
            seq![complete_finding(s[n - 1])]
        } else {
            Seq::empty()
        })
    }
}

/// The extension-mismatch finding.
pub open spec fn mismatch_finding(expected: Seq<char>, primary: Seq<char>) -> Seq<char> {
    "Format mismatch: extension says "@ + expected + ", detected format is "@ + primary
}

/// The several-signatures finding.
pub open spec fn multiple_finding(n: nat) -> Seq<char> {
    "Multiple file signatures detected ("@ + dec_chars(n) + " total)"@
}

/// The polyglot finding.
pub open spec fn polyglot_finding() -> Seq<char> {
    "POLYGLOT FILE DETECTED: Contains multiple media types (possible steganography)"@
}

/// The tally shows several media families at once.
pub open spec fn spec_is_polyglot(t: FormatSummary) -> bool {
    t.audio_files > 0 && t.image_files > 0 && (t.video_files > 0 || t.text_files > 0)
}

/// The extension-mismatch indicator fires: an extension is known, the
/// primary format was identified, and its upper-cased name does not contain
/// the (already upper-cased) extension.
pub open spec fn spec_mismatch_fires(expected: Option<Seq<char>>, primary: Seq<char>) -> bool {
    &&& expected is Some
    &&& !contains_seq(upper_bytes(encode_utf8(primary)), encode_utf8(expected->0))
    &&& primary != "UNKNOWN"@
}

/// The whole ordered findings list: the per-record complete-header findings,
/// then the extension mismatch, then the several-signatures note, then the
/// polyglot alarm.
pub open spec fn spec_findings(
    data: Seq<u8>,
    sorted: Seq<EmbeddedFileView>,
    expected: Option<Seq<char>>,
) -> Seq<Seq<char>> {
    let base = spec_complete_findings(sorted, sorted.len() as int);
    let primary = spec_primary(data, sorted);
    let after_mismatch = if spec_mismatch_fires(expected, primary) {
        base + seq![mismatch_finding(expected->0, primary)]
    } else {
        base
    };
    let after_multiple = if sorted.len() > 1 {
        after_mismatch + seq![multiple_finding(sorted.len())]
    } else {
        after_mismatch
    };
    if spec_is_polyglot(spec_adjusted_tally(sorted)) {
        after_multiple + seq![polyglot_finding()]
    } else {
        after_multiple
    }
}

/// A polyglot tally always puts the polyglot alarm into the findings list.
pub proof fn lemma_polyglot_indicator(
    data: Seq<u8>,
    sorted: Seq<EmbeddedFileView>,
    expected: Option<Seq<char>>,
)
    requires
        spec_is_polyglot(spec_adjusted_tally(sorted)),
    ensures
        spec_findings(data, sorted, expected).contains(polyglot_finding()),
{
    let f = spec_findings(data, sorted, expected);
    assert(f[f.len() - 1] == polyglot_finding());
}

/// The view of an optional string.
pub open spec fn opt_str_view(o: Option<String>) -> Option<Seq<char>> {
    match o {
        Option::Some(s) => Option::Some(s@),
        Option::None => Option::None,
    }
}

fn build_findings(
    data: &[u8],
    all: &Vec<EmbeddedFile>,
    expected: &Option<String>,
    primary: &String,
    summary: FormatSummary,
) -> (r: Vec<String>)
    requires
        primary@ == spec_primary(data@, views_of(all@)),
        summary == spec_adjusted_tally(views_of(all@)),
    ensures
        str_views(r@) == spec_findings(data@, views_of(all@), opt_str_view(*expected)),
{
    let n: usize = all.len();
    let mut findings: Vec<String> = Vec::new();
    let mut i: usize = 0;
    proof {
        assert(str_views(findings@) =~= spec_complete_findings(views_of(all@), 0));
    }
    while i < n
        invariant
            i <= n == all@.len(),
            str_views(findings@) == spec_complete_findings(views_of(all@), i as int),
        decreases n - i,
    {
        proof {
            assert(views_of(all@)[i as int].description == all@[i as int].description@);
        }
        let complete: bool = is_complete_file_signature(all[i].description.as_str());
        if all[i].offset > 0 && complete {
            let mut f: String = "Complete file signature found at offset 0x".to_owned();
            let hex: String = usize_to_hex_string(all[i].offset);
            f.append(hex.as_str());
            f.append(": ");
            f.append(all[i].description.as_str());
            proof {
                assert(f@ =~= complete_finding(views_of(all@)[i as int]));
            }
            let ghost prev: Seq<Seq<char>> = str_views(findings@);
            findings.push(f);
            proof {
                assert(str_views(findings@) =~= prev.push(complete_finding(
                    views_of(all@)[i as int],
                )));
                assert(str_views(findings@) =~= spec_complete_findings(
                    views_of(all@),
                    i as int + 1,
                ));
            }
        } else {
            proof {
                assert(str_views(findings@) =~= spec_complete_findings(
                    views_of(all@),
                    i as int + 1,
                ));
            }
        }
        i = i + 1;
    }
    // extension mismatch
    match expected {
        Option::Some(exp) => {
            let upper: Vec<u8> = to_upper_bytes(primary.as_str().as_bytes());
            let has_ext: bool = contains_bytes(upper.as_slice(), exp.as_str().as_bytes());
            let unknown: String = "UNKNOWN".to_owned();
            let is_unknown: bool = primary.eq(&unknown);
            if !has_ext && !is_unknown {
                let mut f: String = "Format mismatch: extension says ".to_owned();
                f.append(exp.as_str());
                f.append(", detected format is ");
                f.append(primary.as_str());
                proof {
                    assert(f@ =~= mismatch_finding(exp@, primary@));
                }
                let ghost prev: Seq<Seq<char>> = str_views(findings@);
                findings.push(f);
                proof {
                    assert(str_views(findings@) =~= prev.push(mismatch_finding(exp@, primary@)));
                }
            }
        },
        Option::None => {},
    }
    // several signatures
    if n > 1 {
        let mut f: String = "Multiple file signatures detected (".to_owned();
        let dec: String = usize_to_dec_string(n);
        f.append(dec.as_str());
        f.append(" total)");
        proof {
            assert(f@ =~= multiple_finding(views_of(all@).len()));
        }
        let ghost prev: Seq<Seq<char>> = str_views(findings@);
        findings.push(f);
        proof {
            assert(str_views(findings@) =~= prev.push(multiple_finding(views_of(all@).len())));
        }
    }
    // polyglot alarm
    if summary.audio_files > 0 && summary.image_files > 0 && (summary.video_files > 0
        || summary.text_files > 0) {
        let ghost prev: Seq<Seq<char>> = str_views(findings@);
        findings.push(
            "POLYGLOT FILE DETECTED: Contains multiple media types (possible steganography)".to_owned(),
        );
        proof {
            assert(str_views(findings@) =~= prev.push(polyglot_finding()));
        }
    }
    proof {
        assert(str_views(findings@) =~= spec_findings(
            data@,
            views_of(all@),
            opt_str_view(*expected),
        ));
    }
    findings
}

/// The result of one buffer scan.
#[derive(Debug, Clone)]
pub struct MagicBytesAnalysis {
    pub primary_format: String,
    pub expected_format: Option<String>,
    pub total_signatures_found: usize,
    pub embedded_files: Vec<EmbeddedFile>,
    pub has_multiple_formats: bool,
    pub has_suspicious_data: bool,
    pub suspicious_findings: Vec<String>,
    pub format_summary: FormatSummary,
}

/// The analysis is exactly what the scan of `data` with the given deep-scan
/// hits and expected extension yields.
pub open spec fn scan_ok(
    data: Seq<u8>,
    expected: Option<Seq<char>>,
    hits: Seq<DeepScanHit>,
    a: MagicBytesAnalysis,
) -> bool {
    let merged = merge_manual(hits_converted(hits), manual_scan_spec(data));
    let sorted = sort_by_offset(merged);
    &&& views_of(a.embedded_files@) == sorted
    &&& sorted_by_offset(sorted)
    &&& a.primary_format@ == spec_primary(data, sorted)
    &&& opt_str_view(a.expected_format) == expected
    &&& a.total_signatures_found == sorted.len()
    &&& a.has_multiple_formats == (sorted.len() > 1)
    &&& a.has_suspicious_data == spec_has_suspicious(sorted)
    &&& a.format_summary == spec_adjusted_tally(sorted)
    &&& str_views(a.suspicious_findings@) == spec_findings(data, sorted, expected)
}

/// Scan a raw buffer, merging the given deep-scan hits with the manual
/// signature scan.  Fails exactly on an empty buffer.
pub fn scan_buffer_with_hits(
    data: &[u8],
    expected_format: Option<String>,
    hits: &Vec<DeepScanHit>,
) -> (r: Result<MagicBytesAnalysis, MagicBytesError>)
    ensures
        (data@.len() == 0) == (r is Err),
        r matches Err(e) ==> (e matches MagicBytesError::Analysis(m) && m@ == "Empty file"@),
        r matches Ok(a) ==> scan_ok(data@, opt_str_view(expected_format), hits@, a),
{
    if data.len() == 0 {
        return Result::Err(MagicBytesError::Analysis("Empty file".to_owned()));
    }
    let mut all: Vec<EmbeddedFile> = convert_hits(hits);
    let mut manual: Vec<EmbeddedFile> = manual_signature_scan(data);
    let ghost manual_views: Seq<EmbeddedFileView> = views_of(manual@);
    let ghost hc: Seq<EmbeddedFileView> = hits_converted(hits@);
    let ghost mut i: int = 0;
    proof {
        assert(manual_views.take(0) =~= Seq::empty());
        assert(views_of(all@) == merge_manual(hc, manual_views.take(0)));
    }
    while manual.len() > 0
        invariant
            0 <= i <= manual_views.len(),
            views_of(manual@) == manual_views.skip(i),
            views_of(all@) == merge_manual(hc, manual_views.take(i)),
        decreases manual_views.len() - i,
    {
        proof {
            assert(views_of(manual@).len() == manual@.len());
        }
        let ghost prev_manual: Seq<EmbeddedFile> = manual@;
        let e: EmbeddedFile = manual.remove(0);
        proof {
            assert(e == prev_manual[0]);
            assert(views_of(prev_manual)[0] == e@);
            assert(manual_views.skip(i)[0] == manual_views[i]);
            assert(e@ == manual_views[i]);
            assert(manual@ =~= prev_manual.remove(0));
            assert(views_of(manual@) =~= views_of(prev_manual).remove(0));
            assert(views_of(prev_manual).remove(0) =~= manual_views.skip(i + 1));
            lemma_merge_push(hc, manual_views.take(i), e@);
            assert(manual_views.take(i + 1) =~= manual_views.take(i).push(e@));
        }
        let present: bool = offset_present(&all, e.offset);
        if !present {
            let ghost prev_all: Seq<EmbeddedFileView> = views_of(all@);
            all.push(e);
            proof {
                assert(views_of(all@) =~= prev_all.push(e@));
            }
        }
        proof {
            assert(views_of(all@) == merge_manual(hc, manual_views.take(i + 1)));
            i = i + 1;
        }
    }
    proof {
        assert(manual_views.take(i) =~= manual_views);
    }
    let all: Vec<EmbeddedFile> = sort_embedded(all);
    let primary: String = primary_format_of(data, &all);
    let summary: FormatSummary = adjusted_tally(&all);
    let findings: Vec<String> = build_findings(data, &all, &expected_format, &primary, summary);
    let has_susp: bool = has_suspicious_data_of(&all);
    let total: usize = all.len();
    let has_multiple: bool = total > 1;
    proof {
        assert(views_of(all@).len() == all@.len());
        lemma_sort_by_offset_sorted(merge_manual(hc, manual_views));
    }
    Result::Ok(
        MagicBytesAnalysis {
            primary_format: primary,
            expected_format,
            total_signatures_found: total,
            embedded_files: all,
            has_multiple_formats: has_multiple,
            has_suspicious_data: has_susp,
            suspicious_findings: findings,
            format_summary: summary,
        },
    )
}

#[verifier::external_type_specification]
#[verifier::external_body]
pub struct ExBinwalk(binwalk::Binwalk);

/// Relies on binwalk::Binwalk::new: loads the compiled-in signature
/// database.  With no target file and no output directory it touches no
/// file and cannot fail.
#[verifier::external_body]
fn new_deep_scanner() -> binwalk::Binwalk {
    binwalk::Binwalk::new()
}

/// Relies on binwalk::Binwalk::scan: returns the validated signature
/// results found in the buffer.  Only the offset, name and confidence of
/// each result are kept; nothing is assumed about which results come back.
#[verifier::external_body]
fn deep_scan(scanner: &binwalk::Binwalk, data: &[u8]) -> (r: Vec<DeepScanHit>) {
    scanner.scan(data).into_iter().map(
        |s| DeepScanHit { offset: s.offset, name: s.name, confidence: s.confidence },
    ).collect()
}

/// Scan a raw buffer: run the deep-scan signature database over it, merge
/// in the manual signature scan, and derive the indicators.  Fails exactly
/// on an empty buffer; whatever hits the deep scan produced, the result is
/// the exact scan of the buffer with those hits.
pub fn analyze_buffer(data: &[u8], expected_format: Option<String>) -> (r: Result<
    MagicBytesAnalysis,
    MagicBytesError,
>)
    ensures
        (data@.len() == 0) == (r is Err),
        r matches Err(e) ==> (e matches MagicBytesError::Analysis(m) && m@ == "Empty file"@),
        r matches Ok(a) ==> exists|hits: Seq<DeepScanHit>|
            scan_ok(data@, opt_str_view(expected_format), hits, a),
{
    if data.len() == 0 {
        return Result::Err(MagicBytesError::Analysis("Empty file".to_owned()));
    }
    let scanner: binwalk::Binwalk = new_deep_scanner();
    let hits: Vec<DeepScanHit> = deep_scan(&scanner, data);
    let r = scan_buffer_with_hits(data, expected_format, &hits);
    proof {
        if r is Ok {
            assert(scan_ok(data@, opt_str_view(expected_format), hits@, r->Ok_0));
        }
    }
    r
}

} // verus!
