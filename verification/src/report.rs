//! The report model and the evidence aggregator: the scan results and the
//! format-specific findings are fused into an ordered indicator list and a
//! confidence-scored outcome.

use vstd::prelude::*;
use vstd::string::StringExecFns;
use crate::strutil::{dec_chars, usize_to_dec_string};

verus! {

/// Basic facts about the scanned file.
#[derive(Debug, Clone)]
pub struct FileInfo {
    pub path: String,
    pub size_bytes: u64,
    pub detected_type: String,
    pub extension: Option<String>,
}

/// Per-family signature counts in the report.
#[derive(Debug, Clone, Copy, PartialEq, Eq, Structural)]
pub struct FormatSummary {
    pub images: usize,
    pub audio: usize,
    pub video: usize,
    pub text_documents: usize,
    pub archives: usize,
    pub executables: usize,
    pub other: usize,
}

/// One found signature in the report, with its offset also rendered in hex.
#[derive(Debug, Clone)]
pub struct EmbeddedFileInfo {
    pub offset: usize,
    pub offset_hex: String,
    pub description: String,
    pub file_type: String,
    pub confidence: String,
}

/// The signature-scan section of the report.
#[derive(Debug, Clone)]
pub struct MagicBytesReport {
    pub primary_format: String,
    pub expected_format: Option<String>,
    pub total_signatures_found: usize,
    pub has_multiple_formats: bool,
    pub has_suspicious_data: bool,
    pub format_summary: FormatSummary,
    pub embedded_files: Vec<EmbeddedFileInfo>,
    pub suspicious_findings: Vec<String>,
}

/// Width and height of a decoded image.
#[derive(Debug, Clone, Copy, PartialEq, Eq, Structural)]
pub struct ImageDimensions {
    pub width: u32,
    pub height: u32,
}

/// One extracted metadata key/value pair.
#[derive(Debug, Clone)]
pub struct MetadataField {
    pub key: String,
    pub value: String,
}

/// The image-metadata section of the report.
#[derive(Debug, Clone)]
pub struct ExifReport {
    pub fields_found: usize,
    pub has_thumbnail: bool,
    pub thumbnail_size_bytes: Option<usize>,
    pub comment_fields: Vec<String>,
    pub suspicious_fields: Vec<String>,
    pub metadata: Vec<MetadataField>,
}

/// One channel's bit-plane scores, in thousandths.
#[derive(Debug, Clone)]
pub struct LsbChannelAnalysis {
    pub channel_name: String,
    pub chi_square_milli: u64,
    pub entropy_milli: u32,
}

/// The bit-plane section of the report.
#[derive(Debug, Clone)]
pub struct LsbReport {
    pub is_suspicious: bool,
    pub channels: Vec<LsbChannelAnalysis>,
    pub output_files: Vec<String>,
}

/// The filtered-image section of the report.
#[derive(Debug, Clone)]
pub struct FilterAnalysisReport {
    pub filters_generated: usize,
    pub output_files: Vec<String>,
}

/// The image sections of the report.
#[derive(Debug, Clone)]
pub struct ImageAnalysis {
    pub exif_metadata: Option<ExifReport>,
    pub lsb_analysis: Option<LsbReport>,
    pub filter_analysis: FilterAnalysisReport,
    pub dimensions: ImageDimensions,
}

/// The audio-tag section of the report.
#[derive(Debug, Clone)]
pub struct Id3Report {
    pub title: Option<String>,
    pub artist: Option<String>,
    pub album: Option<String>,
    pub year: Option<i32>,
    pub comments_count: usize,
    pub pictures_count: usize,
    pub private_frames_count: usize,
    pub suspicious_frames: Vec<String>,
}

/// The spectrogram section of the report, energy in thousandths.
#[derive(Debug, Clone)]
pub struct SpectrogramReport {
    pub high_frequency_energy_milli: u32,
    pub hidden_message_detected: bool,
    pub suspicious_patterns: Vec<String>,
    pub output_file: String,
}

/// The audio sections of the report.
#[derive(Debug, Clone)]
pub struct AudioAnalysis {
    pub sample_count: usize,
    pub id3_analysis: Option<Id3Report>,
    pub spectrogram_analysis: Option<SpectrogramReport>,
}

/// The video section of the report.
#[derive(Debug, Clone)]
pub struct VideoAnalysis {
    pub frames_processed: usize,
    pub errors_encountered: usize,
    pub suspicious_frames: Vec<usize>,
}

/// The text section of the report.
#[derive(Debug, Clone)]
pub struct TextAnalysis {
    pub file_type: String,
    pub line_count: usize,
    pub word_count: usize,
    pub character_count: usize,
    pub size_bytes: usize,
}

/// The format-specific part of the report: exactly one analyzer ran.
#[derive(Debug, Clone)]
pub enum FormatSpecificAnalysis {
    Image(ImageAnalysis),
    Audio(AudioAnalysis),
    Video(VideoAnalysis),
    Text(TextAnalysis),
    Unknown,
}

/// The summary record: whether anything was detected, a coarse confidence label,
/// the ordered indicators, and the advice texts chosen by the outcome.
#[derive(Debug, Clone)]
pub struct AnalysisSummary {
    pub steganography_detected: bool,
    pub confidence_level: String,
    pub threat_indicators: Vec<String>,
    pub recommendations: Vec<String>,
}

/// The views of a list of strings.
pub open spec fn strs(s: Seq<String>) -> Seq<Seq<char>> {
    s.map_values(|x: String| x@)
}

/// The indicators contributed by the signature scan, in order: the
/// hidden-data flag, the several-formats note, then every suspicious
/// finding verbatim.
pub open spec fn spec_magic_indicators(magic: Option<MagicBytesReport>) -> Seq<Seq<char>> {
    match magic {
        Option::None => Seq::empty(),
        Option::Some(m) => {
            let a: Seq<Seq<char>> = if m.has_suspicious_data {
                seq!["Suspicious data in file structure"@]
            } else {
                Seq::empty()
            };
            let b: Seq<Seq<char>> = if m.has_multiple_formats {
                a + seq!["Multiple file formats detected"@]
            } else {
                a
            };
            b + strs(m.suspicious_findings@)
        },
    }
}

/// The video-frames indicator.
pub open spec fn video_indicator(n: nat) -> Seq<char> {
    "Found "@ + dec_chars(n) + " suspicious video frames"@
}

/// The indicators contributed by the format-specific analyzer, in order.
pub open spec fn spec_format_indicators(format: FormatSpecificAnalysis) -> Seq<Seq<char>> {
    match format {
        FormatSpecificAnalysis::Image(img) => {
            let a: Seq<Seq<char>> = match img.lsb_analysis {
                Option::Some(l) => if l.is_suspicious {
                    seq!["LSB analysis indicates possible hidden data"@]
                } else {
                    Seq::empty()
                },
                Option::None => Seq::empty(),
            };
            match img.exif_metadata {
                Option::Some(e) => if e.suspicious_fields@.len() > 0 {
                    a + seq!["Suspicious EXIF metadata found"@]
                } else {
                    a
                },
                Option::None => a,
            }
        },
        FormatSpecificAnalysis::Audio(audio) => {
            let a: Seq<Seq<char>> = match audio.spectrogram_analysis {
                Option::Some(sp) => if sp.hidden_message_detected {
                    seq!["Spectrogram analysis detected hidden patterns"@]
                } else {
                    Seq::empty()
                },
                Option::None => Seq::empty(),
            };
            match audio.id3_analysis {
                Option::Some(t) => if t.suspicious_frames@.len() > 0 {
                    a + seq!["Suspicious ID3 metadata found"@]
                } else {
                    a
                },
                Option::None => a,
            }
        },
        FormatSpecificAnalysis::Video(v) => {
            if v.suspicious_frames@.len() > 0 {
                seq![video_indicator(v.suspicious_frames@.len())]
            } else {
                Seq::empty()
            }
        },
        FormatSpecificAnalysis::Text(_) => Seq::empty(),
        FormatSpecificAnalysis::Unknown => Seq::empty(),
    }
}

/// The whole ordered indicator list.
pub open spec fn spec_indicators(
    magic: Option<MagicBytesReport>,
    format: FormatSpecificAnalysis,
) -> Seq<Seq<char>> {
    spec_magic_indicators(magic) + spec_format_indicators(format)
}

/// Detection holds exactly when the scan saw suspicious data or findings,
/// or the format-specific analyzer raised its flag.
pub open spec fn spec_detected(
    magic: Option<MagicBytesReport>,
    format: FormatSpecificAnalysis,
) -> bool {
    ||| (magic matches Option::Some(m) && (m.has_suspicious_data || m.suspicious_findings@.len()
        > 0))
    ||| (format matches FormatSpecificAnalysis::Image(img) && img.lsb_analysis matches Option::Some(
        l,
    ) && l.is_suspicious)
    ||| (format matches FormatSpecificAnalysis::Audio(a)
        && a.spectrogram_analysis matches Option::Some(sp) && sp.hidden_message_detected)
    ||| (format matches FormatSpecificAnalysis::Video(v) && v.suspicious_frames@.len() > 0)
}

/// The confidence label from the indicator count: three or more give
/// "high", at least one gives "medium", none give "low".
pub open spec fn spec_confidence(n: nat) -> Seq<char> {
    if n >= 3 {
        "high"@
    } else if n >= 1 {
        "medium"@
    } else {
        "low"@
    }
}

/// The fixed recommendation set for a outcome.
pub open spec fn spec_recommendations(detected: bool) -> Seq<Seq<char>> {
    if detected {
        seq![
            "Further investigation recommended"@,
            "Consider using specialized steganography tools"@,
            "Verify file source and integrity"@,
        ]
    } else {
        seq!["No obvious steganography detected"@, "File appears to be clean"@]
    }
}

/// The outcome is exactly the aggregation of the given inputs.
pub open spec fn summary_ok(
    magic: Option<MagicBytesReport>,
    format: FormatSpecificAnalysis,
    r: AnalysisSummary,
) -> bool {
    &&& strs(r.threat_indicators@) == spec_indicators(magic, format)
    &&& r.steganography_detected == spec_detected(magic, format)
    &&& r.confidence_level@ == spec_confidence(spec_indicators(magic, format).len())
    &&& strs(r.recommendations@) == spec_recommendations(spec_detected(magic, format))
}

/// Fuse the signature-scan report and the format-specific result into the
/// final summary: the ordered indicator list, the detection flag, the
/// confidence label, and the advice texts chosen by the outcome.
pub fn finalize_summary(magic: &Option<MagicBytesReport>, format: &FormatSpecificAnalysis) -> (r:
    AnalysisSummary)
    ensures
        summary_ok(*magic, *format, r),
{
    let mut indicators: Vec<String> = Vec::new();
    let mut detected: bool = false;
    match magic {
        Option::Some(m) => {
            if m.has_suspicious_data {
                detected = true;
                indicators.push("Suspicious data in file structure".to_owned());
            }
            if m.has_multiple_formats {
                indicators.push("Multiple file formats detected".to_owned());
            }
            let nf: usize = m.suspicious_findings.len();
            if nf > 0 {
                detected = true;
            }
            let ghost before: Seq<Seq<char>> = strs(indicators@);
            let mut i: usize = 0;
            while i < nf
                invariant
                    i <= nf == m.suspicious_findings@.len(),
                    strs(indicators@) == before + strs(m.suspicious_findings@.take(i as int)),
                decreases nf - i,
            {
                let ghost prev: Seq<Seq<char>> = strs(indicators@);
                indicators.push(m.suspicious_findings[i].clone());
                proof {
                    assert(strs(indicators@) =~= prev.push(m.suspicious_findings@[i as int]@));
                    assert(prev.push(m.suspicious_findings@[i as int]@) =~= before + strs(
                        m.suspicious_findings@.take(i + 1),
                    ));
                }
                i = i + 1;
            }
            proof {
                assert(m.suspicious_findings@.take(nf as int) =~= m.suspicious_findings@);
                assert(strs(indicators@) =~= spec_magic_indicators(*magic));
            }
        },
        Option::None => {
            proof {
                assert(strs(indicators@) =~= spec_magic_indicators(*magic));
            }
        },
    }
    let ghost magic_part: Seq<Seq<char>> = strs(indicators@);
    match format {
        FormatSpecificAnalysis::Image(img) => {
            match &img.lsb_analysis {
                Option::Some(l) => {
                    if l.is_suspicious {
                        detected = true;
                        let ghost prev: Seq<Seq<char>> = strs(indicators@);
                        indicators.push("LSB analysis indicates possible hidden data".to_owned());
                        proof {
                            assert(strs(indicators@) =~= prev.push(
                                "LSB analysis indicates possible hidden data"@,
                            ));
                        }
                    }
                },
                Option::None => {},
            }
            match &img.exif_metadata {
                Option::Some(e) => {
                    if e.suspicious_fields.len() > 0 {
                        let ghost prev: Seq<Seq<char>> = strs(indicators@);
                        indicators.push("Suspicious EXIF metadata found".to_owned());
                        proof {
                            assert(strs(indicators@) =~= prev.push(
                                "Suspicious EXIF metadata found"@,
                            ));
                        }
                    }
                },
                Option::None => {},
            }
            proof {
                assert(strs(indicators@) =~= magic_part + spec_format_indicators(*format));
            }
        },
        FormatSpecificAnalysis::Audio(audio) => {
            match &audio.spectrogram_analysis {
                Option::Some(sp) => {
                    if sp.hidden_message_detected {
                        detected = true;
                        let ghost prev: Seq<Seq<char>> = strs(indicators@);
                        indicators.push(
                            "Spectrogram analysis detected hidden patterns".to_owned(),
                        );
                        proof {
                            assert(strs(indicators@) =~= prev.push(
                                "Spectrogram analysis detected hidden patterns"@,
                            ));
                        }
                    }
                },
                Option::None => {},
            }
            match &audio.id3_analysis {
                Option::Some(t) => {
                    if t.suspicious_frames.len() > 0 {
                        let ghost prev: Seq<Seq<char>> = strs(indicators@);
                        indicators.push("Suspicious ID3 metadata found".to_owned());
                        proof {
                            assert(strs(indicators@) =~= prev.push(
                                "Suspicious ID3 metadata found"@,
                            ));
                        }
                    }
                },
                Option::None => {},
            }
            proof {
                assert(strs(indicators@) =~= magic_part + spec_format_indicators(*format));
            }
        },
        FormatSpecificAnalysis::Video(v) => {
            let nf: usize = v.suspicious_frames.len();
            if nf > 0 {
                detected = true;
                let mut f: String = "Found ".to_owned();
                let dec: String = usize_to_dec_string(nf);
                f.append(dec.as_str());
                f.append(" suspicious video frames");
                proof {
                    assert(f@ =~= video_indicator(v.suspicious_frames@.len()));
                }
                let ghost prev: Seq<Seq<char>> = strs(indicators@);
                indicators.push(f);
                proof {
                    assert(strs(indicators@) =~= prev.push(
                        video_indicator(v.suspicious_frames@.len()),
                    ));
                }
            }
            proof {
                assert(strs(indicators@) =~= magic_part + spec_format_indicators(*format));
            }
        },
        FormatSpecificAnalysis::Text(_) => {
            proof {
                assert(strs(indicators@) =~= magic_part + spec_format_indicators(*format));
            }
        },
        FormatSpecificAnalysis::Unknown => {
            proof {
                assert(strs(indicators@) =~= magic_part + spec_format_indicators(*format));
            }
        },
    }
    let n: usize = indicators.len();
    let confidence_level: String = if n >= 3 {
        "high".to_owned()
    } else if n >= 1 {
        "medium".to_owned()
    } else {
        "low".to_owned()
    };
    let mut recommendations: Vec<String> = Vec::new();
    if detected {
        recommendations.push("Further investigation recommended".to_owned());
        recommendations.push("Consider using specialized steganography tools".to_owned());
        recommendations.push("Verify file source and integrity".to_owned());
    } else {
        recommendations.push("No obvious steganography detected".to_owned());
        recommendations.push("File appears to be clean".to_owned());
    }
    proof {
        assert(strs(recommendations@) =~= spec_recommendations(spec_detected(*magic, *format)));
        assert(strs(indicators@).len() == indicators@.len());
    }
    AnalysisSummary {
        steganography_detected: detected,
        confidence_level,
        threat_indicators: indicators,
        recommendations,
    }
}

/// With no indicators the outcome is "low" confidence and nothing is
/// detected; with three or more it is "high".
pub proof fn lemma_confidence_levels(
    magic: Option<MagicBytesReport>,
    format: FormatSpecificAnalysis,
    r: AnalysisSummary,
)
    requires
        summary_ok(magic, format, r),
    ensures
        r.threat_indicators@.len() == 0 ==> r.confidence_level@ == "low"@
            && !r.steganography_detected,
        r.threat_indicators@.len() >= 3 ==> r.confidence_level@ == "high"@,
{
    assert(strs(r.threat_indicators@).len() == r.threat_indicators@.len());
    if r.threat_indicators@.len() == 0 {
        if spec_detected(magic, format) {
            let inds = spec_indicators(magic, format);
            if magic matches Option::Some(m) && (m.has_suspicious_data
                || m.suspicious_findings@.len() > 0) {
                assert(inds.len() > 0);
            } else {
                assert(spec_format_indicators(format).len() > 0);
            }
            assert(false);
        }
    }
}

} // verus!
