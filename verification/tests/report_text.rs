use stegascan::exif_analyzer::ExifData;
use stegascan::id3_analyzer::{Id3Data, PictureInfo};
use stegascan::report::{
    finalize_summary, AudioAnalysis, FormatSpecificAnalysis, FormatSummary, Id3Report,
    LsbChannelAnalysis, LsbReport, MagicBytesReport, SpectrogramReport, TextAnalysis,
    VideoAnalysis,
};
use stegascan::text_parser::{
    extract_rtf_plain_text, extract_strings_from_binary, TextContent,
};

#[test]
fn exif_analyzer_test_base64_detection() {
    assert!(stegascan::exif_analyzer::is_potential_base64("SGVsbG8gV29ybGQ="));
    assert!(stegascan::exif_analyzer::is_potential_base64("dGVzdGluZzEyMzQ1Njc4OTA="));
    assert!(!stegascan::exif_analyzer::is_potential_base64("Hello World"));
    assert!(!stegascan::exif_analyzer::is_potential_base64("abc"));
}

#[test]
fn id3_analyzer_test_base64_detection() {
    assert!(stegascan::id3_analyzer::is_potential_base64("SGVsbG8gV29ybGQ="));
    assert!(stegascan::id3_analyzer::is_potential_base64("dGVzdGluZzEyMzQ1Njc4OTA="));
    assert!(!stegascan::id3_analyzer::is_potential_base64("Hello World"));
    assert!(!stegascan::id3_analyzer::is_potential_base64("abc"));
}

#[test]
fn test_audio_parser_basic() {
    assert!(true);
}

#[test]
fn test_text_content_stats() {
    let content = TextContent::new("Hello World\nTest".to_string(), "TXT".to_string());
    assert_eq!(content.line_count, 2);
    assert_eq!(content.word_count, 3);
    assert_eq!(content.char_count, 16);
}

#[test]
fn text_lines_and_words_split() {
    let content = TextContent::new("one two\nthree\n".to_string(), "TXT".to_string());
    assert_eq!(content.line_count, 2);
    let lines = content.lines();
    assert_eq!(lines.len(), 2);
    assert_eq!(lines[0], "one two");
    let words = content.words();
    assert_eq!(words, vec!["one", "two", "three"]);
}

#[test]
fn rtf_markup_is_stripped() {
    let text = extract_rtf_plain_text("{\\rtf1 Hello \\b World}");
    assert_eq!(text, "Hello World");
    let table = extract_rtf_plain_text("{\\fonttbl f0 Arial;}{\\rtf Visible}");
    assert!(!table.contains("Arial"));
    assert!(table.contains("Visible"));
    let escaped = extract_rtf_plain_text("{a\\{b\\}c}");
    assert_eq!(escaped, "a{b}c");
}

#[test]
fn printable_runs_are_harvested() {
    let bytes: Vec<u8> = b"\x00\x01Hello\x02Hi\x03World".to_vec();
    let text = extract_strings_from_binary(&bytes);
    assert_eq!(text, "Hello World");
    let short: Vec<u8> = b"\x00ab\x00cd\x00".to_vec();
    assert_eq!(extract_strings_from_binary(&short), "");
}

#[test]
fn exif_fields_feed_the_suspicion_checks() {
    let mut data = ExifData::new();
    data.record_field("Model", "A camera", false);
    assert!(data.suspicious_fields.is_empty());
    data.record_field("UserComment", "a note", true);
    assert_eq!(data.comment_fields, vec!["UserComment: a note"]);
    let blob: String = "QUJDREVGR0hJSktMTU5PUA==".repeat(4);
    data.record_field("MakerNote", &blob, false);
    assert_eq!(data.suspicious_fields, vec!["MakerNote: potential encoded data"]);
    let huge: String = "x".repeat(1500);
    data.record_field("ImageDescription", &huge, true);
    assert!(data
        .suspicious_fields
        .iter()
        .any(|f| f == "ImageDescription: unusually large (1500+ bytes)"));
    data.record_thumbnail(Some(4096));
    assert!(data.has_thumbnail);
    assert_eq!(data.thumbnail_size, Some(4096));
}

#[test]
fn id3_frames_feed_the_suspicion_checks() {
    let mut data = Id3Data::new();
    data.record_comment("eng", "note", "small");
    assert_eq!(data.comments, vec!["eng [note]: small"]);
    assert!(data.suspicious_frames.is_empty());
    let big: String = "y".repeat(600);
    data.record_comment("eng", "big", &big);
    assert!(data
        .suspicious_frames
        .iter()
        .any(|f| f == "Large comment field: 600 bytes"));
    data.record_picture(PictureInfo {
        picture_type: "CoverFront".to_string(),
        mime_type: "image/png".to_string(),
        description: "front".to_string(),
        data_size: 6_000_000,
    });
    assert!(data
        .suspicious_frames
        .iter()
        .any(|f| f == "Large embedded picture: 6 MB"));
    data.record_private_frame(2000);
    assert!(data
        .suspicious_frames
        .iter()
        .any(|f| f == "Large private frame: ~2000 bytes"));
    assert_eq!(data.private_frames.len(), 1);
    assert_eq!(data.private_frames[0].owner, "PRIV");
}

fn empty_summary() -> FormatSummary {
    FormatSummary {
        images: 0,
        audio: 0,
        video: 0,
        text_documents: 0,
        archives: 0,
        executables: 0,
        other: 0,
    }
}

#[test]
fn zero_indicators_mean_low_confidence() {
    let summary = finalize_summary(&None, &FormatSpecificAnalysis::Unknown);
    assert!(!summary.steganography_detected);
    assert_eq!(summary.confidence_level, "low");
    assert!(summary.threat_indicators.is_empty());
    assert_eq!(
        summary.recommendations,
        vec!["No obvious steganography detected", "File appears to be clean"]
    );
}

#[test]
fn three_indicators_mean_high_confidence() {
    let magic = MagicBytesReport {
        primary_format: "JPEG image".to_string(),
        expected_format: None,
        total_signatures_found: 2,
        has_multiple_formats: true,
        has_suspicious_data: true,
        format_summary: empty_summary(),
        embedded_files: Vec::new(),
        suspicious_findings: vec!["Complete file signature found at offset 0x200: PNG image"
            .to_string()],
    };
    let summary = finalize_summary(&Some(magic), &FormatSpecificAnalysis::Unknown);
    assert_eq!(summary.threat_indicators.len(), 3);
    assert!(summary.steganography_detected);
    assert_eq!(summary.confidence_level, "high");
    assert_eq!(summary.threat_indicators[0], "Suspicious data in file structure");
    assert_eq!(summary.threat_indicators[1], "Multiple file formats detected");
}

#[test]
fn one_indicator_means_medium_confidence() {
    let image = FormatSpecificAnalysis::Image(stegascan::report::ImageAnalysis {
        exif_metadata: None,
        lsb_analysis: Some(LsbReport {
            is_suspicious: true,
            channels: vec![LsbChannelAnalysis {
                channel_name: "Red".to_string(),
                chi_square_milli: 500_000,
                entropy_milli: 990,
            }],
            output_files: Vec::new(),
        }),
        filter_analysis: stegascan::report::FilterAnalysisReport {
            filters_generated: 0,
            output_files: Vec::new(),
        },
        dimensions: stegascan::report::ImageDimensions { width: 4, height: 4 },
    });
    let summary = finalize_summary(&None, &image);
    assert!(summary.steganography_detected);
    assert_eq!(summary.confidence_level, "medium");
    assert_eq!(
        summary.threat_indicators,
        vec!["LSB analysis indicates possible hidden data"]
    );
}

#[test]
fn video_and_audio_indicators_carry_their_counts() {
    let video = FormatSpecificAnalysis::Video(VideoAnalysis {
        frames_processed: 100,
        errors_encountered: 2,
        suspicious_frames: vec![30, 60, 90],
    });
    let summary = finalize_summary(&None, &video);
    assert_eq!(summary.threat_indicators, vec!["Found 3 suspicious video frames"]);
    assert!(summary.steganography_detected);

    let audio = FormatSpecificAnalysis::Audio(AudioAnalysis {
        sample_count: 44100,
        id3_analysis: Some(Id3Report {
            title: None,
            artist: None,
            album: None,
            year: None,
            comments_count: 1,
            pictures_count: 0,
            private_frames_count: 0,
            suspicious_frames: vec!["Large comment field: 600 bytes".to_string()],
        }),
        spectrogram_analysis: Some(SpectrogramReport {
            high_frequency_energy_milli: 400,
            hidden_message_detected: true,
            suspicious_patterns: Vec::new(),
            output_file: String::new(),
        }),
    });
    let s2 = finalize_summary(&None, &audio);
    assert_eq!(
        s2.threat_indicators,
        vec![
            "Spectrogram analysis detected hidden patterns",
            "Suspicious ID3 metadata found"
        ]
    );
    assert!(s2.steganography_detected);

    let text = FormatSpecificAnalysis::Text(TextAnalysis {
        file_type: "TXT".to_string(),
        line_count: 1,
        word_count: 1,
        character_count: 5,
        size_bytes: 5,
    });
    let s3 = finalize_summary(&None, &text);
    assert!(s3.threat_indicators.is_empty());
    assert!(!s3.steganography_detected);
}
