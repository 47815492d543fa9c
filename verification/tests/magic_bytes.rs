use stegascan::magic_bytes_analyzer::{
    analyze_buffer, determine_file_category, detect_format_at_offset, is_complete_file_signature,
    is_likely_real_file, manual_signature_scan, scan_buffer_with_hits, DeepScanHit,
};
use stegascan::strutil::{usize_to_dec_string, usize_to_hex_string};

#[test]
fn test_file_categorization() {
    assert_eq!(determine_file_category("JPEG image data"), "Image");
    assert_eq!(determine_file_category("PNG image data"), "Image");
    assert_eq!(determine_file_category("MP3 audio"), "Audio");
    assert_eq!(determine_file_category("MP4 video"), "Video");
    assert_eq!(determine_file_category("PDF document"), "Text/Document");
    assert_eq!(determine_file_category("ZIP archive"), "Archive");
}

#[test]
fn test_complete_signature_detection() {
    assert!(is_complete_file_signature("JPEG image data"));
    assert!(is_complete_file_signature("PNG image header"));
    assert!(is_complete_file_signature("PDF document"));
    assert!(!is_complete_file_signature("random data"));
}

const PNG_SIG: [u8; 8] = [0x89, 0x50, 0x4E, 0x47, 0x0D, 0x0A, 0x1A, 0x0A];

#[test]
fn png_buffer_yields_single_clean_match() {
    let mut data: Vec<u8> = PNG_SIG.to_vec();
    data.extend(std::iter::repeat(0x77u8).take(64));
    let hits: Vec<DeepScanHit> = Vec::new();
    let a = scan_buffer_with_hits(&data, None, &hits).unwrap();
    assert!(a.primary_format.contains("PNG"));
    assert!(!a.has_multiple_formats);
    assert!(a.suspicious_findings.is_empty());
    assert!(!a.has_suspicious_data);
}

#[test]
fn jpeg_with_png_at_aligned_offset_is_flagged() {
    let mut data: Vec<u8> = vec![0xFF, 0xD8, 0xFF, 0xE0];
    while data.len() < 512 {
        data.push(0x11);
    }
    data.extend_from_slice(&PNG_SIG);
    data.extend(std::iter::repeat(0x22u8).take(32));
    let hits: Vec<DeepScanHit> = Vec::new();
    let a = scan_buffer_with_hits(&data, None, &hits).unwrap();
    assert!(a.has_multiple_formats);
    assert!(a.embedded_files.iter().any(|e| e.offset == 512));
    assert!(a.has_suspicious_data);
    assert!(a
        .suspicious_findings
        .iter()
        .any(|f| f.contains("offset 0x200")));
}

#[test]
fn polyglot_buffer_raises_the_alarm() {
    // JPEG primary, then PNG (image), WAV (audio) and AVI (video) at
    // sector-aligned offsets
    let mut data: Vec<u8> = vec![0xFF, 0xD8, 0xFF, 0xE0];
    while data.len() < 512 {
        data.push(0);
    }
    data.extend_from_slice(&PNG_SIG);
    while data.len() < 1024 {
        data.push(0);
    }
    data.extend_from_slice(b"RIFF");
    data.extend_from_slice(&[16, 0, 0, 0]);
    data.extend_from_slice(b"WAVE");
    while data.len() < 2048 {
        data.push(0);
    }
    data.extend_from_slice(b"RIFF");
    data.extend_from_slice(&[16, 0, 0, 0]);
    data.extend_from_slice(b"AVI ");
    data.extend(std::iter::repeat(0u8).take(16));
    let hits: Vec<DeepScanHit> = Vec::new();
    let a = scan_buffer_with_hits(&data, None, &hits).unwrap();
    assert!(a.format_summary.audio_files > 0);
    assert!(a.format_summary.image_files > 0);
    assert!(a.format_summary.video_files > 0);
    assert!(a
        .suspicious_findings
        .iter()
        .any(|f| f.contains("POLYGLOT FILE DETECTED")));
}

#[test]
fn empty_buffer_is_rejected() {
    let hits: Vec<DeepScanHit> = Vec::new();
    let r = scan_buffer_with_hits(&[], None, &hits);
    assert!(r.is_err());
}

#[test]
fn extension_mismatch_is_reported() {
    let mut data: Vec<u8> = PNG_SIG.to_vec();
    data.extend(std::iter::repeat(0x55u8).take(16));
    let hits: Vec<DeepScanHit> = Vec::new();
    let a = scan_buffer_with_hits(&data, Some("MP3".to_string()), &hits).unwrap();
    assert!(a
        .suspicious_findings
        .iter()
        .any(|f| f.contains("Format mismatch: extension says MP3")));
}

#[test]
fn deep_scan_hits_take_precedence_at_equal_offsets() {
    let mut data: Vec<u8> = PNG_SIG.to_vec();
    data.extend(std::iter::repeat(0u8).take(8));
    let hits = vec![DeepScanHit {
        offset: 0,
        name: "PNG image, deep scan".to_string(),
        confidence: 250,
    }];
    let a = scan_buffer_with_hits(&data, None, &hits).unwrap();
    assert_eq!(a.total_signatures_found, 1);
    assert_eq!(a.embedded_files[0].description, "PNG image, deep scan");
    assert_eq!(a.embedded_files[0].confidence, "high");
    assert_eq!(a.embedded_files[0].file_type, "Image");
}

#[test]
fn matches_are_sorted_by_offset() {
    let mut data: Vec<u8> = vec![0xFF, 0xD8, 0xFF, 0xE0];
    while data.len() < 1024 {
        data.push(0);
    }
    data.extend_from_slice(&PNG_SIG);
    let hits = vec![DeepScanHit {
        offset: 512,
        name: "stray marker".to_string(),
        confidence: 10,
    }];
    let a = scan_buffer_with_hits(&data, None, &hits).unwrap();
    let offsets: Vec<usize> = a.embedded_files.iter().map(|e| e.offset).collect();
    let mut sorted = offsets.clone();
    sorted.sort();
    assert_eq!(offsets, sorted);
    assert_eq!(a.embedded_files[0].offset, 0);
}

#[test]
fn detect_format_reads_magic_bytes() {
    assert_eq!(detect_format_at_offset(&PNG_SIG, 0), "PNG image");
    assert_eq!(detect_format_at_offset(&[0xFF, 0xD8, 0xFF, 0xE0], 0), "JPEG image");
    assert_eq!(detect_format_at_offset(&[1, 2, 3, 4], 0), "UNKNOWN");
    assert_eq!(detect_format_at_offset(&[0x25, 0x50, 0x44, 0x46], 0), "PDF document");
    let mut wav: Vec<u8> = b"RIFF".to_vec();
    wav.extend_from_slice(&[0, 0, 0, 0]);
    wav.extend_from_slice(b"WAVE");
    assert_eq!(detect_format_at_offset(&wav, 0), "WAV audio");
}

#[test]
fn unaligned_matches_without_padding_are_noise() {
    // a PNG signature at offset 3, no padding before it, not aligned
    let mut data: Vec<u8> = vec![0x41, 0x42, 0x43];
    data.extend_from_slice(&PNG_SIG);
    data.extend(std::iter::repeat(0x99u8).take(16));
    let found = manual_signature_scan(&data);
    assert!(!found.iter().any(|e| e.offset == 3));
    assert!(!is_likely_real_file(&data, 3, 8));
    // with four zero bytes before it, the same match is kept
    let mut data2: Vec<u8> = vec![0x41, 0x42, 0x43, 0, 0, 0, 0];
    data2.extend_from_slice(&PNG_SIG);
    let found2 = manual_signature_scan(&data2);
    assert!(found2.iter().any(|e| e.offset == 7));
}

#[test]
fn number_rendering_is_exact() {
    assert_eq!(usize_to_dec_string(0), "0");
    assert_eq!(usize_to_dec_string(12345), "12345");
    assert_eq!(usize_to_hex_string(512), "200");
    assert_eq!(usize_to_hex_string(0xDEADBEEF), "DEADBEEF");
}

#[test]
fn whole_buffer_analysis_runs_the_deep_scan() {
    let r = analyze_buffer(&[], None);
    assert!(r.is_err());
    let mut data: Vec<u8> = PNG_SIG.to_vec();
    data.extend(std::iter::repeat(0u8).take(64));
    let a = analyze_buffer(&data, None).unwrap();
    assert!(a.primary_format.to_uppercase().contains("PNG"));
}
