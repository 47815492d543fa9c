use rustfft::num_complex::Complex;
use rustfft::FftPlanner;
use stegascan::spectrogram_analyzer::SpectrogramAnalyzer;
use stegascan::video_frame_analyzer::{FrameSampler, VideoFrameAnalysis};
use stegascan::video_parser::{decode_step, DecodeAction, DecodeState};

const WINDOW: usize = 2048;
const HOP: usize = 512;

/// The windowed-FFT magnitude grid of a sample stream, in thousandths.
fn spectrogram_of(samples: &[f32]) -> Vec<Vec<u64>> {
    let mut planner = FftPlanner::<f32>::new();
    let fft = planner.plan_fft_forward(WINDOW);
    let window: Vec<f32> = (0..WINDOW)
        .map(|i| {
            0.5 * (1.0
                - ((2.0 * std::f32::consts::PI * i as f32) / (WINDOW as f32 - 1.0)).cos())
        })
        .collect();
    let mut grid: Vec<Vec<u64>> = Vec::new();
    let mut start = 0usize;
    while start + WINDOW <= samples.len() {
        let mut buf: Vec<Complex<f32>> = samples[start..start + WINDOW]
            .iter()
            .zip(window.iter())
            .map(|(&s, &w)| Complex::new(s * w, 0.0))
            .collect();
        fft.process(&mut buf);
        let row: Vec<u64> = buf[..WINDOW / 2]
            .iter()
            .map(|c| ((c.re * c.re + c.im * c.im).sqrt() * 1000.0) as u64)
            .collect();
        grid.push(row);
        start += HOP;
    }
    grid
}

fn sine_samples(freq: f32, seconds: f32) -> Vec<f32> {
    let rate = 44100.0f32;
    (0..(rate * seconds) as usize)
        .map(|i| (2.0 * std::f32::consts::PI * freq * (i as f32) / rate).sin())
        .collect()
}

#[test]
fn test_spectrogram_generation() {
    let samples = sine_samples(440.0, 1.0);
    let grid = spectrogram_of(&samples);
    let result = SpectrogramAnalyzer::analyze(&grid, WINDOW / 2);
    assert!(result.is_ok());
    let data = result.unwrap();
    assert!(data.spectrogram_image.width != 0);
}

#[test]
fn pure_low_tone_has_no_high_frequency_energy() {
    let samples = sine_samples(440.0, 1.0);
    let grid = spectrogram_of(&samples);
    let data = SpectrogramAnalyzer::analyze(&grid, WINDOW / 2).unwrap();
    // well under one hundredth of the energy sits above 15 kHz
    assert!(data.high_frequency_energy_milli < 10);
    // no persistent high-frequency tone and no dense geometric pattern
    assert!(!data
        .suspicious_patterns
        .iter()
        .any(|p| p.contains("Persistent high-frequency tone")));
    assert!(!data
        .suspicious_patterns
        .iter()
        .any(|p| p.contains("High edge density")));
}

#[test]
fn persistent_high_tone_is_reported() {
    // a constant 18 kHz tone: bin 18000 * 2048 / 44100, around 836
    let samples = sine_samples(18000.0, 1.0);
    let grid = spectrogram_of(&samples);
    let data = SpectrogramAnalyzer::analyze(&grid, WINDOW / 2).unwrap();
    assert!(data.high_frequency_energy_milli > 900);
    assert!(data
        .suspicious_patterns
        .iter()
        .any(|p| p.contains("Persistent high-frequency tone")));
    assert!(data.has_hidden_message);
}

#[test]
fn empty_grid_is_quiet() {
    let grid: Vec<Vec<u64>> = Vec::new();
    let data = SpectrogramAnalyzer::analyze(&grid, 0).unwrap();
    assert_eq!(data.high_frequency_energy_milli, 0);
    assert!(data.suspicious_patterns.is_empty());
    assert!(!data.has_hidden_message);
    assert_eq!(data.spectrogram_image.width, 1);
    assert_eq!(data.spectrogram_image.height, 1);
}

#[test]
fn frame_sampler_accumulates_and_averages() {
    let mut sampler = FrameSampler::new(30);
    assert!(sampler.wants_frame(0));
    assert!(!sampler.wants_frame(7));
    assert!(sampler.wants_frame(60));
    let quiet = VideoFrameAnalysis {
        frame_index: 0,
        lsb_suspicious: false,
        chi_square_scores: vec![0, 0, 0],
        entropy_scores: vec![100, 200, 300],
        histogram_anomalies: false,
        edge_density_milli: 0,
    };
    let loud = VideoFrameAnalysis {
        frame_index: 0,
        lsb_suspicious: true,
        chi_square_scores: vec![200_000, 0, 0],
        entropy_scores: vec![1000, 1000, 1000],
        histogram_anomalies: false,
        edge_density_milli: 10,
    };
    sampler.on_frame();
    sampler.on_sampled(0, &quiet);
    sampler.on_frame();
    sampler.on_decode_error();
    sampler.on_frame();
    sampler.on_sampled(60, &loud);
    let summary = sampler.finish();
    assert_eq!(summary.frames_processed, 3);
    assert_eq!(summary.frames_sampled, 2);
    assert_eq!(summary.decode_errors, 1);
    assert_eq!(summary.flagged_frame_indices, vec![60]);
    // (200 + 1000) / 2 thousandths
    assert_eq!(summary.average_entropy_milli, 600);
}

#[test]
fn decode_machine_follows_the_three_states() {
    // a ready frame is emitted without changing state
    assert_eq!(
        decode_step(DecodeState::Decoding, true, true),
        (DecodeState::Decoding, DecodeAction::EmitFrame)
    );
    // no frame but packets remain: feed one
    assert_eq!(
        decode_step(DecodeState::Decoding, false, true),
        (DecodeState::Decoding, DecodeAction::SendPacket)
    );
    // packets ran out: flush
    assert_eq!(
        decode_step(DecodeState::Decoding, false, false),
        (DecodeState::Flushing, DecodeAction::SendEof)
    );
    // flushing still yields frames
    assert_eq!(
        decode_step(DecodeState::Flushing, true, false),
        (DecodeState::Flushing, DecodeAction::EmitFrame)
    );
    // a dry decoder while flushing ends the stream
    assert_eq!(
        decode_step(DecodeState::Flushing, false, false),
        (DecodeState::Done, DecodeAction::Stop)
    );
    // done is final
    assert_eq!(
        decode_step(DecodeState::Done, true, true),
        (DecodeState::Done, DecodeAction::Stop)
    );
}
