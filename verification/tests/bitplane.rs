use image::{ImageBuffer, Rgba};
use stegascan::image_filter::ImageFilterAnalyzer;
use stegascan::lsb_analyzer::{
    calculate_chi_square, calculate_entropy, extract_lsb_plane, visualize_lsb_plane, LsbAnalyzer,
    PixelGrid,
};
use stegascan::video_frame_analyzer::{
    calculate_edge_density, detect_histogram_anomalies, VideoFrameAnalyzer,
};

fn grid_from_fn(w: u32, h: u32, f: impl Fn(u32, u32) -> [u8; 4]) -> PixelGrid {
    let img = ImageBuffer::from_fn(w, h, |x, y| Rgba(f(x, y)));
    PixelGrid::new(w as usize, h as usize, img.into_raw()).unwrap()
}

#[test]
fn lsb_analyzer_test_lsb_extraction() {
    let grid = grid_from_fn(10, 10, |x, y| [(x + y) as u8, 128, 64, 255]);
    let lsb_data = extract_lsb_plane(&grid, 0);
    assert_eq!(lsb_data.len(), 100);
}

#[test]
fn video_frame_analyzer_test_lsb_extraction() {
    let grid = grid_from_fn(10, 10, |x, y| [(x + y) as u8, 128, 64, 255]);
    let lsb_data = extract_lsb_plane(&grid, 0);
    assert_eq!(lsb_data.len(), 100);
}

#[test]
fn lsb_analyzer_test_entropy_calculation() {
    // all zeros: minimum entropy, below 0.1 bits
    let data = vec![0u8; 100];
    let entropy = calculate_entropy(&data, 0);
    assert!(entropy < 100);

    // alternating pattern: maximum entropy for a binary alphabet
    let data: Vec<u8> = (0..100).map(|i| (i % 2) as u8).collect();
    let entropy = calculate_entropy(&data, 0);
    assert!(entropy > 900);
}

#[test]
fn video_frame_analyzer_test_entropy_calculation() {
    let data = vec![0u8; 100];
    let entropy = calculate_entropy(&data, 0);
    assert!(entropy < 100);

    let data: Vec<u8> = (0..100).map(|i| (i % 2) as u8).collect();
    let entropy = calculate_entropy(&data, 0);
    assert!(entropy > 900);
}

#[test]
fn entropy_endpoints_are_exact() {
    // all zeros give exactly 0 thousandths
    assert_eq!(calculate_entropy(&vec![0u8; 64], 0), 0);
    // all ones give exactly 0 as well
    assert_eq!(calculate_entropy(&vec![1u8; 64], 0), 0);
    // a perfectly alternating even-length sequence gives exactly one bit
    let alt: Vec<u8> = (0..128).map(|i| (i % 2) as u8).collect();
    assert_eq!(calculate_entropy(&alt, 0), 1000);
}

#[test]
fn uniform_pairs_give_zero_chi_square() {
    // pairs 00 01 10 11: exactly uniform across the four pair values
    let bits: Vec<u8> = vec![0, 0, 0, 1, 1, 0, 1, 1];
    assert_eq!(calculate_chi_square(&bits, 0), 0);
    // repeating the block keeps the distribution uniform
    let mut many: Vec<u8> = Vec::new();
    for _ in 0..32 {
        many.extend_from_slice(&bits);
    }
    assert_eq!(calculate_chi_square(&many, 0), 0);
    // a heavily skewed distribution scores high
    let skew: Vec<u8> = vec![1u8; 80];
    assert!(calculate_chi_square(&skew, 0) > 100_000);
}

#[test]
fn bit_plane_analysis_is_deterministic() {
    let grid = grid_from_fn(16, 16, |x, y| {
        [(x * 7 + y * 3) as u8, (x ^ y) as u8, (x * y) as u8, 255]
    });
    let a1 = LsbAnalyzer::analyze(&grid).unwrap();
    let a2 = LsbAnalyzer::analyze(&grid).unwrap();
    assert_eq!(a1.chi_square_scores, a2.chi_square_scores);
    assert_eq!(a1.entropy_scores, a2.entropy_scores);
    assert_eq!(a1.suspicious, a2.suspicious);
}

#[test]
fn zero_dimension_images_are_rejected() {
    let empty = PixelGrid::new(0, 5, Vec::new()).unwrap();
    assert!(LsbAnalyzer::analyze(&empty).is_err());
    assert!(VideoFrameAnalyzer::analyze(&empty).is_err());
}

#[test]
fn bit_plane_visualization_tiles_squarely() {
    let bits: Vec<u8> = (0..100).map(|i| (i % 2) as u8).collect();
    let vis = visualize_lsb_plane(&bits, 0);
    assert_eq!(vis.width, 10);
    assert_eq!(vis.height, 10);
    assert_eq!(vis.data.len(), 400);
    // first bit is 0: red slot dark, alpha opaque
    assert_eq!(vis.data[0], 0);
    assert_eq!(vis.data[3], 255);
    // second bit is 1: red slot lit
    assert_eq!(vis.data[4], 255);
    assert_eq!(vis.data[5], 0);
}

#[test]
fn flat_image_has_anomalous_histogram() {
    // every sample identical: one bin holds everything
    let flat = grid_from_fn(32, 32, |_, _| [7, 7, 7, 255]);
    assert!(detect_histogram_anomalies(&flat));
    assert_eq!(calculate_edge_density(&flat), 0);
}

#[test]
fn sharp_stripes_have_edges() {
    // vertical stripes two pixels wide: the two-apart gradient stencil
    // sees a jump at every stripe boundary
    let board = grid_from_fn(16, 16, |x, _| {
        if (x / 2) % 2 == 0 {
            [255, 255, 255, 255]
        } else {
            [0, 0, 0, 255]
        }
    });
    assert!(calculate_edge_density(&board) > 300);
}

#[test]
fn suspicious_flag_follows_the_thresholds() {
    // random-looking least significant bits: entropy near one bit
    let noisy = grid_from_fn(32, 32, |x, y| {
        let b = ((x + y) % 2) as u8;
        [128 + b, 64 + b, 32 + b, 255]
    });
    let a = LsbAnalyzer::analyze(&noisy).unwrap();
    assert!(a.entropy_scores.iter().any(|&e| e > 900));
    assert!(a.suspicious);
    // constant least significant bits: entropy zero, chi-square high
    let flat = grid_from_fn(32, 32, |_, _| [100, 100, 100, 255]);
    let b = LsbAnalyzer::analyze(&flat).unwrap();
    assert_eq!(b.entropy_scores, vec![0, 0, 0]);
}

#[test]
fn filter_set_isolates_channels() {
    let grid = grid_from_fn(4, 4, |x, y| [x as u8, y as u8, 9, 200]);
    let filters = ImageFilterAnalyzer::analyze(&grid).unwrap();
    assert_eq!(filters.len(), 9);
    // the first filter is the unchanged buffer
    assert_eq!(filters[0].data, grid.data);
    // the red-isolating filter keeps red and zeroes the rest
    assert_eq!(filters[1].data[0], grid.data[0]);
    assert_eq!(filters[1].data[1], 0);
    assert_eq!(filters[1].data[3], 0);
    // the saturating red filter floods the other slots with 255
    assert_eq!(filters[5].data[0], grid.data[0]);
    assert_eq!(filters[5].data[1], 255);
    assert_eq!(filters[5].data[3], 255);
}
