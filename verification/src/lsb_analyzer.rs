//! Least-significant-bit statistics per color channel of a decoded image:
//! the chi-square pair test and Shannon entropy of the extracted bit plane,
//! plus a bit-plane visualization.

use vstd::prelude::*;
use vstd::arithmetic::div_mod::*;
use crate::bitstats::{
    bits_chi_square_milli, bits_entropy_milli, is_bit_seq, seq_chi_square_milli, seq_entropy_milli,
};

verus! {

/// A decoded image as a plain buffer: row-major RGBA samples, four bytes
/// per pixel.
#[derive(Debug, Clone)]
pub struct PixelGrid {
    pub width: usize,
    pub height: usize,
    pub data: Vec<u8>,
}

/// The buffer holds exactly four bytes for each pixel.
pub open spec fn grid_wf(g: PixelGrid) -> bool {
    g.data@.len() == 4 * (g.width as int) * (g.height as int)
}

impl PixelGrid {
    /// Build a grid from raw RGBA bytes; rejects a buffer whose length does
    /// not match the dimensions.
    pub fn new(width: usize, height: usize, data: Vec<u8>) -> (r: Option<PixelGrid>)
        ensures
            r is Some ==> grid_wf(r->0) && r->0.width == width && r->0.height == height && r->0.data@
                == data@,
            r is None ==> data@.len() != 4 * (width as int) * (height as int),
    {
        proof {
            if width > 0 && height > 0 {
                assert((width as int) * (height as int) >= 1) by (nonlinear_arith)
                    requires
                        width >= 1,
                        height >= 1,
                ;
            }
            assert(4 * (width as int) * (height as int) >= 0) by (nonlinear_arith)
                requires
                    width >= 0,
                    height >= 0,
            ;
        }
        if width == 0 || height == 0 {
            if data.len() == 0 {
                proof {
                    assert(4 * (width as int) * (height as int) == 0) by (nonlinear_arith)
                        requires
                            width == 0 || height == 0,
                    ;
                }
                Option::Some(PixelGrid { width, height, data })
            } else {
                proof {
                    assert(4 * (width as int) * (height as int) == 0) by (nonlinear_arith)
                        requires
                            width == 0 || height == 0,
                    ;
                }
                Option::None
            }
        } else {
            proof {
                assert((width as u128) * (height as u128)
                    <= 0xffff_ffff_ffff_fffe_0000_0000_0000_0001u128) by (nonlinear_arith)
                    requires
                        (width as u128) < 0x1_0000_0000_0000_0000u128,
                        (height as u128) < 0x1_0000_0000_0000_0000u128,
                ;
            }
            let wh: u128 = (width as u128) * (height as u128);
            if wh > 0x3fff_ffff_ffff_ffff_ffff_ffff_ffff_ffffu128 {
                let dlen: usize = data.len();
                proof {
                    assert(4 * (width as int) * (height as int) > usize::MAX) by (nonlinear_arith)
                        requires
                            (width as int) * (height as int)
                                > 0x3fff_ffff_ffff_ffff_ffff_ffff_ffff_ffff,
                            usize::MAX <= 0xffff_ffff_ffff_ffff,
                    ;
                    assert(dlen <= usize::MAX);
                }
                Option::None
            } else {
                let need: u128 = 4 * wh;
                proof {
                    assert(need == 4 * (width as int) * (height as int)) by (nonlinear_arith)
                        requires
                            need == 4 * ((width as u128) * (height as u128)),
                    ;
                }
                if (data.len() as u128) == need {
                    Option::Some(PixelGrid { width, height, data })
                } else {
                    Option::None
                }
            }
        }
    }

    /// The number of pixels.
    pub open spec fn spec_pixels(self) -> int {
        (self.width as int) * (self.height as int)
    }

    /// Whether the buffer matches the dimensions and the pixel count stays
    /// inside the analyzers' machine limit.
    pub fn check(&self) -> (r: bool)
        ensures
            r == (grid_wf(*self) && self.spec_pixels() < 0x2000_0000),
    {
        let w: u128 = self.width as u128;
        let h: u128 = self.height as u128;
        proof {
            assert(w * h <= 0xffff_ffff_ffff_fffe_0000_0000_0000_0001u128) by (nonlinear_arith)
                requires
                    w < 0x1_0000_0000_0000_0000u128,
                    h < 0x1_0000_0000_0000_0000u128,
            ;
        }
        let wh: u128 = w * h;
        if wh >= 0x2000_0000 {
            return false;
        }
        let need: u128 = 4 * wh;
        proof {
            assert(need == 4 * (self.width as int) * (self.height as int)) by (nonlinear_arith)
                requires
                    need == 4 * ((self.width as u128) * (self.height as u128)),
            ;
        }
        let dlen: usize = self.data.len();
        (dlen as u128) == need
    }
}

/// The sequence of least-significant bits of one channel, in row-major
/// pixel order.
pub open spec fn lsb_plane_spec(g: PixelGrid, channel: int) -> Seq<u8> {
    Seq::new((g.spec_pixels()) as nat, |i: int| (g.data@[4 * i + channel] % 2) as u8)
}

/// Extract the least-significant bit of one channel of every pixel.
pub fn extract_lsb_plane(grid: &PixelGrid, channel: usize) -> (r: Vec<u8>)
    requires
        grid_wf(*grid),
        channel < 4,
    ensures
        r@ == lsb_plane_spec(*grid, channel as int),
        is_bit_seq(r@),
{
    let len: usize = grid.data.len();
    let pixels: usize = len / 4;
    proof {
        assert(grid.spec_pixels() >= 0) by (nonlinear_arith)
            requires
                grid.width >= 0,
                grid.height >= 0,
        ;
        assert(4 * (grid.width as int) * (grid.height as int) == 4 * grid.spec_pixels())
            by (nonlinear_arith);
        lemma_div_multiples_vanish(grid.spec_pixels(), 4);
        assert(pixels == grid.spec_pixels());
    }
    let mut r: Vec<u8> = Vec::new();
    let mut i: usize = 0;
    while i < pixels
        invariant
            i <= pixels,
            pixels == grid.spec_pixels(),
            len == grid.data@.len() == 4 * grid.spec_pixels(),
            channel < 4,
            r@ == lsb_plane_spec(*grid, channel as int).take(i as int),
        decreases pixels - i,
    {
        let b: u8 = grid.data[4 * i + channel];
        r.push(b % 2);
        proof {
            assert(r@ =~= lsb_plane_spec(*grid, channel as int).take(i + 1));
        }
        i = i + 1;
    }
    proof {
        assert(lsb_plane_spec(*grid, channel as int).take(pixels as int) =~= lsb_plane_spec(
            *grid,
            channel as int,
        ));
    }
    r
}

/// Chi-square pair statistic of a bit plane, in thousandths.
pub fn calculate_chi_square(lsb_data: &[u8], _channel: usize) -> (r: u64)
    requires
        is_bit_seq(lsb_data@),
        lsb_data@.len() < 0x4_0000_0000_0000,
    ensures
        r == seq_chi_square_milli(lsb_data@),
{
    bits_chi_square_milli(lsb_data)
}

/// Shannon entropy of a bit plane in thousandths of a bit.
pub fn calculate_entropy(lsb_data: &[u8], _channel: usize) -> (r: u32)
    ensures
        r == seq_entropy_milli(lsb_data@),
        r <= 1000,
{
    bits_entropy_milli(lsb_data)
}

/// The smallest width whose square covers `n` pixels.
pub open spec fn spec_ceil_sqrt(n: nat, w: nat) -> bool {
    &&& w * w >= n
    &&& w >= 1
    &&& (w - 1) * (w - 1) < n
}

fn ceil_sqrt(n: usize) -> (w: usize)
    requires
        1 <= n < 0x2000_0000,
    ensures
        spec_ceil_sqrt(n as nat, w as nat),
        w <= n,
{
    let mut w: usize = 1;
    while (w as u64) * (w as u64) < (n as u64)
        invariant
            1 <= w <= n < 0x2000_0000,
            ((w - 1) as int) * ((w - 1) as int) < n,
            (w as int) * (w as int) < 0x1_0000_0000_0000_0000,
        decreases n - w,
    {
        proof {
            assert(w < n) by (nonlinear_arith)
                requires
                    (w as int) * (w as int) < (n as int),
                    w >= 1,
            ;
            assert(((w + 1) as int) * ((w + 1) as int) < 0x1_0000_0000_0000_0000)
                by (nonlinear_arith)
                requires
                    w + 1 <= n < 0x2000_0000,
            ;
        }
        w = w + 1;
    }
    w
}

/// The RGBA bytes of the bit-plane visualization: a set bit paints 255 in
/// the analyzed channel's slot, alpha is opaque, pixels past the bit count
/// are black.
pub open spec fn visualize_spec(bits: Seq<u8>, channel: int, width: nat, height: nat) -> Seq<u8> {
    Seq::new(
        4 * width * height,
        |j: int|
            {
                let p = j / 4;
                let ch = j % 4;
                if ch == 3 {
                    255u8
                } else if p >= bits.len() {
                    0u8
                } else {
                    let v: u8 = if bits[p] == 1 {
                        255u8
                    } else {
                        0u8
                    };
                    if channel < 3 {
                        if ch == channel {
                            v
                        } else {
                            0u8
                        }
                    } else {
                        v
                    }
                }
            },
    )
}

/// Render a bit plane as a square-ish opaque image, one pixel per bit.
pub fn visualize_lsb_plane(lsb_data: &[u8], channel: usize) -> (r: PixelGrid)
    requires
        1 <= lsb_data@.len() < 0x2000_0000,
        channel < 4,
    ensures
        grid_wf(r),
        spec_ceil_sqrt(lsb_data@.len(), r.width as nat),
        r.height == ((lsb_data@.len() + r.width - 1) as int) / (r.width as int),
        r.data@ == visualize_spec(lsb_data@, channel as int, r.width as nat, r.height as nat),
{
    let n: usize = lsb_data.len();
    let width: usize = ceil_sqrt(n);
    let height: usize = (n + width - 1) / width;
    proof {
        lemma_fundamental_div_mod((n + width - 1) as int, width as int);
        lemma_mod_division_less_than_divisor((n + width - 1) as int, width as int);
        lemma_div_pos_is_pos((n + width - 1) as int, width as int);
        assert((width as int) * (height as int) <= n + width - 1);
        assert((width as int) * (height as int) < 0x4000_0000);
    }
    let total: usize = width * height;
    let mut data: Vec<u8> = Vec::new();
    let mut j: usize = 0;
    proof {
        assert(4 * (width as int) * (height as int) == 4 * ((width as int) * (height as int)))
            by (nonlinear_arith);
    }
    let bytes: usize = 4 * total;
    while j < bytes
        invariant
            j <= bytes,
            bytes == 4 * (width as int) * (height as int),
            n == lsb_data@.len(),
            channel < 4,
            data@ == visualize_spec(lsb_data@, channel as int, width as nat, height as nat).take(
                j as int,
            ),
        decreases bytes - j,
    {
        let p: usize = j / 4;
        let ch: usize = j % 4;
        proof {
            lemma_fundamental_div_mod(j as int, 4);
            lemma_mod_division_less_than_divisor(j as int, 4);
            lemma_div_pos_is_pos(j as int, 4);
        }
        let b: u8;
        if ch == 3 {
            b = 255;
        } else if p >= n {
            b = 0;
        } else {
            let v: u8 = if lsb_data[p] == 1 {
                255
            } else {
                0
            };
            if channel < 3 {
                b = if ch == channel {
                    v
                } else {
                    0
                };
            } else {
                b = v;
            }
        }
        data.push(b);
        proof {
            assert(data@ =~= visualize_spec(
                lsb_data@,
                channel as int,
                width as nat,
                height as nat,
            ).take(j + 1));
        }
        j = j + 1;
    }
    proof {
        assert(visualize_spec(lsb_data@, channel as int, width as nat, height as nat).take(
            bytes as int,
        ) =~= visualize_spec(lsb_data@, channel as int, width as nat, height as nat));
    }
    PixelGrid { width, height, data }
}

/// Marker type for the bit-plane analyzer.
pub struct LsbAnalyzer;

/// Failure of a bit-plane analysis: a malformed image.
#[derive(Debug)]
pub enum LsbAnalyzerError {
    ImageProcessing(String),
}

/// The per-channel statistics and visualizations of one image.
#[derive(Debug, Clone)]
pub struct LsbAnalysis {
    pub lsb_planes: Vec<PixelGrid>,
    pub chi_square_scores: Vec<u64>,
    pub entropy_scores: Vec<u32>,
    pub suspicious: bool,
}

/// The chi-square threshold (thousandths) above which a channel is flagged.
pub open spec fn chi_square_threshold_milli() -> int {
    100000
}

/// The entropy threshold (thousandths of a bit) above which a channel is
/// flagged.
pub open spec fn entropy_threshold_milli() -> int {
    900
}

/// The analysis is exactly what the bit-plane statistics of the grid give:
/// one chi-square and one entropy score per color channel, and the
/// suspicion flag from the fixed thresholds.
pub open spec fn lsb_ok(g: PixelGrid, a: LsbAnalysis) -> bool {
    &&& a.chi_square_scores@.len() == 3
    &&& a.entropy_scores@.len() == 3
    &&& a.lsb_planes@.len() == 3
    &&& forall|c: int|
        0 <= c < 3 ==> a.chi_square_scores@[c] == seq_chi_square_milli(lsb_plane_spec(g, c))
    &&& forall|c: int| 0 <= c < 3 ==> a.entropy_scores@[c] == seq_entropy_milli(lsb_plane_spec(g, c))
    &&& a.suspicious == (exists|c: int|
        0 <= c < 3 && (a.chi_square_scores@[c] > chi_square_threshold_milli()
            || a.entropy_scores@[c] > entropy_threshold_milli()))
}

impl LsbAnalyzer {
    /// Run the bit-plane statistics over the first three channels of the
    /// grid.  Fails exactly on an image with a zero dimension.
    pub fn analyze(grid: &PixelGrid) -> (r: Result<LsbAnalysis, LsbAnalyzerError>)
        requires
            grid_wf(*grid),
            grid.spec_pixels() < 0x2000_0000,
        ensures
            (grid.width == 0 || grid.height == 0) == (r is Err),
            r matches Err(e) ==> (e matches LsbAnalyzerError::ImageProcessing(m) && m@
                == "Image has a zero dimension"@),
            r matches Ok(a) ==> lsb_ok(*grid, a),
    {
        if grid.width == 0 || grid.height == 0 {
            return Result::Err(
                LsbAnalyzerError::ImageProcessing("Image has a zero dimension".to_owned()),
            );
        }
        proof {
            assert(grid.spec_pixels() >= 1) by (nonlinear_arith)
                requires
                    grid.width >= 1,
                    grid.height >= 1,
            ;
        }
        let mut lsb_planes: Vec<PixelGrid> = Vec::new();
        let mut chi_square_scores: Vec<u64> = Vec::new();
        let mut entropy_scores: Vec<u32> = Vec::new();
        let mut channel: usize = 0;
        while channel < 3
            invariant
                channel <= 3,
                grid_wf(*grid),
                1 <= grid.spec_pixels() < 0x2000_0000,
                chi_square_scores@.len() == channel,
                entropy_scores@.len() == channel,
                lsb_planes@.len() == channel,
                forall|c: int|
                    0 <= c < channel ==> chi_square_scores@[c] == seq_chi_square_milli(
                        lsb_plane_spec(*grid, c),
                    ),
                forall|c: int|
                    0 <= c < channel ==> entropy_scores@[c] == seq_entropy_milli(
                        lsb_plane_spec(*grid, c),
                    ),
            decreases 3 - channel,
        {
            let plane: Vec<u8> = extract_lsb_plane(grid, channel);
            let chi: u64 = calculate_chi_square(plane.as_slice(), channel);
            chi_square_scores.push(chi);
            let ent: u32 = calculate_entropy(plane.as_slice(), channel);
            entropy_scores.push(ent);
            let vis: PixelGrid = visualize_lsb_plane(plane.as_slice(), channel);
            lsb_planes.push(vis);
            channel = channel + 1;
        }
        let mut suspicious: bool = false;
        let mut c: usize = 0;
        while c < 3
            invariant
                c <= 3,
                chi_square_scores@.len() == 3,
                entropy_scores@.len() == 3,
                suspicious == (exists|k: int|
                    0 <= k < c && (chi_square_scores@[k] > chi_square_threshold_milli()
                        || entropy_scores@[k] > entropy_threshold_milli())),
            decreases 3 - c,
        {
            if chi_square_scores[c] > 100000 || entropy_scores[c] > 900 {
                suspicious = true;
            }
            c = c + 1;
        }
        Result::Ok(LsbAnalysis { lsb_planes, chi_square_scores, entropy_scores, suspicious })
    }
}

/// Two analyses of the same pixel grid carry identical chi-square and
/// entropy scores: the statistics are a pure function of the pixels.
pub proof fn lemma_lsb_analysis_deterministic(g: PixelGrid, a1: LsbAnalysis, a2: LsbAnalysis)
    requires
        lsb_ok(g, a1),
        lsb_ok(g, a2),
    ensures
        a1.chi_square_scores@ == a2.chi_square_scores@,
        a1.entropy_scores@ == a2.entropy_scores@,
        a1.suspicious == a2.suspicious,
{
    assert(a1.chi_square_scores@ =~= a2.chi_square_scores@);
    assert(a1.entropy_scores@ =~= a2.entropy_scores@);
}

} // verus!
