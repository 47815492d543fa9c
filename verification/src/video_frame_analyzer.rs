//! Frame-sampling heuristics for video: the bit-plane statistics of sampled
//! frames plus histogram and edge-density detectors, and the aggregation of
//! flagged frames over a whole stream.

use vstd::prelude::*;
use vstd::arithmetic::div_mod::*;
use crate::bitstats::{count_val, lemma_count_val_le, seq_chi_square_milli, seq_entropy_milli};
use crate::lsb_analyzer::{
    calculate_chi_square, calculate_entropy, extract_lsb_plane, grid_wf, lsb_plane_spec, PixelGrid,
};

verus! {

/// Marker type for the per-frame analyzer.
pub struct VideoFrameAnalyzer;

/// Failure of a frame analysis: a malformed frame.
#[derive(Debug)]
pub enum VideoFrameAnalyzerError {
    FrameProcessing(String),
}

/// The statistics of one sampled frame.
#[derive(Debug, Clone)]
pub struct VideoFrameAnalysis {
    pub frame_index: usize,
    pub lsb_suspicious: bool,
    pub chi_square_scores: Vec<u64>,
    pub entropy_scores: Vec<u32>,
    pub histogram_anomalies: bool,
    pub edge_density_milli: u32,
}

/// The samples of one channel, in row-major pixel order.
pub open spec fn channel_seq(g: PixelGrid, c: int) -> Seq<u8> {
    Seq::new((g.spec_pixels()) as nat, |i: int| g.data@[4 * i + c])
}

/// The sum of all 256 histogram bins of one channel, up to bin `vn`.
pub open spec fn hist_sum(g: PixelGrid, c: int, vn: int) -> int
    decreases vn,
{
    if vn <= 0 {
        0
    } else {
        hist_sum(g, c, vn - 1) + count_val(channel_seq(g, c), (vn - 1) as u8, (
        g.spec_pixels()) as nat)
    }
}

/// One channel's histogram has the paired-value or spike anomaly: some bin
/// exceeds ten times the mean bin count, or some even/odd bin pair differs
/// by more than three times the mean.
pub open spec fn hist_anomalous(g: PixelGrid, c: int) -> bool {
    let pixels = (g.spec_pixels()) as nat;
    let avg = hist_sum(g, c, 256) / 256;
    ||| exists|v: int|
        0 <= v < 256 && #[trigger] count_val(channel_seq(g, c), v as u8, pixels) > 10 * avg
    ||| exists|i: int|
        0 <= i < 128 && abs_diff(
            #[trigger] count_val(channel_seq(g, c), (2 * i) as u8, pixels) as int,
            count_val(channel_seq(g, c), (2 * i + 1) as u8, pixels) as int,
        ) > 3 * avg
}

/// The absolute difference of two integers.
pub open spec fn abs_diff(a: int, b: int) -> int {
    if a >= b {
        a - b
    } else {
        b - a
    }
}

/// Any of the first three channels' histograms is anomalous.
pub open spec fn spec_histogram_anomalies(g: PixelGrid) -> bool {
    hist_anomalous(g, 0) || hist_anomalous(g, 1) || hist_anomalous(g, 2)
}

fn channel_histogram(grid: &PixelGrid, c: usize) -> (bins: Vec<usize>)
    requires
        grid_wf(*grid),
        c < 4,
        grid.spec_pixels() < 0x2000_0000,
    ensures
        bins@.len() == 256,
        forall|v: int|
            0 <= v < 256 ==> bins@[v] == count_val(
                channel_seq(*grid, c as int),
                v as u8,
                (grid.spec_pixels()) as nat,
            ),
{
    let len: usize = grid.data.len();
    let pixels: usize = len / 4;
    proof {
        assert(grid.spec_pixels() >= 0) by (nonlinear_arith)
            requires
                grid.width >= 0,
                grid.height >= 0,
        ;
        assert(4 * (grid.width as int) * (grid.height as int) == 4 * grid.spec_pixels())
            by (nonlinear_arith);
        lemma_div_multiples_vanish(grid.spec_pixels(), 4);
        assert(pixels == grid.spec_pixels());
    }
    let mut bins: Vec<usize> = Vec::new();
    let mut v: usize = 0;
    while v < 256
        invariant
            v <= 256,
            bins@.len() == v,
            forall|k: int| 0 <= k < v ==> bins@[k] == 0,
        decreases 256 - v,
    {
        bins.push(0);
        v = v + 1;
    }
    let mut i: usize = 0;
    proof {
        assert(forall|k: int|
            0 <= k < 256 ==> #[trigger] count_val(channel_seq(*grid, c as int), k as u8, 0) == 0);
    }
    while i < pixels
        invariant
            i <= pixels,
            pixels == grid.spec_pixels(),
            len == grid.data@.len() == 4 * grid.spec_pixels(),
            c < 4,
            bins@.len() == 256,
            forall|k: int|
                0 <= k < 256 ==> bins@[k] == count_val(
                    channel_seq(*grid, c as int),
                    k as u8,
                    i as nat,
                ),
        decreases pixels - i,
    {
        let b: u8 = grid.data[4 * i + c];
        proof {
            assert(channel_seq(*grid, c as int)[i as int] == b);
            lemma_count_val_le(channel_seq(*grid, c as int), b, i as nat);
            assert(forall|k: int|
                0 <= k < 256 ==> #[trigger] count_val(
                    channel_seq(*grid, c as int),
                    k as u8,
                    (i + 1) as nat,
                ) == count_val(channel_seq(*grid, c as int), k as u8, i as nat) + (if k as u8
                    == b {
                    1nat
                } else {
                    0nat
                }));
        }
        let old_count: usize = bins[b as usize];
        bins.set(b as usize, old_count + 1);
        i = i + 1;
    }
    bins
}

fn channel_anomalous(grid: &PixelGrid, c: usize) -> (r: bool)
    requires
        grid_wf(*grid),
        c < 4,
        grid.spec_pixels() < 0x2000_0000,
    ensures
        r == hist_anomalous(*grid, c as int),
{
    let bins: Vec<usize> = channel_histogram(grid, c);
    // mean bin count
    let mut sum: u64 = 0;
    let mut v: usize = 0;
    proof {
        assert forall|k: int| 0 <= k < 256 implies #[trigger] count_val(
            channel_seq(*grid, c as int),
            k as u8,
            (grid.spec_pixels()) as nat,
        ) <= grid.spec_pixels() by {
            lemma_count_val_le(channel_seq(*grid, c as int), k as u8, (grid.spec_pixels()) as nat);
        };
    }
    while v < 256
        invariant
            v <= 256,
            bins@.len() == 256,
            grid.spec_pixels() < 0x2000_0000,
            forall|k: int|
                0 <= k < 256 ==> bins@[k] == count_val(
                    channel_seq(*grid, c as int),
                    k as u8,
                    (grid.spec_pixels()) as nat,
                ),
            forall|k: int| 0 <= k < 256 ==> bins@[k] <= grid.spec_pixels(),
            sum == hist_sum(*grid, c as int, v as int),
            sum <= (v as int) * 0x2000_0000,
        decreases 256 - v,
    {
        proof {
            assert((v as int) * 0x2000_0000 + 0x2000_0000 == ((v + 1) as int) * 0x2000_0000)
                by (nonlinear_arith);
            assert((v as int) * 0x2000_0000 <= 256 * 0x2000_0000) by (nonlinear_arith)
                requires
                    0 <= v <= 256,
            ;
        }
        sum = sum + (bins[v] as u64);
        v = v + 1;
    }
    let avg: u64 = sum / 256;
    proof {
        lemma_div_nonincreasing(sum as int, 256);
    }
    // a single dominant bin
    let mut spike: bool = false;
    let mut k: usize = 0;
    while k < 256
        invariant
            k <= 256,
            bins@.len() == 256,
            avg <= 0x20_0000_0000,
            avg == hist_sum(*grid, c as int, 256) / 256,
            forall|j: int|
                0 <= j < 256 ==> bins@[j] == count_val(
                    channel_seq(*grid, c as int),
                    j as u8,
                    (grid.spec_pixels()) as nat,
                ),
            spike == (exists|j: int|
                0 <= j < k && #[trigger] count_val(
                    channel_seq(*grid, c as int),
                    j as u8,
                    (grid.spec_pixels()) as nat,
                ) > 10 * (avg as int)),
        decreases 256 - k,
    {
        if (bins[k] as u64) > 10 * avg {
            spike = true;
        }
        k = k + 1;
    }
    // paired even/odd bins far apart
    let mut paired: bool = false;
    let mut p: usize = 0;
    while p < 128
        invariant
            p <= 128,
            bins@.len() == 256,
            avg <= 0x20_0000_0000,
            avg == hist_sum(*grid, c as int, 256) / 256,
            forall|j: int|
                0 <= j < 256 ==> bins@[j] == count_val(
                    channel_seq(*grid, c as int),
                    j as u8,
                    (grid.spec_pixels()) as nat,
                ),
            paired == (exists|j: int|
                0 <= j < p && abs_diff(
                    #[trigger] count_val(
                        channel_seq(*grid, c as int),
                        (2 * j) as u8,
                        (grid.spec_pixels()) as nat,
                    ) as int,
                    count_val(
                        channel_seq(*grid, c as int),
                        (2 * j + 1) as u8,
                        (grid.spec_pixels()) as nat,
                    ) as int,
                ) > 3 * (avg as int)),
        decreases 128 - p,
    {
        let even: usize = bins[2 * p];
        let odd: usize = bins[2 * p + 1];
        let diff: u64 = if even >= odd {
            (even - odd) as u64
        } else {
            (odd - even) as u64
        };
        if diff > 3 * avg {
            proof {
                assert(abs_diff(bins@[2 * (p as int)] as int, bins@[2 * (p as int) + 1] as int) > 3
                    * (avg as int));
            }
            paired = true;
        }
        p = p + 1;
    }
    spike || paired
}

/// Whether any of the first three channels has an anomalous histogram.
pub fn detect_histogram_anomalies(grid: &PixelGrid) -> (r: bool)
    requires
        grid_wf(*grid),
        grid.spec_pixels() < 0x2000_0000,
    ensures
        r == spec_histogram_anomalies(*grid),
{
    let a0: bool = channel_anomalous(grid, 0);
    let a1: bool = channel_anomalous(grid, 1);
    let a2: bool = channel_anomalous(grid, 2);
    a0 || a1 || a2
}

/// The sample of channel `c` of the pixel at column `x`, row `y`.
pub open spec fn sample(g: PixelGrid, x: int, y: int, c: int) -> u8 {
    g.data@[4 * (y * (g.width as int) + x) + c]
}

/// An interior pixel whose gradient magnitude exceeds 30 in some channel:
/// the squared horizontal plus vertical neighbor differences pass 900.
pub open spec fn is_edge_at(g: PixelGrid, x: int, y: int) -> bool {
    exists|c: int|
        0 <= c < 3 && {
            let gx = abs_diff(
                #[trigger] sample(g, x + 1, y, c) as int,
                sample(g, x - 1, y, c) as int,
            );
            let gy = abs_diff(sample(g, x, y + 1, c) as int, sample(g, x, y - 1, c) as int);
            gx * gx + gy * gy > 900
        }
}

/// The number of edge pixels in row `y` among columns 1..xn.
pub open spec fn edge_row_count(g: PixelGrid, y: int, xn: int) -> int
    decreases xn,
{
    if xn <= 1 {
        0
    } else {
        edge_row_count(g, y, xn - 1) + if is_edge_at(g, xn - 1, y) {
            1int
        } else {
            0int
        }
    }
}

/// The number of edge pixels in rows 1..yn.
pub open spec fn edge_count_rows(g: PixelGrid, yn: int) -> int
    decreases yn,
{
    if yn <= 1 {
        0
    } else {
        edge_count_rows(g, yn - 1) + edge_row_count(g, yn - 1, (g.width as int) - 1)
    }
}

/// The edge density of the frame in thousandths: interior edge pixels over
/// all pixels.
pub open spec fn spec_edge_density_milli(g: PixelGrid) -> int {
    edge_count_rows(g, (g.height as int) - 1) * 1000 / g.spec_pixels()
}

proof fn lemma_edge_row_le(g: PixelGrid, y: int, xn: int)
    ensures
        0 <= edge_row_count(g, y, xn) <= if xn <= 1 {
            0int
        } else {
            xn - 1
        },
    decreases xn,
{
    if xn > 1 {
        lemma_edge_row_le(g, y, xn - 1);
    }
}

proof fn lemma_edge_count_le(g: PixelGrid, yn: int)
    requires
        g.width >= 1,
    ensures
        0 <= edge_count_rows(g, yn) <= if yn <= 1 {
            0int
        } else {
            (yn - 1) * (g.width as int)
        },
    decreases yn,
{
    if yn > 1 {
        lemma_edge_count_le(g, yn - 1);
        lemma_edge_row_le(g, yn - 1, (g.width as int) - 1);
        assert((yn - 2) * (g.width as int) + (g.width as int) == (yn - 1) * (g.width as int))
            by (nonlinear_arith);
    }
}

/// Edge density of the frame in thousandths.
pub fn calculate_edge_density(grid: &PixelGrid) -> (r: u32)
    requires
        grid_wf(*grid),
        1 <= grid.width,
        1 <= grid.height,
        grid.spec_pixels() < 0x2000_0000,
    ensures
        r == spec_edge_density_milli(*grid),
        r <= 1000,
{
    let w: usize = grid.width;
    let h: usize = grid.height;
    proof {
        assert(grid.spec_pixels() >= 1) by (nonlinear_arith)
            requires
                grid.width >= 1,
                grid.height >= 1,
        ;
    }
    let mut count: usize = 0;
    let mut y: usize = 1;
    if h >= 2 && w >= 2 {
        while y < h - 1
            invariant
                1 <= y <= h - 1,
                2 <= w,
                2 <= h,
                w == grid.width,
                h == grid.height,
                grid_wf(*grid),
                grid.spec_pixels() < 0x2000_0000,
                count == edge_count_rows(*grid, y as int),
                count <= (y - 1) * (w as int),
            decreases h - 1 - y,
        {
            let mut x: usize = 1;
            let ghost row_base: int = count as int;
            while x < w - 1
                invariant
                    1 <= x <= w - 1,
                    2 <= w,
                    2 <= h,
                    1 <= y <= h - 2,
                    w == grid.width,
                    h == grid.height,
                    grid_wf(*grid),
                    grid.spec_pixels() < 0x2000_0000,
                    count == row_base + edge_row_count(*grid, y as int, x as int),
                    count <= (y - 1) * (w as int) + (x - 1),
                decreases w - 1 - x,
            {
                proof {
                    lemma_pixel_index_bounds(*grid, x as int, y as int);
                    lemma_pixel_index_bounds(*grid, x as int + 1, y as int);
                    lemma_pixel_index_bounds(*grid, x as int - 1, y as int);
                    lemma_pixel_index_bounds(*grid, x as int, y as int + 1);
                    lemma_pixel_index_bounds(*grid, x as int, y as int - 1);
                }
                let mut edge: bool = false;
                let mut c: usize = 0;
                while c < 3
                    invariant
                        c <= 3,
                        w == grid.width,
                        h == grid.height,
                        1 <= x <= (grid.width as int) - 2,
                        1 <= y <= (grid.height as int) - 2,
                        grid_wf(*grid),
                        grid.spec_pixels() < 0x2000_0000,
                        edge == (exists|k: int|
                            0 <= k < c && {
                                let gx = abs_diff(
                                    #[trigger] sample(*grid, x as int + 1, y as int, k) as int,
                                    sample(*grid, x as int - 1, y as int, k) as int,
                                );
                                let gy = abs_diff(
                                    sample(*grid, x as int, y as int + 1, k) as int,
                                    sample(*grid, x as int, y as int - 1, k) as int,
                                );
                                gx * gx + gy * gy > 900
                            }),
                    decreases 3 - c,
                {
                    let glen: usize = grid.data.len();
                    proof {
                        lemma_pixel_index_bounds(*grid, x as int, y as int);
                        lemma_pixel_index_bounds(*grid, x as int + 1, y as int);
                        lemma_pixel_index_bounds(*grid, x as int - 1, y as int);
                        lemma_pixel_index_bounds(*grid, x as int, y as int + 1);
                        lemma_pixel_index_bounds(*grid, x as int, y as int - 1);
                        assert(grid.data@.len() <= usize::MAX);
                    }
                    let right: u8 = grid.data[4 * (y * w + x + 1) + c];
                    let left: u8 = grid.data[4 * (y * w + x - 1) + c];
                    let below: u8 = grid.data[4 * ((y + 1) * w + x) + c];
                    let above: u8 = grid.data[4 * ((y - 1) * w + x) + c];
                    let gx: u32 = if right >= left {
                        (right - left) as u32
                    } else {
                        (left - right) as u32
                    };
                    let gy: u32 = if below >= above {
                        (below - above) as u32
                    } else {
                        (above - below) as u32
                    };
                    proof {
                        assert(gx <= 255 && gy <= 255);
                        assert(gx * gx <= 65025 && gy * gy <= 65025) by (nonlinear_arith)
                            requires
                                gx <= 255,
                                gy <= 255,
                        ;
                    }
                    if gx * gx + gy * gy > 900 {
                        proof {
                            assert(sample(*grid, x as int + 1, y as int, c as int) == right);
                            assert(sample(*grid, x as int - 1, y as int, c as int) == left);
                            assert(sample(*grid, x as int, y as int + 1, c as int) == below);
                            assert(sample(*grid, x as int, y as int - 1, c as int) == above);
                        }
                        edge = true;
                    }
                    c = c + 1;
                }
                if edge {
                    proof {
                        assert(count + 1 <= grid.spec_pixels()) by (nonlinear_arith)
                            requires
                                count <= (y - 1) * (w as int) + (x - 1),
                                1 <= x <= (w as int) - 2,
                                1 <= y <= (h as int) - 2,
                                w >= 2,
                                h >= 2,
                                grid.spec_pixels() == (w as int) * (h as int),
                                w == grid.width,
                                h == grid.height,
                        ;
                    }
                    count = count + 1;
                }
                x = x + 1;
            }
            proof {
                assert(count <= (y as int) * (w as int)) by (nonlinear_arith)
                    requires
                        count <= (y - 1) * (w as int) + (w as int) - 2,
                        w >= 2,
                        y >= 1,
                ;
            }
            y = y + 1;
        }
    }
    proof {
        if h >= 2 && w >= 2 {
            assert(count == edge_count_rows(*grid, (h - 1) as int));
        } else {
            assert(edge_count_rows(*grid, (h - 1) as int) == 0) by {
                lemma_edge_count_le(*grid, (h - 1) as int);
                if h >= 2 {
                    // w == 1: every row count is over columns 1..0, so 0
                    lemma_edge_rows_zero_width(*grid, (h - 1) as int);
                }
            };
            assert(count == edge_count_rows(*grid, (h - 1) as int));
        }
        lemma_edge_count_le(*grid, (h - 1) as int);
        assert((h - 2) * (w as int) < grid.spec_pixels()) by (nonlinear_arith)
            requires
                w == grid.width,
                h == grid.height,
                w >= 1,
                h >= 1,
                grid.spec_pixels() == (grid.width as int) * (grid.height as int),
        ;
    }
    let total: usize = grid.data.len() / 4;
    proof {
        assert(4 * (grid.width as int) * (grid.height as int) == 4 * grid.spec_pixels())
            by (nonlinear_arith);
        lemma_div_multiples_vanish(grid.spec_pixels(), 4);
        assert(total == grid.spec_pixels());
    }
    let dens: u64 = (count as u64) * 1000 / (total as u64);
    proof {
        lemma_div_pos_is_pos((count as int) * 1000, total as int);
        assert((count as int) * 1000 <= 1000 * (total as int)) by (nonlinear_arith)
            requires
                count <= total,
        ;
        lemma_div_is_ordered((count as int) * 1000, 1000 * (total as int), total as int);
        lemma_div_multiples_vanish(1000, total as int);
    }
    dens as u32
}

proof fn lemma_edge_rows_zero_width(g: PixelGrid, yn: int)
    requires
        g.width <= 1,
    ensures
        edge_count_rows(g, yn) == 0,
    decreases yn,
{
    if yn > 1 {
        lemma_edge_rows_zero_width(g, yn - 1);
    }
}

proof fn lemma_pixel_index_bounds(g: PixelGrid, x: int, y: int)
    requires
        grid_wf(g),
        0 <= x <= (g.width as int) - 1,
        0 <= y <= (g.height as int) - 1,
    ensures
        0 <= 4 * (y * (g.width as int) + x),
        4 * (y * (g.width as int) + x) + 4 <= g.data@.len(),
{
    let w = g.width as int;
    let h = g.height as int;
    assert(y * w + x >= 0) by (nonlinear_arith)
        requires
            y >= 0,
            w >= 0,
            x >= 0,
    ;
    assert(y * w + x <= w * h - 1) by (nonlinear_arith)
        requires
            0 <= x <= w - 1,
            0 <= y <= h - 1,
            w >= 1,
            h >= 1,
    ;
    assert(4 * (y * w + x) + 4 <= 4 * (w * h)) by (nonlinear_arith)
        requires
            y * w + x <= w * h - 1,
    ;
    assert(4 * w * h == 4 * (w * h)) by (nonlinear_arith);
}

/// The frame analysis is exactly the statistics of the grid: per-channel
/// chi-square and entropy with the bit-plane suspicion rule, the histogram
/// anomaly flag and the edge density.
pub open spec fn frame_ok(g: PixelGrid, a: VideoFrameAnalysis) -> bool {
    &&& a.frame_index == 0
    &&& a.chi_square_scores@.len() == 3
    &&& a.entropy_scores@.len() == 3
    &&& forall|c: int|
        0 <= c < 3 ==> a.chi_square_scores@[c] == seq_chi_square_milli(lsb_plane_spec(g, c))
    &&& forall|c: int| 0 <= c < 3 ==> a.entropy_scores@[c] == seq_entropy_milli(lsb_plane_spec(g, c))
    &&& a.lsb_suspicious == (exists|c: int|
        0 <= c < 3 && (a.chi_square_scores@[c] > 100000 || a.entropy_scores@[c] > 900))
    &&& a.histogram_anomalies == spec_histogram_anomalies(g)
    &&& a.edge_density_milli == spec_edge_density_milli(g)
}

impl VideoFrameAnalyzer {
    /// Run the bit-plane, histogram and edge statistics over one frame.
    /// Fails exactly on a frame with a zero dimension.
    pub fn analyze(grid: &PixelGrid) -> (r: Result<VideoFrameAnalysis, VideoFrameAnalyzerError>)
        requires
            grid_wf(*grid),
            grid.spec_pixels() < 0x2000_0000,
        ensures
            (grid.width == 0 || grid.height == 0) == (r is Err),
            r matches Err(e) ==> (e matches VideoFrameAnalyzerError::FrameProcessing(m) && m@
                == "Frame has a zero dimension"@),
            r matches Ok(a) ==> frame_ok(*grid, a),
    {
        if grid.width == 0 || grid.height == 0 {
            return Result::Err(
                VideoFrameAnalyzerError::FrameProcessing("Frame has a zero dimension".to_owned()),
            );
        }
        let mut chi_square_scores: Vec<u64> = Vec::new();
        let mut entropy_scores: Vec<u32> = Vec::new();
        let mut channel: usize = 0;
        while channel < 3
            invariant
                channel <= 3,
                grid_wf(*grid),
                grid.spec_pixels() < 0x2000_0000,
                chi_square_scores@.len() == channel,
                entropy_scores@.len() == channel,
                forall|c: int|
                    0 <= c < channel ==> chi_square_scores@[c] == seq_chi_square_milli(
                        lsb_plane_spec(*grid, c),
                    ),
                forall|c: int|
                    0 <= c < channel ==> entropy_scores@[c] == seq_entropy_milli(
                        lsb_plane_spec(*grid, c),
                    ),
            decreases 3 - channel,
        {
            let plane: Vec<u8> = extract_lsb_plane(grid, channel);
            let chi: u64 = calculate_chi_square(plane.as_slice(), channel);
            chi_square_scores.push(chi);
            let ent: u32 = calculate_entropy(plane.as_slice(), channel);
            entropy_scores.push(ent);
            channel = channel + 1;
        }
        let mut lsb_suspicious: bool = false;
        let mut c: usize = 0;
        while c < 3
            invariant
                c <= 3,
                chi_square_scores@.len() == 3,
                entropy_scores@.len() == 3,
                lsb_suspicious == (exists|k: int|
                    0 <= k < c && (chi_square_scores@[k] > 100000 || entropy_scores@[k] > 900)),
            decreases 3 - c,
        {
            if chi_square_scores[c] > 100000 || entropy_scores[c] > 900 {
                lsb_suspicious = true;
            }
            c = c + 1;
        }
        let histogram_anomalies: bool = detect_histogram_anomalies(grid);
        let edge_density_milli: u32 = calculate_edge_density(grid);
        let result = VideoFrameAnalysis {
            frame_index: 0,
            lsb_suspicious,
            chi_square_scores,
            entropy_scores,
            histogram_anomalies,
            edge_density_milli,
        };
        proof {
            assert(frame_ok(*grid, result));
        }
        Result::Ok(result)
    }
}

/// The aggregate of a frame-sampling pass over one video.
#[derive(Debug, Clone)]
pub struct FrameSampleSummary {
    pub frames_processed: usize,
    pub frames_sampled: usize,
    pub flagged_frame_indices: Vec<usize>,
    pub average_entropy_milli: u32,
    pub decode_errors: usize,
}

/// Accumulates per-frame results over a decoded video stream: every `Nth`
/// frame is sampled, flagged frames are recorded, entropy is averaged over
/// the sampled frames, and decode failures are counted without aborting.
#[derive(Debug, Clone)]
pub struct FrameSampler {
    pub sample_rate: usize,
    pub frames_processed: usize,
    pub frames_sampled: usize,
    pub flagged_frame_indices: Vec<usize>,
    pub total_entropy_milli: u64,
    pub decode_errors: usize,
}

impl FrameSampler {
    /// A fresh sampler that analyzes every `sample_rate`-th frame.
    pub fn new(sample_rate: usize) -> (r: FrameSampler)
        requires
            sample_rate >= 1,
        ensures
            r.sample_rate == sample_rate,
            r.frames_processed == 0,
            r.frames_sampled == 0,
            r.flagged_frame_indices@ == Seq::<usize>::empty(),
            r.total_entropy_milli == 0,
            r.decode_errors == 0,
    {
        FrameSampler {
            sample_rate,
            frames_processed: 0,
            frames_sampled: 0,
            flagged_frame_indices: Vec::new(),
            total_entropy_milli: 0,
            decode_errors: 0,
        }
    }

    /// Whether the frame at this index is one of the sampled frames.
    pub fn wants_frame(&self, index: usize) -> (r: bool)
        requires
            self.sample_rate >= 1,
        ensures
            r == (index as int % self.sample_rate as int == 0),
    {
        index % self.sample_rate == 0
    }

    /// Count one successfully decoded frame.
    pub fn on_frame(&mut self)
        requires
            old(self).frames_processed < usize::MAX,
        ensures
            *final(self) == (FrameSampler {
                frames_processed: (old(self).frames_processed + 1) as usize,
                ..*old(self)
            }),
    {
        self.frames_processed = self.frames_processed + 1;
    }

    /// Record the analysis of one sampled frame: its mean channel entropy
    /// joins the running total, and a frame with a bit-plane or histogram
    /// anomaly is flagged by its index.
    pub fn on_sampled(&mut self, index: usize, analysis: &VideoFrameAnalysis)
        requires
            analysis.entropy_scores@.len() == 3,
            forall|c: int| 0 <= c < 3 ==> old(self).entropy_in_range(#[trigger] analysis.entropy_scores@[c]),
            old(self).frames_sampled < usize::MAX,
            old(self).total_entropy_milli <= 0xffff_ffff_ffff_f000,
        ensures
            final(self).sample_rate == old(self).sample_rate,
            final(self).frames_processed == old(self).frames_processed,
            final(self).decode_errors == old(self).decode_errors,
            final(self).frames_sampled == old(self).frames_sampled + 1,
            final(self).total_entropy_milli == old(self).total_entropy_milli + (
            analysis.entropy_scores@[0] + analysis.entropy_scores@[1]
                + analysis.entropy_scores@[2]) as int / 3,
            final(self).flagged_frame_indices@ == (if analysis.lsb_suspicious
                || analysis.histogram_anomalies {
                old(self).flagged_frame_indices@.push(index)
            } else {
                old(self).flagged_frame_indices@
            }),
    {
        let avg: u32 = (analysis.entropy_scores[0] + analysis.entropy_scores[1]
            + analysis.entropy_scores[2]) / 3;
        self.total_entropy_milli = self.total_entropy_milli + (avg as u64);
        self.frames_sampled = self.frames_sampled + 1;
        if analysis.lsb_suspicious || analysis.histogram_anomalies {
            self.flagged_frame_indices.push(index);
        }
    }

    /// A score is a clamped entropy value.
    pub open spec fn entropy_in_range(self, e: u32) -> bool {
        e <= 1000
    }

    /// Count one frame that failed to decode; the pass goes on.
    pub fn on_decode_error(&mut self)
        requires
            old(self).decode_errors < usize::MAX,
        ensures
            *final(self) == (FrameSampler {
                decode_errors: (old(self).decode_errors + 1) as usize,
                ..*old(self)
            }),
    {
        self.decode_errors = self.decode_errors + 1;
    }

    /// Close the pass: the average entropy is the running total over the
    /// number of sampled frames, 0 where nothing was sampled.
    pub fn finish(self) -> (r: FrameSampleSummary)
        requires
            self.total_entropy_milli <= 1000 * (self.frames_sampled as int),
        ensures
            r.frames_processed == self.frames_processed,
            r.frames_sampled == self.frames_sampled,
            r.flagged_frame_indices@ == self.flagged_frame_indices@,
            r.decode_errors == self.decode_errors,
            r.average_entropy_milli == (if self.frames_sampled == 0 {
                0int
            } else {
                self.total_entropy_milli as int / (self.frames_sampled as int)
            }),
    {
        let average_entropy_milli: u32 = if self.frames_sampled == 0 {
            0
        } else {
            proof {
                lemma_div_pos_is_pos(
                    self.total_entropy_milli as int,
                    self.frames_sampled as int,
                );
                lemma_div_is_ordered(
                    self.total_entropy_milli as int,
                    1000 * (self.frames_sampled as int),
                    self.frames_sampled as int,
                );
                lemma_div_multiples_vanish(1000, self.frames_sampled as int);
            }
            (self.total_entropy_milli / (self.frames_sampled as u64)) as u32
        };
        FrameSampleSummary {
            frames_processed: self.frames_processed,
            frames_sampled: self.frames_sampled,
            flagged_frame_indices: self.flagged_frame_indices,
            average_entropy_milli,
            decode_errors: self.decode_errors,
        }
    }
}

} // verus!
