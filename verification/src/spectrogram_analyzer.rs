//! Spectral pattern analysis of audio: high-frequency energy of a windowed
//! FFT magnitude grid, persistent-tone, edge-density and energy-spike
//! detectors, and a grayscale visualization.  The grid arrives as fixed
//! point magnitudes in thousandths; the fixed analysis parameters assume a
//! 44100 Hz source, a known limitation of the original pipeline.

use vstd::prelude::*;
use vstd::arithmetic::div_mod::*;
use vstd::string::StringExecFns;
use crate::bitstats::{log2x1024, log2x1024_exec};
use crate::strutil::{dec_chars, usize_to_dec_string};

verus! {

/// Marker type for the spectral analyzer.
pub struct SpectrogramAnalyzer;

/// Failure of a spectral analysis.
#[derive(Debug)]
pub enum SpectrogramAnalyzerError {
    AudioProcessing(String),
    FFTError(String),
}

/// A grayscale image as a plain buffer, one byte per pixel, row-major.
#[derive(Debug, Clone)]
pub struct GrayGrid {
    pub width: usize,
    pub height: usize,
    pub data: Vec<u8>,
}

/// The spectral findings of one audio stream.
#[derive(Debug, Clone)]
pub struct SpectrogramData {
    pub spectrogram_image: GrayGrid,
    pub high_frequency_energy_milli: u32,
    pub suspicious_patterns: Vec<String>,
    pub has_hidden_message: bool,
}

/// The magnitude rows of the grid.
pub open spec fn rows(g: Seq<Vec<u64>>) -> Seq<Seq<u64>> {
    g.map_values(|r: Vec<u64>| r@)
}

/// Every row holds the same number of frequency bins.
pub open spec fn grid_rect(s: Seq<Seq<u64>>, bins: nat) -> bool {
    forall|i: int| 0 <= i < s.len() ==> (#[trigger] s[i]).len() == bins
}

/// Every magnitude is below the fixed-point bound.
pub open spec fn grid_bounded(s: Seq<Seq<u64>>) -> bool {
    forall|i: int, j: int|
        0 <= i < s.len() && 0 <= j < s[i].len() ==> #[trigger] s[i][j] < 0x1_0000_0000
}

/// The sum of squared magnitudes of one row from bin `from` up to `to`.
pub open spec fn row_energy(row: Seq<u64>, from: int, to: int) -> int
    decreases to - from,
{
    if from >= to {
        0
    } else {
        row_energy(row, from, to - 1) + (row[to - 1] as int) * (row[to - 1] as int)
    }
}

/// The energy of the first `n` rows, each from bin `from` on.
pub open spec fn grid_energy(s: Seq<Seq<u64>>, n: int, from: int) -> int
    decreases n,
{
    if n <= 0 {
        0
    } else {
        grid_energy(s, n - 1, from) + row_energy(s[n - 1], from, s[n - 1].len() as int)
    }
}

/// The first bin at or above the 15 kHz cutoff for a 44100 Hz source:
/// `15000 / (44100 / (2 * bins))`.
pub open spec fn spec_start_bin(bins: int) -> int {
    30000 * bins / 44100
}

/// The share of squared magnitude above the cutoff, in thousandths; 0 when
/// the grid carries no energy.
pub open spec fn spec_hf_energy_milli(s: Seq<Seq<u64>>, bins: int) -> int {
    let total = grid_energy(s, s.len() as int, 0);
    let hf = grid_energy(s, s.len() as int, spec_start_bin(bins));
    if total == 0 {
        0
    } else {
        hf * 1000 / total
    }
}

proof fn lemma_row_energy_bounds(row: Seq<u64>, from: int, to: int)
    requires
        forall|j: int| 0 <= j < row.len() ==> #[trigger] row[j] < 0x1_0000_0000,
        to <= row.len(),
        0 <= from,
    ensures
        0 <= row_energy(row, from, to) <= (if to - from >= 0 {
            (to - from) * 0x1_0000_0000_0000_0000
        } else {
            0int
        }),
    decreases to - from,
{
    if from < to {
        lemma_row_energy_bounds(row, from, to - 1);
        assert((row[to - 1] as int) * (row[to - 1] as int) < 0x1_0000_0000_0000_0000)
            by (nonlinear_arith)
            requires
                0 <= (row[to - 1] as int) < 0x1_0000_0000,
        ;
        assert((to - 1 - from) * 0x1_0000_0000_0000_0000 + 0x1_0000_0000_0000_0000 == (to - from)
            * 0x1_0000_0000_0000_0000) by (nonlinear_arith);
    }
}

proof fn lemma_grid_energy_bounds(s: Seq<Seq<u64>>, n: int, from: int, bins: int)
    requires
        grid_rect(s, bins as nat),
        grid_bounded(s),
        0 <= n <= s.len(),
        0 <= from,
        0 <= bins,
    ensures
        0 <= grid_energy(s, n, from) <= n * bins * 0x1_0000_0000_0000_0000,
    decreases n,
{
    if n > 0 {
        lemma_grid_energy_bounds(s, n - 1, from, bins);
        lemma_row_energy_bounds(s[n - 1], from, s[n - 1].len() as int);
        assert(row_energy(s[n - 1], from, bins) <= bins * 0x1_0000_0000_0000_0000)
            by (nonlinear_arith)
            requires
                row_energy(s[n - 1], from, bins) <= (if bins - from >= 0 {
                    (bins - from) * 0x1_0000_0000_0000_0000
                } else {
                    0int
                }),
                0 <= from,
                0 <= bins,
        ;
        assert((n - 1) * bins * 0x1_0000_0000_0000_0000 + bins * 0x1_0000_0000_0000_0000 == n
            * bins * 0x1_0000_0000_0000_0000) by (nonlinear_arith);
    }
}

/// The grid's energy in one row from a starting bin, without overflow.
fn row_energy_exec(row: &Vec<u64>, from: usize) -> (r: u128)
    requires
        forall|j: int| 0 <= j < row@.len() ==> #[trigger] row@[j] < 0x1_0000_0000,
        row@.len() < 0x1_0000_0000,
    ensures
        r == row_energy(row@, from as int, row@.len() as int),
{
    let n: usize = row.len();
    let start: usize = if from > n {
        n
    } else {
        from
    };
    proof {
        if from > n {
            lemma_row_energy_empty(row@, from as int, n as int);
        }
    }
    let mut r: u128 = 0;
    let mut j: usize = start;
    proof {
        lemma_row_energy_bounds(row@, from as int, j as int);
    }
    while j < n
        invariant
            start <= j <= n == row@.len(),
            n < 0x1_0000_0000,
            from as int <= j || (from > n && j == n),
            forall|k: int| 0 <= k < row@.len() ==> #[trigger] row@[k] < 0x1_0000_0000,
            r == row_energy(row@, from as int, j as int),
            r <= (j as int) * 0x1_0000_0000_0000_0000,
        decreases n - j,
    {
        let m: u64 = row[j];
        proof {
            assert((m as u128) * (m as u128) < 0x1_0000_0000_0000_0000) by (nonlinear_arith)
                requires
                    (m as u128) < 0x1_0000_0000,
            ;
            assert((j as int) * 0x1_0000_0000_0000_0000 + 0x1_0000_0000_0000_0000 == ((j + 1) as int)
                * 0x1_0000_0000_0000_0000) by (nonlinear_arith);
            assert(((j + 1) as int) * 0x1_0000_0000_0000_0000 <= 0x1_0000_0000
                * 0x1_0000_0000_0000_0000) by (nonlinear_arith)
                requires
                    j + 1 <= 0x1_0000_0000,
            ;
        }
        r = r + (m as u128) * (m as u128);
        proof {
            assert(row_energy(row@, from as int, j + 1) == row_energy(row@, from as int, j as int)
                + (m as int) * (m as int));
        }
        j = j + 1;
    }
    r
}

proof fn lemma_row_energy_empty(row: Seq<u64>, from: int, to: int)
    requires
        from >= to,
    ensures
        row_energy(row, from, to) == 0,
{
}

/// The high-frequency energy share of the grid, in thousandths.
pub fn analyze_high_frequency_energy(spectrogram: &Vec<Vec<u64>>, bins: usize) -> (r: u32)
    requires
        grid_rect(rows(spectrogram@), bins as nat),
        grid_bounded(rows(spectrogram@)),
        spectrogram@.len() < 0x1_0000_0000,
        bins < 0x1_0000_0000,
        spectrogram@.len() * bins < 0x1_0000_0000,
    ensures
        r == spec_hf_energy_milli(rows(spectrogram@), bins as int),
        r <= 1000,
{
    let frames: usize = spectrogram.len();
    let start_bin: usize = start_bin_exec(bins);
    let mut total: u128 = 0;
    let mut hf: u128 = 0;
    let mut i: usize = 0;
    proof {
        lemma_grid_energy_bounds(rows(spectrogram@), 0, 0, bins as int);
    }
    while i < frames
        invariant
            i <= frames == spectrogram@.len(),
            frames < 0x1_0000_0000,
            bins < 0x1_0000_0000,
            (frames as int) * (bins as int) < 0x1_0000_0000,
            start_bin == spec_start_bin(bins as int),
            0 <= start_bin,
            grid_rect(rows(spectrogram@), bins as nat),
            grid_bounded(rows(spectrogram@)),
            total == grid_energy(rows(spectrogram@), i as int, 0),
            hf == grid_energy(rows(spectrogram@), i as int, start_bin as int),
            total <= (i as int) * (bins as int) * 0x1_0000_0000_0000_0000,
            hf <= (i as int) * (bins as int) * 0x1_0000_0000_0000_0000,
        decreases frames - i,
    {
        proof {
            assert(rows(spectrogram@)[i as int] == spectrogram@[i as int]@);
            assert(rows(spectrogram@)[i as int].len() == bins);
            lemma_row_energy_bounds(rows(spectrogram@)[i as int], 0, bins as int);
            lemma_row_energy_bounds(rows(spectrogram@)[i as int], start_bin as int, bins as int);
            assert((i as int) * (bins as int) * 0x1_0000_0000_0000_0000 + (bins as int)
                * 0x1_0000_0000_0000_0000 == ((i + 1) as int) * (bins as int)
                * 0x1_0000_0000_0000_0000) by (nonlinear_arith);
            assert(((i + 1) as int) * (bins as int) <= 0x1_0000_0000) by (nonlinear_arith)
                requires
                    (frames as int) * (bins as int) < 0x1_0000_0000,
                    i + 1 <= frames,
                    0 <= bins,
            ;
            assert(((i + 1) as int) * (bins as int) * 0x1_0000_0000_0000_0000 <= 0x1_0000_0000
                * 0x1_0000_0000_0000_0000) by (nonlinear_arith)
                requires
                    ((i + 1) as int) * (bins as int) <= 0x1_0000_0000,
            ;
        }
        let row_total: u128 = row_energy_exec(&spectrogram[i], 0);
        let row_hf: u128 = row_energy_exec(&spectrogram[i], start_bin);
        proof {
            lemma_row_energy_bounds(rows(spectrogram@)[i as int], 0, bins as int);
        }
        total = total + row_total;
        hf = hf + row_hf;
        i = i + 1;
    }
    if total == 0 {
        return 0;
    }
    proof {
        lemma_energy_from_monotone(rows(spectrogram@), frames as int, start_bin as int);
        lemma_div_pos_is_pos((hf as int) * 1000, total as int);
        assert((hf as int) * 1000 <= 1000 * (total as int)) by (nonlinear_arith)
            requires
                hf <= total,
        ;
        lemma_div_is_ordered((hf as int) * 1000, 1000 * (total as int), total as int);
        lemma_div_multiples_vanish(1000, total as int);
        assert((hf as u128) * 1000 < 0x7fff_ffff_ffff_ffff_ffff_ffff_ffff_ffffu128)
            by (nonlinear_arith)
            requires
                hf <= 0x1_0000_0000u128 * 0x1_0000_0000_0000_0000u128,
        ;
    }
    let r: u128 = hf * 1000 / total;
    r as u32
}

/// Energy from a later starting bin never exceeds the energy from bin 0.
proof fn lemma_energy_from_monotone(s: Seq<Seq<u64>>, n: int, from: int)
    requires
        0 <= from,
        n <= s.len(),
    ensures
        grid_energy(s, n, from) <= grid_energy(s, n, 0),
    decreases n,
{
    if n > 0 {
        lemma_energy_from_monotone(s, n - 1, from);
        lemma_row_energy_from_monotone(s[n - 1], from, s[n - 1].len() as int);
    }
}

proof fn lemma_row_energy_from_monotone(row: Seq<u64>, from: int, to: int)
    requires
        0 <= from,
    ensures
        row_energy(row, from, to) <= row_energy(row, 0, to),
    decreases to,
{
    if from >= to {
        lemma_row_energy_nonneg(row, 0, to);
    } else {
        lemma_row_energy_from_monotone(row, from, to - 1);
    }
}

proof fn lemma_row_energy_nonneg(row: Seq<u64>, from: int, to: int)
    ensures
        row_energy(row, from, to) >= 0,
    decreases to - from,
{
    if from < to {
        lemma_row_energy_nonneg(row, from, to - 1);
        assert((row[to - 1] as int) * (row[to - 1] as int) >= 0) by (nonlinear_arith);
    }
}

fn start_bin_exec(bins: usize) -> (r: usize)
    requires
        bins < 0x1_0000_0000,
    ensures
        r == spec_start_bin(bins as int),
        r <= bins,
{
    proof {
        lemma_div_pos_is_pos(30000 * (bins as int), 44100);
        assert(30000 * (bins as int) <= 44100 * (bins as int)) by (nonlinear_arith)
            requires
                bins >= 0,
        ;
        lemma_div_is_ordered(30000 * (bins as int), 44100 * (bins as int), 44100);
        lemma_div_multiples_vanish(bins as int, 44100);
    }
    ((30000u64 * (bins as u64)) / 44100) as usize
}

// ---------------------------------------------------------------------------
// Pattern detection
// ---------------------------------------------------------------------------

/// The length of the run of consecutive frames before frame `i` whose
/// magnitude at `bin` exceeds the 0.5 tone threshold (500 in thousandths).
pub open spec fn run_len(s: Seq<Seq<u64>>, bin: int, i: int) -> int
    decreases i,
{
    if i <= 0 || i > s.len() || s[i - 1][bin] <= 500 {
        0
    } else {
        run_len(s, bin, i - 1) + 1
    }
}

/// Some run of loud frames at `bin` is longer than a quarter of the stream.
pub open spec fn has_tone(s: Seq<Seq<u64>>, bin: int) -> bool {
    exists|i: int| 0 <= i <= s.len() && run_len(s, bin, i) > s.len() as int / 4
}

/// The persistent-tone finding for one bin.
pub open spec fn tone_finding(bin: nat) -> Seq<char> {
    "Persistent high-frequency tone at bin "@ + dec_chars(bin) + " (possible hidden data)"@
}

/// The tone findings for the bins in `from..bins`, ascending.
pub open spec fn tone_findings(s: Seq<Seq<u64>>, bins: int, from: int) -> Seq<Seq<char>>
    decreases bins - from,
{
    if from >= bins {
        Seq::empty()
    } else {
        (if has_tone(s, from) {
            seq![tone_finding(from as nat)]
        } else {
            Seq::empty()
        }) + tone_findings(s, bins, from + 1)
    }
}

/// A cell whose magnitude differs from its time or frequency neighbor by
/// more than the 0.3 threshold (300 in thousandths).
pub open spec fn is_edge_cell(s: Seq<Seq<u64>>, i: int, j: int) -> bool {
    ||| crate::video_frame_analyzer::abs_diff(s[i][j] as int, s[i - 1][j] as int) > 300
    ||| crate::video_frame_analyzer::abs_diff(s[i][j] as int, s[i][j - 1] as int) > 300
}

/// The number of edge cells in row `i` among columns 1..jn.
pub open spec fn edge_row(s: Seq<Seq<u64>>, i: int, jn: int) -> int
    decreases jn,
{
    if jn <= 1 {
        0
    } else {
        edge_row(s, i, jn - 1) + if is_edge_cell(s, i, jn - 1) {
            1int
        } else {
            0int
        }
    }
}

/// The number of edge cells in rows 1..iN.
pub open spec fn edge_cells(s: Seq<Seq<u64>>, bins: int, iN: int) -> int
    decreases iN,
{
    if iN <= 1 {
        0
    } else {
        edge_cells(s, bins, iN - 1) + edge_row(s, iN - 1, bins)
    }
}

/// The largest magnitude among the first `n` bins of a row.
pub open spec fn row_max(row: Seq<u64>, n: int) -> int
    decreases n,
{
    if n <= 0 {
        0
    } else if row[n - 1] as int > row_max(row, n - 1) {
        row[n - 1] as int
    } else {
        row_max(row, n - 1)
    }
}

/// The sum of the first `n` bins of a row.
pub open spec fn row_sum(row: Seq<u64>, n: int) -> int
    decreases n,
{
    if n <= 0 {
        0
    } else {
        row_sum(row, n - 1) + row[n - 1] as int
    }
}

/// A frame whose peak exceeds five times its mean magnitude.
pub open spec fn frame_spike(row: Seq<u64>) -> bool {
    row.len() > 0 && row_max(row, row.len() as int) * row.len() as int > 5 * row_sum(
        row,
        row.len() as int,
    )
}

/// The number of spiking frames among the first `n`.
pub open spec fn spike_count(s: Seq<Seq<u64>>, n: int) -> int
    decreases n,
{
    if n <= 0 {
        0
    } else {
        spike_count(s, n - 1) + if frame_spike(s[n - 1]) {
            1int
        } else {
            0int
        }
    }
}

/// The whole ordered pattern list: the per-bin tone findings for the upper
/// half of the frequency axis, then the edge-density note, then the
/// energy-spike note; empty for an empty grid.
pub open spec fn spec_patterns(s: Seq<Seq<u64>>, bins: int) -> Seq<Seq<char>> {
    if s.len() == 0 {
        Seq::empty()
    } else {
        let a = tone_findings(s, bins, bins / 2);
        let b = if edge_cells(s, bins, s.len() as int) > (s.len() as int) * bins / 20 {
            a + seq!["High edge density detected (possible hidden image/text)"@]
        } else {
            a
        };
        if spike_count(s, s.len() as int) > s.len() as int / 10 {
            b + seq!["Unusual energy spikes detected"@]
        } else {
            b
        }
    }
}

/// Scan the grid for persistent tones, geometric patterns and energy
/// spikes.
pub fn detect_patterns(spectrogram: &Vec<Vec<u64>>, bins: usize) -> (r: Vec<String>)
    requires
        grid_rect(rows(spectrogram@), bins as nat),
        grid_bounded(rows(spectrogram@)),
        spectrogram@.len() < 0x1_0000_0000,
        bins < 0x1_0000_0000,
        spectrogram@.len() * bins < 0x1_0000_0000,
    ensures
        crate::report::strs(r@) == spec_patterns(rows(spectrogram@), bins as int),
{
    let frames: usize = spectrogram.len();
    let mut patterns: Vec<String> = Vec::new();
    if frames == 0 {
        proof {
            assert(crate::report::strs(patterns@) =~= spec_patterns(
                rows(spectrogram@),
                bins as int,
            ));
        }
        return patterns;
    }
    let ghost s: Seq<Seq<u64>> = rows(spectrogram@);
    let threshold: usize = frames / 4;
    // persistent tones in the upper half of the frequency axis
    let mut bin: usize = bins / 2;
    proof {
        lemma_div_pos_is_pos(bins as int, 2);
        lemma_div_nonincreasing(bins as int, 2);
    }
    while bin < bins
        invariant
            bins / 2 <= bin <= bins,
            frames == spectrogram@.len(),
            s == rows(spectrogram@),
            1 <= frames < 0x1_0000_0000,
            bins < 0x1_0000_0000,
            threshold == frames / 4,
            grid_rect(s, bins as nat),
            crate::report::strs(patterns@) + tone_findings(s, bins as int, bin as int)
                == tone_findings(s, bins as int, (bins as int) / 2),
        decreases bins - bin,
    {
        let mut cur: usize = 0;
        let mut found: bool = false;
        let mut i: usize = 0;
        while i < frames
            invariant
                i <= frames == spectrogram@.len(),
                s == rows(spectrogram@),
                bin < bins,
                grid_rect(s, bins as nat),
                threshold == frames / 4,
                cur == run_len(s, bin as int, i as int),
                cur <= i,
                found == (exists|k: int| 0 <= k <= i && run_len(s, bin as int, k) > threshold),
            decreases frames - i,
        {
            proof {
                assert(s[i as int] == spectrogram@[i as int]@);
                assert(s[i as int].len() == bins);
            }
            let m: u64 = spectrogram[i][bin];
            if m > 500 {
                cur = cur + 1;
            } else {
                cur = 0;
            }
            proof {
                assert(run_len(s, bin as int, i + 1) == (if s[i as int][bin as int] <= 500 {
                    0int
                } else {
                    run_len(s, bin as int, i as int) + 1
                }));
            }
            if cur > threshold {
                found = true;
            }
            i = i + 1;
        }
        if found {
            let mut f: String = "Persistent high-frequency tone at bin ".to_owned();
            let dec: String = usize_to_dec_string(bin);
            f.append(dec.as_str());
            f.append(" (possible hidden data)");
            proof {
                assert(f@ =~= tone_finding(bin as nat));
            }
            let ghost prev: Seq<Seq<char>> = crate::report::strs(patterns@);
            patterns.push(f);
            proof {
                assert(crate::report::strs(patterns@) =~= prev.push(tone_finding(bin as nat)));
                assert(has_tone(s, bin as int));
                assert(tone_findings(s, bins as int, bin as int) =~= seq![tone_finding(bin as nat)]
                    + tone_findings(s, bins as int, bin as int + 1));
            }
        } else {
            proof {
                if has_tone(s, bin as int) {
                    let k = choose|k: int|
                        0 <= k <= s.len() && run_len(s, bin as int, k) > s.len() as int / 4;
                    assert(false);
                }
                assert(tone_findings(s, bins as int, bin as int) =~= tone_findings(
                    s,
                    bins as int,
                    bin as int + 1,
                ));
            }
        }
        bin = bin + 1;
    }
    proof {
        assert(tone_findings(s, bins as int, bins as int) =~= Seq::empty());
        assert(crate::report::strs(patterns@) =~= tone_findings(s, bins as int, (bins as int) / 2));
    }
    // geometric patterns: neighbor gradients over the whole grid
    let mut edges: usize = 0;
    if bins >= 2 {
        let mut i: usize = 1;
        while i < frames
            invariant
                1 <= i <= frames == spectrogram@.len(),
                s == rows(spectrogram@),
                2 <= bins,
                frames * bins < 0x1_0000_0000,
                grid_rect(s, bins as nat),
                edges == edge_cells(s, bins as int, i as int),
                edges <= (i as int) * (bins as int),
            decreases frames - i,
        {
            let mut j: usize = 1;
            let ghost row_base: int = edges as int;
            while j < bins
                invariant
                    1 <= j <= bins,
                    1 <= i < frames == spectrogram@.len(),
                    s == rows(spectrogram@),
                    2 <= bins,
                    frames * bins < 0x1_0000_0000,
                    grid_rect(s, bins as nat),
                    edges == row_base + edge_row(s, i as int, j as int),
                    edges <= (i as int) * (bins as int) + (j as int),
                decreases bins - j,
            {
                proof {
                    assert(s[i as int] == spectrogram@[i as int]@);
                    assert(s[i as int - 1] == spectrogram@[i as int - 1]@);
                    assert(s[i as int].len() == bins && s[i as int - 1].len() == bins);
                    assert((i as int) * (bins as int) + (bins as int) == ((i + 1) as int) * (
                    bins as int)) by (nonlinear_arith);
                    assert(((i + 1) as int) * (bins as int) <= (frames as int) * (bins as int))
                        by (nonlinear_arith)
                        requires
                            i + 1 <= frames,
                            0 <= bins,
                    ;
                }
                let cur: u64 = spectrogram[i][j];
                let left: u64 = spectrogram[i - 1][j];
                let top: u64 = spectrogram[i][j - 1];
                let dl: u64 = if cur >= left {
                    cur - left
                } else {
                    left - cur
                };
                let dt: u64 = if cur >= top {
                    cur - top
                } else {
                    top - cur
                };
                if dl > 300 || dt > 300 {
                    proof {
                        assert(is_edge_cell(s, i as int, j as int));
                    }
                    edges = edges + 1;
                } else {
                    proof {
                        assert(!is_edge_cell(s, i as int, j as int));
                    }
                }
                j = j + 1;
            }
            proof {
                assert(edges <= ((i + 1) as int) * (bins as int)) by (nonlinear_arith)
                    requires
                        edges <= (i as int) * (bins as int) + (bins as int),
                ;
            }
            i = i + 1;
        }
    } else {
        proof {
            lemma_edge_cells_zero(s, bins as int, frames as int);
        }
    }
    proof {
        if bins < 2 || frames < 2 {
            lemma_edge_cells_zero(s, bins as int, frames as int);
        }
    }
    let cells: usize = frames * bins;
    if edges > cells / 20 {
        let ghost prev: Seq<Seq<char>> = crate::report::strs(patterns@);
        patterns.push("High edge density detected (possible hidden image/text)".to_owned());
        proof {
            assert(crate::report::strs(patterns@) =~= prev.push(
                "High edge density detected (possible hidden image/text)"@,
            ));
        }
    }
    // unusual energy spikes
    let mut spikes: usize = 0;
    let mut i: usize = 0;
    while i < frames
        invariant
            i <= frames == spectrogram@.len(),
            s == rows(spectrogram@),
            grid_rect(s, bins as nat),
            grid_bounded(s),
            bins < 0x1_0000_0000,
            spikes == spike_count(s, i as int),
            spikes <= i,
        decreases frames - i,
    {
        proof {
            assert(s[i as int] == spectrogram@[i as int]@);
            assert(s[i as int].len() == bins);
        }
        let is_spike: bool = frame_spike_exec(&spectrogram[i]);
        if is_spike {
            spikes = spikes + 1;
        }
        i = i + 1;
    }
    if spikes > frames / 10 {
        let ghost prev: Seq<Seq<char>> = crate::report::strs(patterns@);
        patterns.push("Unusual energy spikes detected".to_owned());
        proof {
            assert(crate::report::strs(patterns@) =~= prev.push(
                "Unusual energy spikes detected"@,
            ));
        }
    }
    proof {
        assert(crate::report::strs(patterns@) =~= spec_patterns(rows(spectrogram@), bins as int));
    }
    patterns
}

proof fn lemma_edge_cells_zero(s: Seq<Seq<u64>>, bins: int, iN: int)
    requires
        bins <= 1 || iN <= 1,
    ensures
        edge_cells(s, bins, iN) == 0,
    decreases iN,
{
    if iN > 1 {
        lemma_edge_cells_zero(s, bins, iN - 1);
    }
}

fn frame_spike_exec(row: &Vec<u64>) -> (r: bool)
    requires
        forall|j: int| 0 <= j < row@.len() ==> #[trigger] row@[j] < 0x1_0000_0000,
        row@.len() < 0x1_0000_0000,
    ensures
        r == frame_spike(row@),
{
    let n: usize = row.len();
    if n == 0 {
        return false;
    }
    let mut mx: u64 = 0;
    let mut sm: u64 = 0;
    let mut j: usize = 0;
    while j < n
        invariant
            j <= n == row@.len(),
            n < 0x1_0000_0000,
            forall|k: int| 0 <= k < row@.len() ==> #[trigger] row@[k] < 0x1_0000_0000,
            mx == row_max(row@, j as int),
            sm == row_sum(row@, j as int),
            mx < 0x1_0000_0000,
            sm <= (j as int) * 0x1_0000_0000,
        decreases n - j,
    {
        let m: u64 = row[j];
        proof {
            assert((j as int) * 0x1_0000_0000 + 0x1_0000_0000 == ((j + 1) as int) * 0x1_0000_0000)
                by (nonlinear_arith);
            assert(((j + 1) as int) * 0x1_0000_0000 <= 0x1_0000_0000 * 0x1_0000_0000)
                by (nonlinear_arith)
                requires
                    j + 1 <= 0x1_0000_0000,
            ;
        }
        if m > mx {
            mx = m;
        }
        sm = sm + m;
        j = j + 1;
    }
    proof {
        assert((mx as u128) * (n as u128) < 0x1_0000_0000u128 * 0x1_0000_0000u128)
            by (nonlinear_arith)
            requires
                (mx as u128) < 0x1_0000_0000u128,
                (n as u128) <= 0x1_0000_0000u128,
                n >= 1,
        ;
    }
    (mx as u128) * (n as u128) > 5 * (sm as u128)
}

// ---------------------------------------------------------------------------
// Visualization
// ---------------------------------------------------------------------------

/// The largest magnitude in the first `n` rows.
pub open spec fn grid_max(s: Seq<Seq<u64>>, n: int) -> int
    decreases n,
{
    if n <= 0 {
        0
    } else if row_max(s[n - 1], s[n - 1].len() as int) > grid_max(s, n - 1) {
        row_max(s[n - 1], s[n - 1].len() as int)
    } else {
        grid_max(s, n - 1)
    }
}

/// The grayscale value of one magnitude under logarithmic scaling:
/// `255 * log10(1 + 99 * m / max) / 2`, carried out in fixed point with
/// `1024 * log2(10)` rounded to 3402, and clamped to a byte.
pub open spec fn spec_pixel_value(m: int, maxv: int) -> int {
    if maxv <= 0 {
        0
    } else {
        let la = log2x1024((maxv + 99 * m) as nat);
        let lb = log2x1024(maxv as nat);
        let d = if la >= lb {
            la - lb
        } else {
            0int
        };
        let p = 255 * d / 6804;
        if p > 255 {
            255
        } else {
            p
        }
    }
}

/// The grayscale spectrogram: one column per frame, bins flipped so low
/// frequencies sit at the bottom; a 1-by-1 black image for an empty grid.
pub open spec fn spec_image_data(s: Seq<Seq<u64>>, bins: int) -> Seq<u8> {
    Seq::new(
        (s.len() * bins as nat) as nat,
        |k: int|
            {
                let y = k / (s.len() as int);
                let x = k % (s.len() as int);
                let bin = bins - 1 - y;
                spec_pixel_value(s[x][bin] as int, grid_max(s, s.len() as int)) as u8
            },
    )
}

fn pixel_value_exec(m: u64, maxv: u64) -> (r: u8)
    requires
        m < 0x1_0000_0000,
        maxv < 0x1_0000_0000,
        m <= maxv,
    ensures
        r == spec_pixel_value(m as int, maxv as int),
{
    if maxv == 0 {
        return 0;
    }
    let la: u32 = log2x1024_exec(maxv + 99 * m);
    let lb: u32 = log2x1024_exec(maxv);
    let d: u32 = if la >= lb {
        la - lb
    } else {
        0
    };
    let p: u64 = 255u64 * (d as u64) / 6804;
    proof {
        lemma_div_pos_is_pos(255 * (d as int), 6804);
    }
    if p > 255 {
        255
    } else {
        p as u8
    }
}

/// Render the grid as a grayscale image with logarithmic brightness.
pub fn create_spectrogram_image(spectrogram: &Vec<Vec<u64>>, bins: usize) -> (r: GrayGrid)
    requires
        grid_rect(rows(spectrogram@), bins as nat),
        grid_bounded(rows(spectrogram@)),
        spectrogram@.len() < 0x1_0000_0000,
        bins < 0x1_0000_0000,
        spectrogram@.len() * bins < 0x1_0000_0000,
    ensures
        spectrogram@.len() == 0 ==> r.width == 1 && r.height == 1 && r.data@ == seq![0u8],
        spectrogram@.len() > 0 ==> r.width == spectrogram@.len() && r.height == bins && r.data@
            == spec_image_data(rows(spectrogram@), bins as int),
{
    let frames: usize = spectrogram.len();
    if frames == 0 {
        let mut d: Vec<u8> = Vec::new();
        d.push(0);
        proof {
            assert(d@ =~= seq![0u8]);
        }
        return GrayGrid { width: 1, height: 1, data: d };
    }
    let ghost s: Seq<Seq<u64>> = rows(spectrogram@);
    // global maximum for normalization
    let mut maxv: u64 = 0;
    let mut i: usize = 0;
    while i < frames
        invariant
            i <= frames == spectrogram@.len(),
            s == rows(spectrogram@),
            grid_rect(s, bins as nat),
            grid_bounded(s),
            maxv == grid_max(s, i as int),
            maxv < 0x1_0000_0000,
        decreases frames - i,
    {
        proof {
            assert(s[i as int] == spectrogram@[i as int]@);
            lemma_row_max_bound(s[i as int], s[i as int].len() as int);
        }
        let rm: u64 = row_max_exec(&spectrogram[i]);
        if rm > maxv {
            maxv = rm;
        }
        i = i + 1;
    }
    proof {
        lemma_grid_max_ge_all(s, frames as int);
    }
    let total: usize = frames * bins;
    let mut data: Vec<u8> = Vec::new();
    let mut k: usize = 0;
    while k < total
        invariant
            k <= total,
            total == frames * bins,
            frames == spectrogram@.len(),
            1 <= frames < 0x1_0000_0000,
            bins < 0x1_0000_0000,
            s == rows(spectrogram@),
            grid_rect(s, bins as nat),
            grid_bounded(s),
            maxv == grid_max(s, frames as int),
            maxv < 0x1_0000_0000,
            forall|x: int, j: int|
                0 <= x < s.len() && 0 <= j < bins ==> #[trigger] (s[x][j] as int) <= grid_max(
                    s,
                    s.len() as int,
                ),
            data@ == spec_image_data(s, bins as int).take(k as int),
        decreases total - k,
    {
        let y: usize = k / frames;
        let x: usize = k % frames;
        proof {
            lemma_fundamental_div_mod(k as int, frames as int);
            lemma_mod_division_less_than_divisor(k as int, frames as int);
            lemma_div_pos_is_pos(k as int, frames as int);
            assert(y < bins) by (nonlinear_arith)
                requires
                    (k as int) == (frames as int) * (y as int) + (x as int),
                    0 <= (x as int) < frames,
                    (k as int) < (frames as int) * (bins as int),
                    frames >= 1,
                    y >= 0,
            ;
            assert(s[x as int].len() == bins);
        }
        let bin: usize = bins - 1 - y;
        let m: u64 = spectrogram[x][bin];
        let px: u8 = pixel_value_exec(m, maxv);
        data.push(px);
        proof {
            assert(data@ =~= spec_image_data(s, bins as int).take(k + 1));
        }
        k = k + 1;
    }
    proof {
        assert(spec_image_data(s, bins as int).take(total as int) =~= spec_image_data(
            s,
            bins as int,
        ));
    }
    GrayGrid { width: frames, height: bins, data }
}

fn row_max_exec(row: &Vec<u64>) -> (r: u64)
    ensures
        r == row_max(row@, row@.len() as int),
{
    let n: usize = row.len();
    let mut mx: u64 = 0;
    let mut j: usize = 0;
    while j < n
        invariant
            j <= n == row@.len(),
            mx == row_max(row@, j as int),
        decreases n - j,
    {
        let m: u64 = row[j];
        if m > mx {
            mx = m;
        }
        j = j + 1;
    }
    mx
}

proof fn lemma_row_max_bound(row: Seq<u64>, n: int)
    requires
        forall|j: int| 0 <= j < row.len() ==> #[trigger] row[j] < 0x1_0000_0000,
        n <= row.len(),
    ensures
        0 <= row_max(row, n) < 0x1_0000_0000,
        forall|j: int| 0 <= j < n ==> #[trigger] (row[j] as int) <= row_max(row, n),
    decreases n,
{
    if n > 0 {
        lemma_row_max_bound(row, n - 1);
    }
}

proof fn lemma_grid_max_ge_all(s: Seq<Seq<u64>>, n: int)
    requires
        n <= s.len(),
    ensures
        forall|x: int, j: int|
            0 <= x < n && 0 <= j < s[x].len() ==> #[trigger] (s[x][j] as int) <= grid_max(s, n),
    decreases n,
{
    if n > 0 {
        lemma_grid_max_ge_all(s, n - 1);
        lemma_row_max_ge_all(s[n - 1], s[n - 1].len() as int);
        assert forall|x: int, j: int| 0 <= x < n && 0 <= j < s[x].len() implies #[trigger] (
        s[x][j] as int) <= grid_max(s, n) by {
            if x < n - 1 {
                assert((s[x][j] as int) <= grid_max(s, n - 1));
            } else {
                assert((s[x][j] as int) <= row_max(s[n - 1], s[n - 1].len() as int));
            }
        };
    }
}

proof fn lemma_row_max_ge_all(row: Seq<u64>, n: int)
    requires
        n <= row.len(),
    ensures
        forall|j: int| 0 <= j < n ==> #[trigger] (row[j] as int) <= row_max(row, n),
        row_max(row, n) >= 0,
    decreases n,
{
    if n > 0 {
        lemma_row_max_ge_all(row, n - 1);
    }
}

// ---------------------------------------------------------------------------
// Whole-stream analysis
// ---------------------------------------------------------------------------

/// The spectral result is exactly the analysis of the grid.
pub open spec fn spectral_ok(s: Seq<Seq<u64>>, bins: int, d: SpectrogramData) -> bool {
    &&& d.high_frequency_energy_milli == spec_hf_energy_milli(s, bins)
    &&& crate::report::strs(d.suspicious_patterns@) == spec_patterns(s, bins)
    &&& d.has_hidden_message == (spec_hf_energy_milli(s, bins) > 100 || spec_patterns(
        s,
        bins,
    ).len() > 0)
}

/// Whether the grid is rectangular with the given bin count, every
/// magnitude is below the fixed-point bound, and the cell count stays
/// inside the machine limit.
pub fn check_grid(spectrogram: &Vec<Vec<u64>>, bins: usize) -> (r: bool)
    ensures
        r == (grid_rect(rows(spectrogram@), bins as nat) && grid_bounded(rows(spectrogram@))
            && spectrogram@.len() < 0x1_0000_0000 && bins < 0x1_0000_0000 && spectrogram@.len() * (
        bins as int) < 0x1_0000_0000),
{
    let frames: usize = spectrogram.len();
    if (bins as u64) >= 0x1_0000_0000u64 {
        return false;
    }
    if (frames as u64) >= 0x1_0000_0000u64 {
        return false;
    }
    if bins > 0 && frames > (0xffff_ffffusize) / bins {
        proof {
            lemma_fundamental_div_mod(0xffff_ffff, bins as int);
            lemma_mod_division_less_than_divisor(0xffff_ffff, bins as int);
            assert((frames as int) * (bins as int) >= 0x1_0000_0000) by (nonlinear_arith)
                requires
                    (frames as int) >= 0xffff_ffffint / (bins as int) + 1,
                    0xffff_ffffint == (bins as int) * (0xffff_ffffint / (bins as int))
                        + 0xffff_ffffint % (bins as int),
                    0 <= 0xffff_ffffint % (bins as int) < (bins as int),
                    (bins as int) >= 1,
            ;
        }
        return false;
    }
    proof {
        if bins > 0 {
            lemma_fundamental_div_mod(0xffff_ffff, bins as int);
            lemma_mod_division_less_than_divisor(0xffff_ffff, bins as int);
            assert((frames as int) * (bins as int) <= 0xffff_ffff) by (nonlinear_arith)
                requires
                    (frames as int) <= 0xffff_ffffint / (bins as int),
                    0xffff_ffffint == (bins as int) * (0xffff_ffffint / (bins as int))
                        + 0xffff_ffffint % (bins as int),
                    0 <= 0xffff_ffffint % (bins as int),
                    (bins as int) >= 1,
            ;
        } else {
            assert((frames as int) * 0 == 0) by (nonlinear_arith);
        }
    }
    let mut i: usize = 0;
    while i < frames
        invariant
            i <= frames == spectrogram@.len(),
            bins < 0x1_0000_0000,
            forall|k: int| 0 <= k < i ==> (#[trigger] rows(spectrogram@)[k]).len() == bins,
            forall|k: int, j: int|
                0 <= k < i && 0 <= j < rows(spectrogram@)[k].len() ==> #[trigger] rows(
                    spectrogram@,
                )[k][j] < 0x1_0000_0000,
        decreases frames - i,
    {
        proof {
            assert(rows(spectrogram@)[i as int] == spectrogram@[i as int]@);
        }
        if spectrogram[i].len() != bins {
            return false;
        }
        let m: usize = spectrogram[i].len();
        let mut j: usize = 0;
        while j < m
            invariant
                j <= m,
                i < frames == spectrogram@.len(),
                m == rows(spectrogram@)[i as int].len(),
                forall|k: int|
                    0 <= k < j ==> #[trigger] rows(spectrogram@)[i as int][k] < 0x1_0000_0000,
            decreases m - j,
        {
            proof {
                assert(rows(spectrogram@)[i as int] == spectrogram@[i as int]@);
            }
            if spectrogram[i][j] >= 0x1_0000_0000 {
                return false;
            }
            j = j + 1;
        }
        i = i + 1;
    }
    true
}

impl SpectrogramAnalyzer {
    /// Analyze a windowed-FFT magnitude grid: the high-frequency energy
    /// share, the pattern detectors, the suspicion flag from the fixed 0.1
    /// threshold, and the visualization.
    pub fn analyze(spectrogram: &Vec<Vec<u64>>, bins: usize) -> (r: Result<
        SpectrogramData,
        SpectrogramAnalyzerError,
    >)
        requires
            grid_rect(rows(spectrogram@), bins as nat),
            grid_bounded(rows(spectrogram@)),
            spectrogram@.len() < 0x1_0000_0000,
            bins < 0x1_0000_0000,
            spectrogram@.len() * bins < 0x1_0000_0000,
        ensures
            r is Ok,
            r matches Ok(d) ==> spectral_ok(rows(spectrogram@), bins as int, d),
    {
        let high_frequency_energy_milli: u32 = analyze_high_frequency_energy(spectrogram, bins);
        let suspicious_patterns: Vec<String> = detect_patterns(spectrogram, bins);
        let spectrogram_image: GrayGrid = create_spectrogram_image(spectrogram, bins);
        let has_hidden_message: bool = high_frequency_energy_milli > 100
            || suspicious_patterns.len() > 0;
        proof {
            assert(crate::report::strs(suspicious_patterns@).len() == suspicious_patterns@.len());
        }
        Result::Ok(
            SpectrogramData {
                spectrogram_image,
                high_frequency_energy_milli,
                suspicious_patterns,
                has_hidden_message,
            },
        )
    }
}

} // verus!
