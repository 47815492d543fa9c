//! Channel-isolating filters over a decoded image: the unchanged buffer
//! plus, per channel, a variant with the other slots zeroed and one with
//! them saturated.  Contrast adjustment is a codec-library concern and is
//! left to callers.

use vstd::prelude::*;
use crate::lsb_analyzer::{grid_wf, PixelGrid};

verus! {

/// Marker type for the filter generator.
pub struct ImageFilterAnalyzer;

/// Failure of the filter generator.
#[derive(Debug)]
pub enum ImageFilterErrors {
    Unrepresentable(String),
}

/// One filtered buffer: the byte of the kept channel survives, every other
/// color slot becomes `fill`, and where `opaque_alpha` is set the alpha
/// slot becomes 255 while `fill` only covers the color slots.
pub open spec fn mask_spec(data: Seq<u8>, keep: int, fill: u8, opaque_alpha: bool) -> Seq<u8> {
    Seq::new(
        data.len(),
        |j: int|
            {
                let ch = j % 4;
                if ch == keep {
                    data[j]
                } else if opaque_alpha && ch == 3 {
                    255u8
                } else {
                    fill
                }
            },
    )
}

fn mask_grid(grid: &PixelGrid, keep: usize, fill: u8, opaque_alpha: bool) -> (r: PixelGrid)
    requires
        grid_wf(*grid),
        keep < 4,
    ensures
        r.width == grid.width,
        r.height == grid.height,
        r.data@ == mask_spec(grid.data@, keep as int, fill, opaque_alpha),
        grid_wf(r),
{
    let n: usize = grid.data.len();
    let mut data: Vec<u8> = Vec::new();
    let mut j: usize = 0;
    while j < n
        invariant
            j <= n == grid.data@.len(),
            keep < 4,
            data@ == mask_spec(grid.data@, keep as int, fill, opaque_alpha).take(j as int),
        decreases n - j,
    {
        let ch: usize = j % 4;
        let b: u8 = if ch == keep {
            grid.data[j]
        } else if opaque_alpha && ch == 3 {
            255
        } else {
            fill
        };
        data.push(b);
        proof {
            assert(data@ =~= mask_spec(grid.data@, keep as int, fill, opaque_alpha).take(j + 1));
        }
        j = j + 1;
    }
    proof {
        assert(mask_spec(grid.data@, keep as int, fill, opaque_alpha).take(n as int)
            =~= mask_spec(grid.data@, keep as int, fill, opaque_alpha));
    }
    PixelGrid { width: grid.width, height: grid.height, data }
}

fn copy_grid(grid: &PixelGrid) -> (r: PixelGrid)
    requires
        grid_wf(*grid),
    ensures
        r.width == grid.width,
        r.height == grid.height,
        r.data@ == grid.data@,
        grid_wf(r),
{
    let n: usize = grid.data.len();
    let mut data: Vec<u8> = Vec::new();
    let mut j: usize = 0;
    while j < n
        invariant
            j <= n == grid.data@.len(),
            data@ == grid.data@.take(j as int),
        decreases n - j,
    {
        data.push(grid.data[j]);
        proof {
            assert(data@ =~= grid.data@.take(j + 1));
        }
        j = j + 1;
    }
    proof {
        assert(grid.data@.take(n as int) =~= grid.data@);
    }
    PixelGrid { width: grid.width, height: grid.height, data }
}

/// The nine filtered buffers are exactly: the original, the four
/// zero-isolated channels, and the four saturation-isolated channels with
/// opaque alpha.
pub open spec fn filters_ok(g: PixelGrid, r: Seq<PixelGrid>) -> bool {
    &&& r.len() == 9
    &&& forall|k: int| 0 <= k < 9 ==> (#[trigger] r[k]).width == g.width
    &&& forall|k: int| 0 <= k < 9 ==> (#[trigger] r[k]).height == g.height
    &&& r[0].data@ == g.data@
    &&& forall|c: int| 0 <= c < 4 ==> (#[trigger] r[1 + c]).data@ == mask_spec(g.data@, c, 0, false)
    &&& forall|c: int|
        0 <= c < 4 ==> (#[trigger] r[5 + c]).data@ == mask_spec(g.data@, c, 255, true)
}

impl ImageFilterAnalyzer {
    /// Produce the channel-isolating filter set of one image.
    pub fn analyze(grid: &PixelGrid) -> (r: Result<Vec<PixelGrid>, ImageFilterErrors>)
        requires
            grid_wf(*grid),
        ensures
            r is Ok,
            r matches Ok(v) ==> filters_ok(*grid, v@),
    {
        let mut out: Vec<PixelGrid> = Vec::new();
        out.push(copy_grid(grid));
        out.push(mask_grid(grid, 0, 0, false));
        out.push(mask_grid(grid, 1, 0, false));
        out.push(mask_grid(grid, 2, 0, false));
        out.push(mask_grid(grid, 3, 0, false));
        out.push(mask_grid(grid, 0, 255, true));
        out.push(mask_grid(grid, 1, 255, true));
        out.push(mask_grid(grid, 2, 255, true));
        out.push(mask_grid(grid, 3, 255, true));
        Result::Ok(out)
    }
}

} // verus!
