//! The virtualized list renderer: only the rows intersecting the
//! scroll viewport are drawn, so redraw cost does not depend on the
//! total row count.  Offsets are fixed-point integers in the same
//! milliunit scale the viewer uses everywhere.

use vstd::prelude::*;
use vstd::arithmetic::div_mod::{lemma_fundamental_div_mod, lemma_fundamental_div_mod_converse};
use crate::point::{spec_luminance, spec_rgb8, Neuron};
use crate::point::NeuronView;

verus! {

/// Largest viewport offset and row height the renderer accepts, in
/// milli display units.  Keeps the row arithmetic inside `i64`.
pub const MAX_OFFSET: i64 = 1000000000000000;

/// The ceiling of `a / h` for positive `h` (`/` rounds toward minus
/// infinity on `int`).
pub open spec fn spec_ceil_div(a: int, h: int) -> int {
    a / h + if a % h == 0 {
        0int
    } else {
        1int
    }
}

/// The first row the viewport reaches: `floor(min / h)`, clamped to 0.
pub open spec fn spec_first_row(vmin: int, h: int) -> int {
    if vmin / h < 0 {
        0
    } else {
        vmin / h
    }
}

/// One past the last row the viewport reaches: `ceil(max / h) + 1`,
/// clamped to the row count.
pub open spec fn spec_last_row(vmax: int, h: int, total: int) -> int {
    if spec_ceil_div(vmax, h) + 1 > total {
        total
    } else {
        spec_ceil_div(vmax, h) + 1
    }
}

/// The start of the drawn range: the first reached row, clamped to the
/// row count so the returned index stays in range.
pub open spec fn spec_row_start(vmin: int, h: int, total: int) -> int {
    if spec_first_row(vmin, h) > total {
        total
    } else {
        spec_first_row(vmin, h)
    }
}

/// The end of the drawn range: `spec_last_row`, never below the start
/// (an empty viewport yields an empty range).
pub open spec fn spec_row_end(vmin: int, vmax: int, h: int, total: int) -> int {
    if spec_last_row(vmax, h, total) < spec_row_start(vmin, h, total) {
        spec_row_start(vmin, h, total)
    } else {
        spec_last_row(vmax, h, total)
    }
}

/// The half-open set of drawn indices `[start, end)` is exactly
/// `[max(0, floor(min/h)), min(total, ceil(max/h) + 1))`: no index
/// outside that range is ever drawn, and every index in it is.
pub proof fn lemma_row_range_exact(vmin: int, vmax: int, h: int, total: int, idx: int)
    requires
        h > 0,
        total >= 0,
    ensures
        (spec_row_start(vmin, h, total) <= idx < spec_row_end(vmin, vmax, h, total))
            <==> (spec_first_row(vmin, h) <= idx < spec_last_row(vmax, h, total)),
{
}

/// The half-open range of row indices a scroll viewport draws: exactly
/// `[max(0, floor(min/h)), min(total, ceil(max/h) + 1))`, and nothing
/// outside it.  A degenerate viewport (no rows, or one entirely above
/// the rows) yields an empty range.
pub fn row_range(vmin: i64, vmax: i64, row_h: i64, total: usize) -> (res: (usize, usize))
    requires
        0 < row_h <= MAX_OFFSET,
        -MAX_OFFSET <= vmin <= MAX_OFFSET,
        -MAX_OFFSET <= vmax <= MAX_OFFSET,
    ensures
        res.0 as int == spec_row_start(vmin as int, row_h as int, total as int),
        res.1 as int == spec_row_end(vmin as int, vmax as int, row_h as int, total as int),
        res.0 <= res.1 <= total,
{
    let first: usize = if vmin <= 0 {
        proof {
            lemma_fundamental_div_mod(vmin as int, row_h as int);
            assert((vmin as int) / (row_h as int) <= 0) by (nonlinear_arith)
                requires
                    vmin as int == (row_h as int) * ((vmin as int) / (row_h as int)) + (
                    vmin as int) % (row_h as int),
                    0 <= (vmin as int) % (row_h as int) < row_h as int,
                    vmin <= 0,
                    row_h as int > 0,
            ;
        }
        0
    } else {
        let f = (vmin as u64) / (row_h as u64);
        if f > (total as u64) {
            total
        } else {
            f as usize
        }
    };
    // ceiling of vmax / row_h, by cases on the sign
    let ceil: i64 = if vmax >= 0 {
        let d = (vmax as u64) / (row_h as u64);
        let r = (vmax as u64) % (row_h as u64);
        if r == 0 {
            d as i64
        } else {
            d as i64 + 1
        }
    } else {
        let m = (-vmax) as u64;
        let d = m / (row_h as u64);
        let r = m % (row_h as u64);
        proof {
            lemma_fundamental_div_mod(m as int, row_h as int);
            if r == 0 {
                assert(vmax as int == (-(d as int)) * (row_h as int) + 0) by (nonlinear_arith)
                    requires
                        m as int == (row_h as int) * (d as int) + (r as int),
                        r as int == 0,
                        vmax as int == -(m as int),
                ;
                lemma_fundamental_div_mod_converse(vmax as int, row_h as int, -(d as int), 0);
            } else {
                assert(vmax as int == (-(d as int) - 1) * (row_h as int) + ((row_h as int) - (
                r as int))) by (nonlinear_arith)
                    requires
                        m as int == (row_h as int) * (d as int) + (r as int),
                        vmax as int == -(m as int),
                ;
                lemma_fundamental_div_mod_converse(
                    vmax as int,
                    row_h as int,
                    -(d as int) - 1,
                    row_h as int - r as int,
                );
            }
        }
        -(d as i64)
    };
    let last_raw: i64 = ceil + 1;
    let last: usize = if last_raw < 0 {
        0
    } else if (last_raw as u64) > (total as u64) {
        total
    } else {
        last_raw as usize
    };
    let last: usize = if last < first {
        first
    } else {
        last
    };
    let last: usize = if last > total {
        total
    } else {
        last
    };
    (first, last)
}

/// Luminance above which (or at zero, where) the row text is black.
pub open spec fn spec_text_black(nv: NeuronView) -> bool {
    spec_luminance(nv) == 0 || spec_luminance(nv) > 50000000
}

/// The row background: the record's 8-bit color, except pure black,
/// which is substituted by pure white so the swatch never disappears.
pub open spec fn spec_row_bg(nv: NeuronView) -> (int, int, int) {
    if spec_rgb8(nv.r) == 0 && spec_rgb8(nv.g) == 0 && spec_rgb8(nv.b) == 0 {
        (255, 255, 255)
    } else {
        (spec_rgb8(nv.r), spec_rgb8(nv.g), spec_rgb8(nv.b))
    }
}

/// A record whose 8-bit color is pure black never gets a black row
/// background: the swatch is substituted by pure white, whatever the
/// filter or hemisphere state chose the row.
pub proof fn lemma_black_row_shows_white(nv: NeuronView)
    requires
        spec_rgb8(nv.r) == 0,
        spec_rgb8(nv.g) == 0,
        spec_rgb8(nv.b) == 0,
    ensures
        spec_row_bg(nv) == (255int, 255int, 255int),
{
}

/// The colors of one list row: filled background in the record's 8-bit
/// color (pure black becomes pure white), and black text when the
/// luminance is 0 or above one half, else white text.
pub fn row_style(n: &Neuron) -> (res: ([u8; 3], bool))
    requires
        n.wf(),
    ensures
        (res.0[0] as int, res.0[1] as int, res.0[2] as int) == spec_row_bg(n@),
        res.1 == spec_text_black(n@),
{
    let rgb = n.rgb();
    let bg: [u8; 3] = if rgb[0] == 0 && rgb[1] == 0 && rgb[2] == 0 {
        [255, 255, 255]
    } else {
        rgb
    };
    let lum = n.luminance();
    let black = lum == 0 || lum > 50000000;
    (bg, black)
}

/// The reserved height of the full scroll region, `total * row_h`,
/// which keeps scrollbar proportions correct while only a slice of the
/// rows is drawn.
pub fn scroll_height(total: usize, row_h: i64) -> (res: i64)
    requires
        0 < row_h,
        (total as int) * (row_h as int) <= MAX_OFFSET as int,
    ensures
        res == total * row_h,
{
    proof {
        assert((total as int) * (row_h as int) >= total as int) by (nonlinear_arith)
            requires
                0 <= total as int,
                1 <= row_h as int,
        ;
    }
    (total as i64) * row_h
}

} // verus!
