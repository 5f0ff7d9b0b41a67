//! Paintable regions and the one rasterizer that applies them.
//!
//! Every drawing primitive names a `Region`: a set of pixels, each with a
//! coverage weight out of 256 (antialiased shapes use partial weights).
//! [`raster`] blends one color into a buffer pixel by pixel according to
//! that weight, optionally restricted by a mask stencil, so every
//! primitive's contract is the same pointwise statement.

use vstd::prelude::*;
use vstd::arithmetic::div_mod::lemma_fundamental_div_mod;
use vstd::arithmetic::div_mod::lemma_fundamental_div_mod_converse;
use crate::buffer::BufView;
use crate::buffer::PixelBuffer;
use crate::color::Rgba;
use crate::color::blend;
use crate::color::blend_px;
use crate::geom::dist2;
use crate::geom::dist2_exec;
use crate::geom::isqrt;
use crate::geom::isqrt_u64;
use crate::geom::lemma_isqrt;
use crate::geom::lemma_isqrt_unique;
use crate::geom::lemma_div_le;
use crate::geom::lemma_div_lt;
use crate::geom::lex_le;
use crate::geom::line_pt;
use crate::geom::line_pt_exec;
use crate::geom::on_line;
use crate::geom::seg_steps;

verus! {

/// A set of pixels to paint, with a coverage weight for each.
pub enum Region {
    /// A single pixel.
    Dot { x: i32, y: i32 },
    /// A scan-converted segment (Bresenham-style, endpoint-symmetric).
    Line { x0: i32, y0: i32, x1: i32, y1: i32 },
    /// The outline of a circle of radius `r`.
    CircleOutline { cx: i32, cy: i32, r: u32 },
    /// A filled disk of radius `r`.
    Disk { cx: i32, cy: i32, r: u32 },
    /// A one-pixel rectangle outline anchored at its top-left corner.
    RectOutline { x: i32, y: i32, w: u32, h: u32 },
    /// A disk of radius `r` swept along a segment: a round brush stroke.
    Capsule { x0: i32, y0: i32, x1: i32, y1: i32, r: u32 },
    /// A `w` by `h` box swept along a segment: a blocky brush stroke.
    BoxSweep { x0: i32, y0: i32, x1: i32, y1: i32, w: u32, h: u32 },
    /// An antialiased segment: the two pixels nearest the ideal minor
    /// coordinate share the coverage, in 1/256 steps.
    WuLine { x0: i32, y0: i32, x1: i32, y1: i32 },
    /// An antialiased circle outline: the two pixels bracketing the ideal
    /// radius share the coverage of each row and column extreme.
    WuCircle { cx: i32, cy: i32, r: u32 },
    /// A filled disk with a half-coverage rim: the smooth brush stamp.
    SmoothCircle { cx: i32, cy: i32, r: u32 },
}

impl Region {
    /// Sweeps keep their stamp radius small enough for the distance
    /// arithmetic of the membership tests.
    pub open spec fn wf(self) -> bool {
        match self {
            Region::Capsule { r, .. } => r <= 0x8000,
            Region::BoxSweep { w, h, .. } => w <= 0x8000 && h <= 0x8000,
            Region::WuCircle { r, .. } => r <= 0x8000,
            _ => true,
        }
    }

    /// Coverage weight of pixel `(x, y)`, out of 256.
    pub open spec fn weight(self, x: int, y: int) -> int {
        match self {
            Region::Dot { x: px, y: py } => {
                if x == px && y == py { 256 } else { 0 }
            },
            Region::Line { x0, y0, x1, y1 } => {
                if on_line(x0 as int, y0 as int, x1 as int, y1 as int, x, y) { 256 } else { 0 }
            },
            Region::CircleOutline { cx, cy, r } => {
                if on_circle(cx as int, cy as int, r as int, x, y) { 256 } else { 0 }
            },
            Region::Disk { cx, cy, r } => {
                if dist2(x, y, cx as int, cy as int) <= r * r { 256 } else { 0 }
            },
            Region::RectOutline { x: rx, y: ry, w, h } => {
                if on_rect_border(rx as int, ry as int, w as int, h as int, x, y) { 256 } else { 0 }
            },
            Region::Capsule { x0, y0, x1, y1, r } => {
                if in_capsule(x0 as int, y0 as int, x1 as int, y1 as int, r as int, x, y) {
                    256
                } else {
                    0
                }
            },
            Region::BoxSweep { x0, y0, x1, y1, w, h } => {
                if in_box_sweep(x0 as int, y0 as int, x1 as int, y1 as int, w as int, h as int, x, y) {
                    256
                } else {
                    0
                }
            },
            Region::WuLine { x0, y0, x1, y1 } => {
                wu_line_weight(x0 as int, y0 as int, x1 as int, y1 as int, x, y)
            },
            Region::WuCircle { cx, cy, r } => {
                wu_circle_weight(cx as int, cy as int, r as int, x, y)
            },
            Region::SmoothCircle { cx, cy, r } => {
                smooth_circle_weight(cx as int, cy as int, r as int, x, y)
            },
        }
    }
}

/// Coverage of the antialiased segment at one pixel. Walking the major
/// axis, the ideal minor coordinate `lo + frac` splits 256 units of
/// coverage between the pixels at `lo` and `lo + 1`. The numerator is
/// shifted by `steps * |d|` so every division is on nonnegative values.
pub open spec fn wu_line_weight(x0: int, y0: int, x1: int, y1: int, x: int, y: int) -> int
    decreases (if lex_le(x0, y0, x1, y1) { 0int } else { 1int }),
{
    if !lex_le(x0, y0, x1, y1) {
        wu_line_weight(x1, y1, x0, y0, x, y)
    } else {
        let dx = x1 - x0;
        let dy = y1 - y0;
        let ady = if dy >= 0 { dy } else { -dy };
        if dx == 0 && ady == 0 {
            if x == x0 && y == y0 { 256 } else { 0 }
        } else if dx >= ady {
            if x0 <= x <= x1 {
                let num = (x - x0) * dy + dx * ady;
                let q = num / dx - ady;
                let f = (num % dx) * 256 / dx;
                if y == y0 + q { 256 - f } else if y == y0 + q + 1 { f } else { 0 }
            } else {
                0
            }
        } else {
            let i = if dy >= 0 { y - y0 } else { y0 - y };
            if 0 <= i <= ady {
                let q = (i * dx) / ady;
                let f = ((i * dx) % ady) * 256 / ady;
                if x == x0 + q { 256 - f } else if x == x0 + q + 1 { f } else { 0 }
            } else {
                0
            }
        }
    }
}

/// The antialiased segment paints both endpoints at full coverage, so
/// its endpoints are identical to the plain segment's.
pub proof fn lemma_wu_line_endpoints(x0: int, y0: int, x1: int, y1: int)
    ensures
        wu_line_weight(x0, y0, x1, y1, x0, y0) == 256,
        wu_line_weight(x0, y0, x1, y1, x1, y1) == 256,
{
    if !lex_le(x0, y0, x1, y1) {
        lemma_wu_line_endpoints_c(x1, y1, x0, y0);
    } else {
        lemma_wu_line_endpoints_c(x0, y0, x1, y1);
    }
}

proof fn lemma_wu_line_endpoints_c(x0: int, y0: int, x1: int, y1: int)
    requires
        lex_le(x0, y0, x1, y1),
    ensures
        wu_line_weight(x0, y0, x1, y1, x0, y0) == 256,
        wu_line_weight(x0, y0, x1, y1, x1, y1) == 256,
{
    let dx = x1 - x0;
    let dy = y1 - y0;
    let ady = if dy >= 0 { dy } else { -dy };
    if dx == 0 && ady == 0 {
    } else if dx >= ady {
        assert(dx * ady == ady * dx + 0) by (nonlinear_arith);
        vstd::arithmetic::div_mod::lemma_fundamental_div_mod_converse(dx * ady, dx, ady, 0);
        assert(dx * dy + dx * ady == (dy + ady) * dx + 0) by (nonlinear_arith);
        vstd::arithmetic::div_mod::lemma_fundamental_div_mod_converse(
            dx * dy + dx * ady, dx, dy + ady, 0);
        assert((x1 - x0) * dy + dx * ady == dx * dy + dx * ady);
    } else {
        assert(ady * dx == dx * ady + 0) by (nonlinear_arith);
        vstd::arithmetic::div_mod::lemma_fundamental_div_mod_converse(ady * dx, ady, dx, 0);
        assert((0) * dx == 0) by (nonlinear_arith);
        vstd::arithmetic::div_mod::lemma_fundamental_div_mod_converse(0, ady, 0, 0);
    }
}

/// Coverage of the antialiased circle outline at one pixel: for each row
/// (and column), the ideal extreme offset `sqrt(r*r - d*d)` lies between
/// `s` and `s + 1`; those two pixels share 256 units of coverage. A pixel
/// reached both by its row and by its column takes the larger share.
pub open spec fn wu_circle_weight(cx: int, cy: int, r: int, x: int, y: int) -> int {
    let row = wu_half_weight(r, y - cy, x - cx);
    let col = wu_half_weight(r, x - cx, y - cy);
    if row >= col { row } else { col }
}

/// Coverage contributed along one axis: `d` is the offset on the swept
/// axis, `m` the offset on the measured axis.
pub open spec fn wu_half_weight(r: int, d: int, m: int) -> int {
    let am = if m >= 0 { m } else { -m };
    let v = r * r - d * d;
    if v >= 0 {
        let s = isqrt(v);
        let f = (v - s * s) * 256 / (2 * s + 1);
        if am == s { 256 - f } else if am == s + 1 { f } else { 0 }
    } else {
        0
    }
}

/// Coverage of the smooth brush stamp: full inside radius `r - 1`, half
/// on the rim, nothing outside.
pub open spec fn smooth_circle_weight(cx: int, cy: int, r: int, x: int, y: int) -> int {
    if r == 0 {
        0
    } else {
        let d2 = dist2(x, y, cx, cy);
        if d2 <= (r - 1) * (r - 1) { 256 } else if d2 <= r * r { 128 } else { 0 }
    }
}

/// Membership in a circle outline: the pixel is the rounded-down extreme
/// of its row or of its column, so the outline has no gaps.
pub open spec fn on_circle(cx: int, cy: int, r: int, x: int, y: int) -> bool {
    let ddx = x - cx;
    let ddy = y - cy;
    let adx = if ddx >= 0 { ddx } else { -ddx };
    let ady = if ddy >= 0 { ddy } else { -ddy };
    ||| (ddy * ddy <= r * r && adx == isqrt(r * r - ddy * ddy))
    ||| (ddx * ddx <= r * r && ady == isqrt(r * r - ddx * ddx))
}

/// Membership in the one-pixel border of a `w` by `h` rectangle.
pub open spec fn on_rect_border(rx: int, ry: int, w: int, h: int, x: int, y: int) -> bool {
    &&& rx <= x < rx + w
    &&& ry <= y < ry + h
    &&& (x == rx || x == rx + w - 1 || y == ry || y == ry + h - 1)
}

/// Membership in a swept disk: within distance `r` of some pixel of the
/// scan-converted segment.
pub open spec fn in_capsule(x0: int, y0: int, x1: int, y1: int, r: int, x: int, y: int) -> bool {
    exists|i: int|
        0 <= i <= seg_steps(x0, y0, x1, y1) && {
            let p = #[trigger] line_pt(x0, y0, x1, y1, i);
            dist2(x, y, p.0, p.1) <= r * r
        }
}

/// Membership in a swept box: inside the `w` by `h` stamp anchored at some
/// pixel of the scan-converted segment.
pub open spec fn in_box_sweep(
    x0: int, y0: int, x1: int, y1: int, w: int, h: int, x: int, y: int,
) -> bool {
    exists|i: int|
        0 <= i <= seg_steps(x0, y0, x1, y1) && {
            let p = #[trigger] line_pt(x0, y0, x1, y1, i);
            p.0 <= x < p.0 + w && p.1 <= y < p.1 + h
        }
}

/// What a mask stencil lets through: no stencil passes everything, a
/// stencil passes the pixels where its overlay is not black.
pub open spec fn mask_open(m: BufView, x: int, y: int) -> bool {
    let c = m.at(x, y);
    c.r as int + c.g as int + c.b as int > 0
}

pub open spec fn stencil_allows(st: Option<BufView>, x: int, y: int) -> bool {
    match st {
        Option::None => true,
        Option::Some(m) => m.in_bounds(x, y) && mask_open(m, x, y),
    }
}

/// The view of an optional stencil buffer.
pub open spec fn stencil_view(st: Option<&PixelBuffer>) -> Option<BufView> {
    match st {
        Option::None => Option::None,
        Option::Some(m) => Option::Some(m.view()),
    }
}

/// The buffer after blending color `c` into every stencil-admitted pixel
/// with the region's coverage weight. Pixels with weight zero stay as
/// they are, so this is a full pointwise description of one paint call.
pub open spec fn painted(bv: BufView, st: Option<BufView>, reg: Region, c: Rgba) -> BufView {
    BufView {
        w: bv.w,
        h: bv.h,
        px: Seq::new(
            bv.px.len(),
            |idx: int|
                {
                    let x = idx % bv.w;
                    let y = idx / bv.w;
                    if stencil_allows(st, x, y) {
                        blend(bv.px[idx], c, reg.weight(x, y))
                    } else {
                        bv.px[idx]
                    }
                },
        ),
    }
}

/// Executable membership test for the scan-converted segment.
pub fn on_line_exec(x0: i32, y0: i32, x1: i32, y1: i32, x: i32, y: i32) -> (res: bool)
    ensures
        res == on_line(x0 as int, y0 as int, x1 as int, y1 as int, x as int, y as int),
{
    let adx: i64 = if x1 >= x0 { x1 as i64 - x0 as i64 } else { x0 as i64 - x1 as i64 };
    let ady: i64 = if y1 >= y0 { y1 as i64 - y0 as i64 } else { y0 as i64 - y1 as i64 };
    let steps: i64 = if adx >= ady { adx } else { ady };
    let mut i: i64 = 0;
    while i <= steps
        invariant
            0 <= i <= steps + 1,
            steps == seg_steps(x0 as int, y0 as int, x1 as int, y1 as int),
            forall|j: int| 0 <= j < i ==> #[trigger] line_pt(
                x0 as int, y0 as int, x1 as int, y1 as int, j) != (x as int, y as int),
        decreases steps - i + 1,
    {
        let p = line_pt_exec(x0, y0, x1, y1, i);
        if p.0 == x as i64 && p.1 == y as i64 {
            proof {
                assert(line_pt(x0 as int, y0 as int, x1 as int, y1 as int, i as int)
                    == (x as int, y as int));
            }
            return true;
        }
        i = i + 1;
    }
    false
}

/// Executable membership test for the circle outline.
pub fn on_circle_exec(cx: i32, cy: i32, r: u32, x: i32, y: i32) -> (res: bool)
    ensures
        res == on_circle(cx as int, cy as int, r as int, x as int, y as int),
{
    proof {
        assert(r as int * r as int <= 0xffff_ffff_i64 as int * 0xffff_ffff_i64 as int)
            by (nonlinear_arith)
            requires 0 <= r as int <= 0xffff_ffff;
    }
    let r2: u64 = (r as u64) * (r as u64);
    let ddx: i64 = x as i64 - cx as i64;
    let ddy: i64 = y as i64 - cy as i64;
    let adx: u64 = if ddx >= 0 { ddx as u64 } else { (-ddx) as u64 };
    let ady: u64 = if ddy >= 0 { ddy as u64 } else { (-ddy) as u64 };
    proof {
        assert(adx as int * adx as int <= 0xffff_ffff_i64 as int * 0xffff_ffff_i64 as int
            && ady as int * ady as int <= 0xffff_ffff_i64 as int * 0xffff_ffff_i64 as int
            && adx as int * adx as int == (ddx as int) * (ddx as int)
            && ady as int * ady as int == (ddy as int) * (ddy as int))
            by (nonlinear_arith)
            requires
                0 <= adx as int <= 0xffff_ffff && 0 <= ady as int <= 0xffff_ffff
                    && (adx as int == ddx as int || adx as int == -(ddx as int))
                    && (ady as int == ddy as int || ady as int == -(ddy as int));
    }
    let row: bool = if ady * ady <= r2 {
        let s = isqrt_u64(r2 - ady * ady);
        adx == s
    } else {
        false
    };
    let col: bool = if adx * adx <= r2 {
        let s = isqrt_u64(r2 - adx * adx);
        ady == s
    } else {
        false
    };
    row || col
}

/// Executable membership test for the filled disk.
pub fn in_disk_exec(cx: i32, cy: i32, r: u32, x: i32, y: i32) -> (res: bool)
    ensures
        res == (dist2(x as int, y as int, cx as int, cy as int) <= r as int * r as int),
{
    proof {
        assert(r as int * r as int <= 0xffff_ffff_i64 as int * 0xffff_ffff_i64 as int
            && r as int * r as int >= 0)
            by (nonlinear_arith)
            requires 0 <= r as int <= 0xffff_ffff;
    }
    let r2: i128 = (r as i128) * (r as i128);
    let d = dist2_exec(x as i64, y as i64, cx as i64, cy as i64);
    d <= r2
}

/// Executable membership test for the rectangle border.
pub fn on_rect_border_exec(rx: i32, ry: i32, w: u32, h: u32, x: i32, y: i32) -> (res: bool)
    ensures
        res == on_rect_border(rx as int, ry as int, w as int, h as int, x as int, y as int),
{
    let xi: i64 = x as i64;
    let yi: i64 = y as i64;
    let rxi: i64 = rx as i64;
    let ryi: i64 = ry as i64;
    let wi: i64 = w as i64;
    let hi: i64 = h as i64;
    rxi <= xi && xi < rxi + wi && ryi <= yi && yi < ryi + hi
        && (xi == rxi || xi == rxi + wi - 1 || yi == ryi || yi == ryi + hi - 1)
}

/// Executable membership test for the swept disk.
pub fn in_capsule_exec(x0: i32, y0: i32, x1: i32, y1: i32, r: u32, x: i32, y: i32) -> (res: bool)
    requires
        r <= 0x8000,
    ensures
        res == in_capsule(x0 as int, y0 as int, x1 as int, y1 as int, r as int, x as int, y as int),
{
    proof {
        assert(0 <= r as int * r as int <= 0x8000_i64 as int * 0x8000_i64 as int)
            by (nonlinear_arith)
            requires 0 <= r as int <= 0x8000;
    }
    let r2: i128 = (r as i128) * (r as i128);
    let adx: i64 = if x1 >= x0 { x1 as i64 - x0 as i64 } else { x0 as i64 - x1 as i64 };
    let ady: i64 = if y1 >= y0 { y1 as i64 - y0 as i64 } else { y0 as i64 - y1 as i64 };
    let steps: i64 = if adx >= ady { adx } else { ady };
    let mut i: i64 = 0;
    while i <= steps
        invariant
            0 <= i <= steps + 1,
            r <= 0x8000,
            r2 == r as int * r as int,
            steps == seg_steps(x0 as int, y0 as int, x1 as int, y1 as int),
            forall|j: int| 0 <= j < i ==> {
                let p = #[trigger] line_pt(x0 as int, y0 as int, x1 as int, y1 as int, j);
                dist2(x as int, y as int, p.0, p.1) > r as int * r as int
            },
        decreases steps - i + 1,
    {
        let p = line_pt_exec(x0, y0, x1, y1, i);
        let d = dist2_exec(x as i64, y as i64, p.0, p.1);
        if d <= r2 {
            return true;
        }
        i = i + 1;
    }
    false
}

/// Executable membership test for the swept box.
pub fn in_box_sweep_exec(
    x0: i32, y0: i32, x1: i32, y1: i32, w: u32, h: u32, x: i32, y: i32,
) -> (res: bool)
    requires
        w <= 0x8000,
        h <= 0x8000,
    ensures
        res == in_box_sweep(
            x0 as int, y0 as int, x1 as int, y1 as int, w as int, h as int, x as int, y as int),
{
    let adx: i64 = if x1 >= x0 { x1 as i64 - x0 as i64 } else { x0 as i64 - x1 as i64 };
    let ady: i64 = if y1 >= y0 { y1 as i64 - y0 as i64 } else { y0 as i64 - y1 as i64 };
    let steps: i64 = if adx >= ady { adx } else { ady };
    let mut i: i64 = 0;
    while i <= steps
        invariant
            0 <= i <= steps + 1,
            steps == seg_steps(x0 as int, y0 as int, x1 as int, y1 as int),
            forall|j: int| 0 <= j < i ==> {
                let p = #[trigger] line_pt(x0 as int, y0 as int, x1 as int, y1 as int, j);
                !(p.0 <= x as int && (x as int) < p.0 + w as int
                    && p.1 <= y as int && (y as int) < p.1 + h as int)
            },
        decreases steps - i + 1,
    {
        let p = line_pt_exec(x0, y0, x1, y1, i);
        if p.0 <= x as i64 && (x as i64) < p.0 + w as i64 && p.1 <= y as i64
            && (y as i64) < p.1 + h as i64 {
            return true;
        }
        i = i + 1;
    }
    false
}

/// Executable counterpart of [`wu_line_weight`].
pub fn wu_line_weight_exec(x0: i32, y0: i32, x1: i32, y1: i32, x: i32, y: i32) -> (wt: u16)
    ensures
        wt == wu_line_weight(x0 as int, y0 as int, x1 as int, y1 as int, x as int, y as int),
        wt <= 256,
{
    let swap = !(x0 < x1 || (x0 == x1 && y0 <= y1));
    let (ax, ay, bx, by): (i32, i32, i32, i32) = if swap { (x1, y1, x0, y0) } else { (x0, y0, x1, y1) };
    proof {
        if swap {
            assert(wu_line_weight(x0 as int, y0 as int, x1 as int, y1 as int, x as int, y as int)
                == wu_line_weight(x1 as int, y1 as int, x0 as int, y0 as int, x as int, y as int));
        }
    }
    let dx: i64 = bx as i64 - ax as i64;
    let dy: i64 = by as i64 - ay as i64;
    let ady: i64 = if dy >= 0 { dy } else { -dy };
    if dx == 0 && ady == 0 {
        if x == ax && y == ay { 256 } else { 0 }
    } else if dx >= ady {
        if ax as i64 <= x as i64 && x as i64 <= bx as i64 {
            let i: i64 = x as i64 - ax as i64;
            proof {
                assert(-(dx as int * ady as int) <= i as int * dy as int
                    && i as int * dy as int <= dx as int * ady as int)
                    by (nonlinear_arith)
                    requires
                        0 <= i as int <= dx as int
                            && (ady as int == dy as int || ady as int == -(dy as int))
                            && ady as int >= 0;
                assert(0 <= dx as int * ady as int
                    <= 0x1_0000_0000_i64 as int * 0x1_0000_0000_i64 as int)
                    by (nonlinear_arith)
                    requires 0 <= dx as int <= 0x1_0000_0000 && 0 <= ady as int <= 0x1_0000_0000;
            }
            let num: i128 = (i as i128) * (dy as i128) + (dx as i128) * (ady as i128);
            proof {
                assert(num as int <= dx as int * (2 * ady as int)) by (nonlinear_arith)
                    requires num as int == i as int * dy as int + dx as int * ady as int
                        && i as int * dy as int <= dx as int * ady as int;
                lemma_div_le(num as int, dx as int, 2 * ady as int);
                lemma_fundamental_div_mod(num as int, dx as int);
                lemma_div_lt((num as int % dx as int) * 256, dx as int, 256);
            }
            let nu: u128 = num as u128;
            let du: u128 = dx as u128;
            let qm: u128 = nu / du;
            let q: i64 = qm as i64 - ady;
            let f: u16 = ((nu % du) * 256 / du) as u16;
            if y as i64 == ay as i64 + q {
                256 - f
            } else if y as i64 == ay as i64 + q + 1 {
                f
            } else {
                0
            }
        } else {
            0
        }
    } else {
        let i: i64 = if dy >= 0 { y as i64 - ay as i64 } else { ay as i64 - y as i64 };
        if 0 <= i && i <= ady {
            proof {
                assert(0 <= i as int * dx as int && i as int * dx as int
                    <= ady as int * dx as int)
                    by (nonlinear_arith)
                    requires 0 <= i as int <= ady as int && dx as int >= 0;
                lemma_div_le(i as int * dx as int, ady as int, dx as int);
                lemma_fundamental_div_mod(i as int * dx as int, ady as int);
                lemma_div_lt((i as int * dx as int % ady as int) * 256, ady as int, 256);
                assert(i as int * dx as int <= 0x1_0000_0000_i64 as int * 0x1_0000_0000_i64 as int)
                    by (nonlinear_arith)
                    requires 0 <= i as int <= 0x1_0000_0000 && 0 <= dx as int <= 0x1_0000_0000;
            }
            let nu: u128 = (i as u128) * (dx as u128);
            let du: u128 = ady as u128;
            let q: u128 = nu / du;
            let f: u16 = ((nu % du) * 256 / du) as u16;
            if x as i64 == ax as i64 + q as i64 {
                256 - f
            } else if x as i64 == ax as i64 + q as i64 + 1 {
                f
            } else {
                0
            }
        } else {
            0
        }
    }
}

/// Executable counterpart of [`wu_half_weight`].
pub fn wu_half_weight_exec(r: u32, d: i64, m: i64) -> (wt: u16)
    requires
        r <= 0x8000,
        -0x1_0000_0000i64 <= d <= 0x1_0000_0000i64,
        -0x1_0000_0000i64 <= m <= 0x1_0000_0000i64,
    ensures
        wt == wu_half_weight(r as int, d as int, m as int),
        wt <= 256,
{
    let am: i64 = if m >= 0 { m } else { -m };
    proof {
        assert(0 <= r as int * r as int <= 0x4000_0000 && (d as int) * (d as int) >= 0
            && (d as int) * (d as int) <= 0x4_0000_0000_0000_0000)
            by (nonlinear_arith)
            requires 0 <= r as int <= 0x8000 && -0x1_0000_0000 <= d as int <= 0x1_0000_0000;
    }
    let v: i128 = (r as i128) * (r as i128) - (d as i128) * (d as i128);
    if v >= 0 {
        let s: u64 = isqrt_u64(v as u64);
        proof {
            lemma_isqrt(v as int);
            assert(s as int * s as int <= v as int);
            assert(v as int - s as int * s as int <= 2 * s as int) by (nonlinear_arith)
                requires (v as int) < (s as int + 1) * (s as int + 1);
            assert(s as int <= 0x8000) by (nonlinear_arith)
                requires s as int * s as int <= 0x4000_0000 && s as int >= 0;
            lemma_div_lt((v as int - s as int * s as int) * 256, 2 * s as int + 1, 256);
        }
        let f: u16 = (((v as u64) - s * s) * 256 / (2 * s + 1)) as u16;
        if am >= 0 && am as u64 == s {
            256 - f
        } else if am as u64 == s + 1 {
            f
        } else {
            0
        }
    } else {
        0
    }
}

/// Executable counterpart of [`wu_circle_weight`].
pub fn wu_circle_weight_exec(cx: i32, cy: i32, r: u32, x: i32, y: i32) -> (wt: u16)
    requires
        r <= 0x8000,
    ensures
        wt == wu_circle_weight(cx as int, cy as int, r as int, x as int, y as int),
        wt <= 256,
{
    let row = wu_half_weight_exec(r, y as i64 - cy as i64, x as i64 - cx as i64);
    let col = wu_half_weight_exec(r, x as i64 - cx as i64, y as i64 - cy as i64);
    if row >= col { row } else { col }
}

/// Executable counterpart of [`smooth_circle_weight`].
pub fn smooth_circle_weight_exec(cx: i32, cy: i32, r: u32, x: i32, y: i32) -> (wt: u16)
    ensures
        wt == smooth_circle_weight(cx as int, cy as int, r as int, x as int, y as int),
        wt <= 256,
{
    if r == 0 {
        0
    } else {
        proof {
            assert(0 <= (r as int - 1) * (r as int - 1) <= 0x1_0000_0000_0000_0000
                && 0 <= r as int * r as int <= 0x1_0000_0000_0000_0000)
                by (nonlinear_arith)
                requires 1 <= r as int <= 0x1_0000_0000;
        }
        let d2 = dist2_exec(x as i64, y as i64, cx as i64, cy as i64);
        let rm1: i128 = (r as i128) - 1;
        if d2 <= rm1 * rm1 {
            256
        } else if d2 <= (r as i128) * (r as i128) {
            128
        } else {
            0
        }
    }
}

/// Executable coverage weight of one pixel under a region.
pub fn weight_exec(reg: &Region, x: i32, y: i32) -> (wt: u16)
    requires
        reg.wf(),
    ensures
        wt == reg.weight(x as int, y as int),
        wt <= 256,
{
    match reg {
        Region::Dot { x: px, y: py } => {
            if x == *px && y == *py { 256 } else { 0 }
        },
        Region::Line { x0, y0, x1, y1 } => {
            if on_line_exec(*x0, *y0, *x1, *y1, x, y) { 256 } else { 0 }
        },
        Region::CircleOutline { cx, cy, r } => {
            if on_circle_exec(*cx, *cy, *r, x, y) { 256 } else { 0 }
        },
        Region::Disk { cx, cy, r } => {
            if in_disk_exec(*cx, *cy, *r, x, y) { 256 } else { 0 }
        },
        Region::RectOutline { x: rx, y: ry, w, h } => {
            if on_rect_border_exec(*rx, *ry, *w, *h, x, y) { 256 } else { 0 }
        },
        Region::Capsule { x0, y0, x1, y1, r } => {
            if in_capsule_exec(*x0, *y0, *x1, *y1, *r, x, y) { 256 } else { 0 }
        },
        Region::BoxSweep { x0, y0, x1, y1, w, h } => {
            if in_box_sweep_exec(*x0, *y0, *x1, *y1, *w, *h, x, y) { 256 } else { 0 }
        },
        Region::WuLine { x0, y0, x1, y1 } => wu_line_weight_exec(*x0, *y0, *x1, *y1, x, y),
        Region::WuCircle { cx, cy, r } => wu_circle_weight_exec(*cx, *cy, *r, x, y),
        Region::SmoothCircle { cx, cy, r } => smooth_circle_weight_exec(*cx, *cy, *r, x, y),
    }
}

/// Line endpoint invariance: painting the segment from `(x0, y0)` to
/// `(x1, y1)` changes exactly the same pixels, to exactly the same
/// values, as painting it from `(x1, y1)` to `(x0, y0)`.
pub proof fn lemma_line_paint_symmetric(
    bv: BufView, st: Option<BufView>, x0: i32, y0: i32, x1: i32, y1: i32, c: Rgba,
)
    ensures
        painted(bv, st, Region::Line { x0, y0, x1, y1 }, c) == painted(
            bv, st, Region::Line { x0: x1, y0: y1, x1: x0, y1: y0 }, c),
{
    let a = Region::Line { x0, y0, x1, y1 };
    let b = Region::Line { x0: x1, y0: y1, x1: x0, y1: y0 };
    assert forall|x: int, y: int| a.weight(x, y) == b.weight(x, y) by {
        crate::geom::lemma_line_symmetric(
            x0 as int, y0 as int, x1 as int, y1 as int, x, y);
    }
    assert(painted(bv, st, a, c).px =~= painted(bv, st, b, c).px);
    assert(painted(bv, st, a, c) =~= painted(bv, st, b, c));
}

/// Blend color `c` into `buf` over region `reg`, one pixel at most once,
/// restricted to the pixels an optional mask stencil lets through.
pub fn raster(buf: &mut PixelBuffer, stencil: Option<&PixelBuffer>, reg: &Region, c: Rgba)
    requires
        old(buf).wf(),
        reg.wf(),
        match stencil {
            Option::Some(m) => m.wf(),
            Option::None => true,
        },
    ensures
        final(buf).wf(),
        final(buf).view() == painted(old(buf).view(), stencil_view(stencil), *reg, c),
{
    let ghost orig = buf.view();
    let ghost stv = stencil_view(stencil);
    let ghost tgt = painted(orig, stv, *reg, c);
    let w = buf.width;
    let h = buf.height;
    let mut y: usize = 0;
    while y < h
        invariant
            buf.wf(),
            reg.wf(),
            match stencil {
                Option::Some(m) => m.wf(),
                Option::None => true,
            },
            stv == stencil_view(stencil),
            orig.wf(),
            buf.view().w == orig.w,
            buf.view().h == orig.h,
            w == orig.w,
            h == orig.h,
            y <= h,
            tgt == painted(orig, stv, *reg, c),
            forall|idx: int| 0 <= idx < y as int * orig.w ==> buf.view().px[idx] == tgt.px[idx],
            forall|idx: int| y as int * orig.w <= idx < orig.px.len()
                ==> buf.view().px[idx] == orig.px[idx],
        decreases h - y,
    {
        let mut x: usize = 0;
        while x < w
            invariant
                buf.wf(),
                reg.wf(),
                match stencil {
                    Option::Some(m) => m.wf(),
                    Option::None => true,
                },
                stv == stencil_view(stencil),
                orig.wf(),
                buf.view().w == orig.w,
                buf.view().h == orig.h,
                w == orig.w,
                h == orig.h,
                y < h,
                x <= w,
                tgt == painted(orig, stv, *reg, c),
                forall|idx: int| 0 <= idx < y as int * orig.w + x as int
                    ==> buf.view().px[idx] == tgt.px[idx],
                forall|idx: int| y as int * orig.w + x as int <= idx < orig.px.len()
                    ==> buf.view().px[idx] == orig.px[idx],
            decreases w - x,
        {
            let ghost cur = y as int * orig.w + x as int;
            proof {
                crate::buffer::lemma_index_bounds(orig.w, orig.h, x as int, y as int);
                lemma_fundamental_div_mod_converse(cur, orig.w, y as int, x as int);
                assert(tgt.px[cur] == (if stencil_allows(stv, x as int, y as int) {
                    blend(orig.px[cur], c, reg.weight(x as int, y as int))
                } else {
                    orig.px[cur]
                }));
            }
            let allowed: bool = match stencil {
                Option::None => true,
                Option::Some(m) => {
                    if x < m.width && y < m.height {
                        let mc = m.get(x, y);
                        (mc.r as u32) + (mc.g as u32) + (mc.b as u32) > 0
                    } else {
                        false
                    }
                },
            };
            if allowed {
                let wt = weight_exec(reg, x as i32, y as i32);
                let d = buf.get(x, y);
                let nc = blend_px(d, c, wt);
                buf.set(x, y, nc);
            }
            x = x + 1;
        }
        proof {
            assert(y as int * orig.w + orig.w == (y as int + 1) * orig.w) by (nonlinear_arith);
        }
        y = y + 1;
    }
    proof {
        assert(h as int * orig.w == orig.w * orig.h) by (nonlinear_arith)
            requires h as int == orig.h;
        assert(h as int * orig.w == orig.px.len());
        assert(buf.view().px =~= tgt.px);
        assert(buf.view() =~= tgt);
    }
}

} // verus!
