//! In-place image transformations over a sub-rectangle, and the two
//! whole-buffer operations that reallocate (rotation and resize).

use vstd::prelude::*;
use vstd::arithmetic::div_mod::lemma_fundamental_div_mod_converse;
use crate::buffer::BufView;
use crate::buffer::PixelBuffer;
use crate::buffer::lemma_index_bounds;
use crate::color::Rgba;
use crate::color::luma;
use crate::color::luma_exec;
use crate::color::sat_add;
use crate::color::sat_add_exec;
use crate::color::sat_sub;
use crate::color::sat_sub_exec;
use crate::fill::in_rect;
use crate::geom::lemma_div_lt;
use crate::region::stencil_allows;
use crate::region::stencil_view;

verus! {

/// The dimension-preserving transformations of a region.
pub enum TransformOp {
    /// 3x3 box average over the region (neighbors outside it are left out
    /// of the average).
    Blur,
    /// Unsharp masking with unit strength: twice the pixel minus its blur,
    /// clamped to a byte per channel.
    Unsharpen,
    /// Mirror the region left to right.
    FlipHorizontal,
    /// Mirror the region top to bottom.
    FlipVertical,
    /// Add `v` to each color channel, saturating at white.
    Brighten { v: u8 },
    /// Subtract `v` from each color channel, saturating at black.
    Darken { v: u8 },
    /// Complement each color channel.
    Invert,
    /// Collapse each pixel to its luminance-weighted grey.
    Grayscale,
}

pub open spec fn clamp255(v: int) -> int {
    if v < 0 { 0 } else if v > 255 { 255 } else { v }
}

/// One blur contribution: the pixel's channels and a count of one if
/// `(xx, yy)` lies in the region, zero otherwise.
pub open spec fn blur_term(
    bv: BufView, rx: int, ry: int, rw: int, rh: int, xx: int, yy: int,
) -> (int, int, int, int) {
    if in_rect(rx, ry, rw, rh, xx, yy) {
        let c = bv.at(xx, yy);
        (c.r as int, c.g as int, c.b as int, 1)
    } else {
        (0, 0, 0, 0)
    }
}

pub open spec fn add4(a: (int, int, int, int), b: (int, int, int, int)) -> (int, int, int, int) {
    (a.0 + b.0, a.1 + b.1, a.2 + b.2, a.3 + b.3)
}

/// Channel sums and population of the 3x3 neighborhood of `(x, y)`
/// clipped to the region.
pub open spec fn blur_tot(
    bv: BufView, rx: int, ry: int, rw: int, rh: int, x: int, y: int,
) -> (int, int, int, int) {
    add4(
        add4(
            add4(blur_term(bv, rx, ry, rw, rh, x - 1, y - 1), blur_term(bv, rx, ry, rw, rh, x, y - 1)),
            add4(blur_term(bv, rx, ry, rw, rh, x + 1, y - 1), blur_term(bv, rx, ry, rw, rh, x - 1, y)),
        ),
        add4(
            add4(blur_term(bv, rx, ry, rw, rh, x, y), blur_term(bv, rx, ry, rw, rh, x + 1, y)),
            add4(
                add4(blur_term(bv, rx, ry, rw, rh, x - 1, y + 1), blur_term(bv, rx, ry, rw, rh, x, y + 1)),
                blur_term(bv, rx, ry, rw, rh, x + 1, y + 1),
            ),
        ),
    )
}

/// The blurred pixel: the mean of the neighborhood, channel by channel.
pub open spec fn blur_at(bv: BufView, rx: int, ry: int, rw: int, rh: int, x: int, y: int) -> Rgba {
    let t = blur_tot(bv, rx, ry, rw, rh, x, y);
    Rgba { r: (t.0 / t.3) as u8, g: (t.1 / t.3) as u8, b: (t.2 / t.3) as u8, a: 255 }
}

/// What a transformation makes of the region pixel `(x, y)`, computed
/// from the untouched original `bv`.
pub open spec fn op_result(
    bv: BufView, op: TransformOp, rx: int, ry: int, rw: int, rh: int, x: int, y: int,
) -> Rgba {
    match op {
        TransformOp::Blur => blur_at(bv, rx, ry, rw, rh, x, y),
        TransformOp::Unsharpen => {
            let o = bv.at(x, y);
            let b = blur_at(bv, rx, ry, rw, rh, x, y);
            Rgba {
                r: clamp255(2 * o.r as int - b.r as int) as u8,
                g: clamp255(2 * o.g as int - b.g as int) as u8,
                b: clamp255(2 * o.b as int - b.b as int) as u8,
                a: 255,
            }
        },
        TransformOp::FlipHorizontal => {
            let c = bv.at(2 * rx + rw - 1 - x, y);
            Rgba { r: c.r, g: c.g, b: c.b, a: 255 }
        },
        TransformOp::FlipVertical => {
            let c = bv.at(x, 2 * ry + rh - 1 - y);
            Rgba { r: c.r, g: c.g, b: c.b, a: 255 }
        },
        TransformOp::Brighten { v } => {
            let c = bv.at(x, y);
            Rgba {
                r: sat_add(c.r as int, v as int) as u8,
                g: sat_add(c.g as int, v as int) as u8,
                b: sat_add(c.b as int, v as int) as u8,
                a: 255,
            }
        },
        TransformOp::Darken { v } => {
            let c = bv.at(x, y);
            Rgba {
                r: sat_sub(c.r as int, v as int) as u8,
                g: sat_sub(c.g as int, v as int) as u8,
                b: sat_sub(c.b as int, v as int) as u8,
                a: 255,
            }
        },
        TransformOp::Invert => {
            let c = bv.at(x, y);
            Rgba {
                r: (255 - c.r as int) as u8,
                g: (255 - c.g as int) as u8,
                b: (255 - c.b as int) as u8,
                a: 255,
            }
        },
        TransformOp::Grayscale => {
            let l = luma(bv.at(x, y)) as u8;
            Rgba { r: l, g: l, b: l, a: 255 }
        },
    }
}

/// The buffer after transforming the region: region pixels the stencil
/// admits take the op's result, every other pixel is untouched.
pub open spec fn transformed(
    bv: BufView, st: Option<BufView>, op: TransformOp, rx: int, ry: int, rw: int, rh: int,
) -> BufView {
    BufView {
        w: bv.w,
        h: bv.h,
        px: Seq::new(
            bv.px.len(),
            |idx: int|
                {
                    let x = idx % bv.w;
                    let y = idx / bv.w;
                    if in_rect(rx, ry, rw, rh, x, y) && stencil_allows(st, x, y) {
                        op_result(bv, op, rx, ry, rw, rh, x, y)
                    } else {
                        bv.px[idx]
                    }
                },
        ),
    }
}

/// One executable blur contribution.
fn blur_term_exec(
    src: &PixelBuffer, rx: i64, ry: i64, rw: i64, rh: i64, xx: i64, yy: i64,
) -> (t: (u32, u32, u32, u32))
    requires
        src.wf(),
        0 <= rx,
        0 <= ry,
        0 <= rw,
        0 <= rh,
        rx + rw <= src.view().w,
        ry + rh <= src.view().h,
    ensures
        (t.0 as int, t.1 as int, t.2 as int, t.3 as int) == crate::transform::blur_term(
            src.view(), rx as int, ry as int, rw as int, rh as int, xx as int, yy as int),
        t.0 <= 255 && t.1 <= 255 && t.2 <= 255 && t.3 <= 1,
{
    if rx <= xx && xx < rx + rw && ry <= yy && yy < ry + rh {
        let c = src.get(xx as usize, yy as usize);
        (c.r as u32, c.g as u32, c.b as u32, 1)
    } else {
        (0, 0, 0, 0)
    }
}

/// Executable counterpart of [`op_result`].
fn op_result_exec(
    src: &PixelBuffer, op: &TransformOp, rx: i64, ry: i64, rw: i64, rh: i64, x: i64, y: i64,
) -> (c: Rgba)
    requires
        src.wf(),
        0 <= rx,
        0 <= ry,
        1 <= rw,
        1 <= rh,
        rx + rw <= src.view().w,
        ry + rh <= src.view().h,
        in_rect(rx as int, ry as int, rw as int, rh as int, x as int, y as int),
    ensures
        c == op_result(src.view(), *op, rx as int, ry as int, rw as int, rh as int, x as int,
            y as int),
        c.opaque(),
{
    match op {
        TransformOp::Blur => blur_at_exec(src, rx, ry, rw, rh, x, y),
        TransformOp::Unsharpen => {
            let o = src.get(x as usize, y as usize);
            let b = blur_at_exec(src, rx, ry, rw, rh, x, y);
            let rr: i32 = 2 * (o.r as i32) - (b.r as i32);
            let gg: i32 = 2 * (o.g as i32) - (b.g as i32);
            let bb: i32 = 2 * (o.b as i32) - (b.b as i32);
            Rgba {
                r: clamp255_exec(rr),
                g: clamp255_exec(gg),
                b: clamp255_exec(bb),
                a: 255,
            }
        },
        TransformOp::FlipHorizontal => {
            let sx: i64 = 2 * rx + rw - 1 - x;
            let c = src.get(sx as usize, y as usize);
            Rgba { r: c.r, g: c.g, b: c.b, a: 255 }
        },
        TransformOp::FlipVertical => {
            let sy: i64 = 2 * ry + rh - 1 - y;
            let c = src.get(x as usize, sy as usize);
            Rgba { r: c.r, g: c.g, b: c.b, a: 255 }
        },
        TransformOp::Brighten { v } => {
            let c = src.get(x as usize, y as usize);
            Rgba {
                r: sat_add_exec(c.r, *v),
                g: sat_add_exec(c.g, *v),
                b: sat_add_exec(c.b, *v),
                a: 255,
            }
        },
        TransformOp::Darken { v } => {
            let c = src.get(x as usize, y as usize);
            Rgba {
                r: sat_sub_exec(c.r, *v),
                g: sat_sub_exec(c.g, *v),
                b: sat_sub_exec(c.b, *v),
                a: 255,
            }
        },
        TransformOp::Invert => {
            let c = src.get(x as usize, y as usize);
            Rgba { r: 255 - c.r, g: 255 - c.g, b: 255 - c.b, a: 255 }
        },
        TransformOp::Grayscale => {
            let c = src.get(x as usize, y as usize);
            let l = luma_exec(c);
            Rgba { r: l, g: l, b: l, a: 255 }
        },
    }
}

fn clamp255_exec(v: i32) -> (c: u8)
    ensures
        c == clamp255(v as int) as u8,
{
    if v < 0 { 0 } else if v > 255 { 255 } else { v as u8 }
}

/// Executable counterpart of [`blur_at`].
fn blur_at_exec(src: &PixelBuffer, rx: i64, ry: i64, rw: i64, rh: i64, x: i64, y: i64) -> (c: Rgba)
    requires
        src.wf(),
        0 <= rx,
        0 <= ry,
        1 <= rw,
        1 <= rh,
        rx + rw <= src.view().w,
        ry + rh <= src.view().h,
        in_rect(rx as int, ry as int, rw as int, rh as int, x as int, y as int),
    ensures
        c == blur_at(src.view(), rx as int, ry as int, rw as int, rh as int, x as int, y as int),
        c.opaque(),
{
    let t1 = blur_term_exec(src, rx, ry, rw, rh, x - 1, y - 1);
    let t2 = blur_term_exec(src, rx, ry, rw, rh, x, y - 1);
    let t3 = blur_term_exec(src, rx, ry, rw, rh, x + 1, y - 1);
    let t4 = blur_term_exec(src, rx, ry, rw, rh, x - 1, y);
    let t5 = blur_term_exec(src, rx, ry, rw, rh, x, y);
    let t6 = blur_term_exec(src, rx, ry, rw, rh, x + 1, y);
    let t7 = blur_term_exec(src, rx, ry, rw, rh, x - 1, y + 1);
    let t8 = blur_term_exec(src, rx, ry, rw, rh, x, y + 1);
    let t9 = blur_term_exec(src, rx, ry, rw, rh, x + 1, y + 1);
    let sr: u32 = t1.0 + t2.0 + t3.0 + t4.0 + t5.0 + t6.0 + t7.0 + t8.0 + t9.0;
    let sg: u32 = t1.1 + t2.1 + t3.1 + t4.1 + t5.1 + t6.1 + t7.1 + t8.1 + t9.1;
    let sb: u32 = t1.2 + t2.2 + t3.2 + t4.2 + t5.2 + t6.2 + t7.2 + t8.2 + t9.2;
    let n: u32 = t1.3 + t2.3 + t3.3 + t4.3 + t5.3 + t6.3 + t7.3 + t8.3 + t9.3;
    Rgba { r: (sr / n) as u8, g: (sg / n) as u8, b: (sb / n) as u8, a: 255 }
}

/// The buffer after rotating the region a quarter turn clockwise in
/// place: the rotated image, now `rh` wide and `rw` tall, is written back
/// at the region's top-left corner, clipped to the buffer; every other
/// pixel is untouched.
pub open spec fn rotated(bv: BufView, rx: int, ry: int, rw: int, rh: int) -> BufView {
    BufView {
        w: bv.w,
        h: bv.h,
        px: Seq::new(
            bv.px.len(),
            |idx: int|
                {
                    let x = idx % bv.w;
                    let y = idx / bv.w;
                    if in_rect(rx, ry, rh, rw, x, y) {
                        let c = bv.at(rx + (y - ry), ry + rh - 1 - (x - rx));
                        Rgba { r: c.r, g: c.g, b: c.b, a: 255 }
                    } else {
                        bv.px[idx]
                    }
                },
        ),
    }
}

/// Rotate the region a quarter turn clockwise in place.
pub fn rotate_rect(buf: &mut PixelBuffer, rx: usize, ry: usize, rw: usize, rh: usize)
    requires
        old(buf).wf(),
        1 <= rw,
        1 <= rh,
        rx + rw <= old(buf).view().w,
        ry + rh <= old(buf).view().h,
    ensures
        final(buf).wf(),
        final(buf).view() == rotated(old(buf).view(), rx as int, ry as int, rw as int, rh as int),
{
    let ghost orig = buf.view();
    let ghost tgt = rotated(orig, rx as int, ry as int, rw as int, rh as int);
    let src = buf.duplicate();
    let w = buf.width;
    let h = buf.height;
    let mut y: usize = 0;
    while y < h
        invariant
            buf.wf(),
            src.wf(),
            src.view() == orig,
            orig.wf(),
            buf.view().w == orig.w,
            buf.view().h == orig.h,
            w == orig.w,
            h == orig.h,
            y <= h,
            1 <= rw,
            1 <= rh,
            rx + rw <= orig.w,
            ry + rh <= orig.h,
            tgt == rotated(orig, rx as int, ry as int, rw as int, rh as int),
            forall|idx: int| 0 <= idx < y as int * orig.w ==> buf.view().px[idx] == tgt.px[idx],
            forall|idx: int| y as int * orig.w <= idx < orig.px.len()
                ==> buf.view().px[idx] == orig.px[idx],
        decreases h - y,
    {
        let mut x: usize = 0;
        while x < w
            invariant
                buf.wf(),
                src.wf(),
                src.view() == orig,
                orig.wf(),
                buf.view().w == orig.w,
                buf.view().h == orig.h,
                w == orig.w,
                h == orig.h,
                y < h,
                x <= w,
                1 <= rw,
                1 <= rh,
                rx + rw <= orig.w,
                ry + rh <= orig.h,
                tgt == rotated(orig, rx as int, ry as int, rw as int, rh as int),
                forall|idx: int| 0 <= idx < y as int * orig.w + x as int
                    ==> buf.view().px[idx] == tgt.px[idx],
                forall|idx: int| y as int * orig.w + x as int <= idx < orig.px.len()
                    ==> buf.view().px[idx] == orig.px[idx],
            decreases w - x,
        {
            let ghost cur = y as int * orig.w + x as int;
            proof {
                lemma_index_bounds(orig.w, orig.h, x as int, y as int);
                lemma_fundamental_div_mod_converse(cur, orig.w, y as int, x as int);
            }
            let inside = rx <= x && (x as u64) < rx as u64 + rh as u64 && ry <= y
                && (y as u64) < ry as u64 + rw as u64;
            if inside {
                let sx: usize = rx + (y - ry);
                let sy: usize = ry + rh - 1 - (x - rx);
                let c = src.get(sx, sy);
                buf.set(x, y, Rgba { r: c.r, g: c.g, b: c.b, a: 255 });
            }
            proof {
                assert(buf.view().px[cur] == tgt.px[cur]);
            }
            x = x + 1;
        }
        proof {
            assert(y as int * orig.w + orig.w == (y as int + 1) * orig.w) by (nonlinear_arith);
        }
        y = y + 1;
    }
    proof {
        assert(h as int * orig.w == orig.w * orig.h) by (nonlinear_arith)
            requires h as int == orig.h;
        assert(buf.view().px =~= tgt.px);
        assert(buf.view() =~= tgt);
    }
}

/// The buffer scaled to `nw` by `nh` by nearest-neighbor sampling.
pub open spec fn resized(bv: BufView, nw: int, nh: int) -> BufView {
    BufView {
        w: nw,
        h: nh,
        px: Seq::new(
            (nw * nh) as nat,
            |idx: int|
                {
                    let x = idx % nw;
                    let y = idx / nw;
                    let c = bv.at(x * bv.w / nw, y * bv.h / nh);
                    Rgba { r: c.r, g: c.g, b: c.b, a: 255 }
                },
        ),
    }
}

/// A fresh buffer holding the image scaled to `nw` by `nh`.
pub fn resize_buf(buf: &PixelBuffer, nw: usize, nh: usize) -> (out: PixelBuffer)
    requires
        buf.wf(),
        1 <= nw <= crate::buffer::MAX_DIM,
        1 <= nh <= crate::buffer::MAX_DIM,
        1 <= buf.view().w,
        1 <= buf.view().h,
    ensures
        out.wf(),
        out.view() == resized(buf.view(), nw as int, nh as int),
{
    let ghost orig = buf.view();
    let ghost tgt = resized(orig, nw as int, nh as int);
    proof {
        assert(nw as int * nh as int <= crate::buffer::MAX_DIM as int * crate::buffer::MAX_DIM as int
            && nw as int * nh as int >= 0) by (nonlinear_arith)
            requires 0 <= nw as int <= crate::buffer::MAX_DIM as int
                && 0 <= nh as int <= crate::buffer::MAX_DIM as int;
    }
    let mut data: Vec<Rgba> = Vec::new();
    let mut y: usize = 0;
    while y < nh
        invariant
            buf.wf(),
            orig == buf.view(),
            1 <= nw <= crate::buffer::MAX_DIM,
            1 <= nh <= crate::buffer::MAX_DIM,
            1 <= orig.w,
            1 <= orig.h,
            y <= nh,
            tgt == resized(orig, nw as int, nh as int),
            tgt.px.len() == nw as int * nh as int,
            data.view().len() == y as int * nw as int,
            forall|idx: int| 0 <= idx < data.view().len() ==> data.view()[idx] == tgt.px[idx],
        decreases nh - y,
    {
        let mut x: usize = 0;
        while x < nw
            invariant
                buf.wf(),
                orig == buf.view(),
                1 <= nw <= crate::buffer::MAX_DIM,
                1 <= nh <= crate::buffer::MAX_DIM,
                1 <= orig.w,
                1 <= orig.h,
                y < nh,
                x <= nw,
                tgt == resized(orig, nw as int, nh as int),
                tgt.px.len() == nw as int * nh as int,
                data.view().len() == y as int * nw as int + x as int,
                forall|idx: int| 0 <= idx < data.view().len() ==> data.view()[idx] == tgt.px[idx],
            decreases nw - x,
        {
            let ghost cur = y as int * nw as int + x as int;
            proof {
                lemma_index_bounds(nw as int, nh as int, x as int, y as int);
                lemma_fundamental_div_mod_converse(cur, nw as int, y as int, x as int);
                assert(x as int * orig.w < nw as int * orig.w) by (nonlinear_arith)
                    requires (x as int) < nw as int && orig.w >= 1;
                assert(x as int * orig.w >= 0) by (nonlinear_arith)
                    requires x as int >= 0 && orig.w >= 0;
                lemma_div_lt(x as int * orig.w, nw as int, orig.w);
                assert(y as int * orig.h < nh as int * orig.h) by (nonlinear_arith)
                    requires (y as int) < nh as int && orig.h >= 1;
                assert(y as int * orig.h >= 0) by (nonlinear_arith)
                    requires y as int >= 0 && orig.h >= 0;
                lemma_div_lt(y as int * orig.h, nh as int, orig.h);
                assert(x as int * orig.w <= crate::buffer::MAX_DIM as int
                    * crate::buffer::MAX_DIM as int) by (nonlinear_arith)
                    requires 0 <= x as int <= crate::buffer::MAX_DIM as int
                        && 0 <= orig.w <= crate::buffer::MAX_DIM as int;
                assert(y as int * orig.h <= crate::buffer::MAX_DIM as int
                    * crate::buffer::MAX_DIM as int) by (nonlinear_arith)
                    requires 0 <= y as int <= crate::buffer::MAX_DIM as int
                        && 0 <= orig.h <= crate::buffer::MAX_DIM as int;
            }
            let sx: usize = x * buf.width / nw;
            let sy: usize = y * buf.height / nh;
            let c = buf.get(sx, sy);
            data.push(Rgba { r: c.r, g: c.g, b: c.b, a: 255 });
            x = x + 1;
        }
        proof {
            assert(y as int * nw as int + nw as int == (y as int + 1) * nw as int)
                by (nonlinear_arith);
        }
        y = y + 1;
    }
    let out = PixelBuffer { width: nw, height: nh, data };
    proof {
        assert(nh as int * nw as int == nw as int * nh as int) by (nonlinear_arith);
        assert(out.view().px =~= tgt.px);
        assert(out.view() =~= tgt);
        assert(out.view().wf()) by {
            assert(forall|i: int| 0 <= i < tgt.px.len() ==> #[trigger] tgt.px[i].opaque());
        }
    }
    out
}

/// Apply a transformation to the region, restricted by the stencil; the
/// rest of the buffer is untouched and the dimensions are kept.
pub fn apply_in_rect(
    buf: &mut PixelBuffer,
    stencil: Option<&PixelBuffer>,
    op: &TransformOp,
    rx: usize,
    ry: usize,
    rw: usize,
    rh: usize,
)
    requires
        old(buf).wf(),
        match stencil {
            Option::Some(m) => m.wf(),
            Option::None => true,
        },
        1 <= rw,
        1 <= rh,
        rx + rw <= old(buf).view().w,
        ry + rh <= old(buf).view().h,
    ensures
        final(buf).wf(),
        final(buf).view() == transformed(
            old(buf).view(), stencil_view(stencil), *op, rx as int, ry as int, rw as int,
            rh as int),
{
    let ghost orig = buf.view();
    let ghost stv = stencil_view(stencil);
    let ghost tgt = transformed(orig, stv, *op, rx as int, ry as int, rw as int, rh as int);
    let src = buf.duplicate();
    let w = buf.width;
    let h = buf.height;
    let mut y: usize = 0;
    while y < h
        invariant
            buf.wf(),
            src.wf(),
            src.view() == orig,
            match stencil {
                Option::Some(m) => m.wf(),
                Option::None => true,
            },
            stv == stencil_view(stencil),
            orig.wf(),
            buf.view().w == orig.w,
            buf.view().h == orig.h,
            w == orig.w,
            h == orig.h,
            y <= h,
            1 <= rw,
            1 <= rh,
            rx + rw <= orig.w,
            ry + rh <= orig.h,
            tgt == transformed(orig, stv, *op, rx as int, ry as int, rw as int, rh as int),
            forall|idx: int| 0 <= idx < y as int * orig.w ==> buf.view().px[idx] == tgt.px[idx],
            forall|idx: int| y as int * orig.w <= idx < orig.px.len()
                ==> buf.view().px[idx] == orig.px[idx],
        decreases h - y,
    {
        let mut x: usize = 0;
        while x < w
            invariant
                buf.wf(),
                src.wf(),
                src.view() == orig,
                match stencil {
                    Option::Some(m) => m.wf(),
                    Option::None => true,
                },
                stv == stencil_view(stencil),
                orig.wf(),
                buf.view().w == orig.w,
                buf.view().h == orig.h,
                w == orig.w,
                h == orig.h,
                y < h,
                x <= w,
                1 <= rw,
                1 <= rh,
                rx + rw <= orig.w,
                ry + rh <= orig.h,
                tgt == transformed(orig, stv, *op, rx as int, ry as int, rw as int, rh as int),
                forall|idx: int| 0 <= idx < y as int * orig.w + x as int
                    ==> buf.view().px[idx] == tgt.px[idx],
                forall|idx: int| y as int * orig.w + x as int <= idx < orig.px.len()
                    ==> buf.view().px[idx] == orig.px[idx],
            decreases w - x,
        {
            let ghost cur = y as int * orig.w + x as int;
            proof {
                lemma_index_bounds(orig.w, orig.h, x as int, y as int);
                lemma_fundamental_div_mod_converse(cur, orig.w, y as int, x as int);
            }
            let inside = rx <= x && x < rx + rw && ry <= y && y < ry + rh;
            let allowed: bool = match stencil {
                Option::None => true,
                Option::Some(m) => {
                    if x < m.width && y < m.height {
                        let mc = m.get(x, y);
                        (mc.r as u32) + (mc.g as u32) + (mc.b as u32) > 0
                    } else {
                        false
                    }
                },
            };
            if inside && allowed {
                let nc = op_result_exec(&src, op, rx as i64, ry as i64, rw as i64, rh as i64,
                    x as i64, y as i64);
                buf.set(x, y, nc);
            }
            proof {
                assert(allowed == stencil_allows(stv, x as int, y as int));
                assert(buf.view().px[cur] == tgt.px[cur]);
            }
            x = x + 1;
        }
        proof {
            assert(y as int * orig.w + orig.w == (y as int + 1) * orig.w) by (nonlinear_arith);
        }
        y = y + 1;
    }
    proof {
        assert(h as int * orig.w == orig.w * orig.h) by (nonlinear_arith)
            requires h as int == orig.h;
        assert(buf.view().px =~= tgt.px);
        assert(buf.view() =~= tgt);
    }
}

} // verus!
