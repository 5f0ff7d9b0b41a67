//! The canvas: the pixel buffer together with its mask layer, undo
//! history, selection, copy buffer and gesture state, and every editing
//! operation the tools perform on them.

use vstd::prelude::*;
use crate::buffer::BufView;
use crate::buffer::MAX_DIM;
use crate::buffer::PixelBuffer;
use crate::color::Rgba;
use crate::interact::InteractionState;
use crate::region::Region;
use crate::region::painted;
use crate::region::raster;
use crate::undo::UndoStack;
use crate::undo::undo_push;

verus! {

/// A selection rectangle, always within the image bounds.
#[derive(Clone, Copy, PartialEq, Eq, Structural, Debug)]
pub struct SelRect {
    pub x: usize,
    pub y: usize,
    pub w: usize,
    pub h: usize,
}

/// The aggregate editing surface.
pub struct Canvas {
    /// The live pixel buffer.
    pub image: PixelBuffer,
    /// The mask overlay, always the image's size; black pixels are
    /// masked out, anything else is open.
    pub mask: PixelBuffer,
    /// While set, drawing targets the mask overlay instead of the image.
    pub mask_active: bool,
    /// While set, edits are restricted to open mask pixels.
    pub mask_enabled: bool,
    /// The bounded snapshot history.
    pub undo: UndoStack,
    /// The last copied region (or a placeholder).
    pub copy_buffer: PixelBuffer,
    /// The rectangle of interest, or `None` for the whole canvas.
    pub selection: Option<SelRect>,
    /// Two-click gesture state.
    pub gesture: InteractionState,
}

impl Canvas {
    pub open spec fn wf(self) -> bool {
        &&& self.image.wf()
        &&& self.mask.wf()
        &&& self.mask.view().w == self.image.view().w
        &&& self.mask.view().h == self.image.view().h
        &&& self.undo.wf()
        &&& self.copy_buffer.wf()
        &&& self.gesture.wf()
        &&& match self.selection {
            Option::Some(s) => 1 <= s.w && 1 <= s.h && s.x + s.w <= self.image.view().w
                && s.y + s.h <= self.image.view().h,
            Option::None => true,
        }
    }

    /// The stencil a drawing call on the image runs under.
    pub open spec fn active_stencil(self) -> Option<BufView> {
        if self.mask_enabled {
            Option::Some(self.mask.view())
        } else {
            Option::None
        }
    }

    /// A blank canvas: the image filled with one color, the mask fully
    /// open, no history, no selection, a small blank copy buffer.
    pub fn new(width: usize, height: usize, c: Rgba) -> (cv: Canvas)
        requires
            width <= MAX_DIM,
            height <= MAX_DIM,
        ensures
            cv.wf(),
            cv.image.view() == BufView::solid(width as int, height as int, c),
            cv.mask.view() == BufView::solid(
                width as int, height as int, Rgba { r: 255, g: 255, b: 255, a: 255 }),
            !cv.mask_active,
            !cv.mask_enabled,
            cv.undo.views() == Seq::<BufView>::empty(),
            cv.selection is None,
            cv.gesture.pending is None,
            cv.gesture.prev is None,
    {
        Canvas {
            image: PixelBuffer::from_color(width, height, c),
            mask: PixelBuffer::from_color(width, height, Rgba { r: 255, g: 255, b: 255, a: 255 }),
            mask_active: false,
            mask_enabled: false,
            undo: UndoStack::new(),
            copy_buffer: PixelBuffer::from_color(10, 10, Rgba { r: 255, g: 255, b: 255, a: 255 }),
            selection: Option::None,
            gesture: InteractionState::new(),
        }
    }

    /// Adopt an already-decoded image as the canvas content.
    pub fn from_buffer(buf: PixelBuffer) -> (cv: Canvas)
        requires
            buf.wf(),
        ensures
            cv.wf(),
            cv.image.view() == buf.view(),
            !cv.mask_active,
            !cv.mask_enabled,
            cv.undo.views() == Seq::<BufView>::empty(),
            cv.selection is None,
    {
        let w = buf.width;
        let h = buf.height;
        Canvas {
            image: buf,
            mask: PixelBuffer::from_color(w, h, Rgba { r: 255, g: 255, b: 255, a: 255 }),
            mask_active: false,
            mask_enabled: false,
            undo: UndoStack::new(),
            copy_buffer: PixelBuffer::from_color(10, 10, Rgba { r: 255, g: 255, b: 255, a: 255 }),
            selection: Option::None,
            gesture: InteractionState::new(),
        }
    }

    pub fn width(&self) -> (w: usize)
        ensures
            w == self.image.view().w,
    {
        self.image.width
    }

    pub fn height(&self) -> (h: usize)
        ensures
            h == self.image.view().h,
    {
        self.image.height
    }

    /// The image sample at an in-bounds coordinate.
    pub fn get_pixel(&self, x: usize, y: usize) -> (c: Rgba)
        requires
            self.wf(),
            x < self.image.view().w,
            y < self.image.view().h,
        ensures
            c == self.image.view().at(x as int, y as int),
    {
        self.image.get(x, y)
    }
}

/// The image after compositing the copy buffer `cb` at `(dx, dy)`: every
/// overlapped pixel the stencil admits is blended with the source pixel
/// at the weight the alpha stands for; everything else is untouched.
pub open spec fn pasted(
    bv: BufView, st: Option<BufView>, cb: BufView, dx: int, dy: int, a: int,
) -> BufView {
    BufView {
        w: bv.w,
        h: bv.h,
        px: Seq::new(
            bv.px.len(),
            |idx: int|
                {
                    let x = idx % bv.w;
                    let y = idx / bv.w;
                    if dx <= x < dx + cb.w && dy <= y < dy + cb.h
                        && crate::region::stencil_allows(st, x, y) {
                        crate::color::blend(
                            bv.px[idx], cb.at(x - dx, y - dy),
                            crate::color::weight_of_alpha(a))
                    } else {
                        bv.px[idx]
                    }
                },
        ),
    }
}

/// Angle of vertex `j` of a regular polygon, in millidegrees: the start
/// angle plus `j` even shares of a full turn.
pub open spec fn poly_angle(start: int, sides: int, j: int) -> int {
    start + (j * 360000) / sides
}

/// Horizontal position of a polygon vertex at angle `ang`, from the Q14
/// fixed-point cosine.
pub open spec fn poly_vx(cx: int, r: int, ang: int) -> int {
    cx + r * crate::geom::cos_mdeg_q14(ang) / 16384
}

/// Vertical position of a polygon vertex at angle `ang`, from the Q14
/// fixed-point sine.
pub open spec fn poly_vy(cy: int, r: int, ang: int) -> int {
    cy + r * crate::geom::sin_mdeg_q14(ang) / 16384
}

/// Edge `j` of the polygon: the segment between vertices `j` and `j + 1`,
/// plain or antialiased.
pub open spec fn poly_edge(
    cx: int, cy: int, r: int, sides: int, start: int, aa: bool, j: int,
) -> Region {
    let a0 = poly_angle(start, sides, j);
    let a1 = poly_angle(start, sides, j + 1);
    let x0 = poly_vx(cx, r, a0) as i32;
    let y0 = poly_vy(cy, r, a0) as i32;
    let x1 = poly_vx(cx, r, a1) as i32;
    let y1 = poly_vy(cy, r, a1) as i32;
    if aa {
        Region::WuLine { x0, y0, x1, y1 }
    } else {
        Region::Line { x0, y0, x1, y1 }
    }
}

/// The buffer after painting the polygon's first `k` edges in order.
pub open spec fn poly_buf(
    bv: BufView, st: Option<BufView>, cx: int, cy: int, r: int, sides: int, start: int,
    aa: bool, col: Rgba, k: int,
) -> BufView
    decreases k,
{
    if k <= 0 {
        bv
    } else {
        painted(
            poly_buf(bv, st, cx, cy, r, sides, start, aa, col, k - 1), st,
            poly_edge(cx, cy, r, sides, start, aa, k - 1), col)
    }
}

/// One polygon vertex in pixels, computed with the shifted nonnegative
/// division so the executable floor matches the model's.
fn poly_vertex(cx: i32, cy: i32, r: u32, ang: i64) -> (v: (i32, i32))
    requires
        r <= 0x8000,
        0 <= ang <= 0x0100_0000,
        -0x4000_0000 <= cx <= 0x4000_0000,
        -0x4000_0000 <= cy <= 0x4000_0000,
    ensures
        v.0 == poly_vx(cx as int, r as int, ang as int),
        v.1 == poly_vy(cy as int, r as int, ang as int),
        -0x4000_8000 <= v.0 <= 0x4000_8000,
        -0x4000_8000 <= v.1 <= 0x4000_8000,
{
    let c = crate::geom::cos_mdeg_q14_exec(ang);
    let s = crate::geom::sin_mdeg_q14_exec(ang);
    proof {
        assert(-0x2000_0000 <= r as int * c as int <= 0x2000_0000
            && -0x2000_0000 <= r as int * s as int <= 0x2000_0000) by (nonlinear_arith)
            requires 0 <= r as int <= 0x8000 && -16384 <= c as int <= 16384
                && -16384 <= s as int <= 16384;
        vstd::arithmetic::div_mod::lemma_hoist_over_denominator(
            r as int * c as int, 0x8000, 16384nat);
        vstd::arithmetic::div_mod::lemma_hoist_over_denominator(
            r as int * s as int, 0x8000, 16384nat);
        vstd::arithmetic::div_mod::lemma_div_is_ordered(
            -0x2000_0000, r as int * c as int, 16384);
        vstd::arithmetic::div_mod::lemma_div_is_ordered(
            r as int * c as int, 0x2000_0000, 16384);
        vstd::arithmetic::div_mod::lemma_div_is_ordered(
            -0x2000_0000, r as int * s as int, 16384);
        vstd::arithmetic::div_mod::lemma_div_is_ordered(
            r as int * s as int, 0x2000_0000, 16384);
    }
    let vx: i64 = cx as i64 + (r as i64 * c + 0x8000 * 16384) / 16384 - 0x8000;
    let vy: i64 = cy as i64 + (r as i64 * s + 0x8000 * 16384) / 16384 - 0x8000;
    (vx as i32, vy as i32)
}

impl Canvas {
    /// Draw a regular polygon inscribed in radius `r` around `(cx, cy)`:
    /// `sides` vertices evenly spaced from `start_mdeg`, each edge drawn
    /// with the plain or antialiased segment primitive.
    pub fn polygon(
        &mut self, cx: i32, cy: i32, r: u32, sides: u32, start_mdeg: u32, col: Rgba,
        antialias: bool,
    )
        requires
            old(self).wf(),
            3 <= sides <= 360,
            r <= 0x8000,
            start_mdeg < 360000,
            -0x4000_0000 <= cx <= 0x4000_0000,
            -0x4000_0000 <= cy <= 0x4000_0000,
        ensures
            final(self).wf(),
            old(self).mask_active ==> final(self).mask.view() == poly_buf(
                old(self).mask.view(), Option::None, cx as int, cy as int, r as int,
                sides as int, start_mdeg as int, antialias, col, sides as int)
                && final(self).image.view() == old(self).image.view(),
            !old(self).mask_active ==> final(self).image.view() == poly_buf(
                old(self).image.view(), old(self).active_stencil(), cx as int, cy as int,
                r as int, sides as int, start_mdeg as int, antialias, col, sides as int)
                && final(self).mask.view() == old(self).mask.view(),
            final(self).undo.views() == old(self).undo.views(),
            final(self).copy_buffer.view() == old(self).copy_buffer.view(),
            final(self).selection == old(self).selection,
            final(self).mask_active == old(self).mask_active,
            final(self).mask_enabled == old(self).mask_enabled,
            final(self).gesture == old(self).gesture,
    {
        let ghost mv0 = old(self).mask.view();
        let ghost iv0 = old(self).image.view();
        let ghost st = old(self).active_stencil();
        let mut j: u32 = 0;
        while j < sides
            invariant
                self.wf(),
                old(self).wf(),
                j <= sides,
                3 <= sides <= 360,
                r <= 0x8000,
                start_mdeg < 360000,
                -0x4000_0000 <= cx <= 0x4000_0000,
                -0x4000_0000 <= cy <= 0x4000_0000,
                mv0 == old(self).mask.view(),
                iv0 == old(self).image.view(),
                st == old(self).active_stencil(),
                self.mask_active == old(self).mask_active,
                self.mask_enabled == old(self).mask_enabled,
                self.undo.views() == old(self).undo.views(),
                self.copy_buffer.view() == old(self).copy_buffer.view(),
                self.selection == old(self).selection,
                self.gesture == old(self).gesture,
                old(self).mask_active ==> self.mask.view() == poly_buf(
                    mv0, Option::None, cx as int, cy as int, r as int, sides as int,
                    start_mdeg as int, antialias, col, j as int)
                    && self.image.view() == iv0,
                !old(self).mask_active ==> self.image.view() == poly_buf(
                    iv0, st, cx as int, cy as int, r as int, sides as int,
                    start_mdeg as int, antialias, col, j as int)
                    && self.mask.view() == mv0,
            decreases sides - j,
        {
            let a0: i64 = start_mdeg as i64 + (j as i64 * 360000) / (sides as i64);
            let a1: i64 = start_mdeg as i64 + ((j as i64 + 1) * 360000) / (sides as i64);
            proof {
                crate::geom::lemma_div_le(j as int * 360000, sides as int, 360000);
                crate::geom::lemma_div_le((j as int + 1) * 360000, sides as int, 361000);
                assert(j as int * 360000 <= sides as int * 360000) by (nonlinear_arith)
                    requires 0 <= j as int <= sides as int;
                assert((j as int + 1) * 360000 <= sides as int * 361000) by (nonlinear_arith)
                    requires 0 <= j as int && j as int + 1 <= sides as int
                        && 1 <= sides as int;
                assert(j as int * 360000 >= 0) by (nonlinear_arith) requires j as int >= 0;
                assert((j as int + 1) * 360000 >= 0) by (nonlinear_arith) requires j as int >= 0;
            }
            let v0 = poly_vertex(cx, cy, r, a0);
            let v1 = poly_vertex(cx, cy, r, a1);
            let reg = if antialias {
                Region::WuLine { x0: v0.0, y0: v0.1, x1: v1.0, y1: v1.1 }
            } else {
                Region::Line { x0: v0.0, y0: v0.1, x1: v1.0, y1: v1.1 }
            };
            proof {
                assert(reg == poly_edge(cx as int, cy as int, r as int, sides as int,
                    start_mdeg as int, antialias, j as int));
            }
            self.paint(&reg, col);
            j = j + 1;
        }
    }
}

/// One paint call routed by the mask flags: with the mask active the
/// region lands on the overlay, otherwise on the image under the active
/// stencil; everything else about the canvas is untouched.
pub open spec fn draws(pre: Canvas, post: Canvas, reg: Region, col: Rgba) -> bool {
    &&& post.wf()
    &&& if pre.mask_active {
        post.mask.view() == painted(pre.mask.view(), Option::None, reg, col)
            && post.image.view() == pre.image.view()
    } else {
        post.image.view() == painted(pre.image.view(), pre.active_stencil(), reg, col)
            && post.mask.view() == pre.mask.view()
    }
    &&& post.undo.views() == pre.undo.views()
    &&& post.copy_buffer.view() == pre.copy_buffer.view()
    &&& post.selection == pre.selection
    &&& post.mask_active == pre.mask_active
    &&& post.mask_enabled == pre.mask_enabled
    &&& post.gesture == pre.gesture
}

impl Canvas {
    /// Route one region paint through the mask flags.
    pub(crate) fn paint(&mut self, reg: &Region, col: Rgba)
        requires
            old(self).wf(),
            reg.wf(),
        ensures
            draws(*old(self), *final(self), *reg, col),
    {
        if self.mask_active {
            raster(&mut self.mask, Option::None, reg, col);
        } else if self.mask_enabled {
            raster(&mut self.image, Option::Some(&self.mask), reg, col);
        } else {
            raster(&mut self.image, Option::None, reg, col);
        }
    }

    /// Set (blend) a single pixel; out-of-bounds coordinates are clipped
    /// to a no-op, not an error.
    pub fn pixel(&mut self, x: i32, y: i32, col: Rgba)
        requires
            old(self).wf(),
        ensures
            draws(*old(self), *final(self), Region::Dot { x, y }, col),
    {
        self.paint(&Region::Dot { x, y }, col);
    }

    /// Scan-converted segment, symmetric in its endpoints.
    pub fn line(&mut self, x0: i32, y0: i32, x1: i32, y1: i32, col: Rgba)
        requires
            old(self).wf(),
        ensures
            draws(*old(self), *final(self), Region::Line { x0, y0, x1, y1 }, col),
    {
        self.paint(&Region::Line { x0, y0, x1, y1 }, col);
    }

    /// Antialiased segment.
    pub fn wu_line(&mut self, x0: i32, y0: i32, x1: i32, y1: i32, col: Rgba)
        requires
            old(self).wf(),
        ensures
            draws(*old(self), *final(self), Region::WuLine { x0, y0, x1, y1 }, col),
    {
        self.paint(&Region::WuLine { x0, y0, x1, y1 }, col);
    }

    /// Circle outline, or a filled disk when `filled` is set.
    pub fn circle(&mut self, cx: i32, cy: i32, r: u32, filled: bool, col: Rgba)
        requires
            old(self).wf(),
        ensures
            filled ==> draws(*old(self), *final(self), Region::Disk { cx, cy, r }, col),
            !filled ==> draws(*old(self), *final(self), Region::CircleOutline { cx, cy, r }, col),
    {
        if filled {
            self.paint(&Region::Disk { cx, cy, r }, col);
        } else {
            self.paint(&Region::CircleOutline { cx, cy, r }, col);
        }
    }

    /// Antialiased circle outline.
    pub fn wu_circle(&mut self, cx: i32, cy: i32, r: u32, col: Rgba)
        requires
            old(self).wf(),
            r <= 0x8000,
        ensures
            draws(*old(self), *final(self), Region::WuCircle { cx, cy, r }, col),
    {
        self.paint(&Region::WuCircle { cx, cy, r }, col);
    }

    /// The smooth brush stamp: a disk with a softened rim.
    pub fn smooth_circle(&mut self, cx: i32, cy: i32, size: u32, col: Rgba)
        requires
            old(self).wf(),
        ensures
            draws(*old(self), *final(self), Region::SmoothCircle { cx, cy, r: size }, col),
    {
        self.paint(&Region::SmoothCircle { cx, cy, r: size }, col);
    }

    /// A round brush stamp swept along a drag segment, gap-free.
    pub fn brush_line(&mut self, x0: i32, y0: i32, x1: i32, y1: i32, r: u32, col: Rgba)
        requires
            old(self).wf(),
            r <= 0x8000,
        ensures
            draws(*old(self), *final(self), Region::Capsule { x0, y0, x1, y1, r }, col),
    {
        self.paint(&Region::Capsule { x0, y0, x1, y1, r }, col);
    }

    /// A square brush stamp swept along a drag segment, gap-free.
    pub fn rect_line(&mut self, x0: i32, y0: i32, x1: i32, y1: i32, w: u32, h: u32, col: Rgba)
        requires
            old(self).wf(),
            w <= 0x8000,
            h <= 0x8000,
        ensures
            draws(*old(self), *final(self), Region::BoxSweep { x0, y0, x1, y1, w, h }, col),
    {
        self.paint(&Region::BoxSweep { x0, y0, x1, y1, w, h }, col);
    }

    /// A one-pixel rectangle outline.
    pub fn rect(&mut self, x: i32, y: i32, w: u32, h: u32, col: Rgba)
        requires
            old(self).wf(),
        ensures
            draws(*old(self), *final(self), Region::RectOutline { x, y, w, h }, col),
    {
        self.paint(&Region::RectOutline { x, y, w, h }, col);
    }

    /// Snapshot the current image for undo, evicting the oldest snapshot
    /// at capacity.
    pub fn undo_save(&mut self)
        requires
            old(self).wf(),
        ensures
            final(self).wf(),
            final(self).undo.views() == undo_push(
                old(self).undo.views(), old(self).image.view()),
            final(self).image.view() == old(self).image.view(),
            final(self).mask.view() == old(self).mask.view(),
            final(self).copy_buffer.view() == old(self).copy_buffer.view(),
            final(self).selection == old(self).selection,
            final(self).mask_active == old(self).mask_active,
            final(self).mask_enabled == old(self).mask_enabled,
            final(self).gesture == old(self).gesture,
    {
        let img = &self.image;
        self.undo.save(img);
    }

    /// Restore the most recent snapshot, discarding it from the history;
    /// reports `false` (a no-op) when the history is empty. A restored
    /// image brings its dimensions back; the mask is reopened at those
    /// dimensions when they differ.
    pub fn undo(&mut self) -> (restored: bool)
        requires
            old(self).wf(),
        ensures
            final(self).wf(),
            restored == (old(self).undo.views().len() > 0),
            !restored ==> final(self).image.view() == old(self).image.view()
                && final(self).undo.views() == old(self).undo.views()
                && final(self).mask.view() == old(self).mask.view(),
            restored ==> final(self).image.view() == old(self).undo.views().last()
                && final(self).undo.views() == old(self).undo.views().drop_last()
                && final(self).mask.view().w == final(self).image.view().w
                && final(self).mask.view().h == final(self).image.view().h,
            final(self).copy_buffer.view() == old(self).copy_buffer.view(),
            final(self).mask_active == old(self).mask_active,
            final(self).mask_enabled == old(self).mask_enabled,
    {
        let popped = self.undo.pop();
        match popped {
            Option::Some(b) => {
                let same = b.width == self.mask.width && b.height == self.mask.height;
                if !same {
                    self.mask = PixelBuffer::from_color(
                        b.width, b.height, Rgba { r: 255, g: 255, b: 255, a: 255 });
                    self.selection = Option::None;
                }
                self.image = b;
                true
            },
            Option::None => false,
        }
    }

    /// Toggle whether drawing targets the mask overlay.
    pub fn paint_on_mask(&mut self)
        requires
            old(self).wf(),
        ensures
            final(self).wf(),
            final(self).mask_active == !old(self).mask_active,
            final(self).image.view() == old(self).image.view(),
            final(self).mask.view() == old(self).mask.view(),
            final(self).mask_enabled == old(self).mask_enabled,
            final(self).undo.views() == old(self).undo.views(),
            final(self).selection == old(self).selection,
    {
        self.mask_active = !self.mask_active;
    }

    /// Whether drawing currently targets the mask overlay.
    pub fn mask_flag(&self) -> (b: bool)
        ensures
            b == self.mask_active,
    {
        self.mask_active
    }

    /// Toggle whether edits are restricted to open mask pixels.
    pub fn enable_mask(&mut self, enabled: bool)
        requires
            old(self).wf(),
        ensures
            final(self).wf(),
            final(self).mask_enabled == enabled,
            final(self).image.view() == old(self).image.view(),
            final(self).mask.view() == old(self).mask.view(),
            final(self).mask_active == old(self).mask_active,
            final(self).undo.views() == old(self).undo.views(),
            final(self).selection == old(self).selection,
    {
        self.mask_enabled = enabled;
    }

    /// Reset the mask overlay to fully open, independent of the flags.
    pub fn clear_mask(&mut self)
        requires
            old(self).wf(),
        ensures
            final(self).wf(),
            final(self).mask.view() == BufView::solid(
                old(self).image.view().w, old(self).image.view().h,
                Rgba { r: 255, g: 255, b: 255, a: 255 }),
            final(self).image.view() == old(self).image.view(),
            final(self).mask_active == old(self).mask_active,
            final(self).mask_enabled == old(self).mask_enabled,
            final(self).undo.views() == old(self).undo.views(),
            final(self).selection == old(self).selection,
    {
        let w = self.image.width;
        let h = self.image.height;
        self.mask = PixelBuffer::from_color(w, h, Rgba { r: 255, g: 255, b: 255, a: 255 });
    }

    /// Install a selection rectangle; rejects (reported, no mutation) a
    /// degenerate or out-of-bounds rectangle.
    pub fn set_selection(&mut self, x: usize, y: usize, w: usize, h: usize) -> (ok: bool)
        requires
            old(self).wf(),
        ensures
            final(self).wf(),
            ok == (1 <= w && 1 <= h && x + w <= old(self).image.view().w
                && y + h <= old(self).image.view().h),
            ok ==> final(self).selection == Option::Some(SelRect { x, y, w, h }),
            !ok ==> final(self).selection == old(self).selection,
            final(self).image.view() == old(self).image.view(),
            final(self).mask.view() == old(self).mask.view(),
            final(self).undo.views() == old(self).undo.views(),
            final(self).copy_buffer.view() == old(self).copy_buffer.view(),
            final(self).mask_active == old(self).mask_active,
            final(self).mask_enabled == old(self).mask_enabled,
            final(self).gesture == old(self).gesture,
    {
        if 1 <= w && 1 <= h && w <= self.image.width && x <= self.image.width - w
            && h <= self.image.height && y <= self.image.height - h {
            self.selection = Option::Some(SelRect { x, y, w, h });
            true
        } else {
            false
        }
    }

    /// Flood fill from a seed point: 4-connected, exact color match,
    /// bounded by the buffer, restricted by the active stencil. The mask
    /// flags route it like any other drawing call.
    pub fn fill(&mut self, x: i32, y: i32, col: Rgba)
        requires
            old(self).wf(),
        ensures
            final(self).wf(),
            old(self).mask_active ==> final(self).mask.view() == crate::fill::flooded(
                old(self).mask.view(), Option::None, x as int, y as int, col)
                && final(self).image.view() == old(self).image.view(),
            !old(self).mask_active ==> final(self).image.view() == crate::fill::flooded(
                old(self).image.view(), old(self).active_stencil(), x as int, y as int, col)
                && final(self).mask.view() == old(self).mask.view(),
            final(self).undo.views() == old(self).undo.views(),
            final(self).copy_buffer.view() == old(self).copy_buffer.view(),
            final(self).selection == old(self).selection,
            final(self).mask_active == old(self).mask_active,
            final(self).mask_enabled == old(self).mask_enabled,
            final(self).gesture == old(self).gesture,
    {
        if self.mask_active {
            crate::fill::flood_fill(&mut self.mask, Option::None, x, y, col);
        } else if self.mask_enabled {
            crate::fill::flood_fill(&mut self.image, Option::Some(&self.mask), x, y, col);
        } else {
            crate::fill::flood_fill(&mut self.image, Option::None, x, y, col);
        }
    }

    /// Extract the selection (or, with none set, the whole canvas) into
    /// the copy buffer.
    pub fn copy(&mut self)
        requires
            old(self).wf(),
        ensures
            final(self).wf(),
            final(self).image.view() == old(self).image.view(),
            final(self).mask.view() == old(self).mask.view(),
            final(self).undo.views() == old(self).undo.views(),
            final(self).selection == old(self).selection,
            match old(self).selection {
                Option::Some(s) => final(self).copy_buffer.view().w == s.w
                    && final(self).copy_buffer.view().h == s.h
                    && forall|i: int, j: int| 0 <= i < s.w && 0 <= j < s.h
                        ==> final(self).copy_buffer.view().at(i, j) == old(self).image.view().at(
                            s.x + i, s.y + j),
                Option::None => final(self).copy_buffer.view() == old(self).image.view(),
            },
            final(self).mask_active == old(self).mask_active,
            final(self).mask_enabled == old(self).mask_enabled,
            final(self).gesture == old(self).gesture,
    {
        match self.selection {
            Option::Some(s) => {
                self.copy_buffer = self.image.crop(s.x, s.y, s.w, s.h);
            },
            Option::None => {
                self.copy_buffer = self.image.duplicate();
            },
        }
    }

    /// Composite the copy buffer into the image with its top-left corner
    /// at `(dx, dy)`, blending with the alpha the opacity stands for;
    /// alpha 255 reproduces the source exactly. Clipped at the edges;
    /// restricted by the active stencil.
    pub fn paste(&mut self, dx: i32, dy: i32, alpha: u8)
        requires
            old(self).wf(),
        ensures
            final(self).wf(),
            final(self).image.view() == pasted(
                old(self).image.view(), old(self).active_stencil(), old(self).copy_buffer.view(),
                dx as int, dy as int, alpha as int),
            final(self).mask.view() == old(self).mask.view(),
            final(self).undo.views() == old(self).undo.views(),
            final(self).copy_buffer.view() == old(self).copy_buffer.view(),
            final(self).selection == old(self).selection,
            final(self).mask_active == old(self).mask_active,
            final(self).mask_enabled == old(self).mask_enabled,
            final(self).gesture == old(self).gesture,
    {
        let ghost orig = self.image.view();
        let ghost stv = old(self).active_stencil();
        let ghost cbv = self.copy_buffer.view();
        let ghost tgt = pasted(orig, stv, cbv, dx as int, dy as int, alpha as int);
        let wa = crate::color::alpha_to_weight(alpha);
        let w = self.image.width;
        let h = self.image.height;
        let mut y: usize = 0;
        while y < h
            invariant
                self.image.wf(),
                self.mask.wf(),
                self.copy_buffer.wf(),
                self.mask_enabled == old(self).mask_enabled,
                self.mask == old(self).mask,
                self.copy_buffer == old(self).copy_buffer,
                self.undo == old(self).undo,
                self.selection == old(self).selection,
                self.mask_active == old(self).mask_active,
                self.gesture == old(self).gesture,
                old(self).wf(),
                orig == old(self).image.view(),
                stv == self.active_stencil(),
                cbv == self.copy_buffer.view(),
                orig.wf(),
                self.image.view().w == orig.w,
                self.image.view().h == orig.h,
                w == orig.w,
                h == orig.h,
                y <= h,
                wa == crate::color::weight_of_alpha(alpha as int),
                wa <= 256,
                tgt == pasted(orig, stv, cbv, dx as int, dy as int, alpha as int),
                forall|idx: int| 0 <= idx < y as int * orig.w
                    ==> self.image.view().px[idx] == tgt.px[idx],
                forall|idx: int| y as int * orig.w <= idx < orig.px.len()
                    ==> self.image.view().px[idx] == orig.px[idx],
            decreases h - y,
        {
            let mut x: usize = 0;
            while x < w
                invariant
                    self.image.wf(),
                    self.mask.wf(),
                    self.copy_buffer.wf(),
                    self.mask_enabled == old(self).mask_enabled,
                    self.mask == old(self).mask,
                    self.copy_buffer == old(self).copy_buffer,
                    self.undo == old(self).undo,
                    self.selection == old(self).selection,
                    self.mask_active == old(self).mask_active,
                    self.gesture == old(self).gesture,
                    old(self).wf(),
                    orig == old(self).image.view(),
                    stv == self.active_stencil(),
                    cbv == self.copy_buffer.view(),
                    orig.wf(),
                    self.image.view().w == orig.w,
                    self.image.view().h == orig.h,
                    w == orig.w,
                    h == orig.h,
                    y < h,
                    x <= w,
                    wa == crate::color::weight_of_alpha(alpha as int),
                    wa <= 256,
                    tgt == pasted(orig, stv, cbv, dx as int, dy as int, alpha as int),
                    forall|idx: int| 0 <= idx < y as int * orig.w + x as int
                        ==> self.image.view().px[idx] == tgt.px[idx],
                    forall|idx: int| y as int * orig.w + x as int <= idx < orig.px.len()
                        ==> self.image.view().px[idx] == orig.px[idx],
                decreases w - x,
            {
                let ghost cur = y as int * orig.w + x as int;
                proof {
                    crate::buffer::lemma_index_bounds(orig.w, orig.h, x as int, y as int);
                    vstd::arithmetic::div_mod::lemma_fundamental_div_mod_converse(
                        cur, orig.w, y as int, x as int);
                }
                let xin = dx <= x as i32 && (x as i64) < dx as i64 + self.copy_buffer.width as i64;
                let yin = dy <= y as i32 && (y as i64) < dy as i64 + self.copy_buffer.height as i64;
                proof {
                    assert(self.mask.view().w == orig.w && self.mask.view().h == orig.h);
                }
                let allowed: bool = if self.mask_enabled {
                    let mc = self.mask.get(x, y);
                    (mc.r as u32) + (mc.g as u32) + (mc.b as u32) > 0
                } else {
                    true
                };
                if xin && yin && allowed {
                    let sx = (x as i64 - dx as i64) as usize;
                    let sy = (y as i64 - dy as i64) as usize;
                    let s = self.copy_buffer.get(sx, sy);
                    let d = self.image.get(x, y);
                    let nc = crate::color::blend_px(d, s, wa);
                    self.image.set(x, y, nc);
                }
                proof {
                    assert(allowed == crate::region::stencil_allows(stv, x as int, y as int));
                    assert(self.image.view().px[cur] == tgt.px[cur]);
                }
                x = x + 1;
            }
            proof {
                assert(y as int * orig.w + orig.w == (y as int + 1) * orig.w) by (nonlinear_arith);
            }
            y = y + 1;
        }
        proof {
            assert(h as int * orig.w == orig.w * orig.h) by (nonlinear_arith)
                requires h as int == orig.h;
            assert(self.image.view().px =~= tgt.px);
            assert(self.image.view() =~= tgt);
        }
    }

    /// Transform a sub-rectangle of the image in place; rejects a
    /// degenerate or out-of-bounds rectangle (reported, no mutation).
    pub fn trans_selection(
        &mut self, x: usize, y: usize, w: usize, h: usize, op: &crate::transform::TransformOp,
    ) -> (ok: bool)
        requires
            old(self).wf(),
        ensures
            final(self).wf(),
            ok == (1 <= w && 1 <= h && x + w <= old(self).image.view().w
                && y + h <= old(self).image.view().h),
            ok ==> final(self).image.view() == crate::transform::transformed(
                old(self).image.view(), old(self).active_stencil(), *op, x as int, y as int,
                w as int, h as int),
            !ok ==> final(self).image.view() == old(self).image.view(),
            final(self).mask.view() == old(self).mask.view(),
            final(self).undo.views() == old(self).undo.views(),
            final(self).copy_buffer.view() == old(self).copy_buffer.view(),
            final(self).selection == old(self).selection,
            final(self).mask_active == old(self).mask_active,
            final(self).mask_enabled == old(self).mask_enabled,
            final(self).gesture == old(self).gesture,
    {
        if 1 <= w && 1 <= h && w <= self.image.width && x <= self.image.width - w
            && h <= self.image.height && y <= self.image.height - h {
            if self.mask_enabled {
                crate::transform::apply_in_rect(
                    &mut self.image, Option::Some(&self.mask), op, x, y, w, h);
            } else {
                crate::transform::apply_in_rect(&mut self.image, Option::None, op, x, y, w, h);
            }
            true
        } else {
            false
        }
    }

    /// Transform the whole image; an empty canvas is left alone.
    pub fn transformation(&mut self, op: &crate::transform::TransformOp)
        requires
            old(self).wf(),
        ensures
            final(self).wf(),
            old(self).image.view().w >= 1 && old(self).image.view().h >= 1
                ==> final(self).image.view() == crate::transform::transformed(
                    old(self).image.view(), old(self).active_stencil(), *op, 0, 0,
                    old(self).image.view().w, old(self).image.view().h),
            !(old(self).image.view().w >= 1 && old(self).image.view().h >= 1)
                ==> final(self).image.view() == old(self).image.view(),
            final(self).mask.view() == old(self).mask.view(),
            final(self).undo.views() == old(self).undo.views(),
            final(self).copy_buffer.view() == old(self).copy_buffer.view(),
            final(self).selection == old(self).selection,
            final(self).mask_active == old(self).mask_active,
            final(self).mask_enabled == old(self).mask_enabled,
    {
        let w = self.image.width;
        let h = self.image.height;
        let _ = self.trans_selection(0, 0, w, h, op);
    }

    /// Rotate the selection (or, with none set, the whole canvas) a
    /// quarter turn clockwise in place, clipped to the buffer. An active
    /// selection's rectangle swaps its width and height to stay on the
    /// rotated content; if the swapped rectangle would leave the canvas,
    /// the selection is dropped instead.
    pub fn rotate90(&mut self)
        requires
            old(self).wf(),
        ensures
            final(self).wf(),
            match old(self).selection {
                Option::Some(s) => {
                    &&& final(self).image.view() == crate::transform::rotated(
                        old(self).image.view(), s.x as int, s.y as int, s.w as int, s.h as int)
                    &&& (if s.x + s.h <= old(self).image.view().w
                            && s.y + s.w <= old(self).image.view().h {
                        final(self).selection == Option::Some(
                            SelRect { x: s.x, y: s.y, w: s.h, h: s.w })
                    } else {
                        final(self).selection is None
                    })
                },
                Option::None => {
                    &&& (old(self).image.view().w >= 1 && old(self).image.view().h >= 1
                        ==> final(self).image.view() == crate::transform::rotated(
                            old(self).image.view(), 0, 0, old(self).image.view().w,
                            old(self).image.view().h))
                    &&& (!(old(self).image.view().w >= 1 && old(self).image.view().h >= 1)
                        ==> final(self).image.view() == old(self).image.view())
                    &&& final(self).selection is None
                },
            },
            final(self).mask.view() == old(self).mask.view(),
            final(self).undo.views() == old(self).undo.views(),
            final(self).copy_buffer.view() == old(self).copy_buffer.view(),
            final(self).mask_active == old(self).mask_active,
            final(self).mask_enabled == old(self).mask_enabled,
    {
        match self.selection {
            Option::Some(s) => {
                crate::transform::rotate_rect(&mut self.image, s.x, s.y, s.w, s.h);
                if s.h <= self.image.width && s.x <= self.image.width - s.h
                    && s.w <= self.image.height && s.y <= self.image.height - s.w {
                    self.selection = Option::Some(SelRect { x: s.x, y: s.y, w: s.h, h: s.w });
                } else {
                    self.selection = Option::None;
                }
            },
            Option::None => {
                let w = self.image.width;
                let h = self.image.height;
                if w >= 1 && h >= 1 {
                    crate::transform::rotate_rect(&mut self.image, 0, 0, w, h);
                }
            },
        }
    }

    /// Reallocate the image (nearest-neighbor scaling) and the mask to
    /// the new dimensions; the mask reopens fully and the selection is
    /// dropped. A zero or oversized target is rejected (reported, no
    /// mutation), as is resizing an empty canvas.
    pub fn resize(&mut self, nw: usize, nh: usize) -> (ok: bool)
        requires
            old(self).wf(),
        ensures
            final(self).wf(),
            ok == (1 <= nw && nw <= MAX_DIM && 1 <= nh && nh <= MAX_DIM
                && old(self).image.view().w >= 1 && old(self).image.view().h >= 1),
            ok ==> {
                &&& final(self).image.view() == crate::transform::resized(
                    old(self).image.view(), nw as int, nh as int)
                &&& final(self).image.view().w == nw
                &&& final(self).image.view().h == nh
                &&& final(self).mask.view().w == nw
                &&& final(self).mask.view().h == nh
                &&& final(self).selection is None
            },
            !ok ==> final(self).image.view() == old(self).image.view()
                && final(self).mask.view() == old(self).mask.view()
                && final(self).selection == old(self).selection,
            final(self).undo.views() == old(self).undo.views(),
            final(self).copy_buffer.view() == old(self).copy_buffer.view(),
            final(self).mask_active == old(self).mask_active,
            final(self).mask_enabled == old(self).mask_enabled,
    {
        if 1 <= nw && nw <= MAX_DIM && 1 <= nh && nh <= MAX_DIM && self.image.width >= 1
            && self.image.height >= 1 {
            self.image = crate::transform::resize_buf(&self.image, nw, nh);
            self.mask = PixelBuffer::from_color(nw, nh, Rgba { r: 255, g: 255, b: 255, a: 255 });
            self.selection = Option::None;
            true
        } else {
            false
        }
    }

    /// Fill the canvas with the white background and discard the
    /// selection and mask content tied to the old picture.
    pub fn clear(&mut self)
        requires
            old(self).wf(),
        ensures
            final(self).wf(),
            final(self).image.view() == BufView::solid(
                old(self).image.view().w, old(self).image.view().h,
                Rgba { r: 255, g: 255, b: 255, a: 255 }),
            final(self).mask.view() == BufView::solid(
                old(self).image.view().w, old(self).image.view().h,
                Rgba { r: 255, g: 255, b: 255, a: 255 }),
            final(self).selection is None,
            final(self).undo.views() == old(self).undo.views(),
            final(self).copy_buffer.view() == old(self).copy_buffer.view(),
            final(self).mask_active == old(self).mask_active,
            final(self).mask_enabled == old(self).mask_enabled,
    {
        let w = self.image.width;
        let h = self.image.height;
        self.image = PixelBuffer::from_color(w, h, Rgba { r: 255, g: 255, b: 255, a: 255 });
        self.mask = PixelBuffer::from_color(w, h, Rgba { r: 255, g: 255, b: 255, a: 255 });
        self.selection = Option::None;
    }

    /// Drop the selection: operations apply to the whole canvas again.
    pub fn clear_selection(&mut self)
        requires
            old(self).wf(),
        ensures
            final(self).wf(),
            final(self).selection is None,
            final(self).image.view() == old(self).image.view(),
            final(self).mask.view() == old(self).mask.view(),
            final(self).undo.views() == old(self).undo.views(),
    {
        self.selection = Option::None;
    }
}

} // verus!
