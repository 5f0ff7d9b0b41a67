//! The two-click interaction state machine and the tool dispatcher: what
//! one pointer click does to the canvas, given the active tool and its
//! settings. Gestures that need an anchor and a commit point keep their
//! anchor here; a cancel event discards it with no mutation.

use vstd::prelude::*;
use crate::buffer::BufView;
use crate::canvas::Canvas;
use crate::canvas::SelRect;
use crate::canvas::pasted;
use crate::canvas::poly_buf;
use crate::color::Rgba;
use crate::geom::atan2_mdeg;
use crate::geom::dist2;
use crate::geom::isqrt;
use crate::region::Region;
use crate::region::painted;
use crate::undo::undo_push;

verus! {

/// A pending two-click gesture: the first click recorded its anchor, the
/// next click commits (a cancel event discards it).
#[derive(Clone, Copy, Debug)]
pub enum Pending {
    /// Selecting a rectangle of interest.
    SelectRect { ax: i32, ay: i32 },
    /// Drawing a rectangle shape.
    ShapeRect { ax: i32, ay: i32 },
    /// Drawing a circle: the anchor is the center.
    Circle { ax: i32, ay: i32 },
    /// Drawing a regular polygon: the anchor is the center.
    Polygon { ax: i32, ay: i32 },
    /// Placing the paste buffer.
    Paste,
}

/// Transient per-gesture state.
#[derive(Clone, Copy, Debug)]
pub struct InteractionState {
    /// The anchor of a two-click gesture, if one is underway.
    pub pending: Option<Pending>,
    /// The previous drag sample of a continuous tool (line, pen, brush).
    pub prev: Option<(i32, i32)>,
}

impl InteractionState {
    pub fn new() -> (s: InteractionState)
        ensures
            s.pending is None,
            s.prev is None,
    {
        InteractionState { pending: Option::None, prev: Option::None }
    }

    /// Cancel any pending gesture and forget the previous drag sample,
    /// with no mutation of the canvas: the right-click / clear event.
    pub fn cancel(&mut self)
        ensures
            final(self).pending is None,
            final(self).prev is None,
    {
        self.pending = Option::None;
        self.prev = Option::None;
    }

    /// Coordinates held by the state stay small enough for the commit
    /// arithmetic.
    pub open spec fn wf(self) -> bool {
        &&& match self.pending {
            Option::Some(Pending::SelectRect { ax, ay }) => in_click_range(ax as int, ay as int),
            Option::Some(Pending::ShapeRect { ax, ay }) => in_click_range(ax as int, ay as int),
            Option::Some(Pending::Circle { ax, ay }) => in_click_range(ax as int, ay as int),
            Option::Some(Pending::Polygon { ax, ay }) => in_click_range(ax as int, ay as int),
            _ => true,
        }
        &&& match self.prev {
            Option::Some(p) => in_click_range(p.0 as int, p.1 as int),
            Option::None => true,
        }
    }
}

/// The coordinate range the dispatcher accepts for a click.
pub open spec fn in_click_range(x: int, y: int) -> bool {
    -0x4000_0000 <= x <= 0x4000_0000 && -0x4000_0000 <= y <= 0x4000_0000
}

/// The editor's tools.
#[derive(Clone, Copy, PartialEq, Eq, Structural, Debug)]
pub enum Tool {
    Pen,
    Line,
    Polyline,
    Brush,
    Fill,
    Rectangle,
    Circle,
    Polygon,
    Marquee,
    Copy,
    Paste,
}

/// The settings of the active tool, read before each draw call.
#[derive(Clone, Copy, PartialEq, Eq, Structural, Debug)]
pub struct ToolSettings {
    /// Brush or outline width in pixels.
    pub size: u32,
    /// The 8-bit alpha the tool's opacity stands for.
    pub alpha: u8,
    /// Whether shapes are filled.
    pub filled: bool,
    /// Number of polygon sides.
    pub sides: u32,
    /// Brush stamp shape: round, blocky, buffer, or smooth.
    pub shape: u32,
    /// Whether antialiased variants are used.
    pub antialias: bool,
}

impl ToolSettings {
    pub open spec fn wf(self) -> bool {
        &&& self.size <= 0x8000
        &&& 3 <= self.sides <= 360
    }
}

/// Image result of one routed paint call (see [`crate::canvas::draws`]).
pub open spec fn paint_img(pre: Canvas, reg: Region, col: Rgba) -> BufView {
    if pre.mask_active {
        pre.image.view()
    } else {
        painted(pre.image.view(), pre.active_stencil(), reg, col)
    }
}

/// Mask result of one routed paint call.
pub open spec fn paint_mask(pre: Canvas, reg: Region, col: Rgba) -> BufView {
    if pre.mask_active {
        painted(pre.mask.view(), Option::None, reg, col)
    } else {
        pre.mask.view()
    }
}

/// The region one brush stamp move paints, by stamp shape.
pub open spec fn brush_region(s: ToolSettings, px: int, py: int, x: i32, y: i32) -> Region {
    if s.shape == 1 {
        Region::BoxSweep { x0: px as i32, y0: py as i32, x1: x, y1: y, w: s.size, h: s.size }
    } else if s.shape == 3 {
        Region::SmoothCircle { cx: x, cy: y, r: s.size }
    } else {
        Region::Capsule { x0: px as i32, y0: py as i32, x1: x, y1: y, r: s.size }
    }
}

/// The segment region a line-like tool paints between two samples.
pub open spec fn segment_region(s: ToolSettings, px: i32, py: i32, x: i32, y: i32) -> Region {
    if s.antialias {
        Region::WuLine { x0: px, y0: py, x1: x, y1: y }
    } else {
        Region::Line { x0: px, y0: py, x1: x, y1: y }
    }
}

/// The normalized, canvas-clipped selection rectangle spanned by two
/// clicks, or nothing when the spanned area is empty.
pub open spec fn sel_from(w: int, h: int, ax: int, ay: int, x: int, y: int) -> Option<SelRect> {
    let x0 = max_i(min_i(ax, x), 0);
    let y0 = max_i(min_i(ay, y), 0);
    let x1 = min_i(max_i(ax, x), w);
    let y1 = min_i(max_i(ay, y), h);
    if x0 < x1 && y0 < y1 {
        Option::Some(SelRect { x: x0 as usize, y: y0 as usize, w: (x1 - x0) as usize,
            h: (y1 - y0) as usize })
    } else {
        Option::None
    }
}

pub open spec fn min_i(a: int, b: int) -> int {
    if a <= b { a } else { b }
}

pub open spec fn max_i(a: int, b: int) -> int {
    if a >= b { a } else { b }
}

/// The radius a circle or polygon gesture commits with: the distance
/// between anchor and commit point, capped for the rasterizer.
pub open spec fn gesture_radius(ax: int, ay: int, x: int, y: int) -> int {
    let r = isqrt(dist2(x, y, ax, ay));
    if r <= 0x8000 { r } else { 0x8000 }
}

/// The buffer after the first `k` of `n` nested inset rectangle
/// outlines: the outline-thickness policy for the rectangle tool.
pub open spec fn rects_buf(
    bv: BufView, st: Option<BufView>, x: int, y: int, w: int, h: int, col: Rgba, k: int,
) -> BufView
    decreases k,
{
    if k <= 0 {
        bv
    } else {
        painted(rects_buf(bv, st, x, y, w, h, col, k - 1), st, inset_rect(x, y, w, h, k - 1), col)
    }
}

/// The `i`-th nested inset outline; a shrunken-away side paints nothing.
pub open spec fn inset_rect(x: int, y: int, w: int, h: int, i: int) -> Region {
    Region::RectOutline {
        x: (x + i) as i32,
        y: (y + i) as i32,
        w: (if w - 2 * i >= 0 { w - 2 * i } else { 0 }) as u32,
        h: (if h - 2 * i >= 0 { h - 2 * i } else { 0 }) as u32,
    }
}

/// The region a polyline click paints from the previous sample: a thin
/// segment at width one, a swept round stamp at larger widths.
pub open spec fn polyline_region(s: ToolSettings, px: i32, py: i32, x: i32, y: i32) -> Region {
    if s.size <= 1 {
        segment_region(s, px, py, x, y)
    } else {
        Region::Capsule { x0: px, y0: py, x1: x, y1: y, r: s.size }
    }
}

/// The mask flags, copy buffer and selection are untouched.
pub open spec fn admin_same(pre: Canvas, post: Canvas) -> bool {
    &&& post.mask_active == pre.mask_active
    &&& post.mask_enabled == pre.mask_enabled
    &&& post.copy_buffer.view() == pre.copy_buffer.view()
    &&& post.selection == pre.selection
}

/// Image and mask both untouched.
pub open spec fn pixels_same(pre: Canvas, post: Canvas) -> bool {
    post.image.view() == pre.image.view() && post.mask.view() == pre.mask.view()
}

/// One routed paint of `reg`, and nothing else on the pixel side.
pub open spec fn painted_once(pre: Canvas, post: Canvas, reg: Region, col: Rgba) -> bool {
    post.image.view() == paint_img(pre, reg, col) && post.mask.view() == paint_mask(pre, reg, col)
}

/// What one click of the active tool does to the canvas: the full
/// dispatch relation of the engine.
pub open spec fn click_ok(
    pre: Canvas, post: Canvas, tool: Tool, s: ToolSettings, x: i32, y: i32, col: Rgba,
) -> bool {
    &&& post.wf()
    &&& post.gesture.prev == Option::Some((x, y))
    &&& match tool {
        Tool::Pen => {
            &&& painted_once(pre, post, Region::Dot { x, y }, col)
            &&& post.undo.views() == (if pre.gesture.prev is None {
                undo_push(pre.undo.views(), post.image.view())
            } else {
                pre.undo.views()
            })
            &&& post.gesture.pending == pre.gesture.pending
            &&& admin_same(pre, post)
        },
        Tool::Line => {
            &&& match pre.gesture.prev {
                Option::Some(p) => painted_once(pre, post, segment_region(s, p.0, p.1, x, y), col)
                    && post.undo.views() == pre.undo.views(),
                Option::None => pixels_same(pre, post) && post.undo.views() == undo_push(
                    pre.undo.views(), pre.image.view()),
            }
            &&& post.gesture.pending == pre.gesture.pending
            &&& admin_same(pre, post)
        },
        Tool::Polyline => {
            &&& post.undo.views() == undo_push(pre.undo.views(), pre.image.view())
            &&& match pre.gesture.prev {
                Option::Some(p) => painted_once(pre, post, polyline_region(s, p.0, p.1, x, y), col),
                Option::None => pixels_same(pre, post),
            }
            &&& post.gesture.pending == pre.gesture.pending
            &&& admin_same(pre, post)
        },
        Tool::Brush => {
            &&& match pre.gesture.prev {
                Option::Some(p) => {
                    &&& (if s.shape == 2 {
                        post.image.view() == pasted(
                            pre.image.view(), pre.active_stencil(), pre.copy_buffer.view(),
                            x as int, y as int, s.alpha as int)
                            && post.mask.view() == pre.mask.view()
                    } else {
                        painted_once(pre, post, brush_region(s, p.0 as int, p.1 as int, x, y), col)
                    })
                    &&& post.undo.views() == pre.undo.views()
                },
                Option::None => pixels_same(pre, post) && post.undo.views() == undo_push(
                    pre.undo.views(), pre.image.view()),
            }
            &&& post.gesture.pending == pre.gesture.pending
            &&& admin_same(pre, post)
        },
        Tool::Fill => {
            &&& post.image.view() == (if pre.mask_active {
                pre.image.view()
            } else {
                crate::fill::flooded(pre.image.view(), pre.active_stencil(), x as int, y as int, col)
            })
            &&& post.mask.view() == (if pre.mask_active {
                crate::fill::flooded(pre.mask.view(), Option::None, x as int, y as int, col)
            } else {
                pre.mask.view()
            })
            &&& post.undo.views() == pre.undo.views()
            &&& post.gesture.pending == pre.gesture.pending
            &&& admin_same(pre, post)
        },
        Tool::Rectangle => {
            match pre.gesture.pending {
                Option::Some(Pending::ShapeRect { ax, ay }) => {
                    let x0 = min_i(ax as int, x as int);
                    let y0 = min_i(ay as int, y as int);
                    let w = max_i(ax as int, x as int) - x0;
                    let h = max_i(ay as int, y as int) - y0;
                    let n = if s.filled { 1 + min_i(w, h) / 2 } else { s.size as int };
                    &&& post.image.view() == (if pre.mask_active {
                        pre.image.view()
                    } else {
                        rects_buf(pre.image.view(), pre.active_stencil(), x0, y0, w, h, col, n)
                    })
                    &&& post.mask.view() == (if pre.mask_active {
                        rects_buf(pre.mask.view(), Option::None, x0, y0, w, h, col, n)
                    } else {
                        pre.mask.view()
                    })
                    &&& post.undo.views() == pre.undo.views()
                    &&& post.gesture.pending is None
                    &&& admin_same(pre, post)
                },
                _ => {
                    &&& pixels_same(pre, post)
                    &&& post.undo.views() == undo_push(pre.undo.views(), pre.image.view())
                    &&& post.gesture.pending == Option::Some(Pending::ShapeRect { ax: x, ay: y })
                    &&& admin_same(pre, post)
                },
            }
        },
        Tool::Circle => {
            match pre.gesture.pending {
                Option::Some(Pending::Circle { ax, ay }) => {
                    let r = gesture_radius(ax as int, ay as int, x as int, y as int) as u32;
                    let reg = if s.filled {
                        Region::Disk { cx: ax, cy: ay, r }
                    } else if s.antialias {
                        Region::WuCircle { cx: ax, cy: ay, r }
                    } else {
                        Region::CircleOutline { cx: ax, cy: ay, r }
                    };
                    &&& painted_once(pre, post, reg, col)
                    &&& post.undo.views() == pre.undo.views()
                    &&& post.gesture.pending is None
                    &&& admin_same(pre, post)
                },
                _ => {
                    &&& pixels_same(pre, post)
                    &&& post.undo.views() == undo_push(pre.undo.views(), pre.image.view())
                    &&& post.gesture.pending == Option::Some(Pending::Circle { ax: x, ay: y })
                    &&& admin_same(pre, post)
                },
            }
        },
        Tool::Polygon => {
            match pre.gesture.pending {
                Option::Some(Pending::Polygon { ax, ay }) => {
                    let r = gesture_radius(ax as int, ay as int, x as int, y as int);
                    let ang = atan2_mdeg(y as int - ay as int, x as int - ax as int);
                    &&& post.image.view() == (if pre.mask_active {
                        pre.image.view()
                    } else {
                        poly_buf(pre.image.view(), pre.active_stencil(), ax as int, ay as int,
                            r, s.sides as int, ang, s.antialias, col, s.sides as int)
                    })
                    &&& post.mask.view() == (if pre.mask_active {
                        poly_buf(pre.mask.view(), Option::None, ax as int, ay as int, r,
                            s.sides as int, ang, s.antialias, col, s.sides as int)
                    } else {
                        pre.mask.view()
                    })
                    &&& post.undo.views() == pre.undo.views()
                    &&& post.gesture.pending is None
                    &&& admin_same(pre, post)
                },
                _ => {
                    &&& pixels_same(pre, post)
                    &&& post.undo.views() == undo_push(pre.undo.views(), pre.image.view())
                    &&& post.gesture.pending == Option::Some(Pending::Polygon { ax: x, ay: y })
                    &&& admin_same(pre, post)
                },
            }
        },
        Tool::Marquee => {
            match pre.gesture.pending {
                Option::Some(Pending::SelectRect { ax, ay }) => {
                    &&& pixels_same(pre, post)
                    &&& post.undo.views() == pre.undo.views()
                    &&& post.selection == (match sel_from(
                        pre.image.view().w, pre.image.view().h, ax as int, ay as int, x as int,
                        y as int) {
                        Option::Some(r) => Option::Some(r),
                        Option::None => pre.selection,
                    })
                    &&& post.gesture.pending is None
                    &&& post.mask_active == pre.mask_active
                    &&& post.mask_enabled == pre.mask_enabled
                    &&& post.copy_buffer.view() == pre.copy_buffer.view()
                },
                _ => {
                    &&& pixels_same(pre, post)
                    &&& post.undo.views() == undo_push(pre.undo.views(), pre.image.view())
                    &&& post.gesture.pending == Option::Some(Pending::SelectRect { ax: x, ay: y })
                    &&& admin_same(pre, post)
                },
            }
        },
        Tool::Copy => {
            match pre.selection {
                Option::Some(r) => {
                    &&& pixels_same(pre, post)
                    &&& post.undo.views() == pre.undo.views()
                    &&& post.selection == pre.selection
                    &&& post.gesture.pending == pre.gesture.pending
                    &&& copied_from(pre.image.view(), post.copy_buffer.view(), r)
                    &&& post.mask_active == pre.mask_active
                    &&& post.mask_enabled == pre.mask_enabled
                },
                Option::None => match pre.gesture.pending {
                    Option::Some(Pending::SelectRect { ax, ay }) => {
                        &&& pixels_same(pre, post)
                        &&& post.undo.views() == pre.undo.views()
                        &&& post.gesture.pending is None
                        &&& match sel_from(pre.image.view().w, pre.image.view().h, ax as int,
                            ay as int, x as int, y as int) {
                            Option::Some(r) => post.selection == Option::Some(r)
                                && copied_from(pre.image.view(), post.copy_buffer.view(), r),
                            Option::None => post.selection == pre.selection
                                && post.copy_buffer.view() == pre.copy_buffer.view(),
                        }
                        &&& post.mask_active == pre.mask_active
                        &&& post.mask_enabled == pre.mask_enabled
                    },
                    _ => {
                        &&& pixels_same(pre, post)
                        &&& post.undo.views() == pre.undo.views()
                        &&& post.gesture.pending == Option::Some(
                            Pending::SelectRect { ax: x, ay: y })
                        &&& admin_same(pre, post)
                    },
                },
            }
        },
        Tool::Paste => {
            match pre.gesture.pending {
                Option::Some(Pending::Paste) => {
                    &&& post.undo.views() == undo_push(pre.undo.views(), pre.image.view())
                    &&& post.image.view() == pasted(
                        pre.image.view(), pre.active_stencil(), pre.copy_buffer.view(),
                        x as int, y as int, s.alpha as int)
                    &&& post.mask.view() == pre.mask.view()
                    &&& post.gesture.pending is None
                    &&& admin_same(pre, post)
                },
                _ => {
                    &&& pixels_same(pre, post)
                    &&& post.undo.views() == pre.undo.views()
                    &&& post.gesture.pending == Option::Some(Pending::Paste)
                    &&& admin_same(pre, post)
                },
            }
        },
    }
}

/// The copy buffer holds exactly the image pixels of rectangle `r`.
pub open spec fn copied_from(img: BufView, cb: BufView, r: SelRect) -> bool {
    &&& cb.w == r.w
    &&& cb.h == r.h
    &&& forall|i: int, j: int| 0 <= i < r.w && 0 <= j < r.h
        ==> cb.at(i, j) == img.at(r.x + i, r.y + j)
}

/// Copy/paste fidelity: pasting a copied region at full opacity with no
/// stencil reproduces the source's RGB values exactly at the destination
/// (clipped at the canvas edges).
pub proof fn lemma_copy_paste_fidelity(img: BufView, cb: BufView, r: SelRect, dx: int, dy: int)
    requires
        img.wf(),
        cb.wf(),
        copied_from(img, cb, r),
    ensures
        forall|i: int, j: int| 0 <= i < r.w && 0 <= j < r.h
            && img.in_bounds(dx + i, dy + j)
            ==> pasted(img, Option::None, cb, dx, dy, 255).at(dx + i, dy + j).same_rgb(
                #[trigger] img.at(r.x + i, r.y + j)),
{
    assert(crate::color::weight_of_alpha(255) == 256);
    assert forall|i: int, j: int| 0 <= i < r.w && 0 <= j < r.h
        && img.in_bounds(dx + i, dy + j)
        implies pasted(img, Option::None, cb, dx, dy, 255).at(dx + i, dy + j).same_rgb(
            #[trigger] img.at(r.x + i, r.y + j)) by {
        let x = dx + i;
        let y = dy + j;
        let idx = y * img.w + x;
        crate::buffer::lemma_index_bounds(img.w, img.h, x, y);
        vstd::arithmetic::div_mod::lemma_fundamental_div_mod_converse(idx, img.w, y, x);
        crate::buffer::lemma_index_bounds(cb.w, cb.h, i, j);
        assert(cb.at(i, j).opaque());
        crate::color::lemma_blend_full(img.px[idx], cb.at(i, j));
        assert(cb.at(i, j) == img.at(r.x + i, r.y + j));
    }
}

/// Executable counterpart of [`gesture_radius`].
fn gesture_radius_exec(ax: i32, ay: i32, x: i32, y: i32) -> (r: u32)
    ensures
        r == gesture_radius(ax as int, ay as int, x as int, y as int),
        r <= 0x8000,
{
    let d = crate::geom::dist2_exec(x as i64, y as i64, ax as i64, ay as i64);
    proof {
        assert((x as int - ax as int) * (x as int - ax as int) >= 0
            && (y as int - ay as int) * (y as int - ay as int) >= 0) by (nonlinear_arith);
        crate::geom::lemma_isqrt(d as int);
    }
    if d > 0x4000_0000 {
        proof {
            let s = isqrt(d as int);
            if s < 0x8000 {
                assert((s + 1) * (s + 1) <= 0x8000_i64 as int * 0x8000_i64 as int)
                    by (nonlinear_arith)
                    requires 0 <= s && s + 1 <= 0x8000;
            }
        }
        0x8000
    } else {
        let s = crate::geom::isqrt_u64(d as u64);
        proof {
            let si = isqrt(d as int);
            if si > 0x8000 {
                assert(si * si > 0x4000_0000) by (nonlinear_arith)
                    requires si > 0x8000;
            }
        }
        s as u32
    }
}

/// Executable counterpart of [`sel_from`], handing the rectangle back as
/// plain values.
fn sel_from_exec(w: usize, h: usize, ax: i32, ay: i32, x: i32, y: i32) -> (r: Option<
    (usize, usize, usize, usize)>)
    requires
        w <= 0x4000_0000,
        h <= 0x4000_0000,
    ensures
        match r {
            Option::Some(t) => sel_from(w as int, h as int, ax as int, ay as int, x as int,
                y as int) == Option::Some(SelRect { x: t.0, y: t.1, w: t.2, h: t.3 }),
            Option::None => sel_from(w as int, h as int, ax as int, ay as int, x as int,
                y as int) is None,
        },
{
    let lox: i64 = if ax <= x { ax as i64 } else { x as i64 };
    let loy: i64 = if ay <= y { ay as i64 } else { y as i64 };
    let hix: i64 = if ax >= x { ax as i64 } else { x as i64 };
    let hiy: i64 = if ay >= y { ay as i64 } else { y as i64 };
    let x0: i64 = if lox >= 0 { lox } else { 0 };
    let y0: i64 = if loy >= 0 { loy } else { 0 };
    let x1: i64 = if hix <= w as i64 { hix } else { w as i64 };
    let y1: i64 = if hiy <= h as i64 { hiy } else { h as i64 };
    if x0 < x1 && y0 < y1 {
        Option::Some((x0 as usize, y0 as usize, (x1 - x0) as usize, (y1 - y0) as usize))
    } else {
        Option::None
    }
}

/// Draw `n` nested inset rectangle outlines: the outline-thickness policy
/// of the rectangle tool.
fn draw_nested_rects(cv: &mut Canvas, x0: i64, y0: i64, w: i64, h: i64, n: u32, col: Rgba)
    requires
        old(cv).wf(),
        in_click_range(x0 as int, y0 as int),
        0 <= w,
        0 <= h,
        x0 + w <= 0x4000_0000,
        y0 + h <= 0x4000_0000,
        n as int <= 1 + (if w <= h { w } else { h }) / 2 || n <= 0x8000,
    ensures
        final(cv).wf(),
        final(cv).image.view() == (if old(cv).mask_active {
            old(cv).image.view()
        } else {
            rects_buf(old(cv).image.view(), old(cv).active_stencil(), x0 as int, y0 as int,
                w as int, h as int, col, n as int)
        }),
        final(cv).mask.view() == (if old(cv).mask_active {
            rects_buf(old(cv).mask.view(), Option::None, x0 as int, y0 as int, w as int,
                h as int, col, n as int)
        } else {
            old(cv).mask.view()
        }),
        final(cv).undo.views() == old(cv).undo.views(),
        final(cv).copy_buffer.view() == old(cv).copy_buffer.view(),
        final(cv).selection == old(cv).selection,
        final(cv).mask_active == old(cv).mask_active,
        final(cv).mask_enabled == old(cv).mask_enabled,
        final(cv).gesture == old(cv).gesture,
{
    let ghost mv0 = old(cv).mask.view();
    let ghost iv0 = old(cv).image.view();
    let ghost st = old(cv).active_stencil();
    let mut i: u32 = 0;
    while i < n
        invariant
            cv.wf(),
            old(cv).wf(),
            i <= n,
            in_click_range(x0 as int, y0 as int),
            0 <= w,
            0 <= h,
            x0 + w <= 0x4000_0000,
            y0 + h <= 0x4000_0000,
            n as int <= 1 + (if w <= h { w } else { h }) / 2 || n <= 0x8000,
            mv0 == old(cv).mask.view(),
            iv0 == old(cv).image.view(),
            st == old(cv).active_stencil(),
            cv.mask_active == old(cv).mask_active,
            cv.mask_enabled == old(cv).mask_enabled,
            cv.undo.views() == old(cv).undo.views(),
            cv.copy_buffer.view() == old(cv).copy_buffer.view(),
            cv.selection == old(cv).selection,
            cv.gesture == old(cv).gesture,
            old(cv).mask_active ==> cv.mask.view() == rects_buf(
                mv0, Option::None, x0 as int, y0 as int, w as int, h as int, col, i as int)
                && cv.image.view() == iv0,
            !old(cv).mask_active ==> cv.image.view() == rects_buf(
                iv0, st, x0 as int, y0 as int, w as int, h as int, col, i as int)
                && cv.mask.view() == mv0,
        decreases n - i,
    {
        proof {
            if !(n <= 0x8000) {
                assert(i as int <= (if w <= h { w as int } else { h as int }) / 2);
                crate::geom::lemma_div_le(w as int, 2, w as int);
                crate::geom::lemma_div_le(h as int, 2, h as int);
            }
        }
        let xi: i64 = x0 + i as i64;
        let yi: i64 = y0 + i as i64;
        let wi: i64 = w - 2 * (i as i64);
        let hi: i64 = h - 2 * (i as i64);
        let wu: u32 = if wi >= 0 { wi as u32 } else { 0 };
        let hu: u32 = if hi >= 0 { hi as u32 } else { 0 };
        let reg = Region::RectOutline { x: xi as i32, y: yi as i32, w: wu, h: hu };
        proof {
            assert(reg == inset_rect(x0 as int, y0 as int, w as int, h as int, i as int));
        }
        cv.paint(&reg, col);
        i = i + 1;
    }
}

/// Apply one click of the active tool to the canvas, stepping the
/// two-click state machine and taking the undo snapshots the tool calls
/// for. The whole dispatch is captured by [`click_ok`].
pub fn apply_click(cv: &mut Canvas, tool: Tool, s: ToolSettings, x: i32, y: i32, col: Rgba)
    requires
        old(cv).wf(),
        s.wf(),
        in_click_range(x as int, y as int),
    ensures
        click_ok(*old(cv), *final(cv), tool, s, x, y, col),
{
    match tool {
        Tool::Pen => {
            cv.pixel(x, y, col);
            let first = match cv.gesture.prev {
                Option::None => true,
                Option::Some(_) => false,
            };
            if first {
                cv.undo_save();
            }
        },
        Tool::Line => {
            match cv.gesture.prev {
                Option::Some(p) => {
                    if s.antialias {
                        cv.wu_line(p.0, p.1, x, y, col);
                    } else {
                        cv.line(p.0, p.1, x, y, col);
                    }
                },
                Option::None => {
                    cv.undo_save();
                },
            }
        },
        Tool::Polyline => {
            cv.undo_save();
            match cv.gesture.prev {
                Option::Some(p) => {
                    if s.size <= 1 {
                        if s.antialias {
                            cv.wu_line(p.0, p.1, x, y, col);
                        } else {
                            cv.line(p.0, p.1, x, y, col);
                        }
                    } else {
                        cv.brush_line(p.0, p.1, x, y, s.size, col);
                    }
                },
                Option::None => {},
            }
        },
        Tool::Brush => {
            match cv.gesture.prev {
                Option::Some(p) => {
                    if s.shape == 2 {
                        cv.paste(x, y, s.alpha);
                    } else if s.shape == 1 {
                        cv.rect_line(p.0, p.1, x, y, s.size, s.size, col);
                    } else if s.shape == 3 {
                        cv.smooth_circle(x, y, s.size, col);
                    } else {
                        cv.brush_line(p.0, p.1, x, y, s.size, col);
                    }
                },
                Option::None => {
                    cv.undo_save();
                },
            }
        },
        Tool::Fill => {
            cv.fill(x, y, col);
        },
        Tool::Rectangle => {
            let pending = cv.gesture.pending;
            match pending {
                Option::Some(Pending::ShapeRect { ax, ay }) => {
                    let x0: i64 = if ax <= x { ax as i64 } else { x as i64 };
                    let y0: i64 = if ay <= y { ay as i64 } else { y as i64 };
                    let x1: i64 = if ax >= x { ax as i64 } else { x as i64 };
                    let y1: i64 = if ay >= y { ay as i64 } else { y as i64 };
                    let w: i64 = x1 - x0;
                    let h: i64 = y1 - y0;
                    let n: u32 = if s.filled {
                        let m: i64 = if w <= h { w } else { h };
                        (1 + m / 2) as u32
                    } else {
                        s.size
                    };
                    cv.gesture.pending = Option::None;
                    draw_nested_rects(cv, x0, y0, w, h, n, col);
                },
                _ => {
                    cv.undo_save();
                    cv.gesture.pending = Option::Some(Pending::ShapeRect { ax: x, ay: y });
                },
            }
        },
        Tool::Circle => {
            let pending = cv.gesture.pending;
            match pending {
                Option::Some(Pending::Circle { ax, ay }) => {
                    cv.gesture.pending = Option::None;
                    let r = gesture_radius_exec(ax, ay, x, y);
                    if s.filled {
                        cv.circle(ax, ay, r, true, col);
                    } else if s.antialias {
                        cv.wu_circle(ax, ay, r, col);
                    } else {
                        cv.circle(ax, ay, r, false, col);
                    }
                },
                _ => {
                    cv.undo_save();
                    cv.gesture.pending = Option::Some(Pending::Circle { ax: x, ay: y });
                },
            }
        },
        Tool::Polygon => {
            let pending = cv.gesture.pending;
            match pending {
                Option::Some(Pending::Polygon { ax, ay }) => {
                    cv.gesture.pending = Option::None;
                    let r = gesture_radius_exec(ax, ay, x, y);
                    let ang = crate::geom::atan2_mdeg_exec(
                        y as i64 - ay as i64, x as i64 - ax as i64);
                    cv.polygon(ax, ay, r, s.sides, ang as u32, col, s.antialias);
                },
                _ => {
                    cv.undo_save();
                    cv.gesture.pending = Option::Some(Pending::Polygon { ax: x, ay: y });
                },
            }
        },
        Tool::Marquee => {
            let pending = cv.gesture.pending;
            match pending {
                Option::Some(Pending::SelectRect { ax, ay }) => {
                    cv.gesture.pending = Option::None;
                    let w = cv.image.width;
                    let h = cv.image.height;
                    match sel_from_exec(w, h, ax, ay, x, y) {
                        Option::Some(t) => {
                            let _ = cv.set_selection(t.0, t.1, t.2, t.3);
                        },
                        Option::None => {},
                    }
                },
                _ => {
                    cv.undo_save();
                    cv.gesture.pending = Option::Some(Pending::SelectRect { ax: x, ay: y });
                },
            }
        },
        Tool::Copy => {
            let has_sel = match cv.selection {
                Option::Some(_) => true,
                Option::None => false,
            };
            if has_sel {
                cv.copy();
            } else {
                let pending = cv.gesture.pending;
                match pending {
                    Option::Some(Pending::SelectRect { ax, ay }) => {
                        cv.gesture.pending = Option::None;
                        let w = cv.image.width;
                        let h = cv.image.height;
                        match sel_from_exec(w, h, ax, ay, x, y) {
                            Option::Some(t) => {
                                let _ = cv.set_selection(t.0, t.1, t.2, t.3);
                                cv.copy();
                            },
                            Option::None => {},
                        }
                    },
                    _ => {
                        cv.gesture.pending = Option::Some(Pending::SelectRect { ax: x, ay: y });
                    },
                }
            }
        },
        Tool::Paste => {
            let pending = cv.gesture.pending;
            match pending {
                Option::Some(Pending::Paste) => {
                    cv.gesture.pending = Option::None;
                    cv.undo_save();
                    cv.paste(x, y, s.alpha);
                },
                _ => {
                    cv.gesture.pending = Option::Some(Pending::Paste);
                },
            }
        },
    }
    cv.gesture.prev = Option::Some((x, y));
}

} // verus!
