//! Flood fill: 4-connected region growing from a seed pixel, with the
//! reachable set characterized by explicit paths and the worklist
//! implementation proved to compute exactly that set.

use vstd::prelude::*;
use vstd::arithmetic::div_mod::lemma_fundamental_div_mod_converse;
use crate::buffer::BufView;
use crate::buffer::PixelBuffer;
use crate::buffer::lemma_index_bounds;
use crate::buffer::lemma_index_inj;
use crate::color::Rgba;

verus! {

/// Two grid cells share an edge.
pub open spec fn adjacent(a: (int, int), b: (int, int)) -> bool {
    ||| (a.0 == b.0 && (a.1 == b.1 + 1 || a.1 == b.1 - 1))
    ||| (a.1 == b.1 && (a.0 == b.0 + 1 || a.0 == b.0 - 1))
}

/// A walk of in-bounds cells, all of color `seed_c`, each step moving to
/// an edge neighbor.
pub open spec fn path_ok(bv: BufView, seed_c: Rgba, path: Seq<(int, int)>) -> bool {
    &&& path.len() > 0
    &&& forall|k: int| 0 <= k < path.len() ==> bv.in_bounds(#[trigger] path[k].0, path[k].1)
        && bv.at(path[k].0, path[k].1) == seed_c
    &&& forall|k: int| 0 <= k < path.len() - 1 ==> adjacent(#[trigger] path[k], path[k + 1])
}

/// The pixel `(x, y)` is 4-connected to the seed through pixels of the
/// seed's color.
pub open spec fn fill_reach(bv: BufView, sx: int, sy: int, x: int, y: int) -> bool {
    exists|path: Seq<(int, int)>|
        #[trigger] path_ok(bv, bv.at(sx, sy), path) && path.first() == (sx, sy)
            && path.last() == (x, y)
}

/// The buffer after a flood fill: every pixel reachable from the seed
/// (and admitted by the stencil) is replaced by `c`, every other pixel is
/// untouched.
pub open spec fn flooded(bv: BufView, st: Option<BufView>, sx: int, sy: int, c: Rgba) -> BufView {
    BufView {
        w: bv.w,
        h: bv.h,
        px: Seq::new(
            bv.px.len(),
            |idx: int|
                {
                    let x = idx % bv.w;
                    let y = idx / bv.w;
                    if fill_reach(bv, sx, sy, x, y) && crate::region::stencil_allows(st, x, y) {
                        Rgba { r: c.r, g: c.g, b: c.b, a: 255 }
                    } else {
                        bv.px[idx]
                    }
                },
        ),
    }
}

/// A reachable cell reaches every same-colored edge neighbor.
pub proof fn lemma_reach_extend(bv: BufView, sx: int, sy: int, x: int, y: int, qx: int, qy: int)
    requires
        fill_reach(bv, sx, sy, x, y),
        adjacent((x, y), (qx, qy)),
        bv.in_bounds(qx, qy),
        bv.at(qx, qy) == bv.at(sx, sy),
    ensures
        fill_reach(bv, sx, sy, qx, qy),
{
    let path = choose|path: Seq<(int, int)>|
        #[trigger] path_ok(bv, bv.at(sx, sy), path) && path.first() == (sx, sy)
            && path.last() == (x, y);
    let path2 = path.push((qx, qy));
    assert(path2.last() == (qx, qy));
    assert forall|k: int| 0 <= k < path2.len() - 1 implies adjacent(#[trigger] path2[k], path2[k + 1]) by {
        if k < path.len() - 1 {
            assert(path2[k] == path[k] && path2[k + 1] == path[k + 1]);
        } else {
            assert(path2[k] == path.last() && path2[k + 1] == (qx, qy));
        }
    }
    assert(path_ok(bv, bv.at(sx, sy), path2));
}

/// The seed reaches itself.
pub proof fn lemma_reach_seed(bv: BufView, sx: int, sy: int)
    requires
        bv.in_bounds(sx, sy),
    ensures
        fill_reach(bv, sx, sy, sx, sy),
{
    let path = seq![(sx, sy)];
    assert(path_ok(bv, bv.at(sx, sy), path));
    assert(path.first() == (sx, sy) && path.last() == (sx, sy));
}

/// Every neighbor of `(x, y)` that is in bounds and seed-colored is
/// already marked in `vis`.
pub open spec fn frontier_closed(bv: BufView, seed_c: Rgba, vis: Seq<bool>, x: int, y: int) -> bool {
    forall|qx: int, qy: int|
        #[trigger] adjacent((x, y), (qx, qy)) && bv.in_bounds(qx, qy) && bv.at(qx, qy) == seed_c
            ==> vis[qy * bv.w + qx]
}

/// In a marking that contains the seed and is closed under seed-colored
/// adjacency, every endpoint of a seed-colored path from the seed is
/// marked.
proof fn lemma_path_marked(bv: BufView, sx: int, sy: int, vis: Seq<bool>, path: Seq<(int, int)>)
    requires
        bv.wf(),
        bv.in_bounds(sx, sy),
        vis.len() == bv.px.len(),
        path_ok(bv, bv.at(sx, sy), path),
        path.first() == (sx, sy),
        vis[sy * bv.w + sx],
        forall|x: int, y: int| bv.in_bounds(x, y) && #[trigger] vis[y * bv.w + x]
            ==> frontier_closed(bv, bv.at(sx, sy), vis, x, y),
    ensures
        vis[path.last().1 * bv.w + path.last().0],
    decreases path.len(),
{
    if path.len() == 1 {
        assert(path.last() == (sx, sy));
    } else {
        let pre = path.drop_last();
        assert(path_ok(bv, bv.at(sx, sy), pre)) by {
            assert(forall|k: int| 0 <= k < pre.len() ==> pre[k] == path[k]);
        }
        assert(pre.first() == (sx, sy));
        lemma_path_marked(bv, sx, sy, vis, pre);
        let p = pre.last();
        let q = path.last();
        assert(p == path[path.len() - 2] && q == path[path.len() - 1]);
        assert(adjacent(p, q));
        assert(bv.in_bounds(p.0, p.1) && vis[p.1 * bv.w + p.0]);
        assert(frontier_closed(bv, bv.at(sx, sy), vis, p.0, p.1));
        assert(adjacent((p.0, p.1), (q.0, q.1)));
    }
}

/// Number of unmarked entries; the worklist's termination measure.
pub open spec fn count_false(s: Seq<bool>) -> nat
    decreases s.len(),
{
    if s.len() == 0 {
        0
    } else {
        count_false(s.drop_last()) + (if s.last() { 0nat } else { 1nat })
    }
}

proof fn lemma_count_false_update(s: Seq<bool>, i: int)
    requires
        0 <= i < s.len(),
        !s[i],
    ensures
        count_false(s.update(i, true)) + 1 == count_false(s),
    decreases s.len(),
{
    let t = s.update(i, true);
    if i == s.len() - 1 {
        assert(t.drop_last() =~= s.drop_last());
        assert(t.last() && !s.last());
    } else {
        assert(t.drop_last() =~= s.drop_last().update(i, true));
        assert(t.last() == s.last());
        lemma_count_false_update(s.drop_last(), i);
    }
}

/// The worklist entry at `(x, y)` is present.
pub open spec fn stack_has(st: Seq<(usize, usize)>, x: int, y: int) -> bool {
    exists|k: int| 0 <= k < st.len() && (#[trigger] st[k]).0 == x && st[k].1 == y
}

/// Soundness of a marking: every marked index is reachable.
pub open spec fn marks_sound(bv: BufView, sx: int, sy: int, vis: Seq<bool>) -> bool {
    forall|idx: int| 0 <= idx < vis.len() && #[trigger] vis[idx]
        ==> fill_reach(bv, sx, sy, idx % bv.w, idx / bv.w)
}

/// Well-formedness of the worklist: entries are in bounds and marked.
pub open spec fn stack_ok(bv: BufView, vis: Seq<bool>, st: Seq<(usize, usize)>) -> bool {
    forall|k: int| 0 <= k < st.len() ==> (#[trigger] st[k]).0 < bv.w && st[k].1 < bv.h
        && vis[st[k].1 * bv.w + st[k].0]
}

/// Examine the neighbor `(qx, qy)` of an already-reached cell: if it is in
/// bounds, seed-colored and unmarked, mark it and put it on the worklist.
fn mark_neighbor(
    buf: &PixelBuffer,
    seed_c: Rgba,
    vis: &mut Vec<bool>,
    stack: &mut Vec<(usize, usize)>,
    qx: i64,
    qy: i64,
    Ghost(sx): Ghost<int>,
    Ghost(sy): Ghost<int>,
    Ghost(pp): Ghost<(int, int)>,
)
    requires
        buf.wf(),
        0 <= sx < buf.view().w,
        0 <= sy < buf.view().h,
        seed_c == buf.view().at(sx, sy),
        old(vis).view().len() == buf.view().px.len(),
        adjacent(pp, (qx as int, qy as int)),
        fill_reach(buf.view(), sx, sy, pp.0, pp.1),
        marks_sound(buf.view(), sx, sy, old(vis).view()),
        stack_ok(buf.view(), old(vis).view(), old(stack).view()),
    ensures
        final(vis).view().len() == old(vis).view().len(),
        forall|idx: int| 0 <= idx < old(vis).view().len() && old(vis).view()[idx]
            ==> final(vis).view()[idx],
        marks_sound(buf.view(), sx, sy, final(vis).view()),
        stack_ok(buf.view(), final(vis).view(), final(stack).view()),
        old(stack).view().is_prefix_of(final(stack).view()),
        forall|x: int, y: int| stack_has(old(stack).view(), x, y)
            ==> stack_has(final(stack).view(), x, y),
        forall|idx: int| 0 <= idx < final(vis).view().len() && #[trigger] final(vis).view()[idx]
            ==> old(vis).view()[idx]
                || stack_has(final(stack).view(), idx % buf.view().w, idx / buf.view().w),
        buf.view().in_bounds(qx as int, qy as int)
            && buf.view().at(qx as int, qy as int) == seed_c
            ==> final(vis).view()[qy as int * buf.view().w + qx as int],
        5 * count_false(final(vis).view()) + final(stack).view().len()
            <= 5 * count_false(old(vis).view()) + old(stack).view().len(),
{
    let ghost bv = buf.view();
    if qx >= 0 && qy >= 0 && (qx as usize) < buf.width && (qy as usize) < buf.height {
        let ux = qx as usize;
        let uy = qy as usize;
        let c = buf.get(ux, uy);
        if c.r == seed_c.r && c.g == seed_c.g && c.b == seed_c.b && c.a == seed_c.a {
            let qi = buf.index_of(ux, uy);
            if !vis[qi] {
                proof {
                    lemma_reach_extend(bv, sx, sy, pp.0, pp.1, qx as int, qy as int);
                    lemma_count_false_update(vis.view(), qi as int);
                    lemma_fundamental_div_mod_converse(qi as int, bv.w, qy as int, qx as int);
                }
                vis.set(qi, true);
                stack.push((ux, uy));
                proof {
                    assert forall|idx: int| 0 <= idx < vis.view().len() && #[trigger] vis.view()[idx]
                        implies fill_reach(bv, sx, sy, idx % bv.w, idx / bv.w) by {
                        if idx != qi as int {
                            assert(old(vis).view()[idx]);
                        }
                    }
                    assert(stack.view().last() == (ux, uy));
                    assert forall|k: int| 0 <= k < stack.view().len()
                        implies (#[trigger] stack.view()[k]).0 < bv.w && stack.view()[k].1 < bv.h
                            && vis.view()[stack.view()[k].1 * bv.w + stack.view()[k].0] by {
                        if k < stack.view().len() - 1 {
                            assert(stack.view()[k] == old(stack).view()[k]);
                            assert((#[trigger] old(stack).view()[k]).0 < bv.w
                                && old(stack).view()[k].1 < bv.h
                                && old(vis).view()[old(stack).view()[k].1 * bv.w
                                    + old(stack).view()[k].0]);
                            lemma_index_bounds(bv.w, bv.h, old(stack).view()[k].0 as int,
                                old(stack).view()[k].1 as int);
                        } else {
                            assert(stack.view()[k] == (ux, uy));
                        }
                    }
                    assert forall|x: int, y: int| stack_has(old(stack).view(), x, y)
                        implies stack_has(stack.view(), x, y) by {
                        if stack_has(old(stack).view(), x, y) {
                            let k = choose|k: int| 0 <= k < old(stack).view().len()
                                && (#[trigger] old(stack).view()[k]).0 == x
                                && old(stack).view()[k].1 == y;
                            assert(stack.view()[k] == old(stack).view()[k]);
                        }
                    }
                    assert(stack_has(stack.view(), qx as int, qy as int)) by {
                        assert(stack.view()[stack.view().len() - 1] == (ux, uy));
                    }
                    assert forall|idx: int| 0 <= idx < vis.view().len() && #[trigger] vis.view()[idx]
                        implies old(vis).view()[idx]
                            || stack_has(stack.view(), idx % bv.w, idx / bv.w) by {
                        if !old(vis).view()[idx] {
                            assert(idx == qi as int);
                        }
                    }
                }
            }
        }
    }
}

/// Marks added between two states all lie on the final worklist, given
/// the per-step residues and the worklist's growth.
proof fn lemma_chain_marks(
    bv: BufView,
    vis0: Seq<bool>, vis1: Seq<bool>, vis2: Seq<bool>, vis3: Seq<bool>, visf: Seq<bool>,
    stk1: Seq<(usize, usize)>, stk2: Seq<(usize, usize)>, stk3: Seq<(usize, usize)>,
    stkf: Seq<(usize, usize)>,
)
    requires
        vis0.len() == visf.len(),
        vis1.len() == visf.len(),
        vis2.len() == visf.len(),
        vis3.len() == visf.len(),
        forall|idx: int| 0 <= idx < vis1.len() && #[trigger] vis1[idx]
            ==> vis0[idx] || stack_has(stk1, idx % bv.w, idx / bv.w),
        forall|idx: int| 0 <= idx < vis2.len() && #[trigger] vis2[idx]
            ==> vis1[idx] || stack_has(stk2, idx % bv.w, idx / bv.w),
        forall|idx: int| 0 <= idx < vis3.len() && #[trigger] vis3[idx]
            ==> vis2[idx] || stack_has(stk3, idx % bv.w, idx / bv.w),
        forall|idx: int| 0 <= idx < visf.len() && #[trigger] visf[idx]
            ==> vis3[idx] || stack_has(stkf, idx % bv.w, idx / bv.w),
        forall|x: int, y: int| stack_has(stk1, x, y) ==> stack_has(stk2, x, y),
        forall|x: int, y: int| stack_has(stk2, x, y) ==> stack_has(stk3, x, y),
        forall|x: int, y: int| stack_has(stk3, x, y) ==> stack_has(stkf, x, y),
    ensures
        forall|idx: int| 0 <= idx < visf.len() && #[trigger] visf[idx] && !vis0[idx]
            ==> stack_has(stkf, idx % bv.w, idx / bv.w),
{
    assert forall|idx: int| 0 <= idx < visf.len() && #[trigger] visf[idx] && !vis0[idx]
        implies stack_has(stkf, idx % bv.w, idx / bv.w) by {
        if vis3[idx] {
            if vis2[idx] {
                if vis1[idx] {
                    assert(stack_has(stk1, idx % bv.w, idx / bv.w));
                    assert(stack_has(stk2, idx % bv.w, idx / bv.w));
                    assert(stack_has(stk3, idx % bv.w, idx / bv.w));
                } else {
                    assert(stack_has(stk2, idx % bv.w, idx / bv.w));
                    assert(stack_has(stk3, idx % bv.w, idx / bv.w));
                }
            } else {
                assert(stack_has(stk3, idx % bv.w, idx / bv.w));
            }
        }
    }
}

/// Removing the top of the worklist keeps the closure invariant for every
/// cell but the one removed.
proof fn lemma_pop_closure(
    bv: BufView,
    seed_c: Rgba,
    px: usize, py: usize,
    vis: Seq<bool>,
    stk_pre: Seq<(usize, usize)>, stk0: Seq<(usize, usize)>,
)
    requires
        forall|x: int, y: int| bv.in_bounds(x, y) && vis[y * bv.w + x]
            && !stack_has(stk_pre, x, y)
            ==> frontier_closed(bv, seed_c, vis, x, y),
        stk_pre.len() > 0,
        stk_pre.last() == (px, py),
        stk0 == stk_pre.subrange(0, stk_pre.len() - 1),
    ensures
        forall|x: int, y: int| bv.in_bounds(x, y) && vis[y * bv.w + x]
            && !stack_has(stk0, x, y) && !(x == px as int && y == py as int)
            ==> frontier_closed(bv, seed_c, vis, x, y),
{
    assert forall|x: int, y: int| bv.in_bounds(x, y) && vis[y * bv.w + x]
        && !stack_has(stk0, x, y) && !(x == px as int && y == py as int)
        implies frontier_closed(bv, seed_c, vis, x, y) by {
        assert(!stack_has(stk_pre, x, y)) by {
            if stack_has(stk_pre, x, y) {
                let k = choose|k: int| 0 <= k < stk_pre.len()
                    && (#[trigger] stk_pre[k]).0 == x && stk_pre[k].1 == y;
                if k < stk_pre.len() - 1 {
                    assert(stk0[k] == stk_pre[k]);
                    assert(stack_has(stk0, x, y));
                } else {
                    assert(stk_pre[k] == (px, py));
                }
            }
        }
    }
}

/// After processing the popped cell, the closure invariant holds again.
proof fn lemma_iteration_closure(
    bv: BufView,
    seed_c: Rgba,
    px: usize, py: usize,
    vis0: Seq<bool>, visf: Seq<bool>,
    stk0: Seq<(usize, usize)>, stkf: Seq<(usize, usize)>,
)
    requires
        bv.wf(),
        (px as int) < bv.w,
        (py as int) < bv.h,
        vis0.len() == bv.px.len(),
        visf.len() == bv.px.len(),
        forall|idx: int| 0 <= idx < vis0.len() && #[trigger] vis0[idx] ==> visf[idx],
        forall|idx: int| 0 <= idx < visf.len() && #[trigger] visf[idx] && !vis0[idx]
            ==> stack_has(stkf, idx % bv.w, idx / bv.w),
        frontier_closed(bv, seed_c, visf, px as int, py as int),
        forall|x: int, y: int| bv.in_bounds(x, y) && vis0[y * bv.w + x]
            && !stack_has(stk0, x, y) && !(x == px as int && y == py as int)
            ==> frontier_closed(bv, seed_c, vis0, x, y),
        forall|x: int, y: int| stack_has(stk0, x, y) ==> stack_has(stkf, x, y),
    ensures
        forall|x: int, y: int| bv.in_bounds(x, y) && visf[y * bv.w + x]
            && !stack_has(stkf, x, y)
            ==> frontier_closed(bv, seed_c, visf, x, y),
{
    assert forall|x: int, y: int| bv.in_bounds(x, y) && visf[y * bv.w + x]
        && !stack_has(stkf, x, y)
        implies frontier_closed(bv, seed_c, visf, x, y) by {
        lemma_index_bounds(bv.w, bv.h, x, y);
        lemma_fundamental_div_mod_converse(y * bv.w + x, bv.w, y, x);
        if x == px as int && y == py as int {
        } else if vis0[y * bv.w + x] {
            assert(!stack_has(stk0, x, y));
            assert(frontier_closed(bv, seed_c, vis0, x, y));
            assert forall|ax: int, ay: int|
                #[trigger] adjacent((x, y), (ax, ay)) && bv.in_bounds(ax, ay)
                    && bv.at(ax, ay) == seed_c
                implies visf[ay * bv.w + ax] by {
                lemma_index_bounds(bv.w, bv.h, ax, ay);
                assert(vis0[ay * bv.w + ax]);
            }
        } else {
            assert(stack_has(stkf, x, y));
        }
    }
}

/// Visit the four neighbors of a reached cell, marking and enqueueing the
/// unmarked seed-colored ones; every invariant of the search survives.
fn process_cell(
    buf: &PixelBuffer,
    seed_c: Rgba,
    vis: &mut Vec<bool>,
    stack: &mut Vec<(usize, usize)>,
    px: usize,
    py: usize,
    Ghost(sx): Ghost<int>,
    Ghost(sy): Ghost<int>,
)
    requires
        buf.wf(),
        0 <= sx < buf.view().w,
        0 <= sy < buf.view().h,
        seed_c == buf.view().at(sx, sy),
        (px as int) < buf.view().w,
        (py as int) < buf.view().h,
        fill_reach(buf.view(), sx, sy, px as int, py as int),
        old(vis).view().len() == buf.view().px.len(),
        marks_sound(buf.view(), sx, sy, old(vis).view()),
        stack_ok(buf.view(), old(vis).view(), old(stack).view()),
        forall|x: int, y: int| buf.view().in_bounds(x, y) && old(vis).view()[y * buf.view().w + x]
            && !stack_has(old(stack).view(), x, y) && !(x == px as int && y == py as int)
            ==> frontier_closed(buf.view(), seed_c, old(vis).view(), x, y),
    ensures
        final(vis).view().len() == old(vis).view().len(),
        forall|idx: int| 0 <= idx < old(vis).view().len() && #[trigger] old(vis).view()[idx]
            ==> final(vis).view()[idx],
        marks_sound(buf.view(), sx, sy, final(vis).view()),
        stack_ok(buf.view(), final(vis).view(), final(stack).view()),
        forall|x: int, y: int| buf.view().in_bounds(x, y)
            && final(vis).view()[y * buf.view().w + x]
            && !stack_has(final(stack).view(), x, y)
            ==> frontier_closed(buf.view(), seed_c, final(vis).view(), x, y),
        5 * count_false(final(vis).view()) + final(stack).view().len()
            <= 5 * count_false(old(vis).view()) + old(stack).view().len(),
{
    let ghost bv = buf.view();
    let ghost vis0 = vis.view();
    let ghost pp = (px as int, py as int);
    mark_neighbor(buf, seed_c, vis, stack, px as i64 + 1, py as i64,
        Ghost(sx), Ghost(sy), Ghost(pp));
    let ghost vis1 = vis.view();
    let ghost stk1 = stack.view();
    mark_neighbor(buf, seed_c, vis, stack, px as i64 - 1, py as i64,
        Ghost(sx), Ghost(sy), Ghost(pp));
    let ghost vis2 = vis.view();
    let ghost stk2 = stack.view();
    mark_neighbor(buf, seed_c, vis, stack, px as i64, py as i64 + 1,
        Ghost(sx), Ghost(sy), Ghost(pp));
    let ghost vis3 = vis.view();
    let ghost stk3 = stack.view();
    mark_neighbor(buf, seed_c, vis, stack, px as i64, py as i64 - 1,
        Ghost(sx), Ghost(sy), Ghost(pp));
    proof {
        let visf = vis.view();
        let stkf = stack.view();
        lemma_chain_marks(bv, vis0, vis1, vis2, vis3, visf, stk1, stk2, stk3, stkf);
        assert(frontier_closed(bv, seed_c, visf, px as int, py as int)) by {
            assert forall|ax: int, ay: int|
                #[trigger] adjacent((px as int, py as int), (ax, ay)) && bv.in_bounds(ax, ay)
                    && bv.at(ax, ay) == seed_c
                implies visf[ay * bv.w + ax] by {
                lemma_index_bounds(bv.w, bv.h, ax, ay);
                if ax == px as int + 1 && ay == py as int {
                    assert(vis1[ay * bv.w + ax]);
                    assert(vis2[ay * bv.w + ax]);
                    assert(vis3[ay * bv.w + ax]);
                } else if ax == px as int - 1 && ay == py as int {
                    assert(vis2[ay * bv.w + ax]);
                    assert(vis3[ay * bv.w + ax]);
                } else if ax == px as int && ay == py as int + 1 {
                    assert(vis3[ay * bv.w + ax]);
                } else {
                    assert(ax == px as int && ay == py as int - 1);
                }
            }
        }
        lemma_iteration_closure(bv, seed_c, px, py, vis0, visf, old(stack).view(), stkf);
    }
}

/// Compute the marking of every pixel flood-reachable from the seed.
#[verifier::rlimit(100)]
fn flood_marks(buf: &PixelBuffer, sx: usize, sy: usize) -> (vis: Vec<bool>)
    requires
        buf.wf(),
        sx < buf.width,
        sy < buf.height,
    ensures
        vis.view().len() == buf.view().px.len(),
        forall|x: int, y: int| buf.view().in_bounds(x, y)
            ==> vis.view()[y * buf.view().w + x] == fill_reach(
                buf.view(), sx as int, sy as int, x, y),
{
    let ghost bv = buf.view();
    let w = buf.width;
    let h = buf.height;
    let n = buf.data.len();
    let seed_c = buf.get(sx, sy);
    let mut vis: Vec<bool> = Vec::new();
    let mut i: usize = 0;
    while i < n
        invariant
            i <= n,
            vis.view() =~= Seq::new(i as nat, |j: int| false),
        decreases n - i,
    {
        vis.push(false);
        i = i + 1;
    }
    let si = buf.index_of(sx, sy);
    vis.set(si, true);
    let mut stack: Vec<(usize, usize)> = Vec::new();
    stack.push((sx, sy));
    proof {
        lemma_reach_seed(bv, sx as int, sy as int);
        lemma_fundamental_div_mod_converse(si as int, bv.w, sy as int, sx as int);
        assert forall|idx: int| 0 <= idx < vis.view().len() && #[trigger] vis.view()[idx]
            implies fill_reach(bv, sx as int, sy as int, idx % bv.w, idx / bv.w) by {
            assert(idx == si as int);
        }
        assert(stack_has(stack.view(), sx as int, sy as int)) by {
            assert(stack.view()[0] == (sx, sy));
        }
        assert forall|x: int, y: int| bv.in_bounds(x, y) && vis.view()[y * bv.w + x]
            && !stack_has(stack.view(), x, y)
            implies frontier_closed(bv, seed_c, vis.view(), x, y) by {
            lemma_index_bounds(bv.w, bv.h, x, y);
            if y * bv.w + x == si as int {
                crate::buffer::lemma_index_inj(bv.w, x, y, sx as int, sy as int);
            }
        }
    }
    while stack.len() > 0
        invariant
            buf.wf(),
            bv == buf.view(),
            w == bv.w,
            h == bv.h,
            sx < w,
            sy < h,
            seed_c == bv.at(sx as int, sy as int),
            vis.view().len() == bv.px.len(),
            vis.view()[sy as int * bv.w + sx as int],
            marks_sound(bv, sx as int, sy as int, vis.view()),
            stack_ok(bv, vis.view(), stack.view()),
            forall|x: int, y: int| bv.in_bounds(x, y) && vis.view()[y * bv.w + x]
                && !stack_has(stack.view(), x, y)
                ==> frontier_closed(bv, seed_c, vis.view(), x, y),
        decreases 5 * count_false(vis.view()) + stack.view().len(),
    {
        let ghost stk_pre = stack.view();
        let popped = stack.pop();
        let p = popped.unwrap();
        let px = p.0;
        let py = p.1;
        let ghost pi = py as int * bv.w + px as int;
        proof {
            lemma_index_bounds(bv.w, bv.h, px as int, py as int);
            lemma_fundamental_div_mod_converse(pi, bv.w, py as int, px as int);
            assert(vis.view()[pi]);
            assert(fill_reach(bv, sx as int, sy as int, px as int, py as int));
            lemma_pop_closure(bv, seed_c, px, py, vis.view(), stk_pre, stack.view());
        }
        process_cell(buf, seed_c, &mut vis, &mut stack, px, py,
            Ghost(sx as int), Ghost(sy as int));
        proof {
            lemma_index_bounds(bv.w, bv.h, sx as int, sy as int);
        }
    }
    proof {
        assert forall|x: int, y: int| bv.in_bounds(x, y)
            implies vis.view()[y * bv.w + x] == fill_reach(bv, sx as int, sy as int, x, y) by {
            lemma_index_bounds(bv.w, bv.h, x, y);
            lemma_fundamental_div_mod_converse(y * bv.w + x, bv.w, y, x);
            if vis.view()[y * bv.w + x] {
                assert(fill_reach(bv, sx as int, sy as int, x, y));
            } else {
                if fill_reach(bv, sx as int, sy as int, x, y) {
                    let path = choose|path: Seq<(int, int)>|
                        #[trigger] path_ok(bv, bv.at(sx as int, sy as int), path)
                            && path.first() == (sx as int, sy as int) && path.last() == (x, y);
                    assert forall|ax: int, ay: int| bv.in_bounds(ax, ay)
                        && #[trigger] vis.view()[ay * bv.w + ax]
                        implies frontier_closed(bv, bv.at(sx as int, sy as int), vis.view(), ax, ay) by {
                        assert(!stack_has(stack.view(), ax, ay));
                    }
                    lemma_path_marked(bv, sx as int, sy as int, vis.view(), path);
                }
            }
        }
    }
    vis
}

/// A cell lies in the rectangle `[rx, rx+rw) x [ry, ry+rh)`.
pub open spec fn in_rect(rx: int, ry: int, rw: int, rh: int, x: int, y: int) -> bool {
    rx <= x < rx + rw && ry <= y < ry + rh
}

/// The rectangle is uniformly seed-colored and every in-bounds cell of
/// the one-pixel ring around it has a different color.
pub open spec fn rect_bounded(bv: BufView, rx: int, ry: int, rw: int, rh: int, cs: Rgba) -> bool {
    &&& forall|x: int, y: int| #[trigger] in_rect(rx, ry, rw, rh, x, y) ==> bv.at(x, y) == cs
    &&& forall|x: int, y: int| bv.in_bounds(x, y) && !in_rect(rx, ry, rw, rh, x, y)
        && in_rect(rx - 1, ry - 1, rw + 2, rh + 2, x, y) ==> bv.at(x, y) != cs
}

proof fn lemma_path_stays_in_rect(
    bv: BufView, rx: int, ry: int, rw: int, rh: int, cs: Rgba, path: Seq<(int, int)>,
)
    requires
        rect_bounded(bv, rx, ry, rw, rh, cs),
        path_ok(bv, cs, path),
        in_rect(rx, ry, rw, rh, path.first().0, path.first().1),
    ensures
        in_rect(rx, ry, rw, rh, path.last().0, path.last().1),
    decreases path.len(),
{
    if path.len() > 1 {
        let pre = path.drop_last();
        assert(path_ok(bv, cs, pre)) by {
            assert(forall|k: int| 0 <= k < pre.len() ==> pre[k] == path[k]);
        }
        lemma_path_stays_in_rect(bv, rx, ry, rw, rh, cs, pre);
        let p = pre.last();
        let q = path.last();
        assert(p == path[path.len() - 2] && q == path[path.len() - 1]);
        assert(adjacent(p, q));
        assert(in_rect(rx - 1, ry - 1, rw + 2, rh + 2, q.0, q.1));
        assert(bv.in_bounds(q.0, q.1) && bv.at(q.0, q.1) == cs);
    }
}

proof fn lemma_reach_horiz(bv: BufView, sx: int, sy: int, tx: int, rx: int, ry: int, rw: int, rh: int)
    requires
        bv.wf(),
        0 <= rx,
        0 <= ry,
        rx + rw <= bv.w,
        ry + rh <= bv.h,
        in_rect(rx, ry, rw, rh, sx, sy),
        rx <= tx < rx + rw,
        forall|x: int, y: int| #[trigger] in_rect(rx, ry, rw, rh, x, y)
            ==> bv.at(x, y) == bv.at(sx, sy),
    ensures
        fill_reach(bv, sx, sy, tx, sy),
    decreases (if tx >= sx { tx - sx } else { sx - tx }),
{
    if tx == sx {
        lemma_reach_seed(bv, sx, sy);
    } else if tx > sx {
        lemma_reach_horiz(bv, sx, sy, tx - 1, rx, ry, rw, rh);
        assert(in_rect(rx, ry, rw, rh, tx, sy));
        lemma_reach_extend(bv, sx, sy, tx - 1, sy, tx, sy);
    } else {
        lemma_reach_horiz(bv, sx, sy, tx + 1, rx, ry, rw, rh);
        assert(in_rect(rx, ry, rw, rh, tx, sy));
        lemma_reach_extend(bv, sx, sy, tx + 1, sy, tx, sy);
    }
}

proof fn lemma_reach_vert(
    bv: BufView, sx: int, sy: int, tx: int, ty: int, rx: int, ry: int, rw: int, rh: int,
)
    requires
        bv.wf(),
        0 <= rx,
        0 <= ry,
        rx + rw <= bv.w,
        ry + rh <= bv.h,
        in_rect(rx, ry, rw, rh, sx, sy),
        rx <= tx < rx + rw,
        ry <= ty < ry + rh,
        forall|x: int, y: int| #[trigger] in_rect(rx, ry, rw, rh, x, y)
            ==> bv.at(x, y) == bv.at(sx, sy),
    ensures
        fill_reach(bv, sx, sy, tx, ty),
    decreases (if ty >= sy { ty - sy } else { sy - ty }),
{
    if ty == sy {
        lemma_reach_horiz(bv, sx, sy, tx, rx, ry, rw, rh);
    } else if ty > sy {
        lemma_reach_vert(bv, sx, sy, tx, ty - 1, rx, ry, rw, rh);
        assert(in_rect(rx, ry, rw, rh, tx, ty));
        lemma_reach_extend(bv, sx, sy, tx, ty - 1, tx, ty);
    } else {
        lemma_reach_vert(bv, sx, sy, tx, ty + 1, rx, ry, rw, rh);
        assert(in_rect(rx, ry, rw, rh, tx, ty));
        lemma_reach_extend(bv, sx, sy, tx, ty + 1, tx, ty);
    }
}

/// Flood fill containment: filling a uniformly colored rectangle that is
/// bounded on all sides by differently colored pixels reaches exactly the
/// pixels of that rectangle, so the fill changes those and no others.
pub proof fn lemma_flood_fill_containment(
    bv: BufView, sx: int, sy: int, rx: int, ry: int, rw: int, rh: int, c: Rgba,
)
    requires
        bv.wf(),
        0 <= rx,
        0 <= ry,
        1 <= rw,
        1 <= rh,
        rx + rw <= bv.w,
        ry + rh <= bv.h,
        in_rect(rx, ry, rw, rh, sx, sy),
        rect_bounded(bv, rx, ry, rw, rh, bv.at(sx, sy)),
    ensures
        forall|x: int, y: int| fill_reach(bv, sx, sy, x, y) == in_rect(rx, ry, rw, rh, x, y),
        forall|x: int, y: int| bv.in_bounds(x, y)
            ==> flooded(bv, Option::None, sx, sy, c).at(x, y) == (if in_rect(rx, ry, rw, rh, x, y) {
                Rgba { r: c.r, g: c.g, b: c.b, a: 255 }
            } else {
                bv.at(x, y)
            }),
{
    let cs = bv.at(sx, sy);
    assert forall|x: int, y: int| fill_reach(bv, sx, sy, x, y) == in_rect(rx, ry, rw, rh, x, y) by {
        if fill_reach(bv, sx, sy, x, y) {
            let path = choose|path: Seq<(int, int)>|
                #[trigger] path_ok(bv, cs, path) && path.first() == (sx, sy)
                    && path.last() == (x, y);
            lemma_path_stays_in_rect(bv, rx, ry, rw, rh, cs, path);
        }
        if in_rect(rx, ry, rw, rh, x, y) {
            lemma_reach_vert(bv, sx, sy, x, y, rx, ry, rw, rh);
        }
    }
    assert forall|x: int, y: int| bv.in_bounds(x, y)
        implies flooded(bv, Option::None, sx, sy, c).at(x, y) == (if in_rect(rx, ry, rw, rh, x, y) {
            Rgba { r: c.r, g: c.g, b: c.b, a: 255 }
        } else {
            bv.at(x, y)
        }) by {
        lemma_index_bounds(bv.w, bv.h, x, y);
        lemma_fundamental_div_mod_converse(y * bv.w + x, bv.w, y, x);
    }
}

/// With the seed out of bounds nothing is reachable.
proof fn lemma_flood_noop(bv: BufView, st: Option<BufView>, sx: int, sy: int, c: Rgba)
    requires
        !bv.in_bounds(sx, sy),
    ensures
        flooded(bv, st, sx, sy, c) =~= bv,
{
    assert forall|x: int, y: int| !fill_reach(bv, sx, sy, x, y) by {
        if fill_reach(bv, sx, sy, x, y) {
            let path = choose|path: Seq<(int, int)>|
                #[trigger] path_ok(bv, bv.at(sx, sy), path) && path.first() == (sx, sy)
                    && path.last() == (x, y);
            assert(bv.in_bounds(path[0].0, path[0].1));
        }
    }
}

/// Flood fill: replace every pixel 4-connected to the seed through pixels
/// of the seed's color (and admitted by the stencil) with `c`. An
/// out-of-bounds seed is a no-op, not an error.
pub fn flood_fill(buf: &mut PixelBuffer, stencil: Option<&PixelBuffer>, sx: i32, sy: i32, c: Rgba)
    requires
        old(buf).wf(),
        match stencil {
            Option::Some(m) => m.wf(),
            Option::None => true,
        },
    ensures
        final(buf).wf(),
        final(buf).view() == flooded(
            old(buf).view(), crate::region::stencil_view(stencil), sx as int, sy as int, c),
{
    let ghost orig = buf.view();
    let ghost stv = crate::region::stencil_view(stencil);
    let ghost tgt = flooded(orig, stv, sx as int, sy as int, c);
    if sx < 0 || sy < 0 || sx as usize >= buf.width || sy as usize >= buf.height {
        proof {
            lemma_flood_noop(orig, stv, sx as int, sy as int, c);
        }
        return;
    }
    let ux = sx as usize;
    let uy = sy as usize;
    let marks = flood_marks(buf, ux, uy);
    let w = buf.width;
    let h = buf.height;
    let fillc = Rgba { r: c.r, g: c.g, b: c.b, a: 255 };
    let mut y: usize = 0;
    while y < h
        invariant
            buf.wf(),
            match stencil {
                Option::Some(m) => m.wf(),
                Option::None => true,
            },
            stv == crate::region::stencil_view(stencil),
            orig.wf(),
            buf.view().w == orig.w,
            buf.view().h == orig.h,
            w == orig.w,
            h == orig.h,
            ux < w,
            uy < h,
            y <= h,
            fillc == (Rgba { r: c.r, g: c.g, b: c.b, a: 255 }),
            tgt == flooded(orig, stv, ux as int, uy as int, c),
            tgt == flooded(orig, stv, sx as int, sy as int, c),
            marks.view().len() == orig.px.len(),
            forall|x: int, yy: int| orig.in_bounds(x, yy)
                ==> marks.view()[yy * orig.w + x] == fill_reach(orig, ux as int, uy as int, x, yy),
            forall|idx: int| 0 <= idx < y as int * orig.w ==> buf.view().px[idx] == tgt.px[idx],
            forall|idx: int| y as int * orig.w <= idx < orig.px.len()
                ==> buf.view().px[idx] == orig.px[idx],
        decreases h - y,
    {
        let mut x: usize = 0;
        while x < w
            invariant
                buf.wf(),
                match stencil {
                    Option::Some(m) => m.wf(),
                    Option::None => true,
                },
                stv == crate::region::stencil_view(stencil),
                orig.wf(),
                buf.view().w == orig.w,
                buf.view().h == orig.h,
                w == orig.w,
                h == orig.h,
                ux < w,
                uy < h,
                y < h,
                x <= w,
                fillc == (Rgba { r: c.r, g: c.g, b: c.b, a: 255 }),
                tgt == flooded(orig, stv, ux as int, uy as int, c),
                tgt == flooded(orig, stv, sx as int, sy as int, c),
                marks.view().len() == orig.px.len(),
                forall|xx: int, yy: int| orig.in_bounds(xx, yy)
                    ==> marks.view()[yy * orig.w + xx] == fill_reach(
                        orig, ux as int, uy as int, xx, yy),
                forall|idx: int| 0 <= idx < y as int * orig.w + x as int
                    ==> buf.view().px[idx] == tgt.px[idx],
                forall|idx: int| y as int * orig.w + x as int <= idx < orig.px.len()
                    ==> buf.view().px[idx] == orig.px[idx],
            decreases w - x,
        {
            let ghost cur = y as int * orig.w + x as int;
            proof {
                lemma_index_bounds(orig.w, orig.h, x as int, y as int);
                lemma_fundamental_div_mod_converse(cur, orig.w, y as int, x as int);
                assert(orig.w * orig.h <= crate::buffer::MAX_DIM as int * crate::buffer::MAX_DIM as int)
                    by (nonlinear_arith)
                    requires 0 <= orig.w <= crate::buffer::MAX_DIM as int
                        && 0 <= orig.h <= crate::buffer::MAX_DIM as int;
            }
            let i: usize = y * w + x;
            let reached = marks[i];
            let allowed: bool = match stencil {
                Option::None => true,
                Option::Some(m) => {
                    if x < m.width && y < m.height {
                        let mc = m.get(x, y);
                        (mc.r as u32) + (mc.g as u32) + (mc.b as u32) > 0
                    } else {
                        false
                    }
                },
            };
            if reached && allowed {
                buf.set(x, y, fillc);
            }
            proof {
                assert(allowed == crate::region::stencil_allows(stv, x as int, y as int));
                assert(orig.in_bounds(x as int, y as int));
                assert(marks.view()[y as int * orig.w + x as int] == fill_reach(
                    orig, ux as int, uy as int, x as int, y as int));
                assert(i as int == cur);
                assert(reached == fill_reach(orig, ux as int, uy as int, x as int, y as int));
                assert(buf.view().px[cur] == tgt.px[cur]);
            }
            x = x + 1;
        }
        proof {
            assert(y as int * orig.w + orig.w == (y as int + 1) * orig.w) by (nonlinear_arith);
        }
        y = y + 1;
    }
    proof {
        assert(h as int * orig.w == orig.w * orig.h) by (nonlinear_arith)
            requires h as int == orig.h;
        assert(buf.view().px =~= tgt.px);
        assert(buf.view() =~= tgt);
    }
}

} // verus!
