//! Integer geometry: rounded division, square roots, scan-converted lines
//! and the fixed-point trigonometry behind regular polygons.

use vstd::prelude::*;
use vstd::arithmetic::div_mod::lemma_fundamental_div_mod;
use vstd::arithmetic::div_mod::lemma_fundamental_div_mod_converse;

verus! {

/// Division rounded to the nearest integer, halves away from zero.
/// Only ever used with a positive divisor.
pub open spec fn round_div(a: int, b: int) -> int {
    if a >= 0 {
        (2 * a + b) / (2 * b)
    } else {
        -((2 * (-a) + b) / (2 * b))
    }
}

/// For `0 <= a <= b * c`, the rounded quotient lies in `[0, c]`.
pub proof fn lemma_round_div_bounds(a: int, b: int, c: int)
    requires
        b > 0,
        0 <= c,
        0 <= a <= b * c,
    ensures
        0 <= round_div(a, b) <= c,
{
    let q = (2 * a + b) / (2 * b);
    lemma_fundamental_div_mod(2 * a + b, 2 * b);
    let r = (2 * a + b) % (2 * b);
    assert(2 * a + b == 2 * b * q + r);
    assert(0 <= r < 2 * b);
    assert(2 * a + b <= 2 * b * c + b) by (nonlinear_arith)
        requires a <= b * c;
    assert(2 * b * q <= 2 * b * c + b);
    assert(q <= c) by (nonlinear_arith)
        requires b > 0 && 2 * b * q <= 2 * b * c + b;
    assert(2 * b * q + r >= b);
    assert(q >= 0) by (nonlinear_arith)
        requires b > 0 && r < 2 * b && 2 * b * q + r >= b;
}

/// Same bound for a nonpositive product: the quotient lies in `[c, 0]`.
pub proof fn lemma_round_div_bounds_neg(a: int, b: int, c: int)
    requires
        b > 0,
        c <= 0,
        b * c <= a <= 0,
    ensures
        c <= round_div(a, b) <= 0,
{
    if a == 0 {
        lemma_round_div_bounds(0, b, 0);
    } else {
        assert(-a <= b * -c) by (nonlinear_arith)
            requires b * c <= a;
        lemma_round_div_bounds(-a, b, -c);
    }
}

/// Executable counterpart of [`round_div`] on wide integers.
pub fn round_div_i128(a: i128, b: i128) -> (q: i128)
    requires
        0 < b <= 0x1_0000_0000_0000i128,
        -0x1_0000_0000_0000_0000i128 <= a <= 0x1_0000_0000_0000_0000i128,
    ensures
        q == round_div(a as int, b as int),
        -0x1_0000_0000_0000_0000i128 <= q <= 0x1_0000_0000_0000_0000i128,
{
    proof {
        lemma_fundamental_div_mod(2 * (a as int) + b as int, 2 * (b as int));
        lemma_fundamental_div_mod(2 * (-a as int) + b as int, 2 * (b as int));
        if a >= 0 {
            assert(a as int <= b as int * a as int) by (nonlinear_arith)
                requires a as int >= 0 && b as int >= 1;
            lemma_round_div_bounds(a as int, b as int, a as int);
        } else {
            assert(b as int * a as int <= a as int) by (nonlinear_arith)
                requires a as int <= 0 && b as int >= 1;
            lemma_round_div_bounds_neg(a as int, b as int, a as int);
        }
    }
    if a >= 0 {
        (2 * a + b) / (2 * b)
    } else {
        -((2 * (-a) + b) / (2 * b))
    }
}

/// The integer square root: the largest `k` with `k * k <= n`.
pub open spec fn isqrt(n: int) -> int
    decreases n,
{
    if n <= 0 {
        0
    } else {
        let r = isqrt(n - 1);
        if (r + 1) * (r + 1) <= n {
            r + 1
        } else {
            r
        }
    }
}

/// The defining property of [`isqrt`].
pub proof fn lemma_isqrt(n: int)
    requires
        n >= 0,
    ensures
        isqrt(n) >= 0,
        isqrt(n) * isqrt(n) <= n,
        n < (isqrt(n) + 1) * (isqrt(n) + 1),
    decreases n,
{
    if n > 0 {
        lemma_isqrt(n - 1);
        let r = isqrt(n - 1);
        if (r + 1) * (r + 1) <= n {
            assert(n < (r + 2) * (r + 2)) by (nonlinear_arith)
                requires n - 1 < (r + 1) * (r + 1) && r >= 0;
        }
    }
}

/// Any `k` with `k * k <= n < (k + 1) * (k + 1)` is [`isqrt`] of `n`.
pub proof fn lemma_isqrt_unique(n: int, k: int)
    requires
        n >= 0,
        k >= 0,
        k * k <= n,
        n < (k + 1) * (k + 1),
    ensures
        k == isqrt(n),
{
    lemma_isqrt(n);
    let r = isqrt(n);
    if k < r {
        assert((k + 1) * (k + 1) <= r * r) by (nonlinear_arith)
            requires 0 <= k < r;
    }
    if r < k {
        assert((r + 1) * (r + 1) <= k * k) by (nonlinear_arith)
            requires 0 <= r < k;
    }
}

/// Executable integer square root by bisection.
pub fn isqrt_u64(n: u64) -> (r: u64)
    ensures
        r == isqrt(n as int),
        r * r <= n,
{
    let mut lo: u64 = 0;
    let mut hi: u64 = if n >= 0xffff_ffff { 0x1_0000_0000 } else { n + 1 };
    proof {
        if n >= 0xffff_ffff {
            assert(hi as int * hi as int > n as int);
        } else {
            assert((n as int + 1) * (n as int + 1) > n as int) by (nonlinear_arith)
                requires n as int >= 0;
        }
    }
    while hi - lo > 1
        invariant
            lo < hi,
            hi <= 0x1_0000_0000,
            lo as int * lo as int <= n as int,
            hi as int * hi as int > n as int,
        decreases hi - lo,
    {
        let mid: u64 = lo + (hi - lo) / 2;
        proof {
            assert(mid as int * mid as int <= 0xffff_ffff_i64 as int * 0xffff_ffff_i64 as int)
                by (nonlinear_arith)
                requires 0 <= mid as int <= 0xffff_ffff;
        }
        if mid * mid <= n {
            lo = mid;
        } else {
            hi = mid;
        }
    }
    proof {
        lemma_isqrt_unique(n as int, lo as int);
        assert(lo as int * lo as int <= n as int);
    }
    lo
}

/// A quotient is bounded by any multiple that bounds the dividend.
pub proof fn lemma_div_le(a: int, b: int, c: int)
    requires
        b > 0,
        0 <= a,
        a <= b * c,
    ensures
        a / b <= c,
{
    lemma_fundamental_div_mod(a, b);
    assert(a / b <= c) by (nonlinear_arith)
        requires b > 0 && a == b * (a / b) + a % b && 0 <= a % b && a <= b * c;
}

/// A strict multiple bound makes the quotient strictly smaller.
pub proof fn lemma_div_lt(a: int, b: int, c: int)
    requires
        b > 0,
        0 <= a,
        a < b * c,
    ensures
        a / b < c,
{
    lemma_fundamental_div_mod(a, b);
    assert(a / b < c) by (nonlinear_arith)
        requires b > 0 && a == b * (a / b) + a % b && 0 <= a % b && a < b * c;
}

/// `(x0, y0)` comes no later than `(x1, y1)` in left-to-right,
/// top-to-bottom order.
pub open spec fn lex_le(x0: int, y0: int, x1: int, y1: int) -> bool {
    x0 < x1 || (x0 == x1 && y0 <= y1)
}

/// Number of unit steps along the major axis of the segment.
pub open spec fn seg_steps(x0: int, y0: int, x1: int, y1: int) -> int {
    let adx = if x1 >= x0 { x1 - x0 } else { x0 - x1 };
    let ady = if y1 >= y0 { y1 - y0 } else { y0 - y1 };
    if adx >= ady { adx } else { ady }
}

/// The `i`-th pixel of the scan-converted segment, counted from the
/// lexicographically smaller endpoint: one unit step along the major axis,
/// the minor coordinate rounded to nearest. The fixed endpoint order makes
/// the pixel set independent of the order the endpoints were given in.
pub open spec fn line_pt(x0: int, y0: int, x1: int, y1: int, i: int) -> (int, int)
    decreases (if lex_le(x0, y0, x1, y1) { 0int } else { 1int }),
{
    if !lex_le(x0, y0, x1, y1) {
        line_pt(x1, y1, x0, y0, i)
    } else {
        let dx = x1 - x0;
        let dy = y1 - y0;
        let ady = if dy >= 0 { dy } else { -dy };
        if dx == 0 && ady == 0 {
            (x0, y0)
        } else if dx >= ady {
            (x0 + i, y0 + round_div(i * dy, dx))
        } else if dy >= 0 {
            (x0 + round_div(i * dx, ady), y0 + i)
        } else {
            (x0 + round_div(i * dx, ady), y0 - i)
        }
    }
}

/// Membership in the scan-converted segment.
pub open spec fn on_line(x0: int, y0: int, x1: int, y1: int, x: int, y: int) -> bool {
    exists|i: int| 0 <= i <= seg_steps(x0, y0, x1, y1)
        && line_pt(x0, y0, x1, y1, i) == (x, y)
}

/// Swapping the endpoints leaves the pixel set unchanged.
pub proof fn lemma_line_symmetric(x0: int, y0: int, x1: int, y1: int, x: int, y: int)
    ensures
        on_line(x0, y0, x1, y1, x, y) == on_line(x1, y1, x0, y0, x, y),
{
    assert(seg_steps(x0, y0, x1, y1) == seg_steps(x1, y1, x0, y0));
    assert forall|i: int| line_pt(x0, y0, x1, y1, i) == line_pt(x1, y1, x0, y0, i) by {}
    assert(on_line(x0, y0, x1, y1, x, y) ==> on_line(x1, y1, x0, y0, x, y)) by {
        if on_line(x0, y0, x1, y1, x, y) {
            let i = choose|i: int| 0 <= i <= seg_steps(x0, y0, x1, y1)
                && line_pt(x0, y0, x1, y1, i) == (x, y);
            assert(line_pt(x1, y1, x0, y0, i) == (x, y));
        }
    }
    assert(on_line(x1, y1, x0, y0, x, y) ==> on_line(x0, y0, x1, y1, x, y)) by {
        if on_line(x1, y1, x0, y0, x, y) {
            let i = choose|i: int| 0 <= i <= seg_steps(x1, y1, x0, y0)
                && line_pt(x1, y1, x0, y0, i) == (x, y);
            assert(line_pt(x0, y0, x1, y1, i) == (x, y));
        }
    }
}

/// Every pixel of the segment lies in the segment's bounding box.
pub proof fn lemma_line_pt_bounds(x0: int, y0: int, x1: int, y1: int, i: int)
    requires
        0 <= i <= seg_steps(x0, y0, x1, y1),
    ensures
        (if x0 <= x1 { x0 } else { x1 }) <= line_pt(x0, y0, x1, y1, i).0
            <= (if x0 <= x1 { x1 } else { x0 }),
        (if y0 <= y1 { y0 } else { y1 }) <= line_pt(x0, y0, x1, y1, i).1
            <= (if y0 <= y1 { y1 } else { y0 }),
{
    if !lex_le(x0, y0, x1, y1) {
        lemma_line_pt_bounds_c(x1, y1, x0, y0, i);
    } else {
        lemma_line_pt_bounds_c(x0, y0, x1, y1, i);
    }
}

proof fn lemma_line_pt_bounds_c(x0: int, y0: int, x1: int, y1: int, i: int)
    requires
        lex_le(x0, y0, x1, y1),
        0 <= i <= seg_steps(x0, y0, x1, y1),
    ensures
        x0 <= line_pt(x0, y0, x1, y1, i).0 <= x1,
        (if y0 <= y1 { y0 } else { y1 }) <= line_pt(x0, y0, x1, y1, i).1
            <= (if y0 <= y1 { y1 } else { y0 }),
{
    let dx = x1 - x0;
    let dy = y1 - y0;
    let ady = if dy >= 0 { dy } else { -dy };
    if dx == 0 && ady == 0 {
    } else if dx >= ady {
        if dy >= 0 {
            assert(i * dy <= dx * dy) by (nonlinear_arith)
                requires 0 <= i <= dx && dy >= 0;
            assert(i * dy >= 0) by (nonlinear_arith) requires i >= 0 && dy >= 0;
            lemma_round_div_bounds(i * dy, dx, dy);
        } else {
            assert(dx * dy <= i * dy) by (nonlinear_arith)
                requires 0 <= i <= dx && dy < 0;
            assert(i * dy <= 0) by (nonlinear_arith) requires i >= 0 && dy < 0;
            lemma_round_div_bounds_neg(i * dy, dx, dy);
        }
    } else {
        assert(i * dx <= ady * dx) by (nonlinear_arith)
            requires 0 <= i <= ady && dx >= 0;
        assert(i * dx >= 0) by (nonlinear_arith) requires i >= 0 && dx >= 0;
        lemma_round_div_bounds(i * dx, ady, dx);
    }
}

/// Sine in Q14 fixed point for an angle in millidegrees within
/// `[0, 180000]`, by Bhaskara's rational approximation.
pub open spec fn sin_half_q14(m: int) -> int {
    let t = m * (180000 - m);
    4 * t * 16384 / (40500000000 - t)
}

/// Sine in Q14 fixed point for any nonnegative angle in millidegrees.
pub open spec fn sin_mdeg_q14(m: int) -> int {
    let mm = m % 360000;
    if mm < 180000 {
        sin_half_q14(mm)
    } else {
        -sin_half_q14(mm - 180000)
    }
}

/// Cosine in Q14 fixed point: the sine a quarter turn later.
pub open spec fn cos_mdeg_q14(m: int) -> int {
    sin_mdeg_q14(m + 90000)
}

/// The half-turn product stays within its arc.
proof fn lemma_sin_half_range(m: int)
    requires
        0 <= m <= 180000,
    ensures
        0 <= m * (180000 - m) <= 8100000000,
        0 <= sin_half_q14(m) <= 16384,
{
    assert(0 <= m * (180000 - m) && m * (180000 - m) <= 8100000000) by (nonlinear_arith)
        requires 0 <= m <= 180000;
    let t = m * (180000 - m);
    assert(4 * t * 16384 >= 0) by (nonlinear_arith) requires t >= 0;
    lemma_div_le(4 * t * 16384, 40500000000 - t, 16384);
    assert(4 * t * 16384 <= (40500000000 - t) * 16384) by (nonlinear_arith)
        requires 0 <= t <= 8100000000;
    lemma_div_le(4 * t * 16384, 40500000000 - t, 16384);
}

/// Executable sine for a nonnegative angle in millidegrees.
pub fn sin_mdeg_q14_exec(m: i64) -> (s: i64)
    requires
        0 <= m,
        m <= 0x1000_0000,
    ensures
        s == sin_mdeg_q14(m as int),
        -16384 <= s <= 16384,
{
    let mm: i64 = m % 360000;
    let half: i64 = if mm < 180000 { mm } else { mm - 180000 };
    proof {
        lemma_sin_half_range(half as int);
    }
    let t: i64 = half * (180000 - half);
    let num: i64 = 4 * t * 16384;
    let den: i64 = 40500000000 - t;
    let v: i64 = num / den;
    proof {
        assert(num as int / den as int == v as int);
    }
    if mm < 180000 { v } else { -v }
}

/// Executable cosine for a nonnegative angle in millidegrees.
pub fn cos_mdeg_q14_exec(m: i64) -> (s: i64)
    requires
        0 <= m,
        m <= 0x1000_0000 - 90000,
    ensures
        s == cos_mdeg_q14(m as int),
        -16384 <= s <= 16384,
{
    sin_mdeg_q14_exec(m + 90000)
}

/// First-octant arctangent in millidegrees: a quadratic fit that is exact
/// at both ends of the octant.
pub open spec fn atan_oct_mdeg(ax: int, ay: int) -> int {
    let z = ay * 1024 / ax;
    z * (46080000 + 16000 * (1024 - z)) / 1048576
}

/// Angle of the vector `(dx, dy)` in millidegrees, in `[0, 360000)`,
/// measured from the positive x axis toward positive y; the zero vector
/// maps to zero.
pub open spec fn atan2_mdeg(dy: int, dx: int) -> int {
    if dx == 0 && dy == 0 {
        0
    } else {
        let ax = if dx >= 0 { dx } else { -dx };
        let ay = if dy >= 0 { dy } else { -dy };
        let base = if ay <= ax { atan_oct_mdeg(ax, ay) } else { 90000 - atan_oct_mdeg(ay, ax) };
        if dx >= 0 && dy >= 0 {
            base
        } else if dx < 0 && dy >= 0 {
            180000 - base
        } else if dx < 0 {
            180000 + base
        } else {
            if base == 0 { 0 } else { 360000 - base }
        }
    }
}

/// The octant fit stays within its octant.
proof fn lemma_atan_oct_range(ax: int, ay: int)
    requires
        1 <= ax,
        0 <= ay <= ax,
    ensures
        0 <= ay * 1024 / ax <= 1024,
        0 <= atan_oct_mdeg(ax, ay) <= 45000,
{
    assert(0 <= ay * 1024 && ay * 1024 <= ax * 1024) by (nonlinear_arith)
        requires 0 <= ay <= ax;
    lemma_round_div_bounds(0, 1, 0);
    lemma_div_le(ay * 1024, ax, 1024);
    assert(ay * 1024 / ax >= 0) by (nonlinear_arith)
        requires ax >= 1 && ay * 1024 >= 0;
    let z = ay * 1024 / ax;
    assert(0 <= z * (46080000 + 16000 * (1024 - z))
        && z * (46080000 + 16000 * (1024 - z)) <= 45000 * 1048576) by (nonlinear_arith)
        requires 0 <= z <= 1024;
    lemma_div_le(z * (46080000 + 16000 * (1024 - z)), 1048576, 45000);
    assert(z * (46080000 + 16000 * (1024 - z)) / 1048576 >= 0);
}

/// Executable counterpart of [`atan2_mdeg`].
pub fn atan2_mdeg_exec(dy: i64, dx: i64) -> (a: i64)
    requires
        -0x1_0000_0000i64 <= dy <= 0x1_0000_0000i64,
        -0x1_0000_0000i64 <= dx <= 0x1_0000_0000i64,
    ensures
        a == atan2_mdeg(dy as int, dx as int),
        0 <= a < 360000,
{
    if dx == 0 && dy == 0 {
        return 0;
    }
    let ax: i64 = if dx >= 0 { dx } else { -dx };
    let ay: i64 = if dy >= 0 { dy } else { -dy };
    let base: i64 = if ay <= ax {
        atan_oct_exec(ax, ay)
    } else {
        90000 - atan_oct_exec(ay, ax)
    };
    if dx >= 0 && dy >= 0 {
        base
    } else if dx < 0 && dy >= 0 {
        180000 - base
    } else if dx < 0 {
        180000 + base
    } else {
        if base == 0 { 0 } else { 360000 - base }
    }
}

fn atan_oct_exec(ax: i64, ay: i64) -> (a: i64)
    requires
        1 <= ax <= 0x1_0000_0000i64,
        0 <= ay <= ax,
    ensures
        a == atan_oct_mdeg(ax as int, ay as int),
        0 <= a <= 45000,
{
    proof {
        lemma_atan_oct_range(ax as int, ay as int);
        assert(ay as int * 1024 <= 0x1_0000_0000_i64 as int * 1024) by (nonlinear_arith)
            requires ay as int <= 0x1_0000_0000;
        assert(ay as int * 1024 >= 0) by (nonlinear_arith) requires ay as int >= 0;
    }
    let z: i64 = ay * 1024 / ax;
    proof {
        assert(0 <= z as int * (46080000 + 16000 * (1024 - z as int))
            && z as int * (46080000 + 16000 * (1024 - z as int)) <= 45000 * 1048576)
            by (nonlinear_arith)
            requires 0 <= z as int <= 1024;
    }
    z * (46080000 + 16000 * (1024 - z)) / 1048576
}

/// Squared Euclidean distance between two grid points.
pub open spec fn dist2(ax: int, ay: int, bx: int, by: int) -> int {
    (ax - bx) * (ax - bx) + (ay - by) * (ay - by)
}

/// Executable counterpart of [`dist2`] for coordinates of pixel size.
pub fn dist2_exec(ax: i64, ay: i64, bx: i64, by: i64) -> (d: i128)
    requires
        -0x1_0000_0000i64 <= ax <= 0x1_0000_0000i64,
        -0x1_0000_0000i64 <= ay <= 0x1_0000_0000i64,
        -0x1_0000_0000i64 <= bx <= 0x1_0000_0000i64,
        -0x1_0000_0000i64 <= by <= 0x1_0000_0000i64,
    ensures
        d == dist2(ax as int, ay as int, bx as int, by as int),
{
    let ddx: i128 = ax as i128 - bx as i128;
    let ddy: i128 = ay as i128 - by as i128;
    proof {
        assert(ddx as int * ddx as int <= 0x4_0000_0000_0000_0000 && ddx as int * ddx as int >= 0)
            by (nonlinear_arith)
            requires -0x2_0000_0000 <= ddx as int <= 0x2_0000_0000;
        assert(ddy as int * ddy as int <= 0x4_0000_0000_0000_0000 && ddy as int * ddy as int >= 0)
            by (nonlinear_arith)
            requires -0x2_0000_0000 <= ddy as int <= 0x2_0000_0000;
    }
    ddx * ddx + ddy * ddy
}

/// Executable counterpart of [`line_pt`].
pub fn line_pt_exec(x0: i32, y0: i32, x1: i32, y1: i32, i: i64) -> (p: (i64, i64))
    requires
        0 <= i <= seg_steps(x0 as int, y0 as int, x1 as int, y1 as int),
    ensures
        (p.0 as int, p.1 as int) == line_pt(x0 as int, y0 as int, x1 as int, y1 as int, i as int),
        -0x1_0000_0000i64 <= p.0 <= 0x1_0000_0000i64,
        -0x1_0000_0000i64 <= p.1 <= 0x1_0000_0000i64,
{
    proof {
        lemma_line_pt_bounds(x0 as int, y0 as int, x1 as int, y1 as int, i as int);
    }
    let swap = !(x0 < x1 || (x0 == x1 && y0 <= y1));
    let (ax, ay, bx, by): (i32, i32, i32, i32) = if swap { (x1, y1, x0, y0) } else { (x0, y0, x1, y1) };
    proof {
        if swap {
            assert(line_pt(x0 as int, y0 as int, x1 as int, y1 as int, i as int)
                == line_pt(x1 as int, y1 as int, x0 as int, y0 as int, i as int));
        }
        assert(seg_steps(x0 as int, y0 as int, x1 as int, y1 as int)
            == seg_steps(ax as int, ay as int, bx as int, by as int));
    }
    let dx: i64 = bx as i64 - ax as i64;
    let dy: i64 = by as i64 - ay as i64;
    let ady: i64 = if dy >= 0 { dy } else { -dy };
    if dx == 0 && ady == 0 {
        (ax as i64, ay as i64)
    } else if dx >= ady {
        proof {
            assert(-0x1_0000_0000_0000_0000 <= i as int * dy as int <= 0x1_0000_0000_0000_0000)
                by (nonlinear_arith)
                requires 0 <= i as int <= 0x1_0000_0000 && -0x1_0000_0000 <= dy as int <= 0x1_0000_0000;
            if dy >= 0 {
                assert(i as int * dy as int <= dx as int * dy as int) by (nonlinear_arith)
                    requires 0 <= i as int <= dx as int && dy as int >= 0;
                assert(i as int * dy as int >= 0) by (nonlinear_arith)
                    requires i as int >= 0 && dy as int >= 0;
                lemma_round_div_bounds(i as int * dy as int, dx as int, dy as int);
            } else {
                assert(dx as int * dy as int <= i as int * dy as int) by (nonlinear_arith)
                    requires 0 <= i as int <= dx as int && (dy as int) < 0;
                assert(i as int * dy as int <= 0) by (nonlinear_arith)
                    requires i as int >= 0 && (dy as int) < 0;
                lemma_round_div_bounds_neg(i as int * dy as int, dx as int, dy as int);
            }
        }
        let m = round_div_i128((i as i128) * (dy as i128), dx as i128);
        (ax as i64 + i, ay as i64 + m as i64)
    } else {
        proof {
            assert(0 <= i as int * dx as int <= 0x1_0000_0000_0000_0000) by (nonlinear_arith)
                requires 0 <= i as int <= 0x1_0000_0000 && 0 <= dx as int <= 0x1_0000_0000;
            assert(i as int * dx as int <= ady as int * dx as int) by (nonlinear_arith)
                requires 0 <= i as int <= ady as int && dx as int >= 0;
            lemma_round_div_bounds(i as int * dx as int, ady as int, dx as int);
        }
        let m = round_div_i128((i as i128) * (dx as i128), ady as i128);
        if dy >= 0 {
            (ax as i64 + m as i64, ay as i64 + i)
        } else {
            (ax as i64 + m as i64, ay as i64 - i)
        }
    }
}

} // verus!
