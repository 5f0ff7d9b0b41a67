//! Color samples and the blending arithmetic shared by all drawing calls.

use vstd::prelude::*;

verus! {

/// One RGBA color sample.
///
/// The canvas keeps every stored pixel fully opaque (`a == 255`); the alpha
/// of a color handed to a drawing call is the strength with which the color
/// is blended into the canvas, derived from the tool's opacity setting.
#[derive(Clone, Copy, PartialEq, Eq, Structural, Debug)]
pub struct Rgba {
    pub r: u8,
    pub g: u8,
    pub b: u8,
    pub a: u8,
}

impl Rgba {
    /// A stored canvas pixel never carries partial alpha.
    pub open spec fn opaque(self) -> bool {
        self.a == 255
    }

    /// True when the red, green and blue channels agree with `other`'s.
    pub open spec fn same_rgb(self, other: Rgba) -> bool {
        self.r == other.r && self.g == other.g && self.b == other.b
    }

    pub fn new(r: u8, g: u8, b: u8, a: u8) -> (c: Rgba)
        ensures
            c == (Rgba { r, g, b, a }),
    {
        Rgba { r, g, b, a }
    }

    /// A fully opaque color.
    pub fn rgb(r: u8, g: u8, b: u8) -> (c: Rgba)
        ensures
            c == (Rgba { r, g, b, a: 255 }),
    {
        Rgba { r, g, b, a: 255 }
    }
}

/// Linear interpolation of one channel: source `s` over destination `d`
/// with effective alpha `ea` out of 255, using floor division.
pub open spec fn mix(d: int, s: int, ea: int) -> int {
    (s * ea + d * (255 - ea)) / 255
}

/// Effective alpha of a color whose own alpha is `a`, under a coverage
/// weight `w` out of 256 (antialiased primitives use partial weights).
pub open spec fn eff_alpha(a: int, w: int) -> int {
    a * w / 256
}

/// Source color `s` blended over destination `d` with coverage weight `w`
/// out of 256. The result is always opaque: the canvas is a display
/// surface, not a compositing layer.
pub open spec fn blend(d: Rgba, s: Rgba, w: int) -> Rgba {
    let ea = eff_alpha(s.a as int, w);
    Rgba {
        r: mix(d.r as int, s.r as int, ea) as u8,
        g: mix(d.g as int, s.g as int, ea) as u8,
        b: mix(d.b as int, s.b as int, ea) as u8,
        a: 255,
    }
}

/// A mixed channel stays within one byte.
pub proof fn lemma_mix_range(d: int, s: int, ea: int)
    requires
        0 <= d <= 255,
        0 <= s <= 255,
        0 <= ea <= 255,
    ensures
        0 <= mix(d, s, ea) <= 255,
{
    assert(0 <= s * ea + d * (255 - ea) <= 255 * 255) by (nonlinear_arith)
        requires 0 <= d <= 255 && 0 <= s <= 255 && 0 <= ea <= 255;
    assert(0 <= (s * ea + d * (255 - ea)) / 255 <= 255);
}

/// Blending an opaque source at full weight replaces the pixel outright.
pub proof fn lemma_blend_full(d: Rgba, s: Rgba)
    requires
        s.opaque(),
    ensures
        blend(d, s, 256) == (Rgba { r: s.r, g: s.g, b: s.b, a: 255 }),
{
    assert(eff_alpha(255, 256) == 255);
    assert forall|c: int| 0 <= c <= 255 implies mix(d.r as int, c, 255) == c
        && mix(d.g as int, c, 255) == c && mix(d.b as int, c, 255) == c by {
        assert(c * 255 / 255 == c) by (nonlinear_arith) requires 0 <= c <= 255;
    }
}

/// Executable counterpart of [`mix`].
pub fn mix_exec(d: u8, s: u8, ea: u32) -> (m: u8)
    requires
        ea <= 255,
    ensures
        m == mix(d as int, s as int, ea as int) as u8,
{
    proof {
        assert(s as int * (ea as int) <= 255 * 255 && d as int * (255 - ea as int) <= 255 * 255)
            by (nonlinear_arith)
            requires s as int <= 255 && d as int <= 255 && 0 <= ea as int <= 255;
    }
    (((s as u32) * ea + (d as u32) * (255 - ea)) / 255) as u8
}

/// Executable counterpart of [`blend`].
pub fn blend_px(d: Rgba, s: Rgba, w: u16) -> (out: Rgba)
    requires
        w <= 256,
    ensures
        out == blend(d, s, w as int),
{
    proof {
        assert(s.a as int * (w as int) <= 255 * 256) by (nonlinear_arith)
            requires s.a as int <= 255 && w as int <= 256;
    }
    let ea: u32 = (s.a as u32) * (w as u32) / 256;
    Rgba {
        r: mix_exec(d.r, s.r, ea),
        g: mix_exec(d.g, s.g, ea),
        b: mix_exec(d.b, s.b, ea),
        a: 255,
    }
}

/// The 8-bit alpha that a percentage opacity stands for:
/// `round(opacity * 2.55)` computed in integers.
pub open spec fn alpha_of_opacity(opacity: int) -> int {
    (opacity * 255 + 50) / 100
}

/// Executable counterpart of [`alpha_of_opacity`].
pub fn opacity_to_alpha(opacity: u8) -> (a: u8)
    requires
        opacity <= 100,
    ensures
        a == alpha_of_opacity(opacity as int),
        opacity == 100 ==> a == 255,
{
    (((opacity as u32) * 255 + 50) / 100) as u8
}

/// The full coverage weight that a source alpha stands for, out of 256:
/// alpha 255 maps to exactly 256 so that an opaque paste is an exact copy.
pub open spec fn weight_of_alpha(a: int) -> int {
    a * 256 / 255
}

/// Executable counterpart of [`weight_of_alpha`].
pub fn alpha_to_weight(a: u8) -> (w: u16)
    ensures
        w == weight_of_alpha(a as int),
        w <= 256,
        a == 255 ==> w == 256,
{
    let w: u32 = (a as u32) * 256 / 255;
    assert(a as int * 256 / 255 <= 256) by (nonlinear_arith);
    w as u16
}

/// Saturating add on one channel, for the brighten transformation.
pub open spec fn sat_add(c: int, v: int) -> int {
    if c + v > 255 { 255 } else { c + v }
}

/// Saturating subtract on one channel, for the darken transformation.
pub open spec fn sat_sub(c: int, v: int) -> int {
    if c - v < 0 { 0 } else { c - v }
}

pub fn sat_add_exec(c: u8, v: u8) -> (out: u8)
    ensures
        out == sat_add(c as int, v as int),
{
    if (c as u32) + (v as u32) > 255 { 255 } else { c + v }
}

pub fn sat_sub_exec(c: u8, v: u8) -> (out: u8)
    ensures
        out == sat_sub(c as int, v as int),
{
    if c < v { 0 } else { c - v }
}

/// Luminance-weighted collapse of a color to one grey level.
pub open spec fn luma(c: Rgba) -> int {
    (c.r as int * 299 + c.g as int * 587 + c.b as int * 114) / 1000
}

/// Executable counterpart of [`luma`].
pub fn luma_exec(c: Rgba) -> (l: u8)
    ensures
        l == luma(c),
        0 <= luma(c) <= 255,
{
    let v: u32 = ((c.r as u32) * 299 + (c.g as u32) * 587 + (c.b as u32) * 114) / 1000;
    assert((c.r as int * 299 + c.g as int * 587 + c.b as int * 114) / 1000 <= 255) by (nonlinear_arith)
        requires c.r as int <= 255 && c.g as int <= 255 && c.b as int <= 255;
    v as u8
}

} // verus!
