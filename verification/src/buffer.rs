//! The rectangular pixel buffer that every other component operates on.

use vstd::prelude::*;
use vstd::arithmetic::div_mod::lemma_fundamental_div_mod_converse;
use crate::color::Rgba;

verus! {

/// Widest side a buffer may have. The cap keeps every index product
/// (`y * width + x`) and every coordinate difference comfortably inside
/// the machine integer types used by the rasterizers.
pub const MAX_DIM: usize = 16384;

/// Mathematical model of a pixel buffer: dimensions and the row-major
/// sequence of samples.
#[verifier::ext_equal]
pub ghost struct BufView {
    pub w: int,
    pub h: int,
    pub px: Seq<Rgba>,
}

impl BufView {
    /// The samples fill the rectangle exactly and are all opaque.
    pub open spec fn wf(self) -> bool {
        &&& 0 <= self.w <= MAX_DIM as int
        &&& 0 <= self.h <= MAX_DIM as int
        &&& self.px.len() == self.w * self.h
        &&& forall|i: int| 0 <= i < self.px.len() ==> #[trigger] self.px[i].opaque()
    }

    pub open spec fn in_bounds(self, x: int, y: int) -> bool {
        0 <= x < self.w && 0 <= y < self.h
    }

    /// The sample at column `x`, row `y`.
    pub open spec fn at(self, x: int, y: int) -> Rgba {
        self.px[y * self.w + x]
    }

    /// The buffer with the sample at `(x, y)` replaced; out-of-bounds
    /// coordinates leave it unchanged.
    pub open spec fn put(self, x: int, y: int, c: Rgba) -> BufView {
        if self.in_bounds(x, y) {
            BufView { px: self.px.update(y * self.w + x, c), ..self }
        } else {
            self
        }
    }

    /// A solid rectangle of one opaque color.
    pub open spec fn solid(w: int, h: int, c: Rgba) -> BufView {
        BufView { w, h, px: Seq::new((w * h) as nat, |i: int| Rgba { r: c.r, g: c.g, b: c.b, a: 255 }) }
    }
}

/// A row-major index stays inside the rectangle.
pub proof fn lemma_index_bounds(w: int, h: int, x: int, y: int)
    by (nonlinear_arith)
    requires
        0 <= x < w,
        0 <= y < h,
    ensures
        0 <= y * w + x < w * h,
{
}

/// Distinct coordinates give distinct row-major indices.
pub proof fn lemma_index_inj(w: int, x1: int, y1: int, x2: int, y2: int)
    by (nonlinear_arith)
    requires
        0 <= x1 < w,
        0 <= x2 < w,
        0 <= y1,
        0 <= y2,
        y1 * w + x1 == y2 * w + x2,
    ensures
        x1 == x2,
        y1 == y2,
{
}

/// The in-memory pixel grid: `width * height` RGBA samples, row-major.
pub struct PixelBuffer {
    pub width: usize,
    pub height: usize,
    pub data: Vec<Rgba>,
}

impl View for PixelBuffer {
    type V = BufView;

    open spec fn view(&self) -> BufView {
        BufView { w: self.width as int, h: self.height as int, px: self.data.view() }
    }
}

impl PixelBuffer {
    pub open spec fn wf(self) -> bool {
        self.view().wf()
    }

    /// A blank buffer filled with one color (stored opaque).
    pub fn from_color(width: usize, height: usize, c: Rgba) -> (b: PixelBuffer)
        requires
            width <= MAX_DIM,
            height <= MAX_DIM,
        ensures
            b.wf(),
            b.view() == BufView::solid(width as int, height as int, c),
    {
        proof {
            assert(width as int * height as int <= MAX_DIM as int * MAX_DIM as int)
                by (nonlinear_arith)
                requires width as int <= MAX_DIM as int && height as int <= MAX_DIM as int;
        }
        let n: usize = width * height;
        let fill = Rgba { r: c.r, g: c.g, b: c.b, a: 255 };
        let mut data: Vec<Rgba> = Vec::new();
        let mut i: usize = 0;
        while i < n
            invariant
                i <= n,
                data.view() =~= Seq::new(i as nat, |j: int| fill),
            decreases n - i,
        {
            data.push(fill);
            i = i + 1;
        }
        proof {
            assert(data.view() =~= BufView::solid(width as int, height as int, c).px);
        }
        PixelBuffer { width, height, data }
    }

    /// Row-major index of an in-bounds coordinate.
    pub fn index_of(&self, x: usize, y: usize) -> (i: usize)
        requires
            self.wf(),
            x < self.width,
            y < self.height,
        ensures
            i == y * self.view().w + x,
            i < self.data.view().len(),
    {
        proof {
            lemma_index_bounds(self.view().w, self.view().h, x as int, y as int);
            assert(self.view().w * self.view().h <= MAX_DIM as int * MAX_DIM as int)
                by (nonlinear_arith)
                requires 0 <= self.view().w <= MAX_DIM as int && 0 <= self.view().h <= MAX_DIM as int;
        }
        y * self.width + x
    }

    /// The sample at an in-bounds coordinate.
    pub fn get(&self, x: usize, y: usize) -> (c: Rgba)
        requires
            self.wf(),
            x < self.width,
            y < self.height,
        ensures
            c == self.view().at(x as int, y as int),
    {
        let i = self.index_of(x, y);
        self.data[i]
    }

    /// Overwrite the sample at an in-bounds coordinate with an opaque color.
    pub fn set(&mut self, x: usize, y: usize, c: Rgba)
        requires
            old(self).wf(),
            x < old(self).width,
            y < old(self).height,
            c.opaque(),
        ensures
            final(self).wf(),
            final(self).view() == old(self).view().put(x as int, y as int, c),
    {
        let i = self.index_of(x, y);
        self.data[i] = c;
        proof {
            assert(self.view() =~= old(self).view().put(x as int, y as int, c));
        }
    }

    /// The `w` by `h` sub-image whose top-left corner is `(x, y)`.
    pub fn crop(&self, x: usize, y: usize, w: usize, h: usize) -> (out: PixelBuffer)
        requires
            self.wf(),
            x + w <= self.view().w,
            y + h <= self.view().h,
        ensures
            out.wf(),
            out.view().w == w,
            out.view().h == h,
            forall|i: int, j: int| 0 <= i < w && 0 <= j < h
                ==> out.view().at(i, j) == self.view().at(x + i, y + j),
    {
        let ghost src = self.view();
        let mut data: Vec<Rgba> = Vec::new();
        let mut j: usize = 0;
        while j < h
            invariant
                self.wf(),
                src == self.view(),
                x + w <= src.w,
                y + h <= src.h,
                j <= h,
                data.view().len() == j as int * w as int,
                forall|idx: int| 0 <= idx < data.view().len()
                    ==> data.view()[idx] == src.at(x as int + idx % w as int,
                        y as int + idx / w as int),
            decreases h - j,
        {
            let mut i: usize = 0;
            while i < w
                invariant
                    self.wf(),
                    src == self.view(),
                    x + w <= src.w,
                    y + h <= src.h,
                    j < h,
                    i <= w,
                    data.view().len() == j as int * w as int + i as int,
                    forall|idx: int| 0 <= idx < data.view().len()
                        ==> data.view()[idx] == src.at(x as int + idx % w as int,
                            y as int + idx / w as int),
                decreases w - i,
            {
                proof {
                    lemma_fundamental_div_mod_converse(
                        j as int * w as int + i as int, w as int, j as int, i as int);
                }
                let c = self.get(x + i, y + j);
                data.push(c);
                i = i + 1;
            }
            proof {
                assert(j as int * w as int + w as int == (j as int + 1) * w as int)
                    by (nonlinear_arith);
            }
            j = j + 1;
        }
        let out = PixelBuffer { width: w, height: h, data };
        proof {
            assert(h as int * w as int == w as int * h as int) by (nonlinear_arith);
            assert forall|i: int| 0 <= i < out.view().px.len()
                implies (#[trigger] out.view().px[i]).opaque() by {
                crate::geom::lemma_div_lt(i, w as int, h as int);
                lemma_index_bounds(src.w, src.h, x as int + i % w as int, y as int + i / w as int);
            }
            assert forall|i: int, j2: int| 0 <= i < w && 0 <= j2 < h
                implies out.view().at(i, j2) == src.at(x + i, y + j2) by {
                lemma_index_bounds(w as int, h as int, i, j2);
                lemma_fundamental_div_mod_converse(j2 * w as int + i, w as int, j2, i);
            }
        }
        out
    }

    /// An independent copy, byte for byte.
    pub fn duplicate(&self) -> (b: PixelBuffer)
        requires
            self.wf(),
        ensures
            b.wf(),
            b.view() == self.view(),
    {
        let mut data: Vec<Rgba> = Vec::new();
        let mut i: usize = 0;
        let n: usize = self.data.len();
        while i < n
            invariant
                i <= n,
                n == self.data.view().len(),
                data.view() =~= self.data.view().take(i as int),
            decreases n - i,
        {
            data.push(self.data[i]);
            i = i + 1;
        }
        proof {
            assert(data.view() =~= self.data.view());
        }
        PixelBuffer { width: self.width, height: self.height, data }
    }
}

} // verus!
