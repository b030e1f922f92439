//! The pixel buffer: a dense grid of 8-bit intensity values with
//! bounds-checked, coverage-weighted blending as its sole mutation path.

use crate::fixed::ONE;
use crate::xy::dims_ok;
use vstd::prelude::*;

verus! {

/// How a new color is combined with what a pixel already holds.
#[derive(Clone, Copy, Debug, PartialEq, Eq, Structural)]
pub enum BlendMode {
    /// The new color overwrites the pixel wherever any coverage lands.
    Replace,
    /// The pixel moves toward the new color in proportion to the coverage.
    Interpolate,
}

/// The blended value of a pixel: `newc` against `oldc` at coverage `cov`,
/// a fixed-point weight in `[0, ONE]`.
pub open spec fn spec_blend(mode: BlendMode, newc: u8, oldc: u8, cov: int) -> u8 {
    match mode {
        BlendMode::Replace => newc,
        BlendMode::Interpolate => ((newc * cov + oldc * (ONE - cov)) / (ONE as int)) as u8,
    }
}

/// Linear interpolation between the existing and the new color by coverage.
pub fn blend(mode: BlendMode, newc: u8, oldc: u8, cov: i64) -> (r: u8)
    requires
        0 <= cov <= ONE,
    ensures
        r == spec_blend(mode, newc, oldc, cov as int),
{
    match mode {
        BlendMode::Replace => newc,
        BlendMode::Interpolate => {
            proof {
                assert((newc as int) * (cov as int) <= 255 * (cov as int)
                    && 0 <= (newc as int) * (cov as int)
                    && (oldc as int) * (ONE - cov as int) <= 255 * (ONE - cov as int)
                    && 0 <= (oldc as int) * (ONE - cov as int)) by (nonlinear_arith)
                    requires 0 <= newc <= 255, 0 <= oldc <= 255, 0 <= cov <= ONE;
            }
            let v = ((newc as i64) * cov + (oldc as i64) * (ONE - cov)) / ONE;
            v as u8
        },
    }
}

/// A dense `width` by `height` grid of 8-bit intensity pixels, row-major.
pub struct Canvas {
    pub width: u32,
    pub height: u32,
    pub pixels: Vec<u8>,
}

impl View for Canvas {
    type V = Seq<u8>;

    open spec fn view(&self) -> Seq<u8> {
        self.pixels@
    }
}

/// The canvas after one antialiased write: pixel `(x, y)` blended with
/// `color` at coverage `cov`; writes that fall outside the canvas or carry
/// no coverage leave it unchanged.
pub open spec fn spec_plot(
    c: Seq<u8>,
    w: u32,
    h: u32,
    mode: BlendMode,
    x: int,
    y: int,
    color: u8,
    cov: int,
) -> Seq<u8> {
    if 0 <= x < w && 0 <= y < h && 0 < cov {
        c.update(y * w + x, spec_blend(mode, color, c[y * w + x], cov))
    } else {
        c
    }
}

impl Canvas {
    /// The geometry and the storage agree.
    pub open spec fn wf(&self) -> bool {
        dims_ok(self.width, self.height) && self.pixels@.len() == self.width * self.height
    }

    /// A fresh canvas of the given dimensions, every pixel at `fill`.
    pub fn new(width: u32, height: u32, fill: u8) -> (c: Canvas)
        requires
            dims_ok(width, height),
        ensures
            c.wf(),
            c.width == width,
            c.height == height,
            forall|i: int| 0 <= i < c@.len() ==> c@[i] == fill,
    {
        proof {
            assert((width as int) * (height as int) <= 0x100_0000) by (nonlinear_arith)
                requires width <= 4096, height <= 4096;
        }
        let n = (width as usize) * (height as usize);
        let mut pixels: Vec<u8> = Vec::new();
        let mut i: usize = 0;
        while i < n
            invariant
                i <= n,
                n == width * height,
                pixels@.len() == i,
                forall|j: int| 0 <= j < i ==> pixels@[j] == fill,
            decreases n - i,
        {
            pixels.push(fill);
            i += 1;
        }
        Canvas { width, height, pixels }
    }

    /// The intensity at pixel `(x, y)`.
    pub fn get(&self, x: u32, y: u32) -> (p: u8)
        requires
            self.wf(),
            x < self.width,
            y < self.height,
        ensures
            p == self@[y * self.width + x],
    {
        proof {
            assert((y as int) * (self.width as int) + x < (self.width as int) * (self.height as int)
                && (self.width as int) * (self.height as int) <= 0x100_0000) by (nonlinear_arith)
                requires
                    0 <= x < self.width,
                    0 <= y < self.height,
                    self.width <= 4096,
                    self.height <= 4096;
        }
        let idx = (y as usize) * (self.width as usize) + (x as usize);
        self.pixels[idx]
    }

    /// Blend `color` into pixel `(x, y)` at coverage `cov`; writes outside
    /// the canvas bounds, and writes with zero coverage, are discarded.
    pub fn plot(&mut self, mode: BlendMode, x: i64, y: i64, color: u8, cov: i64)
        requires
            old(self).wf(),
            0 <= cov <= ONE,
        ensures
            final(self).wf(),
            final(self).width == old(self).width,
            final(self).height == old(self).height,
            final(self)@ == spec_plot(
                old(self)@,
                old(self).width,
                old(self).height,
                mode,
                x as int,
                y as int,
                color,
                cov as int,
            ),
    {
        if 0 <= x && x < self.width as i64 && 0 <= y && y < self.height as i64 && 0 < cov {
            proof {
                assert((y as int) * (self.width as int) + x
                    < (self.width as int) * (self.height as int)
                    && (self.width as int) * (self.height as int) <= 0x100_0000)
                    by (nonlinear_arith)
                    requires
                        0 <= x < self.width,
                        0 <= y < self.height,
                        self.width <= 4096,
                        self.height <= 4096;
            }
            let idx = (y as usize) * (self.width as usize) + (x as usize);
            let oldc = self.pixels[idx];
            let b = blend(mode, color, oldc, cov);
            self.pixels[idx] = b;
        }
    }
}

} // verus!
