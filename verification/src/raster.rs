//! The RGBA raster: the buffer type shared by the source frame, the
//! background canvas and the composited output.

use vstd::prelude::*;
use crate::color::Color;

verus! {

/// A width-by-height buffer of RGBA pixels, stored row-major.
#[derive(Debug, Clone)]
pub struct Raster {
    pub width: u32,
    pub height: u32,
    pub pixels: Vec<Color>,
}

impl Raster {
    /// The buffer holds exactly one pixel per coordinate.
    pub open spec fn wf(self) -> bool {
        self.pixels@.len() == self.width * self.height
    }

    /// The buffer position of pixel `(x, y)`.
    pub open spec fn pos(self, x: int, y: int) -> int {
        y * self.width + x
    }

    /// The pixel at `(x, y)`.
    pub open spec fn pixel(self, x: int, y: int) -> Color {
        self.pixels@[y * self.width + x]
    }

    pub proof fn lemma_pos_in_bounds(self, x: int, y: int)
        requires
            self.wf(),
            0 <= x < self.width,
            0 <= y < self.height,
        ensures
            0 <= y * self.width + x < self.pixels@.len(),
            y * self.width + x <= (self.height - 1) * self.width + self.width - 1,
    {
        assert(y * self.width + x < self.width * self.height && 0 <= y * self.width && y
            * self.width + x <= (self.height - 1) * self.width + self.width - 1)
            by (nonlinear_arith)
            requires
                0 <= x < self.width,
                0 <= y < self.height,
        ;
    }

    /// A fresh raster filled with the fully transparent colour.
    pub fn new(width: u32, height: u32) -> (r: Raster)
        requires
            width * height <= usize::MAX,
        ensures
            r.wf(),
            r.width == width,
            r.height == height,
            forall|k: int|
                0 <= k < r.pixels@.len() ==> r.pixels@[k] == (Color { r: 0, g: 0, b: 0, a: 0 }),
    {
        let count: usize = (width as usize) * (height as usize);
        let mut pixels: Vec<Color> = Vec::new();
        let zero = Color { r: 0, g: 0, b: 0, a: 0 };
        let mut i: usize = 0;
        while i < count
            invariant
                i <= count,
                pixels@.len() == i,
                forall|k: int| 0 <= k < i ==> pixels@[k] == zero,
            decreases count - i,
        {
            pixels.push(zero);
            i = i + 1;
        }
        Raster { width, height, pixels }
    }

    /// Read the pixel at `(x, y)`.
    pub fn get_pixel(&self, x: u32, y: u32) -> (c: Color)
        requires
            self.wf(),
            x < self.width,
            y < self.height,
        ensures
            c == self.pixel(x as int, y as int),
    {
        let n = self.pixels.len();
        proof {
            self.lemma_pos_in_bounds(x as int, y as int);
        }
        let pos: usize = (y as usize) * (self.width as usize) + (x as usize);
        self.pixels[pos]
    }

    /// Overwrite the pixel at `(x, y)`; every other pixel is untouched.
    pub fn put_pixel(&mut self, x: u32, y: u32, c: Color)
        requires
            old(self).wf(),
            x < old(self).width,
            y < old(self).height,
        ensures
            final(self).wf(),
            final(self).width == old(self).width,
            final(self).height == old(self).height,
            final(self).pixels@ == old(self).pixels@.update(
                y * old(self).width + x,
                c,
            ),
    {
        let n = self.pixels.len();
        proof {
            self.lemma_pos_in_bounds(x as int, y as int);
        }
        let pos: usize = (y as usize) * (self.width as usize) + (x as usize);
        self.pixels.set(pos, c);
    }

    /// An independent copy of the raster.
    pub fn duplicate(&self) -> (r: Raster)
        ensures
            r.width == self.width,
            r.height == self.height,
            r.pixels@ == self.pixels@,
            r.wf() == self.wf(),
    {
        let mut pixels: Vec<Color> = Vec::new();
        let count = self.pixels.len();
        let mut i: usize = 0;
        while i < count
            invariant
                i <= count == self.pixels@.len(),
                pixels@ == self.pixels@.take(i as int),
            decreases count - i,
        {
            pixels.push(self.pixels[i]);
            proof {
                assert(self.pixels@.take(i as int).push(self.pixels@[i as int])
                    =~= self.pixels@.take(i + 1));
            }
            i = i + 1;
        }
        proof {
            assert(self.pixels@.take(count as int) =~= self.pixels@);
        }
        Raster { width: self.width, height: self.height, pixels }
    }

    /// Fill the whole raster with one colour.
    pub fn fill(&mut self, c: Color)
        requires
            old(self).wf(),
        ensures
            final(self).wf(),
            final(self).width == old(self).width,
            final(self).height == old(self).height,
            forall|k: int| 0 <= k < final(self).pixels@.len() ==> final(self).pixels@[k] == c,
    {
        let count = self.pixels.len();
        for i in 0..count
            invariant
                count == self.pixels@.len(),
                self.wf(),
                self.width == old(self).width,
                self.height == old(self).height,
                forall|k: int| 0 <= k < i ==> self.pixels@[k] == c,
        {
            self.pixels.set(i, c);
        }
    }
}

/// Distinct coordinates of one raster have distinct row-major positions.
pub proof fn lemma_pos_injective(w: int, x1: int, y1: int, x2: int, y2: int)
    requires
        0 <= x1 < w,
        0 <= x2 < w,
        0 <= y1,
        0 <= y2,
        x1 != x2 || y1 != y2,
    ensures
        y1 * w + x1 != y2 * w + x2,
{
    assert(y1 * w + x1 != y2 * w + x2) by (nonlinear_arith)
        requires
            0 <= x1 < w,
            0 <= x2 < w,
            0 <= y1,
            0 <= y2,
            x1 != x2 || y1 != y2,
    ;
}

} // verus!
