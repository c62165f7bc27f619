//! Owned width x height buffers of straight (non-premultiplied) RGBA pixels,
//! row-major with the origin at the top left: the common currency of every
//! transform in this library.

use vstd::prelude::*;

verus! {

/// One 8-bit RGBA pixel.
#[derive(Clone, Copy, PartialEq, Eq, Structural, Debug)]
pub struct Pixel {
    pub r: u8,
    pub g: u8,
    pub b: u8,
    pub a: u8,
}

impl Pixel {
    pub open spec fn zero_spec() -> Pixel {
        Pixel { r: 0, g: 0, b: 0, a: 0 }
    }

    /// The fully transparent black pixel, the content of every fresh canvas.
    pub fn zero() -> (r: Pixel)
        ensures
            r == Pixel::zero_spec(),
    {
        Pixel { r: 0, g: 0, b: 0, a: 0 }
    }
}

/// An owned image: `pixels[y * width + x]` is the pixel of column `x`, row `y`.
pub struct PixelBuffer {
    pub width: u32,
    pub height: u32,
    pub pixels: Vec<Pixel>,
}

impl View for PixelBuffer {
    type V = Seq<Pixel>;

    open spec fn view(&self) -> Seq<Pixel> {
        self.pixels@
    }
}

impl PixelBuffer {
    /// The buffer invariant: exactly one pixel per grid cell.
    pub open spec fn wf(self) -> bool {
        self.pixels@.len() == self.width * self.height
    }

    /// The pixel of column `x`, row `y`.
    pub open spec fn pix(self, x: int, y: int) -> Pixel {
        self.pixels@[y * self.width + x]
    }

    pub open spec fn in_bounds(self, x: int, y: int) -> bool {
        0 <= x < self.width && 0 <= y < self.height
    }

    /// A fresh canvas of the given size, fully transparent black.
    pub fn new(width: u32, height: u32) -> (r: PixelBuffer)
        requires
            width * height <= usize::MAX,
        ensures
            r.wf(),
            r.width == width,
            r.height == height,
            forall|x: int, y: int| r.in_bounds(x, y) ==> r.pix(x, y) == Pixel::zero_spec(),
    {
        let n: usize = (width as usize) * (height as usize);
        let mut pixels: Vec<Pixel> = Vec::new();
        let mut i: usize = 0;
        while i < n
            invariant
                i <= n,
                pixels@.len() == i,
                forall|j: int| 0 <= j < i ==> pixels@[j] == Pixel::zero_spec(),
            decreases n - i,
        {
            pixels.push(Pixel::zero());
            i = i + 1;
        }
        let r = PixelBuffer { width, height, pixels };
        proof {
            assert forall|x: int, y: int| r.in_bounds(x, y) implies r.pix(x, y)
                == Pixel::zero_spec() by {
                lemma_grid_index(width as int, height as int, x, y);
            }
        }
        r
    }

    /// An owned copy of the buffer with the same dimensions and pixels.
    pub fn duplicate(&self) -> (r: PixelBuffer)
        ensures
            r.width == self.width,
            r.height == self.height,
            r@ == self@,
            r.wf() == self.wf(),
    {
        let n: usize = self.pixels.len();
        let mut pixels: Vec<Pixel> = Vec::new();
        let mut i: usize = 0;
        while i < n
            invariant
                self.pixels@.len() == n,
                i <= n,
                pixels@.len() == i,
                forall|j: int| 0 <= j < i ==> pixels@[j] == self.pixels@[j],
            decreases n - i,
        {
            pixels.push(self.pixels[i]);
            i = i + 1;
        }
        proof {
            assert(pixels@ =~= self.pixels@);
        }
        PixelBuffer { width: self.width, height: self.height, pixels }
    }

    /// An owned copy of the `w2` x `h2` region whose top-left corner is at
    /// `(x0, y0)`.
    pub fn sub_region(&self, x0: u32, y0: u32, w2: u32, h2: u32) -> (r: PixelBuffer)
        requires
            self.wf(),
            x0 + w2 <= self.width,
            y0 + h2 <= self.height,
        ensures
            r.wf(),
            r.width == w2,
            r.height == h2,
            forall|x: int, y: int|
                0 <= x < w2 && 0 <= y < h2 ==> #[trigger] r.pix(x, y) == self.pix(x0 + x, y0 + y),
    {
        proof {
            vstd::std_specs::vec::axiom_spec_len(&self.pixels);
            assert((w2 as int) * (h2 as int) <= (self.width as int) * (self.height as int))
                by (nonlinear_arith)
                requires
                    w2 <= self.width,
                    h2 <= self.height,
            ;
        }
        let mut r = PixelBuffer::new(w2, h2);
        let mut y: u32 = 0;
        while y < h2
            invariant
                self.wf(),
                x0 + w2 <= self.width,
                y0 + h2 <= self.height,
                r.wf(),
                r.width == w2,
                r.height == h2,
                y <= h2,
                forall|x2: int, y2: int|
                    #![trigger r.pix(x2, y2)]
                    0 <= x2 < w2 && 0 <= y2 < y ==> r.pix(x2, y2) == self.pix(x0 + x2, y0 + y2),
            decreases h2 - y,
        {
            let mut x: u32 = 0;
            while x < w2
                invariant
                    self.wf(),
                    x0 + w2 <= self.width,
                    y0 + h2 <= self.height,
                    r.wf(),
                    r.width == w2,
                    r.height == h2,
                    y < h2,
                    x <= w2,
                    forall|x2: int, y2: int|
                        #![trigger r.pix(x2, y2)]
                        0 <= x2 < w2 && 0 <= y2 < y ==> r.pix(x2, y2) == self.pix(x0 + x2, y0 + y2),
                    forall|x2: int|
                        #![trigger r.pix(x2, y as int)]
                        0 <= x2 < x ==> r.pix(x2, y as int) == self.pix(x0 + x2, y0 + y as int),
                decreases w2 - x,
            {
                let p = self.get(x0 + x, y0 + y);
                r.set(x, y, p);
                x = x + 1;
            }
            y = y + 1;
        }
        r
    }

    /// Read the pixel of column `x`, row `y`.
    pub fn get(&self, x: u32, y: u32) -> (r: Pixel)
        requires
            self.wf(),
            self.in_bounds(x as int, y as int),
        ensures
            r == self.pix(x as int, y as int),
    {
        proof {
            vstd::std_specs::vec::axiom_spec_len(&self.pixels);
            lemma_grid_index(self.width as int, self.height as int, x as int, y as int);
        }
        let i: usize = (y as usize) * (self.width as usize) + (x as usize);
        self.pixels[i]
    }

    /// Replace the pixel of column `x`, row `y`; every other pixel is kept.
    pub fn set(&mut self, x: u32, y: u32, p: Pixel)
        requires
            old(self).wf(),
            old(self).in_bounds(x as int, y as int),
        ensures
            final(self).wf(),
            final(self).width == old(self).width,
            final(self).height == old(self).height,
            final(self).pix(x as int, y as int) == p,
            forall|x2: int, y2: int|
                old(self).in_bounds(x2, y2) && !(x2 == x as int && y2 == y as int)
                    ==> final(self).pix(x2, y2) == old(self).pix(x2, y2),
    {
        proof {
            vstd::std_specs::vec::axiom_spec_len(&self.pixels);
            lemma_grid_index(self.width as int, self.height as int, x as int, y as int);
        }
        let i: usize = (y as usize) * (self.width as usize) + (x as usize);
        self.pixels.set(i, p);
        proof {
            assert forall|x2: int, y2: int|
                old(self).in_bounds(x2, y2) && !(x2 == x as int && y2 == y as int)
                implies final(self).pix(x2, y2) == old(self).pix(x2, y2) by {
                lemma_grid_index(self.width as int, self.height as int, x2, y2);
                lemma_grid_index_injective(
                    self.width as int,
                    self.height as int,
                    x as int,
                    y as int,
                    x2,
                    y2,
                );
            }
        }
    }
}

/// A grid cell's linear index lies inside the buffer.
pub proof fn lemma_grid_index(w: int, h: int, x: int, y: int)
    requires
        0 <= x < w,
        0 <= y < h,
    ensures
        0 <= y * w + x < w * h,
{
    assert(0 <= y * w + x < w * h) by (nonlinear_arith)
        requires
            0 <= x < w,
            0 <= y < h,
    ;
}

/// A grid coordinate's linear index splits back into the same coordinates.
pub proof fn lemma_grid_coords(w: int, h: int, x: int, y: int)
    requires
        0 <= x < w,
        0 <= y < h,
    ensures
        0 <= y * w + x < w * h,
        (y * w + x) % w == x,
        (y * w + x) / w == y,
{
    lemma_grid_index(w, h, x, y);
    assert((y * w + x) % w == x && (y * w + x) / w == y) by (nonlinear_arith)
        requires
            0 <= x < w,
            0 <= y < h,
    ;
}

/// Distinct grid cells have distinct linear indices.
pub proof fn lemma_grid_index_injective(w: int, h: int, x1: int, y1: int, x2: int, y2: int)
    requires
        0 <= x1 < w,
        0 <= y1 < h,
        0 <= x2 < w,
        0 <= y2 < h,
        !(x1 == x2 && y1 == y2),
    ensures
        y1 * w + x1 != y2 * w + x2,
{
    assert(y1 * w + x1 != y2 * w + x2) by (nonlinear_arith)
        requires
            0 <= x1 < w,
            0 <= y1 < h,
            0 <= x2 < w,
            0 <= y2 < h,
            !(x1 == x2 && y1 == y2),
    ;
}

} // verus!
