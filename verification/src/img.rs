//! The pixel buffer the engine works on: plain RGBA bytes in row-major order.

use vstd::prelude::*;

verus! {

/// One pixel: four channels, each in 0..=255.
#[derive(Clone, Copy, Debug, PartialEq, Eq, Structural)]
pub struct Rgba {
    pub r: u8,
    pub g: u8,
    pub b: u8,
    pub a: u8,
}

/// The fully transparent black pixel, the default content of an output buffer.
pub open spec fn transparent() -> Rgba {
    Rgba { r: 0, g: 0, b: 0, a: 0 }
}

/// Mathematical model of an image: dimensions and the row-major pixel grid.
pub struct ImgV {
    pub width: int,
    pub height: int,
    pub pixels: Seq<Rgba>,
}

impl ImgV {
    pub open spec fn wf(self) -> bool {
        self.pixels.len() == self.width * self.height
    }

    /// The pixel at column `x`, row `y` (row-major indexing).
    pub open spec fn pix(self, x: int, y: int) -> Rgba {
        self.pixels[y * self.width + x]
    }
}

/// A decoded image: `width * height` pixels, row-major.
#[derive(Debug)]
pub struct Image {
    pub width: u32,
    pub height: u32,
    pub pixels: Vec<Rgba>,
}

impl View for Image {
    type V = ImgV;

    open spec fn view(&self) -> ImgV {
        ImgV { width: self.width as int, height: self.height as int, pixels: self.pixels@ }
    }
}

impl Image {
    pub open spec fn wf(&self) -> bool {
        self@.wf()
    }

    /// Row-major index arithmetic stays inside the pixel grid.
    pub proof fn lemma_index_bound(x: int, y: int, w: int, h: int)
        by (nonlinear_arith)
        requires
            0 <= x < w,
            0 <= y < h,
        ensures
            0 <= y * w + x < w * h,
            y * w <= w * h,
    {
    }

    /// Read one pixel.
    pub fn get_pixel(&self, x: u32, y: u32) -> (r: Rgba)
        requires
            self.wf(),
            x < self.width,
            y < self.height,
        ensures
            r == self@.pix(x as int, y as int),
    {
        let len = self.pixels.len();
        proof {
            Image::lemma_index_bound(x as int, y as int, self.width as int, self.height as int);
            assert((y as int) * (self.width as int) + (x as int) < len as int);
        }
        let idx: usize = (y as usize) * (self.width as usize) + (x as usize);
        self.pixels[idx]
    }

    /// An exact copy of this image.
    pub fn duplicate(&self) -> (r: Image)
        ensures
            r@ == self@,
    {
        let mut px: Vec<Rgba> = Vec::new();
        let n = self.pixels.len();
        let mut i: usize = 0;
        while i < n
            invariant
                i <= n,
                n == self.pixels@.len(),
                px@ =~= self.pixels@.subrange(0, i as int),
            decreases n - i,
        {
            px.push(self.pixels[i]);
            i = i + 1;
        }
        proof {
            assert(px@ =~= self.pixels@);
            let r = ImgV { width: self.width as int, height: self.height as int, pixels: px@ };
            assert(r =~= self@);
        }
        Image { width: self.width, height: self.height, pixels: px }
    }
}

/// The pixel grid of a fresh, fully transparent image.
pub open spec fn blank_pixels(w: int, h: int) -> Seq<Rgba> {
    Seq::new((w * h) as nat, |i: int| transparent())
}

/// The model of a fresh, fully transparent image of the given size.
pub open spec fn blank_v(w: int, h: int) -> ImgV {
    ImgV { width: w, height: h, pixels: blank_pixels(w, h) }
}

/// A fully transparent buffer of `count` pixels.
pub fn filled_transparent(count: usize) -> (r: Vec<Rgba>)
    ensures
        r@ =~= Seq::new(count as nat, |i: int| transparent()),
{
    let mut px: Vec<Rgba> = Vec::new();
    let mut i: usize = 0;
    while i < count
        invariant
            i <= count,
            px@ =~= Seq::new(i as nat, |j: int| transparent()),
        decreases count - i,
    {
        px.push(Rgba { r: 0, g: 0, b: 0, a: 0 });
        i = i + 1;
        proof {
            assert(px@ =~= Seq::new(i as nat, |j: int| transparent()));
        }
    }
    px
}

} // verus!
