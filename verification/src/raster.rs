//! In-memory raster images: RGBA color rasters and single-channel
//! grayscale rasters, stored row-major as flat pixel vectors.

use vstd::arithmetic::div_mod::{
    lemma_div_is_ordered, lemma_div_multiples_vanish, lemma_fundamental_div_mod_converse,
};
use vstd::prelude::*;

verus! {

/// One RGBA pixel.
#[derive(Clone, Copy, Debug, PartialEq, Eq, Structural)]
pub struct Px {
    pub r: u8,
    pub g: u8,
    pub b: u8,
    pub a: u8,
}

/// An RGBA raster of `width * height` pixels, row-major.
pub struct RgbaImage {
    pub width: usize,
    pub height: usize,
    pub pixels: Vec<Px>,
}

/// A grayscale raster of `width * height` luminance bytes, row-major.
pub struct GrayImage {
    pub width: usize,
    pub height: usize,
    pub pixels: Vec<u8>,
}

/// The row-major index of an in-bounds coordinate lies below `w * h`.
pub proof fn lemma_row_major_index(w: int, h: int, x: int, y: int)
    requires
        0 <= x < w,
        0 <= y < h,
    ensures
        0 <= y * w,
        y * w + x < w * h,
    {
    assert(0 <= y * w && y * w + x < w * h) by (nonlinear_arith)
        requires
            0 <= x < w,
            0 <= y < h,
    ;
}

/// Distinct in-bounds coordinates have distinct row-major indices.
pub proof fn lemma_row_major_injective(w: int, h: int, x1: int, y1: int, x2: int, y2: int)
    requires
        0 <= x1 < w,
        0 <= y1 < h,
        0 <= x2 < w,
        0 <= y2 < h,
        !(x1 == x2 && y1 == y2),
    ensures
        y1 * w + x1 != y2 * w + x2,
{
    assert(y1 * w + x1 != y2 * w + x2) by (nonlinear_arith)
        requires
            0 <= x1 < w,
            0 <= y1 < h,
            0 <= x2 < w,
            0 <= y2 < h,
            !(x1 == x2 && y1 == y2),
    ;
}

impl RgbaImage {
    /// The raster holds exactly one pixel per coordinate.
    pub open spec fn wf(self) -> bool {
        self.pixels.len() == self.width * self.height
    }

    /// The pixel at column `x`, row `y`.
    pub open spec fn pix(self, x: int, y: int) -> Px {
        self.pixels[y * self.width + x]
    }

    /// Allocate a raster filled with one color.
    pub fn new(width: usize, height: usize, fill: Px) -> (img: Self)
        requires
            width * height <= usize::MAX,
        ensures
            img.wf(),
            img.width == width,
            img.height == height,
            forall|x: int, y: int|
                0 <= x < width && 0 <= y < height ==> img.pix(x, y) == fill,
    {
        let n: usize = width * height;
        let mut pixels: Vec<Px> = Vec::new();
        let mut i: usize = 0;
        while i < n
            invariant
                i <= n,
                pixels.len() == i,
                forall|k: int| 0 <= k < i ==> pixels[k] == fill,
            decreases n - i,
        {
            pixels.push(fill);
            i = i + 1;
        }
        let img = RgbaImage { width, height, pixels };
        proof {
            assert forall|x: int, y: int|
                0 <= x < width && 0 <= y < height implies img.pix(x, y) == fill by {
                lemma_row_major_index(width as int, height as int, x, y);
            }
        }
        img
    }

    /// Read the pixel at `(x, y)`.
    pub fn pixel(&self, x: usize, y: usize) -> (p: Px)
        requires
            self.wf(),
            x < self.width,
            y < self.height,
        ensures
            p == self.pix(x as int, y as int),
    {
        proof {
            lemma_row_major_index(
                self.width as int, self.height as int, x as int, y as int);
        }
        let idx: usize = y * self.width + x;
        self.pixels[idx]
    }

    /// Overwrite the pixel at `(x, y)`; every other pixel is kept.
    pub fn set_pixel(&mut self, x: usize, y: usize, p: Px)
        requires
            old(self).wf(),
            x < old(self).width,
            y < old(self).height,
        ensures
            final(self).wf(),
            final(self).width == old(self).width,
            final(self).height == old(self).height,
            final(self).pix(x as int, y as int) == p,
            forall|i: int, j: int|
                0 <= i < final(self).width && 0 <= j < final(self).height && !(i == x && j == y)
                    ==> final(self).pix(i, j) == old(self).pix(i, j),
    {
        proof {
            lemma_row_major_index(
                self.width as int, self.height as int, x as int, y as int);
        }
        let idx: usize = y * self.width + x;
        self.pixels.set(idx, p);
        proof {
            assert forall|i: int, j: int|
                0 <= i < self.width && 0 <= j < self.height && !(i == x && j == y)
                    implies self.pix(i, j) == old(self).pix(i, j) by {
                lemma_row_major_index(self.width as int, self.height as int, i, j);
                lemma_row_major_injective(
                    self.width as int, self.height as int, i, j, x as int, y as int);
            }
        }
    }
}

impl GrayImage {
    /// The raster holds exactly one luminance byte per coordinate.
    pub open spec fn wf(self) -> bool {
        self.pixels.len() == self.width * self.height
    }

    /// The luminance at column `x`, row `y`.
    pub open spec fn lum(self, x: int, y: int) -> u8 {
        self.pixels[y * self.width + x]
    }

    /// Read the luminance at `(x, y)`.
    pub fn luma(&self, x: usize, y: usize) -> (v: u8)
        requires
            self.wf(),
            x < self.width,
            y < self.height,
        ensures
            v == self.lum(x as int, y as int),
    {
        proof {
            lemma_row_major_index(
                self.width as int, self.height as int, x as int, y as int);
        }
        let idx: usize = y * self.width + x;
        self.pixels[idx]
    }

    /// Overwrite the luminance at `(x, y)`; every other entry is kept.
    pub fn set_luma(&mut self, x: usize, y: usize, v: u8)
        requires
            old(self).wf(),
            x < old(self).width,
            y < old(self).height,
        ensures
            final(self).wf(),
            final(self).width == old(self).width,
            final(self).height == old(self).height,
            final(self).lum(x as int, y as int) == v,
            forall|i: int, j: int|
                0 <= i < final(self).width && 0 <= j < final(self).height && !(i == x && j == y)
                    ==> final(self).lum(i, j) == old(self).lum(i, j),
    {
        proof {
            lemma_row_major_index(
                self.width as int, self.height as int, x as int, y as int);
        }
        let idx: usize = y * self.width + x;
        self.pixels.set(idx, v);
        proof {
            assert forall|i: int, j: int|
                0 <= i < self.width && 0 <= j < self.height && !(i == x && j == y)
                    implies self.lum(i, j) == old(self).lum(i, j) by {
                lemma_row_major_index(self.width as int, self.height as int, i, j);
                lemma_row_major_injective(
                    self.width as int, self.height as int, i, j, x as int, y as int);
            }
        }
    }
}

/// The luminance of an RGBA pixel: the weighted integer average
/// `(2126 r + 7152 g + 722 b) / 10000`.
pub open spec fn luma_of(p: Px) -> int {
    (2126 * p.r + 7152 * p.g + 722 * p.b) / 10000
}

/// The luminance lies in the byte range.
pub proof fn lemma_luma_bounds(p: Px)
    ensures
        0 <= luma_of(p) <= 255,
{
    let weighted = 2126 * p.r + 7152 * p.g + 722 * p.b;
    assert(weighted <= 10000 * 255);
    lemma_div_is_ordered(weighted, (10000 * 255) as int, 10000);
    lemma_div_multiples_vanish(255, 10000);
}

/// The grayscale view of a color raster: the flat sequence of per-pixel
/// luminances.
pub open spec fn gray_view(img: RgbaImage) -> Seq<u8> {
    Seq::new((img.width * img.height) as nat, |k: int| luma_of(img.pixels[k]) as u8)
}

/// Convert a color raster to grayscale, pixel by pixel.
pub fn to_gray(img: &RgbaImage) -> (g: GrayImage)
    requires
        img.wf(),
    ensures
        g.wf(),
        g.width == img.width,
        g.height == img.height,
        g.pixels@ == gray_view(*img),
        forall|x: int, y: int|
            0 <= x < img.width && 0 <= y < img.height
                ==> g.lum(x, y) == luma_of(img.pix(x, y)),
{
    let w = img.width;
    let h = img.height;
    let mut pixels: Vec<u8> = Vec::new();
    let mut y: usize = 0;
    while y < h
        invariant
            img.wf(),
            w == img.width,
            h == img.height,
            y <= h,
            pixels.len() == y * w,
            forall|k: int|
                0 <= k < pixels.len()
                    ==> pixels[k] == luma_of(img.pix(k % (w as int), k / (w as int))),
        decreases h - y,
    {
        let mut x: usize = 0;
        while x < w
            invariant
                img.wf(),
                w == img.width,
                h == img.height,
                y < h,
                x <= w,
                pixels.len() == y * w + x,
                forall|k: int|
                    0 <= k < pixels.len()
                        ==> pixels[k] == luma_of(img.pix(k % (w as int), k / (w as int))),
            decreases w - x,
        {
            let p = img.pixel(x, y);
            let weighted: u32 = 2126 * (p.r as u32) + 7152 * (p.g as u32) + 722 * (p.b as u32);
            let v: u32 = weighted / 10000;
            proof {
                lemma_row_major_index(w as int, h as int, x as int, y as int);
                lemma_fundamental_div_mod_converse(
                    (y * w + x) as int, w as int, y as int, x as int);
            }
            pixels.push(v as u8);
            x = x + 1;
        }
        proof {
            assert((y as int + 1) * (w as int) == y as int * (w as int) + w as int)
                by (nonlinear_arith);
        }
        y = y + 1;
    }
    let g = GrayImage { width: w, height: h, pixels };
    proof {
        assert(g.pixels.len() == h * w);
        assert(w as int * h as int == h as int * w as int) by (nonlinear_arith);
        assert forall|x: int, y: int|
            0 <= x < w && 0 <= y < h
                implies g.lum(x, y) == luma_of(img.pix(x, y)) by {
            lemma_row_major_index(w as int, h as int, x, y);
            lemma_fundamental_div_mod_converse(y * (w as int) + x, w as int, y, x);
        }
        assert(g.pixels@ =~= gray_view(*img)) by {
            assert forall|k: int| 0 <= k < g.pixels@.len() implies g.pixels@[k] == luma_of(
                img.pixels[k],
            ) as u8 by {
                lemma_flat_index(w as int, h as int, k);
                lemma_luma_bounds(img.pixels[k]);
            }
        }
    }
    g
}

/// A flat index splits into its row-major coordinates:
/// `(k / w) * w + (k % w) == k`, with both parts in range.
pub proof fn lemma_flat_index(w: int, h: int, k: int)
    requires
        w > 0,
        0 <= k < w * h,
    ensures
        0 <= k % w < w,
        0 <= k / w < h,
        (k / w) * w + (k % w) == k,
{
    vstd::arithmetic::div_mod::lemma_fundamental_div_mod(k, w);
    vstd::arithmetic::div_mod::lemma_mod_bound(k, w);
    assert(0 <= k / w && k / w < h) by (nonlinear_arith)
        requires
            w > 0,
            0 <= k < w * h,
            k == w * (k / w) + k % w,
            0 <= k % w < w,
    ;
    assert(w * (k / w) == (k / w) * w) by (nonlinear_arith);
}

} // verus!
