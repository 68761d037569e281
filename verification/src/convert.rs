//! Changes of layout: every image read as RGBA, and every image reduced to
//! luminance.

use image::Pixel;
use vstd::prelude::*;
use crate::pixel::Rgba;
use crate::raster::{
    lemma_rgba_grid_ext, lemma_rgba_grid_pixel, lemma_rgba_grid_unique, lemma_sample_count,
    luma_grid, quad, rgba_grid, Grid, Image, Layout,
};

verus! {

/// The luminance that the `image` crate assigns to an 8-bit pixel of the
/// given red, green and blue.
pub uninterp spec fn luma_of(r: u8, g: u8, b: u8) -> u8;

/// Calls `image::Pixel::to_luma` on an `image::Rgb<u8>`. That conversion
/// weighs the three channels in single precision and truncates; it reads
/// nothing but its argument, so its result is given the name `luma_of`, and
/// nothing more is claimed of it.
#[verifier::external_body]
fn rgb_to_luma(r: u8, g: u8, b: u8) -> (l: u8)
    ensures
        l == luma_of(r, g, b),
{
    image::Rgb([r, g, b]).to_luma().0[0]
}

/// A grid read as RGBA: the same pixels, four samples each.
pub open spec fn rgba8_spec(g: Grid) -> Grid {
    rgba_grid(g.width, g.height, |i: int| g.pixel(i))
}

/// The luminance sample that stands for pixel `i` of a grid: the sample
/// itself where the grid holds luminance, else the luminance of its colour.
pub open spec fn luma_sample(g: Grid, i: int) -> u8 {
    match g.layout {
        Layout::Luma => g.samples[i],
        _ => luma_of(g.pixel(i).r, g.pixel(i).g, g.pixel(i).b),
    }
}

/// A grid reduced to luminance: one sample for each pixel.
pub open spec fn luma8_spec(g: Grid) -> Grid {
    luma_grid(g.width, g.height, |i: int| luma_sample(g, i))
}

impl Image {
    /// A copy of the image in RGBA. Luminance becomes an opaque grey, colour
    /// without alpha becomes opaque, and RGBA is copied as it is.
    pub fn to_rgba8(&self) -> (out: Image)
        ensures
            out@ == rgba8_spec(self@),
            out@.same_size(self@),
            out@.layout == Layout::Rgba,
            forall|i: int|
                0 <= i < self@.pixel_count() ==> #[trigger] out@.pixel(i) == self@.pixel(i),
            self@.layout == Layout::Rgba ==> out@ == self@,
    {
        let n: usize = self.pixel_count();
        let mut data: Vec<u8> = Vec::new();
        let mut i: usize = 0;
        while i < n
            invariant
                i <= n,
                n == self@.pixel_count(),
                data@.len() == 4 * i,
                forall|j: int| 0 <= j < i ==> #[trigger] quad(data@, j) == self@.pixel(j),
            decreases n - i,
        {
            let p: Rgba = self.nth_pixel(i);
            let ghost before = data@;
            data.push(p.r);
            data.push(p.g);
            data.push(p.b);
            data.push(p.a);
            proof {
                assert(quad(data@, i as int) == p);
                assert forall|j: int| 0 <= j < i implies #[trigger] quad(data@, j) == quad(
                    before,
                    j,
                ) by {}
            }
            i = i + 1;
        }
        proof {
            assert(self@.width * self@.height * 4 == 4 * (self@.width * self@.height))
                by (nonlinear_arith);
        }
        let out: Image = Image::assemble(self.width(), self.height(), Layout::Rgba, data);
        proof {
            assert forall|j: int| 0 <= j < out@.pixel_count() implies #[trigger] out@.pixel(j)
                == self@.pixel(j) by {
                assert(out@.pixel(j) == quad(data@, j));
            }
            lemma_rgba_grid_unique(out@, |i: int| self@.pixel(i));
            if self@.layout == Layout::Rgba {
                use_type_invariant(self);
                lemma_rgba_grid_unique(self@, |i: int| self@.pixel(i));
            }
        }
        out
    }

    /// A copy of the image reduced to luminance by `weigh`, which is handed
    /// the red, green and blue of each pixel. An image that already holds
    /// luminance is copied as it is, and `weigh` is not asked.
    pub fn to_luma_with<F>(&self, weigh: F) -> (out: Image) where F: Fn(u8, u8, u8) -> u8
        requires
            self@.layout != Layout::Luma ==> forall|i: int|
                0 <= i < self@.pixel_count() ==> call_requires(
                    weigh,
                    ((#[trigger] self@.pixel(i)).r, self@.pixel(i).g, self@.pixel(i).b),
                ),
        ensures
            out@.wf(),
            out@.same_size(self@),
            out@.layout == Layout::Luma,
            self@.layout == Layout::Luma ==> out@ == self@,
            self@.layout != Layout::Luma ==> forall|i: int|
                0 <= i < self@.pixel_count() ==> call_ensures(
                    weigh,
                    (self@.pixel(i).r, self@.pixel(i).g, self@.pixel(i).b),
                    #[trigger] out@.samples[i],
                ),
    {
        let n: usize = self.pixel_count();
        let grey: bool = self.layout() == Layout::Luma;
        let mut data: Vec<u8> = Vec::new();
        let mut i: usize = 0;
        while i < n
            invariant
                i <= n,
                n == self@.pixel_count(),
                grey <==> self@.layout == Layout::Luma,
                data@.len() == i,
                !grey ==> forall|j: int|
                    0 <= j < n ==> call_requires(
                        weigh,
                        ((#[trigger] self@.pixel(j)).r, self@.pixel(j).g, self@.pixel(j).b),
                    ),
                grey ==> forall|j: int| 0 <= j < i ==> #[trigger] data@[j] == self@.samples[j],
                !grey ==> forall|j: int|
                    0 <= j < i ==> call_ensures(
                        weigh,
                        (self@.pixel(j).r, self@.pixel(j).g, self@.pixel(j).b),
                        #[trigger] data@[j],
                    ),
            decreases n - i,
        {
            let p: Rgba = self.nth_pixel(i);
            let l: u8 = if grey {
                p.r
            } else {
                weigh(p.r, p.g, p.b)
            };
            data.push(l);
            i = i + 1;
        }
        proof {
            assert(self@.width * self@.height * 1 == self@.width * self@.height)
                by (nonlinear_arith);
        }
        let out: Image = Image::assemble(self.width(), self.height(), Layout::Luma, data);
        proof {
            if grey {
                use_type_invariant(self);
                lemma_sample_count(self@);
                assert(out@.samples =~= self@.samples);
            }
        }
        out
    }

    /// A copy of the image reduced to luminance. An image that already holds
    /// luminance is copied as it is; every other pixel is weighed by the
    /// `image` crate, whatever its alpha.
    pub fn to_luma8(&self) -> (out: Image)
        ensures
            out@ == luma8_spec(self@),
            out@.same_size(self@),
            out@.layout == Layout::Luma,
            self@.layout == Layout::Luma ==> out@ == self@,
    {
        let weigh = |r: u8, g: u8, b: u8| -> (l: u8)
            ensures
                l == luma_of(r, g, b),
            {
                rgb_to_luma(r, g, b)
            };
        let out: Image = self.to_luma_with(weigh);
        proof {
            use_type_invariant(self);
            lemma_sample_count(self@);
            lemma_sample_count(out@);
            assert(out@.samples =~= luma8_spec(self@).samples);
        }
        out
    }
}

/// Reading a grid as RGBA keeps its size and every pixel, and the result is
/// well formed.
pub proof fn lemma_rgba8_keeps_pixels(g: Grid, i: int)
    requires
        0 <= i < g.pixel_count(),
    ensures
        rgba8_spec(g).wf(),
        rgba8_spec(g).same_size(g),
        rgba8_spec(g).layout == Layout::Rgba,
        rgba8_spec(g).pixel(i) == g.pixel(i),
{
    lemma_rgba_grid_pixel(g.width, g.height, |j: int| g.pixel(j), i);
}

/// Reading an RGBA grid as RGBA changes nothing, so the conversion applied
/// twice is the conversion applied once.
pub proof fn lemma_rgba8_idempotent(g: Grid)
    requires
        g.wf(),
    ensures
        g.layout == Layout::Rgba ==> rgba8_spec(g) == g,
        rgba8_spec(rgba8_spec(g)) == rgba8_spec(g),
{
    if g.layout == Layout::Rgba {
        lemma_rgba_grid_unique(g, |i: int| g.pixel(i));
    }
    let h = rgba8_spec(g);
    assert forall|i: int| 0 <= i < g.width * g.height implies h.pixel(i) == g.pixel(i) by {
        lemma_rgba_grid_pixel(g.width, g.height, |j: int| g.pixel(j), i);
    }
    lemma_rgba_grid_ext(g.width, g.height, |i: int| h.pixel(i), |i: int| g.pixel(i));
}

} // verus!
