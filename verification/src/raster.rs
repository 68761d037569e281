//! An owned raster of 8-bit samples and its mathematical model.

use vstd::prelude::*;
use crate::pixel::{Rgba, OPAQUE};

verus! {

/// How the samples of one pixel are laid out.
#[derive(Clone, Copy, Debug, PartialEq, Eq, Structural)]
pub enum Layout {
    /// One luminance sample.
    Luma,
    /// Red, green and blue.
    Rgb,
    /// Red, green, blue and alpha.
    Rgba,
}

impl Layout {
    /// The number of samples that make up one pixel.
    pub open spec fn spec_channels(self) -> nat {
        match self {
            Layout::Luma => 1,
            Layout::Rgb => 3,
            Layout::Rgba => 4,
        }
    }

    /// The number of samples that make up one pixel: 1, 3 or 4.
    pub fn channels(self) -> (n: usize)
        ensures
            n == self.spec_channels(),
    {
        match self {
            Layout::Luma => 1,
            Layout::Rgb => 3,
            Layout::Rgba => 4,
        }
    }
}

/// The four consecutive samples that make up RGBA pixel `i` of a buffer.
pub open spec fn quad(samples: Seq<u8>, i: int) -> Rgba {
    Rgba {
        r: samples[4 * i],
        g: samples[4 * i + 1],
        b: samples[4 * i + 2],
        a: samples[4 * i + 3],
    }
}

/// The model of an image: its dimensions, its layout, and its samples in
/// row-major order, the channels of each pixel side by side.
pub struct Grid {
    pub width: nat,
    pub height: nat,
    pub layout: Layout,
    pub samples: Seq<u8>,
}

impl Grid {
    /// The number of pixels.
    pub open spec fn pixel_count(self) -> nat {
        self.width * self.height
    }

    /// There is exactly one sample for each channel of each pixel.
    pub open spec fn wf(self) -> bool {
        self.samples.len() == self.pixel_count() * self.layout.spec_channels()
    }

    /// The pixel at row-major position `i`, read as RGBA. A luminance sample
    /// stands for an opaque grey, and a pixel without alpha is opaque.
    pub open spec fn pixel(self, i: int) -> Rgba {
        match self.layout {
            Layout::Luma => Rgba {
                r: self.samples[i],
                g: self.samples[i],
                b: self.samples[i],
                a: OPAQUE,
            },
            Layout::Rgb => Rgba {
                r: self.samples[3 * i],
                g: self.samples[3 * i + 1],
                b: self.samples[3 * i + 2],
                a: OPAQUE,
            },
            Layout::Rgba => quad(self.samples, i),
        }
    }

    /// Whether column `x` of row `y` lies inside the grid.
    pub open spec fn contains(self, x: int, y: int) -> bool {
        0 <= x < self.width && 0 <= y < self.height
    }

    /// The pixel in column `x` of row `y`, read as RGBA.
    pub open spec fn rgba_at(self, x: int, y: int) -> Rgba {
        self.pixel(y * self.width + x)
    }

    /// Whether two grids have the same width and the same height.
    pub open spec fn same_size(self, other: Grid) -> bool {
        self.width == other.width && self.height == other.height
    }
}

/// The RGBA grid of the given size whose pixel at position `i` is `px(i)`.
pub open spec fn rgba_grid(width: nat, height: nat, px: spec_fn(int) -> Rgba) -> Grid {
    Grid {
        width,
        height,
        layout: Layout::Rgba,
        samples: Seq::new(4 * (width * height), |k: int| px(k / 4).channel(k % 4)),
    }
}

/// The luminance grid of the given size whose sample at position `i` is
/// `lum(i)`.
pub open spec fn luma_grid(width: nat, height: nat, lum: spec_fn(int) -> u8) -> Grid {
    Grid { width, height, layout: Layout::Luma, samples: Seq::new(width * height, lum) }
}

/// An image: `width` by `height` pixels of one layout, stored as samples in
/// row-major order.
#[derive(Debug, PartialEq, Eq)]
pub struct Image {
    width: u32,
    height: u32,
    layout: Layout,
    data: Vec<u8>,
}

impl View for Image {
    type V = Grid;

    closed spec fn view(&self) -> Grid {
        Grid {
            width: self.width as nat,
            height: self.height as nat,
            layout: self.layout,
            samples: self.data@,
        }
    }
}

impl Clone for Image {
    fn clone(&self) -> (img: Image)
        ensures
            img@ == self@,
    {
        self.duplicate()
    }
}

impl Image {
    /// Every image holds exactly the samples its dimensions and layout call
    /// for.
    #[verifier::type_invariant]
    pub open spec fn well_formed(&self) -> bool {
        self@.wf()
    }

    /// Builds an image from its samples. The buffer is accepted only if its
    /// length is exactly `width * height` times the channels of `layout`.
    pub fn from_raw(width: u32, height: u32, layout: Layout, data: Vec<u8>) -> (r: Option<Image>)
        ensures
            r is Some <==> data@.len() == width * height * layout.spec_channels(),
            r matches Some(img) ==> img@ == (Grid {
                width: width as nat,
                height: height as nat,
                layout,
                samples: data@,
            }),
    {
        let c: usize = layout.channels();
        let len: usize = data.len();
        let pixels: u64 = (len / c) as u64;
        assert(width * height <= 0xffff_ffff * 0xffff_ffff) by (nonlinear_arith)
            requires
                width <= 0xffff_ffff,
                height <= 0xffff_ffff,
        ;
        let area: u64 = width as u64 * height as u64;
        if len % c == 0 && pixels == area {
            assert(len == (len / c) * c) by (nonlinear_arith)
                requires
                    c > 0,
                    len % c == 0,
            ;
            Some(Image { width, height, layout, data })
        } else {
            assert(data@.len() != width * height * layout.spec_channels()) by (nonlinear_arith)
                requires
                    c > 0,
                    c == layout.spec_channels(),
                    len == data@.len(),
                    !(len % c == 0 && len / c == width * height),
            ;
            None
        }
    }

    /// Builds an image from samples whose number is known to fit.
    pub(crate) fn assemble(width: u32, height: u32, layout: Layout, data: Vec<u8>) -> (img: Image)
        requires
            data@.len() == width * height * layout.spec_channels(),
        ensures
            img@ == (Grid { width: width as nat, height: height as nat, layout, samples: data@ }),
    {
        Image { width, height, layout, data }
    }

    /// A copy of the image.
    pub fn duplicate(&self) -> (img: Image)
        ensures
            img@ == self@,
    {
        proof {
            use_type_invariant(self);
        }
        let data: Vec<u8> = self.data.clone();
        assert(data@ =~= self.data@);
        Image { width: self.width, height: self.height, layout: self.layout, data }
    }

    /// The number of columns.
    pub fn width(&self) -> (w: u32)
        ensures
            w == self@.width,
    {
        self.width
    }

    /// The number of rows.
    pub fn height(&self) -> (h: u32)
        ensures
            h == self@.height,
    {
        self.height
    }

    /// The layout of each pixel.
    pub fn layout(&self) -> (l: Layout)
        ensures
            l == self@.layout,
    {
        self.layout
    }

    /// The samples, in row-major order.
    pub fn as_raw(&self) -> (s: &Vec<u8>)
        ensures
            s@ == self@.samples,
    {
        &self.data
    }

    /// Gives up the image for its samples.
    pub fn into_raw(self) -> (s: Vec<u8>)
        ensures
            s@ == self@.samples,
    {
        self.data
    }

    /// The number of pixels.
    pub fn pixel_count(&self) -> (n: usize)
        ensures
            n == self@.pixel_count(),
    {
        proof {
            use_type_invariant(self);
        }
        let c: usize = self.layout.channels();
        let len: usize = self.data.len();
        assert(len / c == self@.pixel_count()) by (nonlinear_arith)
            requires
                c > 0,
                len == self@.pixel_count() * c,
        ;
        len / c
    }

    /// The pixel at row-major position `i`, read as RGBA.
    pub(crate) fn nth_pixel(&self, i: usize) -> (p: Rgba)
        requires
            i < self@.pixel_count(),
        ensures
            p == self@.pixel(i as int),
    {
        proof {
            use_type_invariant(self);
            lemma_sample_count(self@);
        }
        let len: usize = self.data.len();
        assert(i < len);  // the buffer holds at least one sample for each pixel
        match self.layout {
            Layout::Luma => {
                let l: u8 = self.data[i];
                Rgba { r: l, g: l, b: l, a: OPAQUE }
            },
            Layout::Rgb => {
                let k: usize = 3 * i;
                Rgba { r: self.data[k], g: self.data[k + 1], b: self.data[k + 2], a: OPAQUE }
            },
            Layout::Rgba => {
                let k: usize = 4 * i;
                Rgba {
                    r: self.data[k],
                    g: self.data[k + 1],
                    b: self.data[k + 2],
                    a: self.data[k + 3],
                }
            },
        }
    }

    /// The pixel in column `x` of row `y`, read as RGBA, if the image has
    /// one there.
    pub fn get_pixel(&self, x: u32, y: u32) -> (p: Option<Rgba>)
        ensures
            p is Some <==> self@.contains(x as int, y as int),
            p matches Some(v) ==> v == self@.rgba_at(x as int, y as int),
    {
        if x < self.width && y < self.height {
            let count: usize = self.pixel_count();
            proof {
                lemma_position_in_range(x as int, y as int, self@.width, self@.height);
            }
            let i: usize = y as usize * self.width as usize + x as usize;
            assert(i < count);
            Some(self.nth_pixel(i))
        } else {
            None
        }
    }
}

/// The length of a well-formed grid's buffer, layout by layout.
pub proof fn lemma_sample_count(g: Grid)
    requires
        g.wf(),
    ensures
        g.layout == Layout::Luma ==> g.samples.len() == g.pixel_count(),
        g.layout == Layout::Rgb ==> g.samples.len() == 3 * g.pixel_count(),
        g.layout == Layout::Rgba ==> g.samples.len() == 4 * g.pixel_count(),
{
    let n = g.pixel_count();
    assert(n * 1 == n && n * 3 == 3 * n && n * 4 == 4 * n) by (nonlinear_arith);
}

/// Every grid built by `rgba_grid` or by `luma_grid` is well formed.
pub proof fn lemma_built_grids_wf(
    width: nat,
    height: nat,
    px: spec_fn(int) -> Rgba,
    lum: spec_fn(int) -> u8,
)
    ensures
        rgba_grid(width, height, px).wf(),
        luma_grid(width, height, lum).wf(),
{
    assert(width * height * 4 == 4 * (width * height)) by (nonlinear_arith);
    assert(width * height * 1 == width * height) by (nonlinear_arith);
}

/// Each pixel of `rgba_grid` is the one it was built from.
pub proof fn lemma_rgba_grid_pixel(width: nat, height: nat, px: spec_fn(int) -> Rgba, i: int)
    requires
        0 <= i < width * height,
    ensures
        rgba_grid(width, height, px).wf(),
        rgba_grid(width, height, px).pixel(i) == px(i),
{
    let g = rgba_grid(width, height, px);
    assert(g.pixel_count() * 4 == 4 * (width * height)) by (nonlinear_arith)
        requires
            g.pixel_count() == width * height,
    ;
    assert((4 * i) / 4 == i && (4 * i) % 4 == 0);
    assert((4 * i + 1) / 4 == i && (4 * i + 1) % 4 == 1);
    assert((4 * i + 2) / 4 == i && (4 * i + 2) % 4 == 2);
    assert((4 * i + 3) / 4 == i && (4 * i + 3) % 4 == 3);
}

/// Two grids built by `rgba_grid` from pixels that agree at every position
/// are the same grid.
pub proof fn lemma_rgba_grid_ext(
    width: nat,
    height: nat,
    px1: spec_fn(int) -> Rgba,
    px2: spec_fn(int) -> Rgba,
)
    requires
        forall|i: int| 0 <= i < width * height ==> #[trigger] px1(i) == px2(i),
    ensures
        rgba_grid(width, height, px1) == rgba_grid(width, height, px2),
{
    let g1 = rgba_grid(width, height, px1);
    let g2 = rgba_grid(width, height, px2);
    assert forall|k: int| 0 <= k < g1.samples.len() implies g1.samples[k] == g2.samples[k] by {
        assert(0 <= k / 4 < width * height);
    }
    assert(g1.samples =~= g2.samples);
}

/// A well-formed RGBA grid is determined by its size and its pixels.
pub proof fn lemma_rgba_grid_unique(g: Grid, px: spec_fn(int) -> Rgba)
    requires
        g.wf(),
        g.layout == Layout::Rgba,
        forall|i: int| 0 <= i < g.pixel_count() ==> #[trigger] g.pixel(i) == px(i),
    ensures
        g == rgba_grid(g.width, g.height, px),
{
    let h = rgba_grid(g.width, g.height, px);
    lemma_sample_count(g);
    assert(g.samples.len() == h.samples.len());
    assert forall|k: int| 0 <= k < g.samples.len() implies g.samples[k] == h.samples[k] by {
        let i = k / 4;
        assert(0 <= i < g.pixel_count());
        assert(g.pixel(i) == px(i));
        assert(k == 4 * i + k % 4);
    }
    assert(g.samples =~= h.samples);
}

/// A position inside a grid has a row-major index below the pixel count.
pub proof fn lemma_position_in_range(x: int, y: int, width: nat, height: nat)
    requires
        0 <= x < width,
        0 <= y < height,
    ensures
        0 <= y * width <= y * width + x < width * height,
{
    assert(0 <= y * width && (y + 1) * width <= height * width) by (nonlinear_arith)
        requires
            0 <= y < height,
    ;
    assert((y + 1) * width == y * width + width) by (nonlinear_arith);
    assert(height * width == width * height) by (nonlinear_arith);
}

} // verus!
