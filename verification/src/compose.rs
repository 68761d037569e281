//! Pixel-wise combination of images of one size: the generic maps, and the
//! overlays and the high-pass difference built on them.

use vstd::prelude::*;
use crate::error::Error;
use crate::pixel::{Rgba, OPAQUE};
use crate::raster::{
    lemma_position_in_range, lemma_rgba_grid_ext, lemma_rgba_grid_pixel, lemma_rgba_grid_unique,
    quad, rgba_grid, Grid, Image, Layout,
};

verus! {

/// The saturating sum of two grids: each pixel is the sum of the two pixels
/// in its place, and opaque.
pub open spec fn overlay2_spec(a: Grid, b: Grid) -> Grid {
    rgba_grid(a.width, a.height, |i: int| a.pixel(i).spec_sum(b.pixel(i)))
}

/// The saturating sum of three grids, added left to right.
pub open spec fn overlay3_spec(a: Grid, b: Grid, c: Grid) -> Grid {
    rgba_grid(a.width, a.height, |i: int| a.pixel(i).spec_sum3(b.pixel(i), c.pixel(i)))
}

/// What is left of the colours of `impulse` once those of `low` are taken
/// away, floored at zero and opaque.
pub open spec fn high_pass_spec(impulse: Grid, low: Grid) -> Grid {
    rgba_grid(impulse.width, impulse.height, |i: int| impulse.pixel(i).spec_difference(low.pixel(i)))
}

/// An RGBA buffer for `width` by `height` pixels has four samples for each.
proof fn lemma_rgba_len(width: nat, height: nat)
    ensures
        width * height * Layout::Rgba.spec_channels() == 4 * (width * height),
{
    assert(width * height * 4 == 4 * (width * height)) by (nonlinear_arith);
}

/// Builds an RGBA image by applying `f` to the pixels that two images hold
/// at the same position. Images of different size are refused.
pub fn map_colors2<F>(image1: &Image, image2: &Image, f: F) -> (r: Result<Image, Error>) where
    F: Fn(Rgba, Rgba) -> Rgba,
    requires
        image1@.same_size(image2@) ==> forall|i: int|
            0 <= i < image1@.pixel_count() ==> call_requires(
                f,
                (#[trigger] image1@.pixel(i), image2@.pixel(i)),
            ),
    ensures
        r is Ok <==> image1@.same_size(image2@),
        r matches Ok(out) ==> {
            &&& out@.wf()
            &&& out@.layout == Layout::Rgba
            &&& out@.same_size(image1@)
            &&& forall|i: int|
                0 <= i < out@.pixel_count() ==> call_ensures(
                    f,
                    (image1@.pixel(i), image2@.pixel(i)),
                    #[trigger] out@.pixel(i),
                )
        },
        r matches Err(e) ==> e == Error::DimensionMismatch,
{
    if image1.width() != image2.width() || image1.height() != image2.height() {
        return Err(Error::DimensionMismatch);
    }
    let n: usize = image1.pixel_count();
    let mut out: Vec<u8> = Vec::new();
    let mut i: usize = 0;
    while i < n
        invariant
            i <= n,
            n == image1@.pixel_count(),
            n == image2@.pixel_count(),
            out@.len() == 4 * i,
            forall|j: int|
                0 <= j < n ==> call_requires(f, (#[trigger] image1@.pixel(j), image2@.pixel(j))),
            forall|j: int|
                0 <= j < i ==> call_ensures(
                    f,
                    (image1@.pixel(j), image2@.pixel(j)),
                    #[trigger] quad(out@, j),
                ),
        decreases n - i,
    {
        let p: Rgba = image1.nth_pixel(i);
        let q: Rgba = image2.nth_pixel(i);
        let t: Rgba = f(p, q);
        let ghost before = out@;
        out.push(t.r);
        out.push(t.g);
        out.push(t.b);
        out.push(t.a);
        proof {
            assert(quad(out@, i as int) == t);
            assert forall|j: int| 0 <= j < i implies #[trigger] quad(out@, j) == quad(before, j) by {}
        }
        i = i + 1;
    }
    proof {
        lemma_rgba_len(image1@.width, image1@.height);
    }
    let img: Image = Image::assemble(image1.width(), image1.height(), Layout::Rgba, out);
    proof {
        assert forall|j: int| 0 <= j < img@.pixel_count() implies call_ensures(
            f,
            (image1@.pixel(j), image2@.pixel(j)),
            #[trigger] img@.pixel(j),
        ) by {
            assert(img@.pixel(j) == quad(out@, j));
        }
    }
    Ok(img)
}

/// Builds an RGBA image by applying `f` to the pixels that three images hold
/// at the same position. Images of different size are refused.
pub fn map_colors3<F>(image1: &Image, image2: &Image, image3: &Image, f: F) -> (r: Result<
    Image,
    Error,
>) where
    F: Fn(Rgba, Rgba, Rgba) -> Rgba,
    requires
        image1@.same_size(image2@) && image1@.same_size(image3@) ==> forall|i: int|
            0 <= i < image1@.pixel_count() ==> call_requires(
                f,
                (#[trigger] image1@.pixel(i), image2@.pixel(i), image3@.pixel(i)),
            ),
    ensures
        r is Ok <==> image1@.same_size(image2@) && image1@.same_size(image3@),
        r matches Ok(out) ==> {
            &&& out@.wf()
            &&& out@.layout == Layout::Rgba
            &&& out@.same_size(image1@)
            &&& forall|i: int|
                0 <= i < out@.pixel_count() ==> call_ensures(
                    f,
                    (image1@.pixel(i), image2@.pixel(i), image3@.pixel(i)),
                    #[trigger] out@.pixel(i),
                )
        },
        r matches Err(e) ==> e == Error::DimensionMismatch,
{
    if image1.width() != image2.width() || image1.height() != image2.height() {
        return Err(Error::DimensionMismatch);
    }
    if image1.width() != image3.width() || image1.height() != image3.height() {
        return Err(Error::DimensionMismatch);
    }
    let n: usize = image1.pixel_count();
    let mut out: Vec<u8> = Vec::new();
    let mut i: usize = 0;
    while i < n
        invariant
            i <= n,
            n == image1@.pixel_count(),
            n == image2@.pixel_count(),
            n == image3@.pixel_count(),
            out@.len() == 4 * i,
            forall|j: int|
                0 <= j < n ==> call_requires(
                    f,
                    (#[trigger] image1@.pixel(j), image2@.pixel(j), image3@.pixel(j)),
                ),
            forall|j: int|
                0 <= j < i ==> call_ensures(
                    f,
                    (image1@.pixel(j), image2@.pixel(j), image3@.pixel(j)),
                    #[trigger] quad(out@, j),
                ),
        decreases n - i,
    {
        let p: Rgba = image1.nth_pixel(i);
        let q: Rgba = image2.nth_pixel(i);
        let s: Rgba = image3.nth_pixel(i);
        let t: Rgba = f(p, q, s);
        let ghost before = out@;
        out.push(t.r);
        out.push(t.g);
        out.push(t.b);
        out.push(t.a);
        proof {
            assert(quad(out@, i as int) == t);
            assert forall|j: int| 0 <= j < i implies #[trigger] quad(out@, j) == quad(before, j) by {}
        }
        i = i + 1;
    }
    proof {
        lemma_rgba_len(image1@.width, image1@.height);
    }
    let img: Image = Image::assemble(image1.width(), image1.height(), Layout::Rgba, out);
    proof {
        assert forall|j: int| 0 <= j < img@.pixel_count() implies call_ensures(
            f,
            (image1@.pixel(j), image2@.pixel(j), image3@.pixel(j)),
            #[trigger] img@.pixel(j),
        ) by {
            assert(img@.pixel(j) == quad(out@, j));
        }
    }
    Ok(img)
}

/// Merges two images of one size: every colour channel is the saturating
/// sum of the two inputs, and the result is opaque throughout.
pub fn overlay2(a: &Image, b: &Image) -> (r: Result<Image, Error>)
    ensures
        r is Ok <==> a@.same_size(b@),
        r matches Ok(out) ==> out@ == overlay2_spec(a@, b@),
        r matches Ok(out) ==> out@.same_size(a@) && out@.layout == Layout::Rgba,
        r matches Ok(out) ==> forall|x: int, y: int|
            out@.contains(x, y) ==> {
                &&& #[trigger] out@.rgba_at(x, y) == a@.rgba_at(x, y).spec_sum(b@.rgba_at(x, y))
                &&& out@.rgba_at(x, y).a == OPAQUE
            },
        r matches Err(e) ==> e == Error::DimensionMismatch,
{
    let blend = |p: Rgba, q: Rgba| -> (t: Rgba)
        ensures
            t == p.spec_sum(q),
        {
            p.sum(q)
        };
    let r = map_colors2(a, b, blend);
    match r {
        Ok(out) => {
            proof {
                lemma_rgba_grid_unique(out@, |i: int| a@.pixel(i).spec_sum(b@.pixel(i)));
                assert forall|x: int, y: int| out@.contains(x, y) implies {
                    &&& #[trigger] out@.rgba_at(x, y) == a@.rgba_at(x, y).spec_sum(
                        b@.rgba_at(x, y),
                    )
                    &&& out@.rgba_at(x, y).a == OPAQUE
                } by {
                    lemma_overlay2_at(a@, b@, x, y);
                }
            }
            Ok(out)
        },
        Err(e) => Err(e),
    }
}

/// Merges three images of one size: every colour channel is the saturating
/// sum of the first two inputs, saturated again with the third, and the
/// result is opaque throughout.
pub fn overlay3(a: &Image, b: &Image, c: &Image) -> (r: Result<Image, Error>)
    ensures
        r is Ok <==> a@.same_size(b@) && a@.same_size(c@),
        r matches Ok(out) ==> out@ == overlay3_spec(a@, b@, c@),
        r matches Ok(out) ==> out@.same_size(a@) && out@.layout == Layout::Rgba,
        r matches Ok(out) ==> forall|x: int, y: int|
            out@.contains(x, y) ==> {
                &&& #[trigger] out@.rgba_at(x, y) == a@.rgba_at(x, y).spec_sum3(
                    b@.rgba_at(x, y),
                    c@.rgba_at(x, y),
                )
                &&& out@.rgba_at(x, y).a == OPAQUE
            },
        r matches Err(e) ==> e == Error::DimensionMismatch,
{
    let blend = |p: Rgba, q: Rgba, s: Rgba| -> (t: Rgba)
        ensures
            t == p.spec_sum3(q, s),
        {
            p.sum3(q, s)
        };
    let r = map_colors3(a, b, c, blend);
    match r {
        Ok(out) => {
            proof {
                lemma_rgba_grid_unique(
                    out@,
                    |i: int| a@.pixel(i).spec_sum3(b@.pixel(i), c@.pixel(i)),
                );
                assert forall|x: int, y: int| out@.contains(x, y) implies {
                    &&& #[trigger] out@.rgba_at(x, y) == a@.rgba_at(x, y).spec_sum3(
                        b@.rgba_at(x, y),
                        c@.rgba_at(x, y),
                    )
                    &&& out@.rgba_at(x, y).a == OPAQUE
                } by {
                    lemma_overlay3_at(a@, b@, c@, x, y);
                }
            }
            Ok(out)
        },
        Err(e) => Err(e),
    }
}

/// Takes a blurred image away from a sharpened one of the same size: every
/// colour channel is the sharpened sample less the blurred one, floored at
/// zero, and the result is opaque throughout.
pub fn high_pass_compose(impulse: &Image, low: &Image) -> (r: Result<Image, Error>)
    ensures
        r is Ok <==> impulse@.same_size(low@),
        r matches Ok(out) ==> out@ == high_pass_spec(impulse@, low@),
        r matches Ok(out) ==> out@.same_size(impulse@) && out@.layout == Layout::Rgba,
        r matches Ok(out) ==> forall|x: int, y: int|
            out@.contains(x, y) ==> {
                &&& #[trigger] out@.rgba_at(x, y) == impulse@.rgba_at(x, y).spec_difference(
                    low@.rgba_at(x, y),
                )
                &&& out@.rgba_at(x, y).a == OPAQUE
            },
        r matches Err(e) ==> e == Error::DimensionMismatch,
{
    let blend = |p: Rgba, q: Rgba| -> (t: Rgba)
        ensures
            t == p.spec_difference(q),
        {
            p.difference(q)
        };
    let r = map_colors2(impulse, low, blend);
    match r {
        Ok(out) => {
            proof {
                lemma_rgba_grid_unique(
                    out@,
                    |i: int| impulse@.pixel(i).spec_difference(low@.pixel(i)),
                );
                assert forall|x: int, y: int| out@.contains(x, y) implies {
                    &&& #[trigger] out@.rgba_at(x, y) == impulse@.rgba_at(x, y).spec_difference(
                        low@.rgba_at(x, y),
                    )
                    &&& out@.rgba_at(x, y).a == OPAQUE
                } by {
                    lemma_high_pass_at(impulse@, low@, x, y);
                }
            }
            Ok(out)
        },
        Err(e) => Err(e),
    }
}

/// The filtered images that make up one hybrid: a low-pass image with one
/// high-pass image, or with two.
pub enum Layers {
    Two { low: Image, high: Image },
    Three { low: Image, high: Image, extra: Image },
}

impl Layers {
    /// Whether all the layers have one width and one height.
    pub open spec fn aligned(self) -> bool {
        match self {
            Layers::Two { low, high } => low@.same_size(high@),
            Layers::Three { low, high, extra } => low@.same_size(high@) && low@.same_size(extra@),
        }
    }

    /// The hybrid of the layers: their saturating sum.
    pub open spec fn spec_merge(self) -> Grid {
        match self {
            Layers::Two { low, high } => overlay2_spec(low@, high@),
            Layers::Three { low, high, extra } => overlay3_spec(low@, high@, extra@),
        }
    }

    /// Merges the layers into the hybrid image: the overlay of two layers or
    /// of three, as the case may be. Layers of different size are refused.
    pub fn merge(&self) -> (r: Result<Image, Error>)
        ensures
            r is Ok <==> self.aligned(),
            r matches Ok(out) ==> out@ == self.spec_merge(),
            r matches Err(e) ==> e == Error::DimensionMismatch,
    {
        match self {
            Layers::Two { low, high } => overlay2(low, high),
            Layers::Three { low, high, extra } => overlay3(low, high, extra),
        }
    }
}

/// An overlay of two grids of one size is well formed, and its pixel at each
/// position is the opaque saturating sum of the two pixels there.
pub proof fn lemma_overlay2_at(a: Grid, b: Grid, x: int, y: int)
    requires
        a.same_size(b),
        a.contains(x, y),
    ensures
        overlay2_spec(a, b).wf(),
        overlay2_spec(a, b).same_size(a),
        overlay2_spec(a, b).rgba_at(x, y) == a.rgba_at(x, y).spec_sum(b.rgba_at(x, y)),
        overlay2_spec(a, b).rgba_at(x, y).a == 255,
{
    lemma_position_in_range(x, y, a.width, a.height);
    lemma_rgba_grid_pixel(
        a.width,
        a.height,
        |i: int| a.pixel(i).spec_sum(b.pixel(i)),
        y * a.width + x,
    );
}

/// An overlay of three grids of one size is well formed, and its pixel at
/// each position is the opaque saturating sum of the three pixels there.
pub proof fn lemma_overlay3_at(a: Grid, b: Grid, c: Grid, x: int, y: int)
    requires
        a.same_size(b),
        a.same_size(c),
        a.contains(x, y),
    ensures
        overlay3_spec(a, b, c).wf(),
        overlay3_spec(a, b, c).same_size(a),
        overlay3_spec(a, b, c).rgba_at(x, y) == a.rgba_at(x, y).spec_sum3(
            b.rgba_at(x, y),
            c.rgba_at(x, y),
        ),
        overlay3_spec(a, b, c).rgba_at(x, y).a == 255,
{
    lemma_position_in_range(x, y, a.width, a.height);
    lemma_rgba_grid_pixel(
        a.width,
        a.height,
        |i: int| a.pixel(i).spec_sum3(b.pixel(i), c.pixel(i)),
        y * a.width + x,
    );
}

/// A high-pass difference of two grids of one size is well formed; its pixel
/// at each position is the floored difference of the two pixels there, and
/// it is opaque whatever the alpha of the inputs.
pub proof fn lemma_high_pass_at(impulse: Grid, low: Grid, x: int, y: int)
    requires
        impulse.same_size(low),
        impulse.contains(x, y),
    ensures
        high_pass_spec(impulse, low).wf(),
        high_pass_spec(impulse, low).same_size(impulse),
        high_pass_spec(impulse, low).rgba_at(x, y) == impulse.rgba_at(x, y).spec_difference(
            low.rgba_at(x, y),
        ),
        high_pass_spec(impulse, low).rgba_at(x, y).a == 255,
{
    lemma_position_in_range(x, y, impulse.width, impulse.height);
    lemma_rgba_grid_pixel(
        impulse.width,
        impulse.height,
        |i: int| impulse.pixel(i).spec_difference(low.pixel(i)),
        y * impulse.width + x,
    );
}

/// Overlaying a third grid on the overlay of two gives the overlay of all
/// three: clamping after each addition is what the three-way overlay does.
pub proof fn lemma_overlay3_is_overlay2_twice(a: Grid, b: Grid, c: Grid)
    requires
        a.same_size(b),
        a.same_size(c),
    ensures
        overlay2_spec(overlay2_spec(a, b), c) == overlay3_spec(a, b, c),
{
    let ab = overlay2_spec(a, b);
    assert forall|i: int| 0 <= i < a.width * a.height implies ab.pixel(i).spec_sum(c.pixel(i))
        == a.pixel(i).spec_sum3(b.pixel(i), c.pixel(i)) by {
        lemma_rgba_grid_pixel(a.width, a.height, |j: int| a.pixel(j).spec_sum(b.pixel(j)), i);
    }
    lemma_rgba_grid_ext(
        a.width,
        a.height,
        |i: int| ab.pixel(i).spec_sum(c.pixel(i)),
        |i: int| a.pixel(i).spec_sum3(b.pixel(i), c.pixel(i)),
    );
}

/// The overlay of two grids of one size does not depend on their order.
pub proof fn lemma_overlay2_commutative(a: Grid, b: Grid)
    requires
        a.same_size(b),
    ensures
        overlay2_spec(a, b) == overlay2_spec(b, a),
{
    lemma_rgba_grid_ext(
        a.width,
        a.height,
        |i: int| a.pixel(i).spec_sum(b.pixel(i)),
        |i: int| b.pixel(i).spec_sum(a.pixel(i)),
    );
}

/// Overlaying three grids of one size two at a time gives the same grid
/// whichever pair is merged first.
pub proof fn lemma_overlay2_associative(a: Grid, b: Grid, c: Grid)
    requires
        a.same_size(b),
        a.same_size(c),
    ensures
        overlay2_spec(overlay2_spec(a, b), c) == overlay2_spec(a, overlay2_spec(b, c)),
{
    let ab = overlay2_spec(a, b);
    let bc = overlay2_spec(b, c);
    assert forall|i: int| 0 <= i < a.width * a.height implies ab.pixel(i).spec_sum(c.pixel(i))
        == a.pixel(i).spec_sum(bc.pixel(i)) by {
        lemma_rgba_grid_pixel(a.width, a.height, |j: int| a.pixel(j).spec_sum(b.pixel(j)), i);
        lemma_rgba_grid_pixel(b.width, b.height, |j: int| b.pixel(j).spec_sum(c.pixel(j)), i);
    }
    lemma_rgba_grid_ext(
        a.width,
        a.height,
        |i: int| ab.pixel(i).spec_sum(c.pixel(i)),
        |i: int| a.pixel(i).spec_sum(bc.pixel(i)),
    );
}

/// Where no colour of the sharpened grid exceeds that of the blurred one,
/// the high-pass difference is black and opaque at every pixel. A grid less
/// itself is the plainest case.
pub proof fn lemma_high_pass_without_detail(impulse: Grid, low: Grid)
    requires
        impulse.same_size(low),
        forall|i: int|
            0 <= i < impulse.pixel_count() ==> {
                &&& (#[trigger] impulse.pixel(i)).r <= low.pixel(i).r
                &&& impulse.pixel(i).g <= low.pixel(i).g
                &&& impulse.pixel(i).b <= low.pixel(i).b
            },
    ensures
        high_pass_spec(impulse, low) == rgba_grid(
            impulse.width,
            impulse.height,
            |i: int| Rgba { r: 0, g: 0, b: 0, a: 255 },
        ),
{
    assert forall|i: int| 0 <= i < impulse.width * impulse.height implies impulse.pixel(
        i,
    ).spec_difference(low.pixel(i)) == (Rgba { r: 0, g: 0, b: 0, a: 255 }) by {
        assert(impulse.pixel(i).r <= low.pixel(i).r);
    }
    lemma_rgba_grid_ext(
        impulse.width,
        impulse.height,
        |i: int| impulse.pixel(i).spec_difference(low.pixel(i)),
        |i: int| Rgba { r: 0, g: 0, b: 0, a: 255 },
    );
}

} // verus!
