//! Rearranging the pixels of an image: cropping a window out of it, and
//! padding it by one pixel that repeats its edge.

use vstd::prelude::*;
use vstd::arithmetic::div_mod::{
    lemma_fundamental_div_mod, lemma_fundamental_div_mod_converse, lemma_mod_bound,
};
use crate::raster::{lemma_position_in_range, Grid, Image, Layout};

verus! {

/// The grid of the given size whose pixel in column `i` of row `j` is the
/// pixel of `g` in column `col(i)` of row `row(j)`, in the layout of `g`.
pub open spec fn resample(
    g: Grid,
    width: nat,
    height: nat,
    col: spec_fn(int) -> int,
    row: spec_fn(int) -> int,
) -> Grid {
    Grid {
        width,
        height,
        layout: g.layout,
        samples: Seq::new(
            width * height * g.layout.spec_channels(),
            |m: int| resample_sample(g, width, col, row, m),
        ),
    }
}

/// Sample `m` of a resampled grid: the channel `m % c` of the source pixel
/// that output pixel `m / c` is taken from, `c` being the channel count.
pub open spec fn resample_sample(
    g: Grid,
    width: nat,
    col: spec_fn(int) -> int,
    row: spec_fn(int) -> int,
    m: int,
) -> u8 {
    let c = g.layout.spec_channels() as int;
    let t = m / c;
    g.samples[(row(t / (width as int)) * g.width + col(t % (width as int))) * c + m % c]
}

/// The index nearest to `i` among `0 .. n`.
pub open spec fn nearest(i: int, n: nat) -> int {
    if i < 0 {
        0
    } else if i >= n {
        n - 1
    } else {
        i
    }
}

/// The window of `g` that is `width` wide and `height` high and has its top
/// left corner in column `x` of row `y`.
pub open spec fn crop_spec(g: Grid, x: nat, y: nat, width: nat, height: nat) -> Grid {
    resample(g, width, height, |i: int| x + i, |j: int| y + j)
}

/// The grid `g` with one more pixel on every side, each a copy of the
/// nearest pixel of `g`.
pub open spec fn pad_spec(g: Grid) -> Grid {
    resample(
        g,
        g.width + 2,
        g.height + 2,
        |i: int| nearest(i - 1, g.width),
        |j: int| nearest(j - 1, g.height),
    )
}

/// A pixel index below `width * height` splits into a row below `height` and
/// a column below `width`.
proof fn lemma_row_and_column(t: int, width: int, height: int)
    requires
        0 <= width,
        0 <= t < width * height,
    ensures
        0 <= t / width < height,
        0 <= t % width < width,
        t == (t / width) * width + t % width,
{
    assert(0 < width) by (nonlinear_arith)
        requires
            0 <= width,
            0 <= t < width * height,
    ;
    lemma_fundamental_div_mod(t, width);
    lemma_mod_bound(t, width);
    let q = t / width;
    assert(q * width == width * q) by (nonlinear_arith);
    assert(0 <= q < height) by (nonlinear_arith)
        requires
            0 < width,
            0 <= t < width * height,
            t == q * width + t % width,
            0 <= t % width < width,
    ;
}

/// A sample index below `count * c` splits into a pixel below `count` and a
/// channel below `c`.
proof fn lemma_pixel_and_channel(m: int, count: int, c: int)
    requires
        0 < c,
        0 <= m < count * c,
    ensures
        0 <= m / c < count,
        0 <= m % c < c,
        m == (m / c) * c + m % c,
{
    lemma_fundamental_div_mod(m, c);
    lemma_mod_bound(m, c);
    let q = m / c;
    assert(q * c == c * q) by (nonlinear_arith);
    assert(0 <= q < count) by (nonlinear_arith)
        requires
            0 < c,
            0 <= m < count * c,
            m == q * c + m % c,
            0 <= m % c < c,
    ;
}

/// Channel `k` of pixel `t` is sample `t * c + k`, and no other pixel or
/// channel shares that sample.
proof fn lemma_sample_position(t: int, k: int, count: int, c: int)
    requires
        0 <= t < count,
        0 <= k < c,
    ensures
        0 <= t * c + k < count * c,
        (t * c + k) / c == t,
        (t * c + k) % c == k,
{
    assert(0 <= t * c && (t + 1) * c <= count * c && (t + 1) * c == t * c + c)
        by (nonlinear_arith)
        requires
            0 <= t < count,
            0 < c,
    ;
    lemma_fundamental_div_mod_converse(t * c + k, c, t, k);
}

/// A resampled grid is well formed, whatever it was sampled from.
pub proof fn lemma_resample_wf(
    g: Grid,
    width: nat,
    height: nat,
    col: spec_fn(int) -> int,
    row: spec_fn(int) -> int,
)
    ensures
        resample(g, width, height, col, row).wf(),
        resample(g, width, height, col, row).layout == g.layout,
{
}

/// A resampled grid has, at each of its positions, the source pixel that the
/// two index maps point to.
pub proof fn lemma_resample_at(
    g: Grid,
    width: nat,
    height: nat,
    col: spec_fn(int) -> int,
    row: spec_fn(int) -> int,
    i: int,
    j: int,
)
    requires
        0 <= i < width,
        0 <= j < height,
    ensures
        resample(g, width, height, col, row).rgba_at(i, j) == g.rgba_at(col(i), row(j)),
{
    let out = resample(g, width, height, col, row);
    let c = g.layout.spec_channels() as int;
    let w = width as int;
    let t = j * w + i;
    let s = row(j) * g.width + col(i);
    lemma_position_in_range(i, j, width, height);
    lemma_fundamental_div_mod_converse(t, w, j, i);
    assert forall|k: int| 0 <= k < c implies #[trigger] out.samples[t * c + k] == g.samples[s * c
        + k] by {
        lemma_sample_position(t, k, w * height, c);
    }
    assert(t * 1 == t && t * 3 == 3 * t && t * 4 == 4 * t) by (nonlinear_arith);
    assert(s * 1 == s && s * 3 == 3 * s && s * 4 == 4 * s) by (nonlinear_arith);
    match g.layout {
        Layout::Luma => {
            assert(out.samples[t * c + 0] == g.samples[s * c + 0]);
        },
        Layout::Rgb => {
            assert(out.samples[t * c + 0] == g.samples[s * c + 0]);
            assert(out.samples[t * c + 1] == g.samples[s * c + 1]);
            assert(out.samples[t * c + 2] == g.samples[s * c + 2]);
        },
        Layout::Rgba => {
            assert(out.samples[t * c + 0] == g.samples[s * c + 0]);
            assert(out.samples[t * c + 1] == g.samples[s * c + 1]);
            assert(out.samples[t * c + 2] == g.samples[s * c + 2]);
            assert(out.samples[t * c + 3] == g.samples[s * c + 3]);
        },
    }
}

/// Index maps that agree on every column and every row of the result give
/// the same resampled grid.
pub proof fn lemma_resample_ext(
    g: Grid,
    width: nat,
    height: nat,
    col1: spec_fn(int) -> int,
    row1: spec_fn(int) -> int,
    col2: spec_fn(int) -> int,
    row2: spec_fn(int) -> int,
)
    requires
        forall|i: int| 0 <= i < width ==> #[trigger] col1(i) == col2(i),
        forall|j: int| 0 <= j < height ==> #[trigger] row1(j) == row2(j),
    ensures
        resample(g, width, height, col1, row1) == resample(g, width, height, col2, row2),
{
    let a = resample(g, width, height, col1, row1);
    let b = resample(g, width, height, col2, row2);
    let c = g.layout.spec_channels() as int;
    assert forall|m: int| 0 <= m < a.samples.len() implies a.samples[m] == b.samples[m] by {
        lemma_pixel_and_channel(m, (width * height) as int, c);
        lemma_row_and_column(m / c, width as int, height as int);
        assert(col1((m / c) % (width as int)) == col2((m / c) % (width as int)));
        assert(row1((m / c) / (width as int)) == row2((m / c) / (width as int)));
    }
    assert(a.samples =~= b.samples);
}

/// Resampling with both index maps the identity, at the size of the source,
/// gives the source back.
pub proof fn lemma_resample_identity(g: Grid, col: spec_fn(int) -> int, row: spec_fn(int) -> int)
    requires
        g.wf(),
        forall|i: int| 0 <= i < g.width ==> #[trigger] col(i) == i,
        forall|j: int| 0 <= j < g.height ==> #[trigger] row(j) == j,
    ensures
        resample(g, g.width, g.height, col, row) == g,
{
    let a = resample(g, g.width, g.height, col, row);
    let c = g.layout.spec_channels() as int;
    let w = g.width as int;
    assert forall|m: int| 0 <= m < a.samples.len() implies a.samples[m] == g.samples[m] by {
        lemma_pixel_and_channel(m, (g.width * g.height) as int, c);
        let t = m / c;
        lemma_row_and_column(t, w, g.height as int);
        assert(col(t % w) == t % w);
        assert(row(t / w) == t / w);
    }
    assert(a.samples =~= g.samples);
}

/// Resampling a resampled grid is resampling once with the index maps
/// composed.
pub proof fn lemma_resample_twice(
    g: Grid,
    width1: nat,
    height1: nat,
    col1: spec_fn(int) -> int,
    row1: spec_fn(int) -> int,
    width2: nat,
    height2: nat,
    col2: spec_fn(int) -> int,
    row2: spec_fn(int) -> int,
)
    requires
        forall|i: int| 0 <= i < width2 ==> 0 <= #[trigger] col2(i) < width1,
        forall|j: int| 0 <= j < height2 ==> 0 <= #[trigger] row2(j) < height1,
    ensures
        resample(resample(g, width1, height1, col1, row1), width2, height2, col2, row2)
            == resample(g, width2, height2, |i: int| col1(col2(i)), |j: int| row1(row2(j))),
{
    let mid = resample(g, width1, height1, col1, row1);
    let a = resample(mid, width2, height2, col2, row2);
    let b = resample(g, width2, height2, |i: int| col1(col2(i)), |j: int| row1(row2(j)));
    let c = g.layout.spec_channels() as int;
    let w1 = width1 as int;
    let w2 = width2 as int;
    assert forall|m: int| 0 <= m < a.samples.len() implies a.samples[m] == b.samples[m] by {
        lemma_pixel_and_channel(m, (width2 * height2) as int, c);
        let t = m / c;
        let k = m % c;
        lemma_row_and_column(t, w2, height2 as int);
        let i = col2(t % w2);
        let j = row2(t / w2);
        assert(0 <= i < width1);
        assert(0 <= j < height1);
        lemma_position_in_range(i, j, width1, height1);
        let s = j * w1 + i;
        lemma_sample_position(s, k, w1 * height1, c);
        lemma_fundamental_div_mod_converse(s, w1, j, i);
    }
    assert(a.samples =~= b.samples);
}

/// Cropping the padding away gives the image back.
pub proof fn lemma_crop_undoes_pad(g: Grid)
    requires
        g.wf(),
        g.width >= 1,
        g.height >= 1,
    ensures
        crop_spec(pad_spec(g), 1, 1, g.width, g.height) == g,
{
    let col1 = |i: int| nearest(i - 1, g.width);
    let row1 = |j: int| nearest(j - 1, g.height);
    let col2 = |i: int| 1 + i;
    let row2 = |j: int| 1 + j;
    lemma_resample_twice(
        g,
        g.width + 2,
        g.height + 2,
        col1,
        row1,
        g.width,
        g.height,
        col2,
        row2,
    );
    lemma_resample_identity(g, |i: int| col1(col2(i)), |j: int| row1(row2(j)));
}

/// The window that covers a whole image is the image.
pub proof fn lemma_crop_all(g: Grid)
    requires
        g.wf(),
    ensures
        crop_spec(g, 0, 0, g.width, g.height) == g,
{
    lemma_resample_identity(g, |i: int| 0 + i, |j: int| 0 + j);
}

/// Sample `m` of the grid that takes column `i` from column `cols[i]` of `g`
/// and row `j` from row `rows[j]`.
spec fn gather_sample(g: Grid, cols: Seq<u32>, rows: Seq<u32>, m: int) -> u8 {
    resample_sample(g, cols.len(), |i: int| cols[i] as int, |j: int| rows[j] as int, m)
}

/// The columns `start, start + 1, ..` in order, `count` of them.
fn offset_table(start: u32, count: u32) -> (table: Vec<u32>)
    requires
        start + count <= u32::MAX,
    ensures
        table@.len() == count,
        forall|i: int| 0 <= i < count ==> #[trigger] table@[i] == start + i,
{
    let mut table: Vec<u32> = Vec::new();
    let mut i: u32 = 0;
    while i < count
        invariant
            i <= count,
            start + count <= u32::MAX,
            table@.len() == i,
            forall|k: int| 0 <= k < i ==> #[trigger] table@[k] == start + k,
        decreases count - i,
    {
        table.push(start + i);
        i = i + 1;
    }
    table
}

/// For each index of a side padded by one at both ends, the nearest index
/// of the unpadded side.
fn edge_table(count: u32) -> (table: Vec<u32>)
    requires
        1 <= count <= u32::MAX - 2,
    ensures
        table@.len() == count + 2,
        forall|i: int| 0 <= i < count + 2 ==> #[trigger] table@[i] == nearest(i - 1, count as nat),
{
    let mut table: Vec<u32> = Vec::new();
    table.push(0);
    let mut i: u32 = 0;
    while i < count
        invariant
            i <= count,
            1 <= count <= u32::MAX - 2,
            table@.len() == i + 1,
            forall|k: int| 0 <= k < i + 1 ==> #[trigger] table@[k] == nearest(k - 1, count as nat),
        decreases count - i,
    {
        table.push(i);
        i = i + 1;
    }
    table.push(count - 1);
    table
}

impl Image {
    /// Builds the image whose column `i` is column `cols[i]` of this image
    /// and whose row `j` is row `rows[j]`.
    fn gather(&self, cols: &Vec<u32>, rows: &Vec<u32>) -> (out: Image)
        requires
            cols@.len() <= u32::MAX,
            rows@.len() <= u32::MAX,
            forall|i: int| 0 <= i < cols@.len() ==> #[trigger] cols@[i] < self@.width,
            forall|j: int| 0 <= j < rows@.len() ==> #[trigger] rows@[j] < self@.height,
        ensures
            out@ == resample(
                self@,
                cols@.len(),
                rows@.len(),
                |i: int| cols@[i] as int,
                |j: int| rows@[j] as int,
            ),
    {
        proof {
            use_type_invariant(self);
        }
        let source: &Vec<u8> = self.as_raw();
        let stride: usize = self.width() as usize;
        let count: usize = self.pixel_count();
        let c: usize = self.layout().channels();
        let total: usize = source.len();
        let width: usize = cols.len();
        let height: usize = rows.len();
        let ghost g = self@;
        let ghost w = width as int;
        let ghost h = height as int;
        let mut data: Vec<u8> = Vec::new();
        let mut j: usize = 0;
        while j < height
            invariant
                j <= height,
                g == self@,
                g.wf(),
                source@ == g.samples,
                stride == g.width,
                count == g.pixel_count(),
                total == source@.len(),
                c == g.layout.spec_channels(),
                width == cols@.len(),
                height == rows@.len(),
                w == width,
                h == height,
                forall|i: int| 0 <= i < cols@.len() ==> #[trigger] cols@[i] < g.width,
                forall|j: int| 0 <= j < rows@.len() ==> #[trigger] rows@[j] < g.height,
                data@.len() == (j * w) * c,
                forall|m: int|
                    0 <= m < data@.len() ==> #[trigger] data@[m] == gather_sample(
                        g,
                        cols@,
                        rows@,
                        m,
                    ),
            decreases height - j,
        {
            let mut i: usize = 0;
            while i < width
                invariant
                    i <= width,
                    j < height,
                    g == self@,
                    g.wf(),
                    source@ == g.samples,
                    stride == g.width,
                    count == g.pixel_count(),
                    total == source@.len(),
                    c == g.layout.spec_channels(),
                    width == cols@.len(),
                    height == rows@.len(),
                    w == width,
                    h == height,
                    forall|i: int| 0 <= i < cols@.len() ==> #[trigger] cols@[i] < g.width,
                    forall|j: int| 0 <= j < rows@.len() ==> #[trigger] rows@[j] < g.height,
                    data@.len() == (j * w + i) * c,
                    forall|m: int|
                        0 <= m < data@.len() ==> #[trigger] data@[m] == gather_sample(
                            g,
                            cols@,
                            rows@,
                            m,
                        ),
                decreases width - i,
            {
                let x: usize = cols[i] as usize;
                let y: usize = rows[j] as usize;
                proof {
                    lemma_position_in_range(x as int, y as int, g.width, g.height);
                    lemma_sample_position(y * stride + x, 0, count as int, c as int);
                    assert((y * stride + x + 1) * c <= count * c) by (nonlinear_arith)
                        requires
                            y * stride + x < count,
                            c > 0,
                    ;
                    assert((y * stride + x + 1) * c == (y * stride + x) * c + c)
                        by (nonlinear_arith);
                    assert(0 <= y * stride && 0 <= (y * stride + x) * c) by (nonlinear_arith)
                        requires
                            0 <= y,
                            0 <= stride,
                            0 <= x,
                            0 <= c,
                    ;
                    assert(count * c == total);
                }
                let base: usize = (y * stride + x) * c;
                let ghost t = j * w + i;
                let mut k: usize = 0;
                while k < c
                    invariant
                        k <= c,
                        i < width,
                        j < height,
                        w == width,
                        h == height,
                        width == cols@.len(),
                        height == rows@.len(),
                        t == j * w + i,
                        x == cols@[i as int],
                        y == rows@[j as int],
                        source@ == g.samples,
                        stride == g.width,
                        c == g.layout.spec_channels(),
                        base == (y * stride + x) * c,
                        base + c <= total,
                        total == source@.len(),
                        data@.len() == t * c + k,
                        forall|m: int|
                            0 <= m < data@.len() ==> #[trigger] data@[m] == gather_sample(
                                g,
                                cols@,
                                rows@,
                                m,
                            ),
                    decreases c - k,
                {
                    proof {
                        lemma_position_in_range(i as int, j as int, w as nat, h as nat);
                        lemma_sample_position(t, k as int, w * h, c as int);
                        lemma_fundamental_div_mod_converse(t, w, j as int, i as int);
                    }
                    data.push(source[base + k]);
                    k = k + 1;
                }
                proof {
                    assert((j * w + i + 1) * c == (j * w + i) * c + c) by (nonlinear_arith);
                }
                i = i + 1;
            }
            proof {
                assert((j * w + w) == (j + 1) * w) by (nonlinear_arith);
            }
            j = j + 1;
        }
        proof {
            assert(w * h * c == (h * w) * c) by (nonlinear_arith);
        }
        let out: Image = Image::assemble(width as u32, height as u32, self.layout(), data);
        proof {
            let want = resample(
                g,
                w as nat,
                h as nat,
                |i: int| cols@[i] as int,
                |j: int| rows@[j] as int,
            );
            assert(out@.samples =~= want.samples);
        }
        out
    }

    /// The window of the image that is `width` wide and `height` high and
    /// has its top left corner in column `x` of row `y`, if the image holds
    /// all of it.
    pub fn crop(&self, x: u32, y: u32, width: u32, height: u32) -> (r: Option<Image>)
        ensures
            r is Some <==> x + width <= self@.width && y + height <= self@.height,
            r matches Some(out) ==> out@ == crop_spec(
                self@,
                x as nat,
                y as nat,
                width as nat,
                height as nat,
            ),
    {
        if width > self.width() || x > self.width() - width {
            return None;
        }
        if height > self.height() || y > self.height() - height {
            return None;
        }
        let cols: Vec<u32> = offset_table(x, width);
        let rows: Vec<u32> = offset_table(y, height);
        let out: Image = self.gather(&cols, &rows);
        proof {
            lemma_resample_ext(
                self@,
                width as nat,
                height as nat,
                |i: int| cols@[i] as int,
                |j: int| rows@[j] as int,
                |i: int| x as nat + i,
                |j: int| y as nat + j,
            );
        }
        Some(out)
    }

    /// The image with one more pixel on every side, each a copy of the
    /// nearest pixel of the image. An image without pixels has no edge to
    /// repeat, and one whose padded side would pass `u32::MAX` cannot grow.
    pub fn pad_replicate(&self) -> (r: Option<Image>)
        ensures
            r is Some <==> 1 <= self@.width <= u32::MAX - 2 && 1 <= self@.height <= u32::MAX - 2,
            r matches Some(out) ==> out@ == pad_spec(self@),
    {
        let width: u32 = self.width();
        let height: u32 = self.height();
        if width < 1 || width > u32::MAX - 2 || height < 1 || height > u32::MAX - 2 {
            return None;
        }
        let cols: Vec<u32> = edge_table(width);
        let rows: Vec<u32> = edge_table(height);
        let out: Image = self.gather(&cols, &rows);
        proof {
            lemma_resample_ext(
                self@,
                (width + 2) as nat,
                (height + 2) as nat,
                |i: int| cols@[i] as int,
                |j: int| rows@[j] as int,
                |i: int| nearest(i - 1, self@.width),
                |j: int| nearest(j - 1, self@.height),
            );
        }
        Some(out)
    }
}

} // verus!
