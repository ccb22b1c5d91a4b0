//! The sample accumulator of a progressive image, and the buffers that feed
//! it. A pixel holds a colour sum and a depth sum; what a colour is and how
//! two colours are added is the caller's: the library moves colours and
//! counts.

use crate::geom::V3;
use crate::scalar::Scalar;
use vstd::prelude::*;

verus! {

/// The longest path that is traced, in bounces.
pub const MAX_DEPTH: u32 = 50;

/// The number of passes that an accumulator can take: with this many, no
/// depth sum outgrows its type.
pub const MAX_SAMPLES: u32 = 85_899_345;

/// The place of pixel `(x, y)` in an image that is `width` wide, row by row.
pub open spec fn pixel_index(width: u32, x: u32, y: u32) -> int {
    y * width + x
}

/// One pass over an image: for each pixel the colour of one path and the
/// number of bounces it took.
pub struct ImageBuffer<C> {
    pub pixels: Vec<(C, u32)>,
    pub width: u32,
    pub height: u32,
}

impl<C: Copy> ImageBuffer<C> {
    /// There is one pixel for each place of the image, and no path took
    /// more than `MAX_DEPTH` bounces.
    pub open spec fn well_formed(&self) -> bool {
        &&& self.pixels@.len() == self.width * self.height
        &&& forall|i: int| 0 <= i < self.pixels@.len() ==> (#[trigger] self.pixels@[i]).1 <= MAX_DEPTH
    }

    /// The bounce counts, pixel by pixel.
    pub open spec fn depths(&self) -> Seq<int> {
        Seq::new(self.pixels@.len(), |i: int| self.pixels@[i].1 as int)
    }

    /// A pass in which every pixel is `black` and took no bounce.
    pub fn new(width: u32, height: u32, black: C) -> (b: Self)
        requires
            width * height <= usize::MAX,
        ensures
            b.well_formed(),
            b.width == width,
            b.height == height,
            forall|i: int| 0 <= i < b.pixels@.len() ==> b.pixels@[i] == (black, 0u32),
    {
        let n = area(width, height);
        let mut pixels: Vec<(C, u32)> = Vec::new();
        let mut i: usize = 0;
        while i < n
            invariant
                i <= n,
                pixels@.len() == i,
                forall|k: int| 0 <= k < i ==> pixels@[k] == (black, 0u32),
            decreases n - i,
        {
            pixels.push((black, 0));
            i += 1;
        }
        ImageBuffer { pixels, width, height }
    }

    /// Fills the pass: for every pixel, row by row, `sample` is asked for
    /// the colour of a path through the pixel and the depth that the path
    /// left, and the pixel holds the colour and the bounces that the path
    /// took.
    pub fn fill<F: Fn(u32, u32) -> (C, u32)>(&mut self, sample: &F)
        requires
            old(self).well_formed(),
            forall|x: u32, y: u32| call_requires(*sample, (x, y)),
        ensures
            final(self).well_formed(),
            final(self).width == old(self).width,
            final(self).height == old(self).height,
            forall|x: u32, y: u32|
                x < old(self).width && y < old(self).height ==> #[trigger] sampled(
                    *sample,
                    x,
                    y,
                    final(self).pixels@[pixel_index(old(self).width, x, y)],
                ),
    {
        let width = self.width;
        let height = self.height;
        let n = self.pixels.len();
        let mut y: u32 = 0;
        while y < height
            invariant
                y <= height == self.height == old(self).height,
                width == self.width == old(self).width,
                n == self.pixels@.len(),
                self.well_formed(),
                forall|x: u32, y: u32| call_requires(*sample, (x, y)),
                forall|a: u32, b: u32|
                    a < width && b < y ==> #[trigger] sampled(
                        *sample,
                        a,
                        b,
                        self.pixels@[pixel_index(width, a, b)],
                    ),
            decreases height - y,
        {
            let mut x: u32 = 0;
            while x < width
                invariant
                    x <= width == self.width == old(self).width,
                    y < height == self.height == old(self).height,
                    n == self.pixels@.len(),
                    self.well_formed(),
                    forall|x: u32, y: u32| call_requires(*sample, (x, y)),
                    forall|a: u32, b: u32|
                        a < width && (b < y || (b == y && a < x)) ==> #[trigger] sampled(
                            *sample,
                            a,
                            b,
                            self.pixels@[pixel_index(width, a, b)],
                        ),
                decreases width - x,
            {
                let path = sample(x, y);
                let ghost before = self.pixels@;
                self.set((x, y), path.0, bounces(path.1));
                proof {
                    assert forall|a: u32, b: u32|
                        a < width && (b < y || (b == y && a < x + 1)) implies #[trigger] sampled(
                        *sample,
                        a,
                        b,
                        self.pixels@[pixel_index(width, a, b)],
                    ) by {
                        lemma_pixel_in_image(width, height, a, b);
                        lemma_pixel_in_image(width, height, x, y);
                        if a == x && b == y {
                            assert(call_ensures(*sample, (a, b), path));
                        } else {
                            if pixel_index(width, a, b) == pixel_index(width, x, y) {
                                lemma_pixel_index_decides(width, a, b, x, y);
                            }
                            assert(sampled(*sample, a, b, before[pixel_index(width, a, b)]));
                        }
                    }
                }
                x += 1;
            }
            y += 1;
        }
    }

    /// Stores the colour and the number of bounces of the path through
    /// pixel `position`, given as column and row.
    pub fn set(&mut self, position: (u32, u32), colour: C, depth: u32)
        requires
            old(self).well_formed(),
            position.0 < old(self).width,
            position.1 < old(self).height,
            depth <= MAX_DEPTH,
        ensures
            final(self).well_formed(),
            final(self).width == old(self).width,
            final(self).height == old(self).height,
            final(self).pixels@ == old(self).pixels@.update(
                pixel_index(old(self).width, position.0, position.1),
                (colour, depth),
            ),
    {
        let n = self.pixels.len();
        assert(n == self.width * self.height);
        let index = index_of(self.width, self.height, position.0, position.1);
        self.pixels[index] = (colour, depth);
    }
}

/// Whether `pixel` holds a path that `sample` may give for the pixel at
/// column `x` and row `y`: the colour of the path, and the bounces that it
/// took.
pub open spec fn sampled<C, F: Fn(u32, u32) -> (C, u32)>(
    sample: F,
    x: u32,
    y: u32,
    pixel: (C, u32),
) -> bool {
    exists|path: (C, u32)|
        call_ensures(sample, (x, y), path) && pixel == (path.0, bounces_of(path.1))
}

/// The bounces that a path took which left `remaining` of its depth.
pub open spec fn bounces_of(remaining: u32) -> u32 {
    if remaining <= MAX_DEPTH {
        (MAX_DEPTH - remaining) as u32
    } else {
        0
    }
}

/// The bounces that a path took which left `remaining` of its depth.
pub fn bounces(remaining: u32) -> (b: u32)
    ensures
        b == bounces_of(remaining),
        b <= MAX_DEPTH,
{
    if remaining <= MAX_DEPTH {
        MAX_DEPTH - remaining
    } else {
        0
    }
}

/// A pixel of an image stands at a place of the image.
pub proof fn lemma_pixel_in_image(width: u32, height: u32, x: u32, y: u32)
    requires
        x < width,
        y < height,
    ensures
        0 <= pixel_index(width, x, y) < width * height,
{
    assert(0 <= y * width + x < width * height) by (nonlinear_arith)
        requires
            x < width,
            y < height,
    ;
}

/// Different pixels stand at different places.
pub proof fn lemma_pixel_index_decides(width: u32, a: u32, b: u32, x: u32, y: u32)
    requires
        a < width,
        x < width,
        pixel_index(width, a, b) == pixel_index(width, x, y),
    ensures
        a == x,
        b == y,
{
    assert(b * width + a == y * width + x);
    if b < y {
        assert(y * width >= (b + 1) * width) by (nonlinear_arith)
            requires
                b < y,
        ;
        assert((b + 1) * width == b * width + width) by (nonlinear_arith);
    } else if y < b {
        assert(b * width >= (y + 1) * width) by (nonlinear_arith)
            requires
                y < b,
        ;
        assert((y + 1) * width == y * width + width) by (nonlinear_arith);
    }
}

/// The number of pixels of an image.
pub fn area(width: u32, height: u32) -> (n: usize)
    requires
        width * height <= usize::MAX,
    ensures
        n == width * height,
{
    let w: u64 = width as u64;
    let h: u64 = height as u64;
    assert(w * h <= 0xffff_ffff * 0xffff_ffff) by (nonlinear_arith)
        requires
            w <= 0xffff_ffff,
            h <= 0xffff_ffff,
    ;
    (w * h) as usize
}

/// The place of pixel `(x, y)` among the pixels of an image.
pub fn index_of(width: u32, height: u32, x: u32, y: u32) -> (i: usize)
    requires
        width * height <= usize::MAX,
        x < width,
        y < height,
    ensures
        i == pixel_index(width, x, y),
        i < width * height,
{
    assert(y * width + x < width * height) by (nonlinear_arith)
        requires
            x < width,
            y < height,
    ;
    let w: usize = width as usize;
    (y as usize) * w + (x as usize)
}

/// The depth sums after one more pass: pixel by pixel, the sum so far and
/// the bounce count of the pass.
pub open spec fn depth_sums(sums: Seq<int>, pass: Seq<int>) -> Seq<int> {
    Seq::new(sums.len(), |i: int| sums[i] + pass[i])
}

/// The depth sums after several passes, merged in the order given.
pub open spec fn depths_after(sums: Seq<int>, passes: Seq<Seq<int>>) -> Seq<int> {
    passes.fold_left(sums, |acc: Seq<int>, pass: Seq<int>| depth_sums(acc, pass))
}

/// The sample count after `passes` more passes.
pub open spec fn count_after(count: int, passes: int) -> int {
    count + passes
}

/// Merging the same passes in any order gives the same sample count and the
/// same depth sums. Colour sums are combined by the caller's function and
/// are as free of the order as that function is.
pub proof fn lemma_merge_order(
    sums: Seq<int>,
    count: int,
    passes: Seq<Seq<int>>,
    reordered: Seq<Seq<int>>,
)
    requires
        passes.to_multiset() == reordered.to_multiset(),
    ensures
        depths_after(sums, passes) == depths_after(sums, reordered),
        count_after(count, passes.len() as int) == count_after(count, reordered.len() as int),
{
    let f = |acc: Seq<int>, pass: Seq<int>| depth_sums(acc, pass);
    assert forall|x: Seq<int>, y: Seq<int>, v: Seq<int>| #[trigger] f(f(v, x), y) == f(f(v, y), x) by {
        assert(depth_sums(depth_sums(v, x), y) =~= depth_sums(depth_sums(v, y), x));
    }
    vstd::seq_lib::lemma_fold_left_permutation(passes, reordered, f, sums);
    vstd::seq_lib::to_multiset_len(passes);
    vstd::seq_lib::to_multiset_len(reordered);
}

/// The running sums of an image: how many passes were merged, and for each
/// pixel the sum of their colours and the sum of their bounce counts.
pub struct Accumulator<C> {
    pub sample_count: u32,
    pub pixels: Vec<(C, u32)>,
    pub width: u32,
    pub height: u32,
}

impl<C: Copy> Accumulator<C> {
    /// There is one pixel for each place of the image, and each depth sum is
    /// at most what `sample_count` passes can give.
    pub open spec fn well_formed(&self) -> bool {
        &&& self.pixels@.len() == self.width * self.height
        &&& forall|i: int|
            0 <= i < self.pixels@.len() ==> (#[trigger] self.pixels@[i]).1 <= MAX_DEPTH
                * self.sample_count
    }

    /// The depth sums, pixel by pixel.
    pub open spec fn depths(&self) -> Seq<int> {
        Seq::new(self.pixels@.len(), |i: int| self.pixels@[i].1 as int)
    }

    /// An accumulator without passes: every colour sum is `black`.
    pub fn new(width: u32, height: u32, black: C) -> (a: Self)
        requires
            width * height <= usize::MAX,
        ensures
            a.well_formed(),
            a.sample_count == 0,
            a.width == width,
            a.height == height,
            forall|i: int| 0 <= i < a.pixels@.len() ==> a.pixels@[i] == (black, 0u32),
    {
        let ImageBuffer { pixels, width, height } = ImageBuffer::new(width, height, black);
        Accumulator { sample_count: 0, pixels, width, height }
    }

    /// A pass of the size of this image in which every pixel is `black`.
    pub fn buffer(&self, black: C) -> (b: ImageBuffer<C>)
        requires
            self.well_formed(),
        ensures
            b.well_formed(),
            b.width == self.width,
            b.height == self.height,
            forall|i: int| 0 <= i < b.pixels@.len() ==> b.pixels@[i] == (black, 0u32),
    {
        let n = self.pixels.len();
        assert(n == self.width * self.height);
        ImageBuffer::new(self.width, self.height, black)
    }

    /// Forgets all passes: every colour sum becomes `black`.
    pub fn clear(&mut self, black: C)
        requires
            old(self).pixels@.len() == old(self).width * old(self).height,
        ensures
            final(self).well_formed(),
            final(self).sample_count == 0,
            final(self).width == old(self).width,
            final(self).height == old(self).height,
            forall|i: int| 0 <= i < final(self).pixels@.len() ==> final(self).pixels@[i] == (black, 0u32),
    {
        let n = self.pixels.len();
        let mut i: usize = 0;
        while i < n
            invariant
                i <= n == self.pixels@.len(),
                self.width == old(self).width,
                self.height == old(self).height,
                forall|k: int| 0 <= k < i ==> self.pixels@[k] == (black, 0u32),
            decreases n - i,
        {
            self.pixels[i] = (black, 0);
            i += 1;
        }
        self.sample_count = 0;
    }

    /// Whether one more pass of this size can be merged.
    pub fn accepts(&self, buffer: &ImageBuffer<C>) -> (r: bool)
        ensures
            r == (self.sample_count < MAX_SAMPLES && self.width == buffer.width && self.height
                == buffer.height),
    {
        self.sample_count < MAX_SAMPLES && self.width == buffer.width && self.height
            == buffer.height
    }

    /// Merges one pass: each pixel's colour sum becomes `combine` of the sum and
    /// the pass's colour, each depth sum grows by the pass's bounce count,
    /// and the pass is counted.
    pub fn merge<F: Fn(C, C) -> C>(&mut self, buffer: &ImageBuffer<C>, combine: F)
        requires
            old(self).well_formed(),
            buffer.well_formed(),
            old(self).sample_count < MAX_SAMPLES,
            old(self).width == buffer.width,
            old(self).height == buffer.height,
            forall|a: C, b: C| call_requires(combine, (a, b)),
        ensures
            final(self).well_formed(),
            final(self).width == old(self).width,
            final(self).height == old(self).height,
            final(self).sample_count == count_after(old(self).sample_count as int, 1),
            final(self).depths() == depth_sums(old(self).depths(), buffer.depths()),
            final(self).pixels@.len() == old(self).pixels@.len(),
            forall|i: int|
                0 <= i < old(self).pixels@.len() ==> {
                    &&& (#[trigger] final(self).pixels@[i]).1 == old(self).pixels@[i].1
                        + buffer.pixels@[i].1
                    &&& call_ensures(
                        combine,
                        (old(self).pixels@[i].0, buffer.pixels@[i].0),
                        final(self).pixels@[i].0,
                    )
                },
    {
        let n = self.pixels.len();
        let count = self.sample_count;
        let mut i: usize = 0;
        while i < n
            invariant
                i <= n == self.pixels@.len() == buffer.pixels@.len(),
                n == old(self).pixels@.len(),
                count == old(self).sample_count == self.sample_count,
                count < MAX_SAMPLES,
                self.width == old(self).width,
                self.height == old(self).height,
                old(self).well_formed(),
                buffer.well_formed(),
                forall|a: C, b: C| call_requires(combine, (a, b)),
                forall|k: int| i <= k < n ==> self.pixels@[k] == old(self).pixels@[k],
                forall|k: int|
                    0 <= k < i ==> {
                        &&& (#[trigger] self.pixels@[k]).1 == old(self).pixels@[k].1
                            + buffer.pixels@[k].1
                        &&& call_ensures(
                            combine,
                            (old(self).pixels@[k].0, buffer.pixels@[k].0),
                            self.pixels@[k].0,
                        )
                    },
            decreases n - i,
        {
            let (sum, depth_sum) = self.pixels[i];
            let (colour, depth) = buffer.pixels[i];
            assert(MAX_DEPTH * count + MAX_DEPTH <= u32::MAX) by (nonlinear_arith)
                requires
                    count < MAX_SAMPLES,
            ;
            self.pixels[i] = (combine(sum, colour), depth_sum + depth);
            i += 1;
        }
        self.sample_count = count + 1;
    }

    /// Merges one pass where `accepts` allows it, and says whether it did;
    /// otherwise nothing changes.
    pub fn try_merge<F: Fn(C, C) -> C>(&mut self, buffer: &ImageBuffer<C>, combine: F) -> (merged: bool)
        requires
            old(self).well_formed(),
            buffer.well_formed(),
            forall|a: C, b: C| call_requires(combine, (a, b)),
        ensures
            final(self).well_formed(),
            merged == (old(self).sample_count < MAX_SAMPLES && old(self).width == buffer.width
                && old(self).height == buffer.height),
            !merged ==> *final(self) == *old(self),
            merged ==> final(self).sample_count == old(self).sample_count + 1,
            merged ==> final(self).pixels@.len() == old(self).pixels@.len(),
            merged ==> forall|i: int|
                0 <= i < old(self).pixels@.len() ==> {
                    &&& (#[trigger] final(self).pixels@[i]).1 == old(self).pixels@[i].1
                        + buffer.pixels@[i].1
                    &&& call_ensures(
                        combine,
                        (old(self).pixels@[i].0, buffer.pixels@[i].0),
                        final(self).pixels@[i].0,
                    )
                },
    {
        if self.accepts(buffer) {
            self.merge(buffer, combine);
            true
        } else {
            false
        }
    }

    /// The largest depth sum of the image, and 1 where all are 0: what the
    /// depth display divides by.
    pub fn max_depth(&self) -> (m: u32)
        ensures
            m >= 1,
            forall|i: int| 0 <= i < self.pixels@.len() ==> self.pixels@[i].1 <= m,
            m == 1 || exists|i: int| 0 <= i < self.pixels@.len() && self.pixels@[i].1 == m,
    {
        let n = self.pixels.len();
        let mut m: u32 = 1;
        let mut i: usize = 0;
        while i < n
            invariant
                i <= n == self.pixels@.len(),
                m >= 1,
                forall|k: int| 0 <= k < i ==> self.pixels@[k].1 <= m,
                m == 1 || exists|k: int| 0 <= k < i && self.pixels@[k].1 == m,
            decreases n - i,
        {
            let d = self.pixels[i].1;
            if d > m {
                m = d;
            }
            i += 1;
        }
        m
    }
}

/// An image of three channels for each pixel, row by row: what the first
/// surface behind each pixel is like.
pub struct FloatBuffer {
    pub pixels: Vec<Scalar>,
    pub width: u32,
    pub height: u32,
}

/// The place of the first channel of pixel `(x, y)` in a buffer that is
/// `width` wide.
pub open spec fn channel_index(width: u32, x: u32, y: u32) -> int {
    3 * pixel_index(width, x, y)
}

/// The channels of a buffer after the pixel whose first channel stands at
/// `at` is set to `colour`.
pub open spec fn with_pixel(channels: Seq<Scalar>, at: int, colour: V3) -> Seq<Scalar> {
    channels.update(at, colour.x).update(at + 1, colour.y).update(at + 2, colour.z)
}

/// The channels of a buffer after the pixels from the one at `i` on are
/// written into row `row`, column by column, as far as the row goes.
pub open spec fn with_row(channels: Seq<Scalar>, width: u32, row: u32, pixels: Seq<V3>, i: int)
    -> Seq<Scalar>
    decreases pixels.len() - i,
{
    if i < 0 || i >= pixels.len() || i >= width {
        channels
    } else {
        with_row(
            with_pixel(channels, channel_index(width, i as u32, row), pixels[i]),
            width,
            row,
            pixels,
            i + 1,
        )
    }
}

impl FloatBuffer {
    /// There are three channels for each place of the image.
    pub open spec fn well_formed(&self) -> bool {
        self.pixels@.len() == 3 * (self.width * self.height)
    }

    /// A buffer in which every channel is zero.
    pub fn new(width: u32, height: u32) -> (b: FloatBuffer)
        requires
            3 * (width * height) <= usize::MAX,
        ensures
            b.well_formed(),
            b.width == width,
            b.height == height,
            forall|i: int| 0 <= i < b.pixels@.len() ==> b.pixels@[i] == Scalar::zero_spec(),
    {
        let n = area(width, height) * 3;
        let mut pixels: Vec<Scalar> = Vec::new();
        let mut i: usize = 0;
        while i < n
            invariant
                i <= n,
                pixels@.len() == i,
                forall|k: int| 0 <= k < i ==> pixels@[k] == Scalar::zero_spec(),
            decreases n - i,
        {
            pixels.push(Scalar::zero());
            i += 1;
        }
        FloatBuffer { pixels, width, height }
    }

    /// Sets the three channels of pixel `position`, given as column and row.
    pub fn set(&mut self, position: (u32, u32), colour: V3)
        requires
            old(self).well_formed(),
            position.0 < old(self).width,
            position.1 < old(self).height,
        ensures
            final(self).well_formed(),
            final(self).width == old(self).width,
            final(self).height == old(self).height,
            final(self).pixels@ == with_pixel(
                old(self).pixels@,
                channel_index(old(self).width, position.0, position.1),
                colour,
            ),
    {
        let n = self.pixels.len();
        assert(n == 3 * (self.width * self.height));
        let index = 3 * index_of(self.width, self.height, position.0, position.1);
        self.pixels[index] = colour.x;
        self.pixels[index + 1] = colour.y;
        self.pixels[index + 2] = colour.z;
    }

    /// Writes `pixels` into row `row`, column by column, as far as the row
    /// goes.
    pub fn set_row(&mut self, row: u32, pixels: &[V3])
        requires
            old(self).well_formed(),
            row < old(self).height,
        ensures
            final(self).well_formed(),
            final(self).width == old(self).width,
            final(self).height == old(self).height,
            final(self).pixels@ == with_row(old(self).pixels@, old(self).width, row, pixels@, 0),
    {
        let n = pixels.len();
        let width = self.width;
        let mut column: u32 = 0;
        while column < width && (column as usize) < n
            invariant
                column <= width == self.width == old(self).width,
                n == pixels@.len(),
                self.height == old(self).height,
                row < self.height,
                self.well_formed(),
                with_row(old(self).pixels@, width, row, pixels@, 0) == with_row(
                    self.pixels@,
                    width,
                    row,
                    pixels@,
                    column as int,
                ),
            decreases width - column,
        {
            self.set((column, row), pixels[column as usize]);
            column += 1;
        }
    }

    /// The channels, row by row.
    pub fn as_slice(&self) -> (r: &[Scalar])
        ensures
            r@ == self.pixels@,
    {
        self.pixels.as_slice()
    }
}


} // verus!
