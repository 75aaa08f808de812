//! Scheduling a render: the pixels to trace, the checkpoint that lets an
//! interrupted render go on where it stopped, and the progress count.
//!
//! The checkpoint is the pixel buffer itself, three bytes to a pixel, one
//! row after the other. A pixel whose three bytes are zero has not been
//! rendered yet.

use vstd::prelude::*;
use vstd::arithmetic::div_mod::lemma_fundamental_div_mod_converse;

verus! {

/// The number of pixels of an image. An image without width or height has
/// none.
pub open spec fn spec_total_pixels(image_width: int, image_height: int) -> int {
    if image_width > 0 && image_height > 0 {
        image_width * image_height
    } else {
        0
    }
}

/// The number of bytes of the pixel buffer of an image.
pub open spec fn spec_file_size(image_width: int, image_height: int) -> int {
    3 * spec_total_pixels(image_width, image_height)
}

/// Whether pixel `k` of a buffer has been rendered: whether one of its
/// three bytes is not zero.
pub open spec fn is_rendered(contents: Seq<u8>, k: int) -> bool {
    contents[3 * k] != 0 || contents[3 * k + 1] != 0 || contents[3 * k + 2] != 0
}

/// Whether a checkpoint belongs to an image of the given size. One of
/// another length is stale, and is not read.
pub open spec fn is_current(contents: Seq<u8>, image_width: int, image_height: int) -> bool {
    contents.len() == spec_file_size(image_width, image_height)
}

/// The column and the row of pixel `k`, rows counted from the top.
pub open spec fn spec_position(k: int, image_width: int) -> (int, int) {
    (k % image_width, k / image_width)
}

/// The buffer of a finished image with the given pixel colors.
pub open spec fn image_of(colors: Seq<[u8; 3]>) -> Seq<u8> {
    Seq::new(3 * colors.len(), |b: int| colors[b / 3]@[b % 3])
}

/// A buffer of `n` pixels of which none is rendered.
pub open spec fn blank(n: nat) -> Seq<u8> {
    Seq::new(3 * n, |b: int| 0u8)
}

/// The buffer after a render pass over a checkpoint: the pixels that `done`
/// marks keep their bytes, and every other pixel gets its color.
pub open spec fn after_pass(contents: Seq<u8>, done: Seq<bool>, colors: Seq<[u8; 3]>) -> Seq<u8> {
    Seq::new(
        3 * colors.len(),
        |b: int|
            if done[b / 3] {
                contents[b]
            } else {
                colors[b / 3]@[b % 3]
            },
    )
}

/// Whether every rendered pixel of a buffer has the color that a render
/// gives it.
pub open spec fn agrees_with(contents: Seq<u8>, colors: Seq<[u8; 3]>) -> bool {
    forall|k: int, c: int|
        0 <= k < colors.len() && 0 <= c < 3 && is_rendered(contents, k) ==> #[trigger] contents[3
            * k + c] == colors[k]@[c]
}

/// The marks that [`pixel_indices`] gives the pixels of a checkpoint.
pub open spec fn done_marks(contents: Seq<u8>, image_width: int, image_height: int) -> Seq<bool> {
    Seq::new(
        spec_total_pixels(image_width, image_height) as nat,
        |k: int| is_current(contents, image_width, image_height) && is_rendered(contents, k),
    )
}

/// The number of pixels of the image.
pub fn total_pixels(image_width: i32, image_height: i32) -> (n: usize)
    requires
        spec_file_size(image_width as int, image_height as int) <= usize::MAX,
    ensures
        n == spec_total_pixels(image_width as int, image_height as int),
{
    if image_width > 0 && image_height > 0 {
        assert(image_width * image_height <= usize::MAX) by (nonlinear_arith)
            requires
                3 * (image_width * image_height) <= usize::MAX,
                image_width > 0,
                image_height > 0,
        ;
        image_width as usize * image_height as usize
    } else {
        0
    }
}

/// The length in bytes of the pixel buffer, and so of its checkpoint file.
pub fn file_size(image_width: i32, image_height: i32) -> (n: usize)
    requires
        spec_file_size(image_width as int, image_height as int) <= usize::MAX,
    ensures
        n == spec_file_size(image_width as int, image_height as int),
{
    3 * total_pixels(image_width, image_height)
}

/// Whether the three bytes at `3 * k` of a buffer hold a rendered pixel.
fn rendered_at(contents: &[u8], k: usize) -> (r: bool)
    requires
        3 * k + 2 < contents@.len(),
    ensures
        r == is_rendered(contents@, k as int),
{
    let len = contents.len();
    assert(3 * k + 2 < len);
    contents[3 * k] != 0 || contents[3 * k + 1] != 0 || contents[3 * k + 2] != 0
}

/// The pixels of an image in the order of the buffer, row by row from the
/// top and from left to right within a row, each with its column and row and
/// with a mark that says whether the checkpoint already holds it. A
/// checkpoint of the wrong length marks no pixel.
pub fn pixel_indices(image_width: i32, image_height: i32, contents: &[u8]) -> (indices: Vec<
    (bool, (i32, i32)),
>)
    requires
        spec_file_size(image_width as int, image_height as int) <= usize::MAX,
    ensures
        indices@.len() == spec_total_pixels(image_width as int, image_height as int),
        forall|k: int|
            0 <= k < indices@.len() ==> (#[trigger] indices@[k]).1.0 == spec_position(
                k,
                image_width as int,
            ).0 && indices@[k].1.1 == spec_position(k, image_width as int).1,
        forall|k: int|
            0 <= k < indices@.len() ==> (#[trigger] indices@[k]).0 == done_marks(
                contents@,
                image_width as int,
                image_height as int,
            )[k],
{
    let mut indices: Vec<(bool, (i32, i32))> = Vec::new();
    if image_width <= 0 || image_height <= 0 {
        return indices;
    }
    let size = file_size(image_width, image_height);
    let current = contents.len() == size;
    let ghost w = image_width as int;
    let ghost h = image_height as int;
    let mut j: i32 = 0;
    while j < image_height
        invariant
            0 <= j <= image_height,
            image_width > 0,
            w == image_width,
            h == image_height,
            size == 3 * (w * h),
            current == is_current(contents@, w, h),
            indices@.len() == j * w,
            forall|k: int|
                0 <= k < indices@.len() ==> (#[trigger] indices@[k]).1.0 == k % w && indices@[k].1.1
                    == k / w,
            forall|k: int|
                0 <= k < indices@.len() ==> (#[trigger] indices@[k]).0 == (current && is_rendered(
                    contents@,
                    k,
                )),
        decreases image_height - j,
    {
        let mut i: i32 = 0;
        while i < image_width
            invariant
                0 <= i <= image_width,
                0 <= j < image_height,
                w == image_width,
                h == image_height,
                size == 3 * (w * h),
                current == is_current(contents@, w, h),
                indices@.len() == j * w + i,
                forall|k: int|
                    0 <= k < indices@.len() ==> (#[trigger] indices@[k]).1.0 == k % w
                        && indices@[k].1.1 == k / w,
                forall|k: int|
                    0 <= k < indices@.len() ==> (#[trigger] indices@[k]).0 == (current
                        && is_rendered(contents@, k)),
            decreases image_width - i,
        {
            let k = indices.len();
            proof {
                lemma_fundamental_div_mod_converse(k as int, w, j as int, i as int);
                assert(j * w + i < w * h) by (nonlinear_arith)
                    requires
                        0 <= i < w,
                        0 <= j < h,
                ;
            }
            let done = current && rendered_at(contents, k);
            indices.push((done, (i, j)));
            i = i + 1;
        }
        assert((j + 1) * w == j * w + w) by (nonlinear_arith);
        j = j + 1;
    }
    assert(j * w == w * h) by (nonlinear_arith)
        requires
            j == h,
    ;
    indices
}

/// Writes the color of a pixel into its three bytes of the buffer.
pub fn store_pixel(out: &mut [u8], rgb: [u8; 3])
    requires
        old(out)@.len() == 3,
    ensures
        final(out)@ == rgb@,
{
    out[0] = rgb[0];
    out[1] = rgb[1];
    out[2] = rgb[2];
    assert(out@ =~= rgb@);
}

/// The seed of the random numbers of one pixel: the seed of the render,
/// moved on by the pixel's place in the buffer.
pub fn pixel_seed(seed: u64, pixel: u64) -> (r: u64)
    ensures
        r == (seed + pixel) % 0x1_0000_0000_0000_0000,
{
    seed.wrapping_add(pixel)
}

/// The count of finished pixels of a render.
#[derive(Debug, Clone, Copy, PartialEq, Eq, Structural)]
pub struct Progress {
    pub total_pixels: usize,
    pub pixels_done: usize,
}

impl Progress {
    /// The number of pixels between two reports: a hundredth of the image,
    /// and one pixel where the image has fewer than a hundred.
    pub open spec fn spec_pixels_per_percent(self) -> int {
        if self.total_pixels >= 100 {
            self.total_pixels as int / 100
        } else {
            1
        }
    }

    /// The part of the image that is finished, in percent, rounded down.
    pub open spec fn spec_percent(self) -> int {
        if self.total_pixels == 0 {
            100
        } else {
            self.pixels_done * 100 / self.total_pixels as int
        }
    }

    /// Whether every pixel is finished.
    pub open spec fn spec_is_complete(self) -> bool {
        self.pixels_done >= self.total_pixels
    }

    /// The state after one more pixel is finished.
    pub open spec fn spec_pixel_done(self) -> Progress {
        if self.pixels_done < self.total_pixels {
            Progress { total_pixels: self.total_pixels, pixels_done: (self.pixels_done + 1) as usize }
        } else {
            self
        }
    }

    /// The percentage to report after a pixel was finished, if any: one is
    /// due whenever the count of finished pixels is a multiple of the number
    /// of pixels between two reports.
    pub open spec fn spec_report(self) -> Option<u8> {
        let next = self.spec_pixel_done();
        if self.pixels_done < self.total_pixels && next.pixels_done as int
            % next.spec_pixels_per_percent() == 0 {
            Some(next.spec_percent() as u8)
        } else {
            None
        }
    }

    /// The count at the start of a render of `total_pixels` pixels.
    pub fn new(total_pixels: usize) -> (p: Self)
        ensures
            p.total_pixels == total_pixels,
            p.pixels_done == 0,
    {
        Progress { total_pixels, pixels_done: 0 }
    }

    /// Counts one finished pixel, whether it was traced now or found in the
    /// checkpoint, and says which percentage to report, if one is due. Once
    /// all pixels are counted, further calls change nothing.
    pub fn pixel_done(&mut self) -> (report: Option<u8>)
        ensures
            *final(self) == old(self).spec_pixel_done(),
            report == old(self).spec_report(),
            report matches Some(p) ==> p <= 100,
    {
        if self.pixels_done >= self.total_pixels {
            return None;
        }
        self.pixels_done = self.pixels_done + 1;
        let step = if self.total_pixels >= 100 {
            self.total_pixels / 100
        } else {
            1
        };
        if self.pixels_done % step == 0 {
            let done = self.pixels_done as u128;
            let total = self.total_pixels as u128;
            assert(done * 100 <= total * 100) by (nonlinear_arith)
                requires
                    done <= total,
            ;
            assert((done * 100) / (total as int) <= 100) by (nonlinear_arith)
                requires
                    done * 100 <= total * 100,
                    total > 0,
                    done >= 0,
            ;
            let percent = done * 100 / total;
            Some(percent as u8)
        } else {
            None
        }
    }

    /// Whether every pixel has been counted.
    pub fn is_complete(&self) -> (r: bool)
        ensures
            r == self.spec_is_complete(),
    {
        self.pixels_done >= self.total_pixels
    }
}

/// Resuming gives the image of an uninterrupted render. Take a render that
/// gives pixel `k` the color `colors[k]` whenever it traces it. A checkpoint
/// that an interrupted run of it left holds, for every pixel, either that
/// color or three zero bytes. A pass over this checkpoint, which traces the
/// pixels that are not marked as done, ends with the same buffer as a pass
/// over a blank buffer, and as a pass over a stale checkpoint of any
/// content: the finished image.
pub proof fn lemma_resume_completes_the_image(
    contents: Seq<u8>,
    stale: Seq<u8>,
    colors: Seq<[u8; 3]>,
    image_width: int,
    image_height: int,
)
    requires
        colors.len() == spec_total_pixels(image_width, image_height),
        is_current(contents, image_width, image_height),
        agrees_with(contents, colors),
        !is_current(stale, image_width, image_height),
    ensures
        after_pass(contents, done_marks(contents, image_width, image_height), colors) == image_of(
            colors,
        ),
        after_pass(
            blank(colors.len()),
            done_marks(blank(colors.len()), image_width, image_height),
            colors,
        ) == image_of(colors),
        after_pass(stale, done_marks(stale, image_width, image_height), colors) == image_of(colors),
{
    let n = colors.len();
    let marks = done_marks(contents, image_width, image_height);
    let got = after_pass(contents, marks, colors);
    let want = image_of(colors);
    assert forall|b: int| 0 <= b < 3 * n implies got[b] == want[b] by {
        let k = b / 3;
        let c = b % 3;
        assert(b == 3 * k + c);
        if marks[k] {
            assert(contents[3 * k + c] == colors[k]@[c]);
        }
    }
    assert(got =~= want);
    let zero = blank(n);
    let zero_marks = done_marks(zero, image_width, image_height);
    assert forall|b: int| 0 <= b < 3 * n implies after_pass(zero, zero_marks, colors)[b]
        == want[b] by {
        let k = b / 3;
        assert(!is_rendered(zero, k));
    }
    assert(after_pass(zero, zero_marks, colors) =~= want);
    assert(after_pass(stale, done_marks(stale, image_width, image_height), colors) =~= want);
}

/// Every pixel of the buffer has its own place: the column and the row of
/// pixel `k` lie within the image, and lead back to `k`.
pub proof fn lemma_position_round_trip(k: int, image_width: int, image_height: int)
    requires
        0 <= k < spec_total_pixels(image_width, image_height),
    ensures
        0 <= spec_position(k, image_width).0 < image_width,
        0 <= spec_position(k, image_width).1 < image_height,
        spec_position(k, image_width).1 * image_width + spec_position(k, image_width).0 == k,
{
    let w = image_width;
    vstd::arithmetic::div_mod::lemma_fundamental_div_mod(k, w);
    vstd::arithmetic::div_mod::lemma_mod_pos_bound(k, w);
    assert(k / w < image_height) by (nonlinear_arith)
        requires
            k == w * (k / w) + k % w,
            0 <= k % w < w,
            0 <= k < w * image_height,
            w > 0,
    ;
    assert(k / w >= 0) by (nonlinear_arith)
        requires
            k == w * (k / w) + k % w,
            0 <= k % w < w,
            0 <= k,
            w > 0,
    ;
    assert((k / w) * w == w * (k / w)) by (nonlinear_arith);
}

/// Two pixels of one render get different seeds.
pub proof fn lemma_pixel_seeds_differ(seed: u64, a: u64, b: u64)
    requires
        a != b,
    ensures
        (seed + a) % 0x1_0000_0000_0000_0000 != (seed + b) % 0x1_0000_0000_0000_0000,
{
}

} // verus!
