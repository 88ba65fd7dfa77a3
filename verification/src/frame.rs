//! The image as the workers see it: its size, its bands and its rows.
//!
//! The image is a flat buffer of `width * height` pixels, row after row from
//! the top. It is rendered in bands of one row each. A band is the slice of
//! the buffer that one worker fills on its own; band 0 is the top row of the
//! image, which the camera counts as its highest.
use vstd::prelude::*;

verus! {

/// The size of the image and the number of samples that each quarter of a
/// pixel takes.
#[derive(Clone, Copy, Debug, PartialEq, Eq, Structural)]
pub struct Frame {
    pub width: usize,
    pub height: usize,
    pub samples: usize,
}

/// Why no image of the given size is rendered.
#[derive(Clone, Copy, Debug, PartialEq, Eq, Structural)]
pub enum FrameError {
    /// No sample is to be taken.
    NoSamples,
    /// The image has no column.
    NoWidth,
    /// The number of pixels is beyond what the machine can count.
    TooLarge,
}

/// The height of an image of the given width: three quarters of it, rounded
/// down.
pub open spec fn height_of(width: int) -> int {
    width * 480 / 640
}

impl Frame {
    /// There is a column and a sample, the height follows from the width, and
    /// the machine can count the pixels.
    pub open spec fn wf(self) -> bool {
        &&& self.width >= 1
        &&& self.samples >= 1
        &&& self.height == height_of(self.width as int)
        &&& self.width * self.height <= usize::MAX
    }

    /// The image of the given width, or the reason why there is none: first
    /// for want of samples, then for want of columns, then for its size.
    pub fn new(width: usize, samples: usize) -> (r: Result<Frame, FrameError>)
        ensures
            match r {
                Ok(frame) => frame.wf() && frame.width == width && frame.samples == samples,
                Err(FrameError::NoSamples) => samples == 0,
                Err(FrameError::NoWidth) => samples != 0 && width == 0,
                Err(FrameError::TooLarge) => samples != 0 && width != 0 && width * height_of(
                    width as int,
                ) > usize::MAX,
            },
    {
        if samples == 0 {
            return Err(FrameError::NoSamples);
        }
        if width == 0 {
            return Err(FrameError::NoWidth);
        }
        let height: usize = width / 4 * 3 + width % 4 * 3 / 4;
        assert(height == height_of(width as int)) by {
            let q = width as int / 4;
            let r = width as int % 4;
            assert(width == 4 * q + r);
            assert(width * 480 == 640 * (3 * q) + 480 * r);
            if r == 0 {
                assert(width * 480 / 640 == 3 * q);
            } else if r == 1 {
                assert(width * 480 / 640 == 3 * q);
            } else if r == 2 {
                assert(width * 480 / 640 == 3 * q + 1);
            } else {
                assert(width * 480 / 640 == 3 * q + 2);
            }
        }
        match width.checked_mul(height) {
            Some(_) => Ok(Frame { width, height, samples }),
            None => Err(FrameError::TooLarge),
        }
    }

    /// The number of pixels, which is the length of the buffer.
    pub fn pixels(&self) -> (n: usize)
        requires
            self.wf(),
        ensures
            n == self.width * self.height,
    {
        self.width * self.height
    }

    /// The camera's row for band `y`: the camera counts rows from the bottom,
    /// the buffer from the top.
    pub fn row(&self, y: usize) -> (row: usize)
        requires
            y < self.height,
        ensures
            row == self.height - 1 - y,
            row < self.height,
    {
        self.height - y - 1
    }

    /// The part of the buffer that is band `y`: from the first index to the
    /// second, the second left out.
    pub fn band(&self, y: usize) -> (range: (usize, usize))
        requires
            self.wf(),
            y < self.height,
        ensures
            range.0 == y * self.width,
            range.1 == (y + 1) * self.width,
            range.1 <= self.width * self.height,
    {
        proof {
            lemma_band_bounds(self.width as int, self.height as int, y as int);
        }
        let start: usize = y * self.width;
        (start, start + self.width)
    }

    /// The index in the buffer of pixel `x` of band `y`.
    pub fn index(&self, x: usize, y: usize) -> (i: usize)
        requires
            self.wf(),
            x < self.width,
            y < self.height,
        ensures
            i == y * self.width + x,
            i < self.width * self.height,
    {
        proof {
            lemma_band_bounds(self.width as int, self.height as int, y as int);
        }
        y * self.width + x
    }
}

/// A band ends where the next one begins, and the last one ends with the
/// buffer.
pub proof fn lemma_band_bounds(width: int, height: int, y: int)
    requires
        0 <= y < height,
        0 <= width,
    ensures
        0 <= y * width <= (y + 1) * width <= width * height,
        (y + 1) * width == y * width + width,
{
    assert((y + 1) * width == y * width + width) by (nonlinear_arith);
    assert(0 <= y * width) by (nonlinear_arith)
        requires
            0 <= y,
            0 <= width,
    ;
    assert((y + 1) * width <= width * height) by (nonlinear_arith)
        requires
            y + 1 <= height,
            0 <= width,
    ;
}

/// The bands part the buffer: every pixel lies in one band and in no other.
/// The band of pixel `i` is `i / width`.
pub proof fn lemma_bands_part_buffer(width: int, height: int, i: int, y: int)
    requires
        1 <= width,
        0 <= height,
        0 <= i < width * height,
        0 <= y < height,
    ensures
        0 <= i / width < height,
        (i / width) * width <= i < (i / width + 1) * width,
        y * width <= i < (y + 1) * width ==> y == i / width,
{
    let q = i / width;
    assert(i == q * width + i % width && 0 <= i % width < width) by (nonlinear_arith)
        requires
            q == i / width,
            1 <= width,
    ;
    assert((q + 1) * width == q * width + width) by (nonlinear_arith);
    assert(0 <= q) by (nonlinear_arith)
        requires
            q == i / width,
            1 <= width,
            0 <= i,
    ;
    assert(q < height) by (nonlinear_arith)
        requires
            q * width <= i,
            i < width * height,
            1 <= width,
    ;
    if y * width <= i < (y + 1) * width {
        assert(y == q) by (nonlinear_arith)
            requires
                y * width <= i < (y + 1) * width,
                q * width <= i < (q + 1) * width,
                1 <= width,
        ;
    }
}

/// Counting the rows from the other end is its own inverse.
pub proof fn lemma_rows_mirror(height: int, y: int)
    requires
        0 <= y < height,
    ensures
        0 <= height - 1 - y < height,
        height - 1 - (height - 1 - y) == y,
{
}

} // verus!
