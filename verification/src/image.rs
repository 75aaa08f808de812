//! Decoded images, as a texture reads them.

use vstd::prelude::*;

verus! {

/// The pixels of an image, row after row, in one of eight layouts. A pixel
/// holds its channels in the order of the layout's name.
pub enum ImageData {
    RGB8(Vec<[u8; 3]>),
    RGBA8(Vec<[u8; 4]>),
    RGB16(Vec<[u16; 3]>),
    RGBA16(Vec<[u16; 4]>),
    GRAY8(Vec<u8>),
    GRAY16(Vec<u16>),
    GRAYA8(Vec<[u8; 2]>),
    GRAYA16(Vec<[u16; 2]>),
}

/// A decoded image.
pub struct Image {
    pub width: usize,
    pub height: usize,
    pub bitmap: ImageData,
}

/// The red, green and blue of one pixel, each out of `full`: a channel
/// stands for the number `channel / full` between zero and one.
#[derive(Debug, Clone, Copy, PartialEq, Eq, Structural)]
pub struct Pixel {
    pub r: u16,
    pub g: u16,
    pub b: u16,
    pub full: u16,
}

impl ImageData {
    /// The number of pixels.
    pub open spec fn spec_len(&self) -> nat {
        match self {
            ImageData::RGB8(img) => img@.len(),
            ImageData::RGBA8(img) => img@.len(),
            ImageData::RGB16(img) => img@.len(),
            ImageData::RGBA16(img) => img@.len(),
            ImageData::GRAY8(img) => img@.len(),
            ImageData::GRAY16(img) => img@.len(),
            ImageData::GRAYA8(img) => img@.len(),
            ImageData::GRAYA16(img) => img@.len(),
        }
    }

    /// The color of the pixel at a place of the buffer. A gray pixel has its
    /// one value in all three channels; transparency is left out.
    pub open spec fn spec_pixel(&self, at: int) -> Pixel {
        match self {
            ImageData::RGB8(img) => Pixel {
                r: img@[at]@[0] as u16,
                g: img@[at]@[1] as u16,
                b: img@[at]@[2] as u16,
                full: 0xFF,
            },
            ImageData::RGBA8(img) => Pixel {
                r: img@[at]@[0] as u16,
                g: img@[at]@[1] as u16,
                b: img@[at]@[2] as u16,
                full: 0xFF,
            },
            ImageData::RGB16(img) => Pixel {
                r: img@[at]@[0],
                g: img@[at]@[1],
                b: img@[at]@[2],
                full: 0xFFFF,
            },
            ImageData::RGBA16(img) => Pixel {
                r: img@[at]@[0],
                g: img@[at]@[1],
                b: img@[at]@[2],
                full: 0xFFFF,
            },
            ImageData::GRAY8(img) => Pixel {
                r: img@[at] as u16,
                g: img@[at] as u16,
                b: img@[at] as u16,
                full: 0xFF,
            },
            ImageData::GRAY16(img) => Pixel {
                r: img@[at],
                g: img@[at],
                b: img@[at],
                full: 0xFFFF,
            },
            ImageData::GRAYA8(img) => Pixel {
                r: img@[at]@[0] as u16,
                g: img@[at]@[0] as u16,
                b: img@[at]@[0] as u16,
                full: 0xFF,
            },
            ImageData::GRAYA16(img) => Pixel {
                r: img@[at]@[0],
                g: img@[at]@[0],
                b: img@[at]@[0],
                full: 0xFFFF,
            },
        }
    }
}

impl Image {
    /// Whether the buffer holds exactly the pixels of the image.
    pub open spec fn wf(&self) -> bool {
        self.bitmap.spec_len() == self.width * self.height
    }

    /// The color of the pixel in column `x` of row `y`.
    pub fn get_pixel_data(&self, x: usize, y: usize) -> (pixel: Pixel)
        requires
            x + self.width * y < self.bitmap.spec_len(),
        ensures
            pixel == self.bitmap.spec_pixel(x + self.width * y),
            pixel.r <= pixel.full && pixel.g <= pixel.full && pixel.b <= pixel.full,
    {
        let ghost place = x + self.width * y;
        match &self.bitmap {
            ImageData::RGB8(img) => {
                let at = pixel_offset(x, self.width, y, img.len());
                let pixel = &img[at];
                Pixel { r: pixel[0] as u16, g: pixel[1] as u16, b: pixel[2] as u16, full: 0xFF }
            },
            ImageData::RGBA8(img) => {
                let at = pixel_offset(x, self.width, y, img.len());
                let pixel = &img[at];
                Pixel { r: pixel[0] as u16, g: pixel[1] as u16, b: pixel[2] as u16, full: 0xFF }
            },
            ImageData::RGB16(img) => {
                let at = pixel_offset(x, self.width, y, img.len());
                let pixel = &img[at];
                Pixel { r: pixel[0], g: pixel[1], b: pixel[2], full: 0xFFFF }
            },
            ImageData::RGBA16(img) => {
                let at = pixel_offset(x, self.width, y, img.len());
                let pixel = &img[at];
                Pixel { r: pixel[0], g: pixel[1], b: pixel[2], full: 0xFFFF }
            },
            ImageData::GRAY8(img) => {
                let at = pixel_offset(x, self.width, y, img.len());
                let pixel = img[at];
                Pixel { r: pixel as u16, g: pixel as u16, b: pixel as u16, full: 0xFF }
            },
            ImageData::GRAY16(img) => {
                let at = pixel_offset(x, self.width, y, img.len());
                let pixel = img[at];
                Pixel { r: pixel, g: pixel, b: pixel, full: 0xFFFF }
            },
            ImageData::GRAYA8(img) => {
                let at = pixel_offset(x, self.width, y, img.len());
                let pixel = &img[at];
                Pixel { r: pixel[0] as u16, g: pixel[0] as u16, b: pixel[0] as u16, full: 0xFF }
            },
            ImageData::GRAYA16(img) => {
                let at = pixel_offset(x, self.width, y, img.len());
                let pixel = &img[at];
                Pixel { r: pixel[0], g: pixel[0], b: pixel[0], full: 0xFFFF }
            },
        }
    }
}

impl Image {
    /// The pixel that a texture shows at column `i` of row `j`: the pixel
    /// there, or the nearest one of the image where the place lies beyond
    /// the last column or row. An image without pixels shows none.
    pub fn sample(&self, i: usize, j: usize) -> (pixel: Option<Pixel>)
        requires
            self.wf(),
        ensures
            (self.width == 0 || self.height == 0) <==> pixel.is_none(),
            pixel matches Some(p) ==> p == self.bitmap.spec_pixel(
                spec_nearest(i, self.width) + self.width * spec_nearest(j, self.height),
            ),
    {
        if self.width == 0 || self.height == 0 {
            return None;
        }
        let x = if i < self.width {
            i
        } else {
            self.width - 1
        };
        let y = if j < self.height {
            j
        } else {
            self.height - 1
        };
        proof {
            lemma_pixels_are_in_reach(*self, x, y, x, y);
        }
        Some(self.get_pixel_data(x, y))
    }
}

/// The column or row of an image nearest to a place: the place itself, or
/// the last one where the place lies beyond it.
pub open spec fn spec_nearest(at: usize, count: usize) -> int {
    if at < count {
        at as int
    } else {
        count - 1
    }
}

/// The place of a pixel in a buffer of rows.
fn pixel_offset(x: usize, width: usize, y: usize, len: usize) -> (at: usize)
    requires
        x + width * y < len,
    ensures
        at == x + width * y,
{
    assert(width * y <= usize::MAX) by (nonlinear_arith)
        requires
            x + width * y < len,
            len <= usize::MAX,
            x >= 0,
    ;
    x + width * y
}

/// In an image whose buffer holds exactly its pixels, every column of every
/// row has its pixel, and two different places have different pixels.
pub proof fn lemma_pixels_are_in_reach(image: Image, x: usize, y: usize, x2: usize, y2: usize)
    requires
        image.wf(),
        x < image.width,
        y < image.height,
        x2 < image.width,
        y2 < image.height,
    ensures
        x + image.width * y < image.bitmap.spec_len(),
        (x2 != x || y2 != y) ==> x2 + image.width * y2 != x + image.width * y,
{
    let w = image.width as int;
    let h = image.height as int;
    assert(x + w * y < w * h) by (nonlinear_arith)
        requires
            0 <= x < w,
            0 <= y < h,
    ;
    if y2 != y {
        assert(x2 + w * y2 != x + w * y) by (nonlinear_arith)
            requires
                0 <= x < w,
                0 <= x2 < w,
                y2 != y,
        ;
    }
}

} // verus!
