//! Screenshots as they are loaded from image files.
use vstd::prelude::*;

verus! {

/// An image of four-byte pixels in the order red, green, blue, alpha, row by row
/// from the top.
#[derive(Debug)]
pub struct Screenshot {
    pub width: u32,
    pub height: u32,
    pub data: Vec<u8>,
}

/// Reads a pixel of an image through `ImageBuffer::get_pixel` of the `image`
/// crate, over a buffer that `ImageBuffer::from_raw` lays on the given bytes.
/// Trusted: for a pixel within the bounds of an image whose bytes are all there,
/// the four channels are the four bytes at the pixel's place, counted row by
/// row. Outside of the bounds `get_pixel` panics, and `from_raw` refuses too few
/// bytes.
#[verifier::external_body]
fn get_pixel(data: &Vec<u8>, width: u32, height: u32, x: u32, y: u32) -> (p: (u8, u8, u8, u8))
    requires
        x < width,
        y < height,
        width * height * 4 <= data@.len(),
    ensures
        p.0 == data@[(y * width + x) * 4],
        p.1 == data@[(y * width + x) * 4 + 1],
        p.2 == data@[(y * width + x) * 4 + 2],
        p.3 == data@[(y * width + x) * 4 + 3],
{
    let buffer: image::ImageBuffer<image::Rgba<u8>, &[u8]> =
        image::ImageBuffer::from_raw(width, height, data.as_slice()).unwrap();
    let [r, g, b, a] = buffer.get_pixel(x, y).0;
    (r, g, b, a)
}

impl Screenshot {
    /// Whether all pixels are there.
    pub open spec fn complete(self) -> bool {
        self.width * self.height * 4 <= self.data@.len()
    }

    /// Whether a pixel lies within the bounds.
    pub open spec fn has_pixel(self, x: int, y: int) -> bool {
        0 <= x < self.width && 0 <= y < self.height
    }

    /// Red, green and blue of a pixel.
    pub open spec fn pixel(self, x: int, y: int) -> (u8, u8, u8) {
        let at = (y * self.width + x) * 4;
        (self.data@[at], self.data@[at + 1], self.data@[at + 2])
    }

    /// The brightness of a pixel.
    pub open spec fn bright(self, x: int, y: int) -> int {
        let p = self.pixel(x, y);
        crate::color::spec_brightness(p.0, p.1, p.2)
    }

    /// Red, green and blue of a pixel.
    pub fn rgb(&self, x: u32, y: u32) -> (rgb: (u8, u8, u8))
        requires
            self.complete(),
            self.has_pixel(x as int, y as int),
        ensures
            rgb == self.pixel(x as int, y as int),
    {
        let (r, g, b, _) = get_pixel(&self.data, self.width, self.height, x, y);
        (r, g, b)
    }

    /// Whether all pixels are there.
    pub fn is_complete(&self) -> (whole: bool)
        ensures
            whole == self.complete(),
    {
        assert(self.width * self.height <= 0xffff_ffff * 0xffff_ffff) by (nonlinear_arith)
            requires
                self.width <= 0xffff_ffff,
                self.height <= 0xffff_ffff,
        ;
        self.width as u128 * self.height as u128 * 4 <= self.data.len() as u128
    }
}

/// A pixel of a screenshot is read from its own four bytes, which hold red, green, blue
/// and alpha in this order, so many pixels into the image as come before it.
pub proof fn law_screenshot_pixel_reads_its_own_bytes(image: Screenshot, x: int, y: int)
    ensures
        ({
            let at = 4 * (y * image.width + x);
            let (r, g, b) = image.pixel(x, y);
            &&& r == image.data@[at]
            &&& g == image.data@[at + 1]
            &&& b == image.data@[at + 2]
            &&& image.bright(x, y) == (r + g + b) / 3
        }),
{
}

} // verus!
