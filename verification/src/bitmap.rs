//! Images in memory.
//!
//! The pixels are kept and moved by the `image` crate. What this library
//! relies on is written down in the contracts of the functions at the end
//! of this file; none of them is proved.

use vstd::prelude::*;

verus! {

/// The colour of a pixel: red, green, blue and alpha.
pub type Pixel = (u8, u8, u8, u8);

/// An image with four 8-bit channels per pixel: an `RgbaImage` of the
/// `image` crate. What it holds is known to the proofs by its size and its
/// pixels alone.
#[verifier::external_body]
#[derive(Debug)]
pub struct Bitmap {
    pub image: image::RgbaImage,
}

/// The width and the height of an image.
pub uninterp spec fn bitmap_size(bitmap: Bitmap) -> (int, int);

/// The pixels of an image, by column and row.
pub uninterp spec fn bitmap_pixels(bitmap: Bitmap) -> Map<(int, int), Pixel>;

/// The colour of a pixel after a pixel of the colour `over` was blended
/// onto it, as `Pixel::blend` of the `image` crate does for pixels with
/// four 8-bit channels.
pub uninterp spec fn blended(under: Pixel, over: Pixel) -> Pixel;

/// The column `x` and row `y` lie in an image of the given size.
pub open spec fn in_grid(size: (int, int), x: int, y: int) -> bool {
    0 <= x < size.0 && 0 <= y < size.1
}

/// The pixels of an image of the given size in which every channel of every
/// pixel is zero.
pub open spec fn blank_pixels(size: (int, int)) -> Map<(int, int), Pixel> {
    Map::new(|at: (int, int)| in_grid(size, at.0, at.1), |at: (int, int)| (0u8, 0u8, 0u8, 0u8))
}

/// The pixels of the part of an image that starts at column `x` and row
/// `y` and has the given size.
pub open spec fn cropped_pixels(pixels: Map<(int, int), Pixel>, x: int, y: int, size: (int, int))
    -> Map<(int, int), Pixel> {
    Map::new(
        |at: (int, int)| in_grid(size, at.0, at.1),
        |at: (int, int)| pixels[(x + at.0, y + at.1)],
    )
}

/// The pixels of an image after another image of the given size was
/// copied onto it, with its top-left corner at column `x` and row `y`.
pub open spec fn pasted_pixels(
    under: Map<(int, int), Pixel>,
    over: Map<(int, int), Pixel>,
    size: (int, int),
    x: int,
    y: int,
) -> Map<(int, int), Pixel> {
    Map::new(
        |at: (int, int)| under.contains_key(at),
        |at: (int, int)|
            if in_grid(size, at.0 - x, at.1 - y) {
                over[(at.0 - x, at.1 - y)]
            } else {
                under[at]
            },
    )
}

/// The mathematical value of a [`Bitmap`]: its width and height, and its
/// pixels by column and row.
pub struct Picture {
    pub size: (int, int),
    pub pixels: Map<(int, int), Pixel>,
}

impl View for Bitmap {
    type V = Picture;

    open spec fn view(&self) -> Picture {
        Picture { size: bitmap_size(*self), pixels: bitmap_pixels(*self) }
    }
}

impl Picture {
    /// The part of the picture that starts at column `x` and row `y` and
    /// has the given size.
    pub open spec fn cropped(self, x: int, y: int, size: (int, int)) -> Picture {
        Picture { size, pixels: cropped_pixels(self.pixels, x, y, size) }
    }

    /// The picture after `over` was copied onto it, with its top-left
    /// corner at column `x` and row `y`.
    pub open spec fn pasted(self, over: Picture, x: int, y: int) -> Picture {
        Picture { size: self.size, pixels: pasted_pixels(self.pixels, over.pixels, over.size, x, y) }
    }

    /// The picture of the given size in which every channel of every pixel
    /// is zero.
    pub open spec fn blank(size: (int, int)) -> Picture {
        Picture { size, pixels: blank_pixels(size) }
    }

    /// The picture after the pixel at column `x` and row `y` was given the
    /// colour `pixel`.
    pub open spec fn with_pixel(self, x: int, y: int, pixel: Pixel) -> Picture {
        Picture { size: self.size, pixels: self.pixels.insert((x, y), pixel) }
    }

    /// The picture after `over` was blended onto it, with its top-left
    /// corner at column `x` and row `y`. What of `over` does not come to
    /// lie on the picture is left out.
    pub open spec fn overlaid(self, over: Picture, x: int, y: int) -> Picture {
        Picture {
            size: self.size,
            pixels: Map::new(
                |at: (int, int)| self.pixels.contains_key(at),
                |at: (int, int)|
                    if in_grid(self.size, at.0, at.1) && in_grid(over.size, at.0 - x, at.1 - y) {
                        blended(self.pixels[at], over.pixels[(at.0 - x, at.1 - y)])
                    } else {
                        self.pixels[at]
                    },
            ),
        }
    }
}

impl Bitmap {

    /// `ImageBuffer::new` of the `image` crate: an image of the given size
    /// in which every channel of every pixel is zero. The crate panics
    /// where the samples are more than a vector can hold; those sizes are
    /// left out.
    #[verifier::external_body]
    pub(crate) fn blank(width: u32, height: u32) -> (bitmap: Bitmap)
        requires
            4 * (width * height) <= isize::MAX,
        ensures
            bitmap_size(bitmap) == (width as int, height as int),
            bitmap_pixels(bitmap) == blank_pixels((width as int, height as int)),
    {
        Bitmap { image: image::RgbaImage::new(width, height) }
    }

    /// `ImageBuffer::width` of the `image` crate.
    #[verifier::external_body]
    pub(crate) fn width(&self) -> (width: u32)
        ensures
            width == bitmap_size(*self).0,
    {
        self.image.width()
    }

    /// `ImageBuffer::height` of the `image` crate.
    #[verifier::external_body]
    pub(crate) fn height(&self) -> (height: u32)
        ensures
            height == bitmap_size(*self).1,
    {
        self.image.height()
    }

    /// `GenericImageView::view` of the `image` crate, made an image of its
    /// own by `SubImage::to_image`: the part of the image that starts at
    /// column `x` and row `y` and has the given size. The crate panics
    /// where the part does not lie in the image; those parts are left out.
    #[verifier::external_body]
    pub(crate) fn crop(&self, x: u32, y: u32, width: u32, height: u32) -> (part: Bitmap)
        requires
            x + width <= bitmap_size(*self).0,
            y + height <= bitmap_size(*self).1,
        ensures
            bitmap_size(part) == (width as int, height as int),
            bitmap_pixels(part) == cropped_pixels(
                bitmap_pixels(*self),
                x as int,
                y as int,
                (width as int, height as int),
            ),
    {
        Bitmap { image: image::GenericImageView::view(&self.image, x, y, width, height).to_image() }
    }

    /// `ImageBuffer::put_pixel` of the `image` crate: gives the pixel at
    /// column `x` and row `y` the colour `pixel`. The crate panics where
    /// the image has no such pixel; those are left out.
    #[verifier::external_body]
    pub(crate) fn put_pixel(&mut self, x: u32, y: u32, pixel: Pixel)
        requires
            x < bitmap_size(*old(self)).0,
            y < bitmap_size(*old(self)).1,
        ensures
            bitmap_size(*final(self)) == bitmap_size(*old(self)),
            bitmap_pixels(*final(self)) == bitmap_pixels(*old(self)).insert(
                (x as int, y as int),
                pixel,
            ),
    {
        self.image.put_pixel(x, y, image::Rgba([pixel.0, pixel.1, pixel.2, pixel.3]));
    }

    /// `imageops::overlay` of the `image` crate: blends `top` onto this
    /// image, with its top-left corner at column `x` and row `y`. Where a
    /// pixel of `top` comes to lie on a pixel of this image, that pixel
    /// gets the blend of the two colours; all other pixels stay.
    #[verifier::external_body]
    pub(crate) fn overlay(&mut self, top: &Bitmap, x: i64, y: i64)
        ensures
            bitmap_size(*final(self)) == bitmap_size(*old(self)),
            bitmap_pixels(*final(self)).dom() == bitmap_pixels(*old(self)).dom(),
            forall|column: int, row: int|
                in_grid(bitmap_size(*old(self)), column, row) && in_grid(
                    bitmap_size(*top),
                    column - x,
                    row - y,
                ) ==> #[trigger] bitmap_pixels(*final(self))[(column, row)] == blended(
                    bitmap_pixels(*old(self))[(column, row)],
                    bitmap_pixels(*top)[(column - x, row - y)],
                ),
            forall|at: (int, int)|
                bitmap_pixels(*old(self)).contains_key(at) && !(in_grid(
                    bitmap_size(*old(self)),
                    at.0,
                    at.1,
                ) && in_grid(bitmap_size(*top), at.0 - x, at.1 - y)) ==> #[trigger] bitmap_pixels(
                    *final(self),
                )[at] == bitmap_pixels(*old(self))[at],
    {
        image::imageops::overlay(&mut self.image, &top.image, x, y);
    }

    /// `GenericImage::copy_from` of the `image` crate: copies `source`
    /// onto this image, with its top-left corner at column `x` and row
    /// `y`. Nothing is copied, and `false` returned, where `source` does
    /// not lie in this image then.
    #[verifier::external_body]
    pub(crate) fn copy_from(&mut self, source: &Bitmap, x: u32, y: u32) -> (copied: bool)
        ensures
            copied == (bitmap_size(*source).0 + x <= bitmap_size(*old(self)).0 && bitmap_size(
                *source,
            ).1 + y <= bitmap_size(*old(self)).1),
            bitmap_size(*final(self)) == bitmap_size(*old(self)),
            copied ==> bitmap_pixels(*final(self)) == pasted_pixels(
                bitmap_pixels(*old(self)),
                bitmap_pixels(*source),
                bitmap_size(*source),
                x as int,
                y as int,
            ),
            !copied ==> bitmap_pixels(*final(self)) == bitmap_pixels(*old(self)),
    {
        image::GenericImage::copy_from(&mut self.image, &source.image, x, y).is_ok()
    }
}

} // verus!
