//! A decoded atlas image: RGBA pixels in rows, held by the `image` crate.

use image::GenericImageView;
use vstd::prelude::*;

verus! {

/// A decoded RGBA image, eight bits per channel. The pixels live in an
/// `image::RgbaImage`; contracts speak of them through [`sheet_width`],
/// [`sheet_height`] and [`sheet_pixels`].
#[verifier::external_body]
pub struct SheetImage {
    img: image::RgbaImage,
}

/// The width of the image in pixels, as `image::ImageBuffer::width` gives it.
pub uninterp spec fn sheet_width(sheet: SheetImage) -> nat;

/// The height of the image in pixels, as `image::ImageBuffer::height` gives it.
pub uninterp spec fn sheet_height(sheet: SheetImage) -> nat;

/// The channel bytes of the image's pixels: rows from top to bottom, pixels
/// from left to right within a row, and red, green, blue, alpha within a pixel.
pub uninterp spec fn sheet_pixels(sheet: SheetImage) -> Seq<u8>;

/// The index in [`sheet_pixels`] of channel `c` of the pixel at `(x, y)` in an
/// image `width` pixels wide.
pub open spec fn channel_index(width: nat, x: int, y: int, c: int) -> int {
    4 * (y * width + x) + c
}

/// The channel bytes of the rectangle `w` by `h` whose top left corner is at
/// `(x, y)`, cut from pixels laid out `width` to a row: rows from top to
/// bottom, pixels from left to right, four bytes per pixel.
pub open spec fn crop(pixels: Seq<u8>, width: nat, x: nat, y: nat, w: nat, h: nat) -> Seq<u8> {
    Seq::new(
        4 * w * h,
        |i: int|
            pixels[channel_index(
                width,
                x + (i / 4) % (w as int),
                y + (i / 4) / (w as int),
                i % 4,
            )],
    )
}

impl SheetImage {
    /// Calls `image::ImageBuffer::from_raw`, which accepts the buffer when it
    /// holds at least four bytes for each of `width * height` pixels and keeps
    /// the dimensions it was given. The pixels are the buffer's first
    /// `4 * width * height` bytes.
    #[verifier::external_body]
    fn from_raw(width: u32, height: u32, data: Vec<u8>) -> (r: Option<SheetImage>)
        ensures
            r is Some <==> 4 * width * height <= data@.len(),
            r matches Some(sheet) ==> {
                &&& sheet_width(sheet) == width
                &&& sheet_height(sheet) == height
                &&& sheet_pixels(sheet) == data@.subrange(0, 4 * width * height)
            },
    {
        image::RgbaImage::from_raw(width, height, data).map(|img| SheetImage { img })
    }

    /// Calls `image::ImageBuffer::width`.
    #[verifier::external_body]
    pub(crate) fn width(&self) -> (w: u32)
        ensures
            w == sheet_width(*self),
    {
        self.img.width()
    }

    /// Calls `image::ImageBuffer::height`.
    #[verifier::external_body]
    pub(crate) fn height(&self) -> (h: u32)
        ensures
            h == sheet_height(*self),
    {
        self.img.height()
    }

    /// Calls `image::GenericImageView::view` and walks the view with
    /// `image::GenericImageView::pixels`, which yields the view's pixels row by
    /// row from its top left corner; each pixel gives its four channel bytes.
    /// `view` panics on a rectangle that leaves the image, and `pixels` is
    /// only walked for a rectangle of non-zero width.
    #[verifier::external_body]
    pub(crate) fn cut(&self, x: u32, y: u32, w: u32, h: u32) -> (r: Vec<u8>)
        requires
            w > 0,
            x + w <= sheet_width(*self),
            y + h <= sheet_height(*self),
        ensures
            r@ == crop(
                sheet_pixels(*self),
                sheet_width(*self),
                x as nat,
                y as nat,
                w as nat,
                h as nat,
            ),
    {
        self.img.view(x, y, w, h).pixels().flat_map(|(_, _, p)| p.0).collect()
    }

    /// Makes an image `width` by `height` from its channel bytes, rows from
    /// top to bottom. `None` when `data` holds fewer than `4 * width * height`
    /// bytes; bytes beyond that many are not part of the image.
    pub fn new(width: u32, height: u32, data: Vec<u8>) -> (r: Option<SheetImage>)
        ensures
            r is Some <==> 4 * width * height <= data@.len(),
            r matches Some(sheet) ==> {
                &&& sheet_width(sheet) == width
                &&& sheet_height(sheet) == height
                &&& sheet_pixels(sheet) == data@.subrange(0, 4 * width * height)
            },
    {
        SheetImage::from_raw(width, height, data)
    }
}

} // verus!
