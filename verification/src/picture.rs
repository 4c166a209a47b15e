//! The rendered picture: an image buffer of the `image` crate.
use vstd::prelude::*;

verus! {

/// A buffer of eight-bit red, green and blue pixels, held by the `image`
/// crate.
#[verifier::external_body]
pub struct Picture {
    buffer: image::RgbImage,
}

/// The bytes of a picture: three for each pixel, row after row from the
/// top, each row from the left.
pub uninterp spec fn picture_bytes(p: Picture) -> Seq<u8>;

/// The number of pixels in each row of a picture.
pub uninterp spec fn picture_width(p: Picture) -> nat;

/// The number of rows of a picture.
pub uninterp spec fn picture_height(p: Picture) -> nat;

/// Where the bytes of the pixel in column `x` and row `y` start.
pub open spec fn offset(p: Picture, x: int, y: int) -> int {
    3 * (y * picture_width(p) + x)
}

/// Whether the pixel in column `x` and row `y` is inside the picture.
pub open spec fn inside(p: Picture, x: int, y: int) -> bool {
    0 <= x < picture_width(p) && 0 <= y < picture_height(p)
}

/// Whether the picture has three bytes for each of its pixels.
pub open spec fn whole(p: Picture) -> bool {
    picture_bytes(p).len() == 3 * picture_width(p) * picture_height(p)
}

/// The red, green and blue bytes of the pixel in column `x` and row `y`.
pub open spec fn spec_pixel_at(p: Picture, x: int, y: int) -> (u8, u8, u8) {
    let at: int = offset(p, x, y);
    (picture_bytes(p)[at], picture_bytes(p)[at + 1], picture_bytes(p)[at + 2])
}

/// `image::ImageBuffer::new`: a buffer of the given width and height with
/// every byte zero. The call panics where the buffer has more bytes than a
/// vector can hold, which the precondition leaves out.
#[verifier::external_body]
fn new_buffer(width: u32, height: u32) -> (p: Picture)
    requires
        3 * width * height <= isize::MAX,
    ensures
        picture_width(p) == width,
        picture_height(p) == height,
        picture_bytes(p) == Seq::new((3 * width * height) as nat, |i: int| 0u8),
{
    Picture { buffer: image::RgbImage::new(width, height) }
}

/// `image::ImageBuffer::put_pixel`: the three bytes of the pixel in column
/// `x` and row `y` become `rgb`, and no other byte changes. The call panics
/// outside the buffer, which the precondition leaves out.
#[verifier::external_body]
fn put_pixel(p: &mut Picture, x: u32, y: u32, rgb: [u8; 3])
    requires
        inside(*old(p), x as int, y as int),
    ensures
        picture_width(*final(p)) == picture_width(*old(p)),
        picture_height(*final(p)) == picture_height(*old(p)),
        picture_bytes(*final(p)) == picture_bytes(*old(p)).update(
            offset(*old(p), x as int, y as int),
            rgb[0],
        ).update(offset(*old(p), x as int, y as int) + 1, rgb[1]).update(
            offset(*old(p), x as int, y as int) + 2,
            rgb[2],
        ),
{
    p.buffer.put_pixel(x, y, image::Rgb(rgb))
}

/// `image::ImageBuffer::into_raw`: the buffer's bytes.
#[verifier::external_body]
fn into_raw(p: Picture) -> (bytes: Vec<u8>)
    ensures
        bytes@ == picture_bytes(p),
{
    p.buffer.into_raw()
}

/// Two pixels of one picture that differ do not share a byte.
pub proof fn lemma_pixels_apart(width: int, x1: int, y1: int, x2: int, y2: int)
    by (nonlinear_arith)
    requires
        0 <= x1 < width,
        0 <= x2 < width,
        0 <= y1,
        0 <= y2,
        x1 != x2 || y1 != y2,
    ensures
        3 * (y1 * width + x1) + 3 <= 3 * (y2 * width + x2) || 3 * (y2 * width + x2) + 3 <= 3 * (y1
            * width + x1),
{
    if y1 < y2 {
        assert((y1 + 1) * width <= y2 * width);
    } else if y2 < y1 {
        assert((y2 + 1) * width <= y1 * width);
    }
}

/// A pixel of a column below the width and a row below the height lies
/// inside a picture of that width and height.
pub proof fn lemma_pixel_inside(width: int, height: int, x: int, y: int)
    by (nonlinear_arith)
    requires
        0 <= x < width,
        0 <= y < height,
    ensures
        0 <= 3 * (y * width + x),
        3 * (y * width + x) + 3 <= 3 * width * height,
{
    assert((y + 1) * width <= height * width);
}

impl Picture {
    /// A black picture of the given width and height.
    pub fn new(width: u32, height: u32) -> (p: Picture)
        requires
            3 * width * height <= isize::MAX,
        ensures
            picture_width(p) == width,
            picture_height(p) == height,
            whole(p),
            forall|i: int| 0 <= i < picture_bytes(p).len() ==> picture_bytes(p)[i] == 0,
    {
        new_buffer(width, height)
    }

    /// Sets the pixel in column `x` and row `y` to `rgb`. Every other pixel
    /// stays as it is.
    pub fn set(&mut self, x: u32, y: u32, rgb: [u8; 3])
        requires
            whole(*old(self)),
            inside(*old(self), x as int, y as int),
        ensures
            picture_width(*final(self)) == picture_width(*old(self)),
            picture_height(*final(self)) == picture_height(*old(self)),
            whole(*final(self)),
            spec_pixel_at(*final(self), x as int, y as int) == (rgb[0], rgb[1], rgb[2]),
            forall|px: int, py: int|
                #![trigger spec_pixel_at(*final(self), px, py)]
                inside(*old(self), px, py) && (px != x || py != y) ==> spec_pixel_at(
                    *final(self),
                    px,
                    py,
                ) == spec_pixel_at(*old(self), px, py),
    {
        proof {
            lemma_pixel_inside(
                picture_width(*old(self)) as int,
                picture_height(*old(self)) as int,
                x as int,
                y as int,
            );
        }
        put_pixel(self, x, y, rgb);
        proof {
            let width: int = picture_width(*old(self)) as int;
            assert forall|px: int, py: int|
                #![trigger spec_pixel_at(*final(self), px, py)]
                inside(*old(self), px, py) && (px != x || py != y) implies spec_pixel_at(
                *self,
                px,
                py,
            ) == spec_pixel_at(*old(self), px, py) by {
                lemma_pixels_apart(width, px, py, x as int, y as int);
                lemma_pixel_inside(width, picture_height(*old(self)) as int, px, py);
            }
        }
    }

    /// The picture's bytes: three for each pixel, row after row.
    pub fn into_bytes(self) -> (bytes: Vec<u8>)
        ensures
            bytes@ == picture_bytes(self),
    {
        into_raw(self)
    }
}

} // verus!
