//! Images as the pipeline takes them: 8-bit RGBA pixels, row after row; and
//! what the `image` crate does for them: decoding into such pixels and
//! resampling.

use vstd::prelude::*;

verus! {

/// A decoded image of the `image` crate, of whatever pixel type.
#[verifier::external_type_specification]
#[verifier::external_body]
pub struct ExDynamicImage(image::DynamicImage);

/// The width of a decoded image in pixels: what `image::DynamicImage::width`
/// returns.
pub uninterp spec fn decoded_width(img: image::DynamicImage) -> int;

/// The height of a decoded image in pixels: what
/// `image::DynamicImage::height` returns.
pub uninterp spec fn decoded_height(img: image::DynamicImage) -> int;

/// A decoded image holds its samples as single-precision numbers: it is of
/// the variant `ImageRgb32F` or `ImageRgba32F` of `image::DynamicImage`.
pub uninterp spec fn decoded_is_float(img: image::DynamicImage) -> bool;

/// The pixels of a decoded image as 8-bit RGBA, row after row: the buffer of
/// what `image::DynamicImage::to_rgba8` returns.
pub uninterp spec fn decoded_rgba(img: image::DynamicImage) -> Seq<u8>;

/// The pixels of an RGBA image of `width` by `height` resampled to
/// `new_width` by `new_height` with the nearest-neighbour filter: the buffer
/// of what `image::imageops::resize` returns.
pub uninterp spec fn resized_rgba(
    pixels: Seq<u8>,
    width: int,
    height: int,
    new_width: int,
    new_height: int,
) -> Seq<u8>;

/// `image::DynamicImage::width`. Taken on trust: it returns the width of the
/// image.
#[verifier::external_body]
fn image_width(img: &image::DynamicImage) -> (w: u32)
    ensures
        w == decoded_width(*img),
{
    img.width()
}

/// `image::DynamicImage::height`. Taken on trust: it returns the height of
/// the image.
#[verifier::external_body]
fn image_height(img: &image::DynamicImage) -> (h: u32)
    ensures
        h == decoded_height(*img),
{
    img.height()
}

/// The variants of `image::DynamicImage`, told apart. Taken on trust: the
/// two variants named are the ones whose samples are single-precision
/// numbers.
#[verifier::external_body]
fn image_is_float(img: &image::DynamicImage) -> (f: bool)
    ensures
        f == decoded_is_float(*img),
{
    match img {
        image::DynamicImage::ImageRgb32F(_) => true,
        image::DynamicImage::ImageRgba32F(_) => true,
        _ => false,
    }
}

/// `image::DynamicImage::to_rgba8`, and `into_raw` on what it returns. Taken
/// on trust: the buffer holds four bytes for each pixel of the image and
/// nothing else. The call allocates that buffer and fails where its length
/// has no place in a vector, so such images are kept away from it. It also
/// fails on a single-precision sample that is not a number, which no cast to
/// a byte takes, so images of single-precision samples are kept away too;
/// samples of 8 and 16 bits convert by whole-number arithmetic that cannot
/// fail.
#[verifier::external_body]
fn image_rgba8(img: &image::DynamicImage) -> (p: Vec<u8>)
    requires
        !decoded_is_float(*img),
        4 * decoded_width(*img) * decoded_height(*img) <= isize::MAX,
    ensures
        p@ == decoded_rgba(*img),
        p.len() == 4 * decoded_width(*img) * decoded_height(*img),
{
    img.to_rgba8().into_raw()
}

/// `image::imageops::resize` with `FilterType::Nearest`, on RGBA pixels.
/// Taken on trust: the buffer it returns holds four bytes for each pixel of
/// the new size. The call reads pixels of the source, which must have some,
/// and allocates a buffer of four single-precision numbers for each pixel of
/// the new height and the old width, and one of four bytes for each pixel of
/// the new size; it fails where either has no place in a vector.
#[verifier::external_body]
fn resize_rgba(pixels: &Vec<u8>, width: u32, height: u32, new_width: u32, new_height: u32) -> (out:
    Vec<u8>)
    requires
        pixels.len() == 4 * width * height,
        width > 0,
        height > 0,
        16 * width * new_height <= isize::MAX,
        16 * new_width * new_height <= isize::MAX,
    ensures
        out@ == resized_rgba(
            pixels@,
            width as int,
            height as int,
            new_width as int,
            new_height as int,
        ),
        out.len() == 4 * new_width * new_height,
{
    let source =
        image::ImageBuffer::<image::Rgba<u8>, &[u8]>::from_raw(width, height, pixels.as_slice())
            .unwrap();
    let filter = image::imageops::FilterType::Nearest;
    image::imageops::resize(&source, new_width, new_height, filter).into_raw()
}

/// An image of 8-bit RGBA pixels, row after row without padding. A row is at
/// most 4 GiB long, so that its length can be told to the GPU.
#[derive(Debug, PartialEq, Eq)]
pub struct RgbaImage {
    width: u32,
    height: u32,
    pixels: Vec<u8>,
}

/// The number of bytes that an RGBA image of the given size holds.
pub open spec fn rgba_len(width: int, height: int) -> int {
    4 * width * height
}

/// An image of `width` by `height` can be resampled to `new_width` by
/// `new_height`: it has pixels, a row of the new size fits in 32 bits, and the
/// buffers of the resampling, at 16 bytes a pixel, have a place in a vector.
pub open spec fn can_resize(width: int, height: int, new_width: int, new_height: int) -> bool {
    &&& width > 0
    &&& height > 0
    &&& 4 * new_width <= 0xffff_ffff
    &&& 16 * width * new_height <= isize::MAX
    &&& 16 * new_width * new_height <= isize::MAX
}

/// A buffer of `len` bytes can back an RGBA image of the given size: it holds
/// all its pixels and a row's length fits in 32 bits.
pub open spec fn rgba_fits(width: int, height: int, len: int) -> bool {
    4 * width <= 0xffff_ffff && rgba_len(width, height) <= len
}

impl RgbaImage {
    #[verifier::type_invariant]
    spec fn well_formed(self) -> bool {
        &&& 4 * self.width <= 0xffff_ffff
        &&& self.pixels.len() == rgba_len(self.width as int, self.height as int)
    }

    /// The width in pixels.
    pub closed spec fn spec_width(self) -> u32 {
        self.width
    }

    /// The height in pixels.
    pub closed spec fn spec_height(self) -> u32 {
        self.height
    }

    /// The bytes of the pixels.
    pub closed spec fn spec_pixels(self) -> Seq<u8> {
        self.pixels@
    }

    /// The image of the given size over the first bytes of `buf`, or nothing
    /// where `buf` is too short for it or a row too long. Bytes beyond the
    /// last pixel are dropped.
    pub fn from_raw(width: u32, height: u32, buf: Vec<u8>) -> (r: Option<RgbaImage>)
        ensures
            r is Some <==> rgba_fits(width as int, height as int, buf.len() as int),
            r matches Some(img) ==> {
                &&& img.spec_width() == width
                &&& img.spec_height() == height
                &&& img.spec_pixels() == buf@.take(rgba_len(width as int, height as int))
            },
    {
        if width > 0x3fff_ffff {
            return None;
        }
        let row: u64 = 4 * (width as u64);
        assert(row * height == rgba_len(width as int, height as int)) by (nonlinear_arith)
            requires
                row == 4 * width,
        ;
        assert(row * height <= 0xffff_ffff * 0xffff_ffff) by (nonlinear_arith)
            requires
                0 <= row <= 0xffff_ffff,
                0 <= height <= 0xffff_ffff,
        ;
        let need: u64 = row * (height as u64);
        if need > buf.len() as u64 {
            return None;
        }
        let mut pixels = buf;
        pixels.truncate(need as usize);
        Some(RgbaImage { width, height, pixels })
    }

    /// The width in pixels.
    pub fn width(&self) -> (w: u32)
        ensures
            w == self.spec_width(),
            4 * w <= 0xffff_ffff,
    {
        proof {
            use_type_invariant(self);
        }
        self.width
    }

    /// The height in pixels.
    pub fn height(&self) -> (h: u32)
        ensures
            h == self.spec_height(),
    {
        self.height
    }

    /// The bytes of the pixels, out of the image.
    pub fn into_raw(self) -> (p: Vec<u8>)
        ensures
            p@ == self.spec_pixels(),
            p.len() == rgba_len(self.spec_width() as int, self.spec_height() as int),
    {
        proof {
            use_type_invariant(&self);
        }
        self.pixels
    }

    /// The bytes of the pixels: four for each pixel, row after row.
    pub fn as_raw(&self) -> (p: &Vec<u8>)
        ensures
            p@ == self.spec_pixels(),
            p.len() == rgba_len(self.spec_width() as int, self.spec_height() as int),
    {
        proof {
            use_type_invariant(self);
        }
        &self.pixels
    }
}

/// A decoded image can be taken as RGBA pixels: its samples are whole
/// numbers, a row of it fits in 32 bits and its pixels have a place in a
/// vector.
pub open spec fn can_decode(img: image::DynamicImage) -> bool {
    !decoded_is_float(img) && rgba_fits(
        decoded_width(img),
        decoded_height(img),
        isize::MAX as int,
    )
}

/// A decoded image as RGBA pixels, or nothing where its samples are
/// single-precision numbers, a row of it is too long for the GPU or its
/// pixels have no place in a vector.
pub fn rgba_image_of(img: &image::DynamicImage) -> (r: Option<RgbaImage>)
    ensures
        r is Some <==> can_decode(*img),
        r matches Some(out) ==> {
            &&& out.spec_width() == decoded_width(*img)
            &&& out.spec_height() == decoded_height(*img)
            &&& out.spec_pixels() == decoded_rgba(*img)
        },
{
    if image_is_float(img) {
        return None;
    }
    let width = image_width(img);
    let height = image_height(img);
    if width > 0x3fff_ffff {
        return None;
    }
    assert(4 * width * height <= 0xffff_ffff * 0xffff_ffff) by (nonlinear_arith)
        requires
            0 <= 4 * width <= 0xffff_ffff,
            0 <= height <= 0xffff_ffff,
    ;
    let need: u128 = 4 * (width as u128) * (height as u128);
    if need > isize::MAX as u128 {
        return None;
    }
    let pixels = image_rgba8(img);
    let ghost all = pixels@;
    let out = RgbaImage::from_raw(width, height, pixels);
    assert(all.take(all.len() as int) =~= all);
    out
}

/// The image resampled to `width` by `height` with the nearest-neighbour
/// filter; the image itself where it has that size already. Nothing where the
/// image has no pixels to sample, a row of the new size is too long for the
/// GPU, or the buffers of the resampling have no place in a vector.
pub fn resize_exact(img: RgbaImage, width: u32, height: u32) -> (r: Option<RgbaImage>)
    ensures
        img.spec_width() == width && img.spec_height() == height ==> r == Some(img),
        !(img.spec_width() == width && img.spec_height() == height) ==> {
            &&& r is Some <==> can_resize(
                img.spec_width() as int,
                img.spec_height() as int,
                width as int,
                height as int,
            )
            &&& r matches Some(out) ==> {
                &&& out.spec_width() == width
                &&& out.spec_height() == height
                &&& out.spec_pixels() == resized_rgba(
                    img.spec_pixels(),
                    img.spec_width() as int,
                    img.spec_height() as int,
                    width as int,
                    height as int,
                )
            }
        },
{
    proof {
        use_type_invariant(&img);
    }
    if img.width == width && img.height == height {
        return Some(img);
    }
    if img.width == 0 || img.height == 0 || width > 0x3fff_ffff {
        return None;
    }
    assert(16 * img.width * height <= 16 * 0xffff_ffff * 0xffff_ffff && 16 * width * height <= 16
        * 0xffff_ffff * 0xffff_ffff) by (nonlinear_arith)
        requires
            0 <= img.width <= 0xffff_ffff,
            0 <= width <= 0xffff_ffff,
            0 <= height <= 0xffff_ffff,
    ;
    let tall: u128 = 16 * (img.width as u128) * (height as u128);
    let wide: u128 = 16 * (width as u128) * (height as u128);
    if tall > isize::MAX as u128 || wide > isize::MAX as u128 {
        return None;
    }
    let pixels = resize_rgba(&img.pixels, img.width, img.height, width, height);
    let ghost all = pixels@;
    let out = RgbaImage::from_raw(width, height, pixels);
    assert(all.take(all.len() as int) =~= all);
    out
}

/// The image that a clipboard hands over as a width, a height and a buffer of
/// RGBA bytes, or nothing where the buffer is too short for that size, the
/// height does not fit in 32 bits or a row is too long.
pub fn image_from_clipboard(width: usize, height: usize, bytes: Vec<u8>) -> (r: Option<RgbaImage>)
    ensures
        r is Some <==> height <= 0xffff_ffff && rgba_fits(
            width as int,
            height as int,
            bytes.len() as int,
        ),
        r matches Some(img) ==> {
            &&& img.spec_width() == width
            &&& img.spec_height() == height
            &&& img.spec_pixels() == bytes@.take(rgba_len(width as int, height as int))
        },
{
    if width > 0xffff_ffff || height > 0xffff_ffff {
        return None;
    }
    RgbaImage::from_raw(width as u32, height as u32, bytes)
}

} // verus!
