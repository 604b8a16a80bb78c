//! PNG output through the `image` crate: a nearest-neighbour upscale and
//! RGBA8 and RGB8 PNG encodings, each a function of the pixels alone.
use vstd::prelude::*;

verus! {

/// `image::ImageError`, carried from the encoder to its message unopened.
#[verifier::external_type_specification]
#[verifier::external_body]
pub struct ExImageError(image::ImageError);

/// An RGBA8 image `width` pixels wide, scaled up `k` times to `nwidth` by
/// `nheight`: output pixel `(x, y)` is input pixel `(x / k, y / k)`.
pub open spec fn scale_up(rgba: Seq<u8>, width: int, k: int, nwidth: int, nheight: int) -> Seq<u8> {
    Seq::new(
        (nwidth * nheight * 4) as nat,
        |i: int| rgba[((i / 4 / nwidth) / k * width + (i / 4 % nwidth) / k) * 4 + i % 4],
    )
}

/// The PNG file that `image` writes for a `width` by `height` RGBA8 image.
pub uninterp spec fn png_encoding(width: u32, height: u32, rgba: Seq<u8>) -> Seq<u8>;

/// A PNG encoding failure, with the encoder's description.
#[derive(Debug, Clone, PartialEq, Eq)]
pub struct PngError {
    pub message: String,
}

/// `image::imageops::resize` with `FilterType::Nearest` on an RGBA8 buffer,
/// scaling by exactly 8 on both axes. Claimed: output pixel `(x, y)` is input
/// pixel `(x / 8, y / 8)`, channel for channel. The source samples with a box
/// kernel of support 0: output column `x` reads input columns from
/// `floor((x + 0.5) / 8) = x / 8` up to the next one, with weight 1, and the
/// same for rows; every `f32` step there is exact while the sides stay at or
/// below 2^23, so the bytes come back unchanged.
#[verifier::external_body]
pub(crate) fn resize_nearest(width: u32, height: u32, rgba: Vec<u8>, nwidth: u32, nheight: u32) -> (out: Vec<u8>)
    requires
        rgba@.len() == width * height * 4,
        width > 0,
        height > 0,
        nwidth == width * 8,
        nheight == height * 8,
        nwidth <= 0x80_0000,
        nheight <= 0x80_0000,
    ensures
        out@ == scale_up(rgba@, width as int, 8, nwidth as int, nheight as int),
{
    let img: image::RgbaImage = image::ImageBuffer::from_raw(width, height, rgba).unwrap();
    image::imageops::resize(&img, nwidth, nheight, image::imageops::FilterType::Nearest).into_raw()
}

/// `ImageBuffer::write_to` with `ImageFormat::Png` into memory, for an RGBA8
/// buffer. Claimed: on success the bytes are `png_encoding` of the arguments,
/// and it succeeds whenever both sides are positive: the PNG encoder refuses
/// only a zero width or height or a buffer of the wrong length, and writing
/// into a `Vec` cannot fail.
#[verifier::external_body]
pub(crate) fn encode_png_rgba(width: u32, height: u32, rgba: Vec<u8>) -> (r: Result<Vec<u8>, image::ImageError>)
    requires
        rgba@.len() == width * height * 4,
    ensures
        r matches Ok(bytes) ==> bytes@ == png_encoding(width, height, rgba@),
        width > 0 && height > 0 ==> r is Ok,
{
    let img: image::RgbaImage = image::ImageBuffer::from_raw(width, height, rgba).unwrap();
    let mut buf: Vec<u8> = Vec::new();
    match img.write_to(&mut std::io::Cursor::new(&mut buf), image::ImageFormat::Png) {
        Ok(()) => Ok(buf),
        Err(e) => Err(e),
    }
}

/// The `Display` text of an `image::ImageError`; nothing is claimed of it.
#[verifier::external_body]
pub(crate) fn image_error_text(e: &image::ImageError) -> String {
    e.to_string()
}

/// The PNG file that `image` writes for a `width` by `height` RGB8 image.
pub uninterp spec fn png_rgb_encoding(width: u32, height: u32, rgb: Seq<u8>) -> Seq<u8>;

/// `DynamicImage::write_to` with `ImageFormat::Png` into memory, for an RGB8
/// buffer. Claimed: on success the bytes are `png_rgb_encoding` of the
/// arguments, and it succeeds whenever both sides are positive, for the same
/// reasons as `encode_png_rgba` (RGB8 needs no conversion for PNG).
#[verifier::external_body]
pub(crate) fn encode_png_rgb(width: u32, height: u32, rgb: Vec<u8>) -> (r: Result<Vec<u8>, image::ImageError>)
    requires
        rgb@.len() == width * height * 3,
    ensures
        r matches Ok(bytes) ==> bytes@ == png_rgb_encoding(width, height, rgb@),
        width > 0 && height > 0 ==> r is Ok,
{
    let img: image::RgbImage = image::ImageBuffer::from_raw(width, height, rgb).unwrap();
    let mut buf: Vec<u8> = Vec::new();
    match image::DynamicImage::ImageRgb8(img).write_to(&mut std::io::Cursor::new(&mut buf), image::ImageFormat::Png) {
        Ok(()) => Ok(buf),
        Err(e) => Err(e),
    }
}

} // verus!
