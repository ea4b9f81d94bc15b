//! Trusted boundary to the image crate.
//!
//! Rasters are opaque values of `image::DynamicImage`; the contracts track
//! their pixel dimensions and name the results that are pure functions of
//! the input bytes or pixels.

use image::GenericImage;
use vstd::prelude::*;

verus! {

#[verifier::external_type_specification]
#[verifier::external_body]
pub struct ExDynamicImage(image::DynamicImage);

/// Pixel width of a raster.
pub uninterp spec fn raster_width(img: image::DynamicImage) -> u32;

/// Pixel height of a raster.
pub uninterp spec fn raster_height(img: image::DynamicImage) -> u32;

/// Whether the image crate decodes this byte sequence; decoding reads the
/// buffer alone, so this is a function of the bytes.
pub uninterp spec fn decode_ok(bytes: Seq<u8>) -> bool;

/// The raster the image crate decodes from this byte sequence, a function
/// of the bytes alone.
pub uninterp spec fn decoded_of(bytes: Seq<u8>) -> image::DynamicImage;

/// The raster produced by the exact Lanczos3 resize, a function of the
/// source raster and the requested dimensions alone.
pub uninterp spec fn resized_of(img: image::DynamicImage, w: u32, h: u32) -> image::DynamicImage;

/// The raster produced by drawing `top` over `bottom` with its corner at
/// `(x, y)`, clipped at the borders: a function of its arguments alone.
pub uninterp spec fn overlay_of(
    bottom: image::DynamicImage,
    top: image::DynamicImage,
    x: i64,
    y: i64,
) -> image::DynamicImage;

/// The raster produced by setting one pixel, a function of its arguments
/// alone.
pub uninterp spec fn put_pixel_of(
    img: image::DynamicImage,
    x: u32,
    y: u32,
    r: u8,
    g: u8,
    b: u8,
    a: u8,
) -> image::DynamicImage;

/// Whether the JPEG encoder accepts this raster; the encoder reads the
/// raster alone, so this is a function of it.
pub uninterp spec fn jpeg_ok(img: image::DynamicImage) -> bool;

/// The JPEG encoding of a raster, a function of its pixels alone.
pub uninterp spec fn jpeg_bytes_of(img: image::DynamicImage) -> Seq<u8>;

/// Relies on image::load_from_memory: it decodes from the byte buffer alone
/// (guessing the format from its leading bytes), so whether it succeeds is a
/// function of the bytes.
#[verifier::external_body]
pub fn decode_image(bytes: &Vec<u8>) -> (r: Result<image::DynamicImage, String>)
    ensures
        r is Ok <==> decode_ok(bytes@),
        r matches Ok(img) ==> img == decoded_of(bytes@),
{
    image::load_from_memory(bytes.as_slice()).map_err(|e| format!("{}", e))
}

/// Relies on image::DynamicImage::width.
#[verifier::external_body]
pub fn image_width(img: &image::DynamicImage) -> (r: u32)
    ensures
        r == raster_width(*img),
{
    img.width()
}

/// Relies on image::DynamicImage::height.
#[verifier::external_body]
pub fn image_height(img: &image::DynamicImage) -> (r: u32)
    ensures
        r == raster_height(*img),
{
    img.height()
}

/// Relies on image::DynamicImage::resize_exact: the result has exactly the
/// requested dimensions, resampled with the Lanczos3 kernel.
#[verifier::external_body]
pub fn resize_exact_raster(img: &image::DynamicImage, w: u32, h: u32) -> (r: image::DynamicImage)
    requires
        w > 0,
        h > 0,
    ensures
        r == resized_of(*img, w, h),
        raster_width(r) == w,
        raster_height(r) == h,
{
    img.resize_exact(w, h, image::imageops::FilterType::Lanczos3)
}

/// Relies on image::DynamicImage::clone: an independent, pixel-identical
/// copy of the raster.
#[verifier::external_body]
pub fn clone_raster(img: &image::DynamicImage) -> (r: image::DynamicImage)
    ensures
        r == *img,
{
    img.clone()
}

/// Relies on image::imageops::overlay: draws `top` onto `bottom` with its
/// top-left corner at `(x, y)`, clipping whatever falls outside; the bottom
/// raster keeps its dimensions.
#[verifier::external_body]
pub fn overlay_raster(bottom: &mut image::DynamicImage, top: &image::DynamicImage, x: i64, y: i64)
    ensures
        *final(bottom) == overlay_of(*old(bottom), *top, x, y),
        raster_width(*final(bottom)) == raster_width(*old(bottom)),
        raster_height(*final(bottom)) == raster_height(*old(bottom)),
{
    image::imageops::overlay(bottom, top, x, y)
}

/// Relies on image::GenericImage::put_pixel for DynamicImage: sets the pixel
/// at `(x, y)` (it panics outside the bounds) and leaves the dimensions
/// alone.
#[verifier::external_body]
pub fn put_pixel_rgba(img: &mut image::DynamicImage, x: u32, y: u32, r: u8, g: u8, b: u8, a: u8)
    requires
        x < raster_width(*old(img)),
        y < raster_height(*old(img)),
    ensures
        *final(img) == put_pixel_of(*old(img), x, y, r, g, b, a),
        raster_width(*final(img)) == raster_width(*old(img)),
        raster_height(*final(img)) == raster_height(*old(img)),
{
    img.put_pixel(x, y, image::Rgba([r, g, b, a]))
}

/// Relies on image::DynamicImage::write_to with ImageFormat::Jpeg, after a
/// conversion to RGB (JPEG carries no alpha); the encoder reads the raster
/// and writes to the in-memory buffer alone, so both whether it succeeds
/// and the bytes it produces are functions of the raster.
#[verifier::external_body]
pub fn encode_jpeg(img: &image::DynamicImage) -> (r: Result<Vec<u8>, String>)
    ensures
        r is Ok <==> jpeg_ok(*img),
        r matches Ok(b) ==> b@ == jpeg_bytes_of(*img),
{
    let mut out: Vec<u8> = Vec::new();
    let rgb = image::DynamicImage::ImageRgb8(img.to_rgb8());
    match rgb.write_to(&mut std::io::Cursor::new(&mut out), image::ImageFormat::Jpeg) {
        Ok(()) => Ok(out),
        Err(e) => Err(format!("{}", e)),
    }
}

} // verus!
