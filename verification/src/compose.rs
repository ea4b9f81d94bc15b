//! Layered composition: a source raster centered into the photo slot of a
//! fresh copy of the template, and a caption mark in the caption slot.

use crate::geometry::Geometry;
use crate::raster::clone_raster;
use crate::raster::image_height;
use crate::raster::image_width;
use crate::raster::overlay_of;
use crate::raster::overlay_raster;
use crate::raster::put_pixel_of;
use crate::raster::put_pixel_rgba;
use crate::raster::raster_height;
use crate::raster::raster_width;
use vstd::prelude::*;

verus! {

/// Offset that centers a source extent inside a region extent: half the
/// slack, floored; zero once the source is at least as large as the region.
pub open spec fn centering_offset(region: int, source: int) -> int {
    if region > source {
        (region - source) / 2
    } else {
        0
    }
}

pub fn compute_centering_offset(region: u32, source: u32) -> (r: u32)
    ensures
        r == centering_offset(region as int, source as int),
{
    if region > source {
        (region - source) / 2
    } else {
        0
    }
}

/// Centering is symmetric: the slack before and after the source differ by
/// at most one pixel, and together with the source they fill the region.
pub proof fn lemma_centering_symmetric(region: int, source: int)
    requires
        0 < source <= region,
    ensures
        centering_offset(region, source) + source + (region - source - centering_offset(
            region,
            source,
        )) == region,
        0 <= (region - source) - 2 * centering_offset(region, source) <= 1,
{
}

/// The point at which a source raster of the given extents is placed: the
/// photo region's origin plus the centering offset, per axis.
pub open spec fn placement_x(photo_region: Geometry, source_width: int) -> i64 {
    (photo_region.x as int + centering_offset(photo_region.width as int, source_width)) as i64
}

pub open spec fn placement_y(photo_region: Geometry, source_height: int) -> i64 {
    (photo_region.y as int + centering_offset(photo_region.height as int, source_height)) as i64
}

/// Overlays `source` onto an independent copy of `template`, its top-left
/// corner at the photo region's origin plus the centering offset on each
/// axis; whatever falls outside the template is clipped.  The template
/// itself is never touched, and the result keeps its dimensions.
pub fn composite_images(
    template: &image::DynamicImage,
    source: &image::DynamicImage,
    photo_region: &Geometry,
) -> (r: image::DynamicImage)
    requires
        photo_region.is_valid(),
    ensures
        r == overlay_of(
            *template,
            *source,
            placement_x(*photo_region, raster_width(*source) as int),
            placement_y(*photo_region, raster_height(*source) as int),
        ),
        raster_width(r) == raster_width(*template),
        raster_height(r) == raster_height(*template),
{
    let mut result = clone_raster(template);
    let source_width = image_width(source);
    let source_height = image_height(source);
    let offset_x = compute_centering_offset(photo_region.width, source_width);
    let offset_y = compute_centering_offset(photo_region.height, source_height);
    let centered_x = photo_region.x as i64 + offset_x as i64;
    let centered_y = photo_region.y as i64 + offset_y as i64;
    overlay_raster(&mut result, source, centered_x, centered_y);
    result
}

/// The caption mark's rectangle: sized by a fixed per-character advance on
/// a fixed line height (with a fixed allowance for the marker that precedes
/// the number), centered on the caption region's center, clipped to the
/// raster, as half-open bounds `(x0, y0, x_end, y_end)` with `x0 <= x_end`
/// and `y0 <= y_end`.
pub open spec fn caption_rect(txt_crop: Geometry, number_chars: int, iw: int, ih: int) -> (
    int,
    int,
    int,
    int,
) {
    let nc = if number_chars > 0xFFFFFFFF {
        0xFFFFFFFF as int
    } else {
        number_chars
    };
    let est_w = (nc + 4) * 12;
    let est_h: int = 30;
    let cx2 = 2 * (txt_crop.x as int) + txt_crop.width as int;
    let cy2 = 2 * (txt_crop.y as int) + txt_crop.height as int;
    let x0 = if cx2 > est_w {
        (cx2 - est_w) / 2
    } else {
        0
    };
    let y0 = if cy2 > est_h {
        (cy2 - est_h) / 2
    } else {
        0
    };
    let cap_x = if x0 + est_w < iw {
        x0 + est_w
    } else {
        iw
    };
    let cap_y = if y0 + est_h < ih {
        y0 + est_h
    } else {
        ih
    };
    let x_end = if cap_x < x0 {
        x0
    } else {
        cap_x
    };
    let y_end = if cap_y < y0 {
        y0
    } else {
        cap_y
    };
    (x0, y0, x_end, y_end)
}

/// One column of the caption mark: opaque black pixels at `x`, rows
/// `y .. y_end`.
pub open spec fn marked_col(img: image::DynamicImage, x: int, y: int, y_end: int)
    -> image::DynamicImage
    decreases y_end - y,
{
    if y >= y_end {
        img
    } else {
        marked_col(put_pixel_of(img, x as u32, y as u32, 0, 0, 0, 255), x, y + 1, y_end)
    }
}

/// The caption mark: opaque black pixels over the columns `x .. x_end`,
/// rows `y .. y_end`.
pub open spec fn marked_block(
    img: image::DynamicImage,
    x: int,
    x_end: int,
    y: int,
    y_end: int,
) -> image::DynamicImage
    decreases x_end - x,
{
    if x >= x_end {
        img
    } else {
        marked_block(marked_col(img, x, y, y_end), x + 1, x_end, y, y_end)
    }
}

/// The raster with the caption mark for a number of `number_chars`
/// characters drawn into the caption region.
pub open spec fn caption_marked(
    img: image::DynamicImage,
    txt_crop: Geometry,
    number_chars: int,
) -> image::DynamicImage {
    let r = caption_rect(txt_crop, number_chars, raster_width(img) as int, raster_height(img) as int);
    marked_block(img, r.0, r.2, r.1, r.3)
}

proof fn lemma_marked_col_snoc(img: image::DynamicImage, x: int, y: int, y_end: int)
    requires
        y <= y_end,
    ensures
        marked_col(img, x, y, y_end + 1) == put_pixel_of(
            marked_col(img, x, y, y_end),
            x as u32,
            y_end as u32,
            0,
            0,
            0,
            255,
        ),
    decreases y_end - y,
{
    let stepped = put_pixel_of(img, x as u32, y as u32, 0, 0, 0, 255);
    if y == y_end {
        assert(marked_col(img, x, y, y) == img);
        assert(marked_col(img, x, y, y + 1) == marked_col(stepped, x, y + 1, y + 1));
        assert(marked_col(stepped, x, y + 1, y + 1) == stepped);
    } else {
        assert(marked_col(img, x, y, y_end + 1) == marked_col(stepped, x, y + 1, y_end + 1));
        assert(marked_col(img, x, y, y_end) == marked_col(stepped, x, y + 1, y_end));
        lemma_marked_col_snoc(stepped, x, y + 1, y_end);
    }
}

proof fn lemma_marked_block_snoc(img: image::DynamicImage, x: int, x_end: int, y: int, y_end: int)
    requires
        x <= x_end,
    ensures
        marked_block(img, x, x_end + 1, y, y_end) == marked_col(
            marked_block(img, x, x_end, y, y_end),
            x_end,
            y,
            y_end,
        ),
    decreases x_end - x,
{
    let stepped = marked_col(img, x, y, y_end);
    if x == x_end {
        assert(marked_block(img, x, x, y, y_end) == img);
        assert(marked_block(img, x, x + 1, y, y_end) == marked_block(stepped, x + 1, x + 1, y, y_end));
        assert(marked_block(stepped, x + 1, x + 1, y, y_end) == stepped);
    } else {
        assert(marked_block(img, x, x_end + 1, y, y_end) == marked_block(stepped, x + 1, x_end + 1, y, y_end));
        assert(marked_block(img, x, x_end, y, y_end) == marked_block(stepped, x + 1, x_end, y, y_end));
        lemma_marked_block_snoc(stepped, x + 1, x_end, y, y_end);
    }
}

/// Marks the caption slot with an opaque high-contrast block sized after
/// the caption text (the sequence number behind its fixed marker prefix),
/// centered on the region's center and clipped at the raster's borders:
/// the raster becomes exactly `caption_marked` of its old value, so pixels
/// outside the block keep their values and the dimensions are kept.
pub fn add_text_overlay(img: &mut image::DynamicImage, txt_crop: &Geometry, number_chars: usize)
    ensures
        *final(img) == caption_marked(*old(img), *txt_crop, number_chars as int),
        raster_width(*final(img)) == raster_width(*old(img)),
        raster_height(*final(img)) == raster_height(*old(img)),
{
    let ghost img0 = *img;
    let iw = image_width(img);
    let ih = image_height(img);
    let ghost rect = caption_rect(*txt_crop, number_chars as int, iw as int, ih as int);
    // Estimated footprint of the caption: a fixed per-character advance on
    // a fixed line height, counting a fixed allowance for the marker that
    // precedes the number.
    let nc: u64 = if number_chars > 0xFFFFFFFFusize {
        0xFFFFFFFFu64
    } else {
        number_chars as u64
    };
    let est_w: u64 = (nc + 4) * 12;
    let est_h: u64 = 30;
    // Twice the region's center, so that halving once keeps the rounding of
    // `center - extent/2` in whole pixels.
    let cx2: u64 = 2 * (txt_crop.x as u64) + (txt_crop.width as u64);
    let cy2: u64 = 2 * (txt_crop.y as u64) + (txt_crop.height as u64);
    let rect_x: u64 = if cx2 > est_w {
        (cx2 - est_w) / 2
    } else {
        0
    };
    let rect_y: u64 = if cy2 > est_h {
        (cy2 - est_h) / 2
    } else {
        0
    };
    let cap_x: u64 = if rect_x + est_w < iw as u64 {
        rect_x + est_w
    } else {
        iw as u64
    };
    let cap_y: u64 = if rect_y + est_h < ih as u64 {
        rect_y + est_h
    } else {
        ih as u64
    };
    let x_end: u64 = if cap_x < rect_x {
        rect_x
    } else {
        cap_x
    };
    let y_end: u64 = if cap_y < rect_y {
        rect_y
    } else {
        cap_y
    };
    proof {
        assert(rect.0 == rect_x as int && rect.1 == rect_y as int && rect.2 == x_end as int
            && rect.3 == y_end as int);
    }
    let mut px: u64 = rect_x;
    while px < x_end
        invariant
            raster_width(*img) == iw,
            raster_height(*img) == ih,
            rect_x <= px <= x_end,
            x_end <= iw as u64 || x_end == rect_x,
            y_end <= ih as u64 || y_end == rect_y,
            rect_y <= y_end,
            *img == marked_block(img0, rect_x as int, px as int, rect_y as int, y_end as int),
        decreases x_end - px,
    {
        let mut py: u64 = rect_y;
        let ghost col_base = *img;
        while py < y_end
            invariant
                raster_width(*img) == iw,
                raster_height(*img) == ih,
                rect_y <= py <= y_end,
                px < x_end <= iw as u64,
                y_end <= ih as u64 || y_end == rect_y,
                *img == marked_col(col_base, px as int, rect_y as int, py as int),
            decreases y_end - py,
        {
            put_pixel_rgba(img, px as u32, py as u32, 0, 0, 0, 255);
            proof {
                lemma_marked_col_snoc(col_base, px as int, rect_y as int, py as int);
            }
            py = py + 1;
        }
        proof {
            lemma_marked_block_snoc(
                img0,
                rect_x as int,
                px as int,
                rect_y as int,
                y_end as int,
            );
        }
        px = px + 1;
    }
}

/// The full per-item composition: the source centered into the photo slot
/// and, when a caption region is configured, the sequence number's mark in
/// the caption slot; without one, the result is the plain composition.
pub fn composite_images_with_text(
    template: &image::DynamicImage,
    source: &image::DynamicImage,
    photo_region: &Geometry,
    caption_region: &Option<Geometry>,
    number: &str,
) -> (r: image::DynamicImage)
    requires
        photo_region.is_valid(),
    ensures
        caption_region is None ==> r == overlay_of(
            *template,
            *source,
            placement_x(*photo_region, raster_width(*source) as int),
            placement_y(*photo_region, raster_height(*source) as int),
        ),
        caption_region matches Some(c) ==> r == caption_marked(
            overlay_of(
                *template,
                *source,
                placement_x(*photo_region, raster_width(*source) as int),
                placement_y(*photo_region, raster_height(*source) as int),
            ),
            *c,
            number@.len() as int,
        ),
        raster_width(r) == raster_width(*template),
        raster_height(r) == raster_height(*template),
{
    let mut result = composite_images(template, source, photo_region);
    match caption_region {
        Some(txt_crop) => {
            let chars = number.unicode_len();
            add_text_overlay(&mut result, txt_crop, chars);
        },
        None => {},
    }
    result
}

} // verus!
