//! Scaling a source raster into the photo slot.
//!
//! The aspect-preserving mode scales by `min(targetW/w, targetH/h)` and
//! rounds each product to the nearest whole pixel, so the axis that sits
//! tighter against the box is filled exactly; the exact mode distorts the
//! raster to the requested dimensions.

use vstd::arithmetic::div_mod::lemma_div_is_ordered;
use vstd::arithmetic::div_mod::lemma_fundamental_div_mod_converse;
use vstd::prelude::*;

verus! {

/// Nearest integer to `a / b`, halves rounded away from zero.
pub open spec fn round_div(a: int, b: int) -> int
    recommends
        a >= 0,
        b > 0,
{
    (2 * a + b) / (2 * b)
}

/// Width after scale-to-fit: the box width when the width sits tighter
/// against the box, otherwise the rounded product with the height's scale
/// (raised to one pixel when rounding would collapse the raster).
pub open spec fn fit_width(w: int, h: int, tw: int, th: int) -> int
    recommends
        w > 0,
        h > 0,
        tw > 0,
        th > 0,
{
    if tw * h <= th * w {
        tw
    } else if round_div(w * th, h) < 1 {
        1
    } else {
        round_div(w * th, h)
    }
}

/// Height after scale-to-fit, the counterpart of `fit_width`.
pub open spec fn fit_height(w: int, h: int, tw: int, th: int) -> int
    recommends
        w > 0,
        h > 0,
        tw > 0,
        th > 0,
{
    if tw * h <= th * w {
        if round_div(h * tw, w) < 1 {
            1
        } else {
            round_div(h * tw, w)
        }
    } else {
        th
    }
}

/// Rounding a quotient whose numerator is a whole multiple of the
/// denominator gives that multiple back.
proof fn lemma_round_div_exact(a: int, b: int)
    requires
        a >= 0,
        b > 0,
    ensures
        round_div(a * b, b) == a,
{
    assert(2 * (a * b) + b == a * (2 * b) + b) by (nonlinear_arith);
    lemma_fundamental_div_mod_converse(2 * (a * b) + b, 2 * b, a, b);
}

/// A quotient bounded by `q` before rounding stays bounded by `q` after.
proof fn lemma_round_div_le(a: int, b: int, q: int)
    requires
        0 <= a,
        b > 0,
        0 <= q,
        a <= q * b,
    ensures
        round_div(a, b) <= q,
{
    assert(2 * (q * b) + b == q * (2 * b) + b) by (nonlinear_arith);
    lemma_fundamental_div_mod_converse(2 * (q * b) + b, 2 * b, q, b);
    lemma_div_is_ordered(2 * a + b, 2 * (q * b) + b, 2 * b);
}

/// A quotient of at least one before rounding stays at least one after.
proof fn lemma_round_div_ge_one(a: int, b: int)
    requires
        b > 0,
        a >= b,
    ensures
        round_div(a, b) >= 1,
{
    lemma_fundamental_div_mod_converse(2 * b + b, 2 * b, 1, b);
    lemma_div_is_ordered(2 * b + b, 2 * a + b, 2 * b);
}

/// Scale-to-fit dimensions for a `w` by `h` raster inside a `tw` by `th`
/// box.  Both results are positive and neither exceeds its box extent.
pub fn fit_dimensions(w: u32, h: u32, tw: u32, th: u32) -> (r: (u32, u32))
    requires
        w > 0,
        h > 0,
        tw > 0,
        th > 0,
    ensures
        r.0 == fit_width(w as int, h as int, tw as int, th as int),
        r.1 == fit_height(w as int, h as int, tw as int, th as int),
        1 <= r.0 <= tw,
        1 <= r.1 <= th,
{
    proof {
        assert((tw as int) * (h as int) < 0x10000000000000000 && (th as int) * (w as int)
            < 0x10000000000000000 && (h as int) * (tw as int) < 0x10000000000000000 && (w as int)
            * (th as int) < 0x10000000000000000) by (nonlinear_arith)
            requires
                tw < 0x100000000,
                th < 0x100000000,
                w < 0x100000000,
                h < 0x100000000,
        ;
    }
    let cross_w = (tw as u64) * (h as u64);
    let cross_h = (th as u64) * (w as u64);
    if cross_w <= cross_h {
        // The width is the constrained axis: it fills the box exactly.
        let ht = (h as u128) * (tw as u128);
        let q = (2 * ht + (w as u128)) / (2 * (w as u128));
        proof {
            let a = (h as int) * (tw as int);
            let b = w as int;
            assert(q == round_div(a, b));
            assert(a <= (th as int) * b) by (nonlinear_arith)
                requires
                    (tw as int) * (h as int) <= (th as int) * (w as int),
                    a == (h as int) * (tw as int),
                    b == w as int,
            ;
            lemma_round_div_le(a, b, th as int);
        }
        let nh = q as u32;
        if nh < 1 {
            (tw, 1)
        } else {
            (tw, nh)
        }
    } else {
        // The height is the constrained axis: it fills the box exactly.
        let wt = (w as u128) * (th as u128);
        let q = (2 * wt + (h as u128)) / (2 * (h as u128));
        proof {
            let a = (w as int) * (th as int);
            let b = h as int;
            assert(q == round_div(a, b));
            assert(a <= (tw as int) * b) by (nonlinear_arith)
                requires
                    (th as int) * (w as int) <= (tw as int) * (h as int),
                    a == (w as int) * (th as int),
                    b == h as int,
            ;
            lemma_round_div_le(a, b, tw as int);
        }
        let nw = q as u32;
        if nw < 1 {
            (1, th)
        } else {
            (nw, th)
        }
    }
}

/// When the source already fits inside the box, the constrained axis is
/// filled exactly — `round(w * tw/w)` is `tw` itself — and the other axis
/// is the rounded product of the source extent with the common scale factor
/// `min(tw/w, th/h)`.
pub proof fn lemma_fit_fills_box(w: int, h: int, tw: int, th: int)
    requires
        0 < w <= tw,
        0 < h <= th,
    ensures
        tw * h <= th * w ==> fit_width(w, h, tw, th) == tw && round_div(w * tw, w) == tw
            && fit_height(w, h, tw, th) == round_div(h * tw, w),
        th * w <= tw * h ==> fit_height(w, h, tw, th) == th && round_div(h * th, h) == th
            && fit_width(w, h, tw, th) == round_div(w * th, h),
{
    if tw * h <= th * w {
        lemma_round_div_exact(tw, w);
        assert(w * tw == tw * w) by (nonlinear_arith);
        assert(round_div(w * tw, w) == tw);
        assert(h * tw >= w) by (nonlinear_arith)
            requires
                h >= 1,
                tw >= w,
                w >= 1,
        ;
        lemma_round_div_ge_one(h * tw, w);
    }
    if th * w <= tw * h {
        lemma_round_div_exact(th, h);
        assert(h * th == th * h) by (nonlinear_arith);
        assert(round_div(h * th, h) == th);
        assert(w * th >= h) by (nonlinear_arith)
            requires
                w >= 1,
                th >= h,
                h >= 1,
        ;
        lemma_round_div_ge_one(w * th, h);
        if tw * h <= th * w {
            // Both scales agree, so each rounded product is the box extent.
            assert(w * th == tw * h && h * tw == th * w) by (nonlinear_arith)
                requires
                    th * w == tw * h,
            ;
            lemma_round_div_exact(tw, h);
            assert(round_div(w * th, h) == tw);
            lemma_round_div_exact(th, w);
            assert(round_div(h * tw, w) == th);
        }
    }
}

/// Resize a raster to a target box.  With `preserve_ratio` the result keeps
/// the source's aspect ratio and fills the box on its constrained axis;
/// without it the result takes exactly the box dimensions.
pub fn resize_image(
    img: &image::DynamicImage,
    target_width: u32,
    target_height: u32,
    preserve_ratio: bool,
) -> (r: image::DynamicImage)
    requires
        target_width > 0,
        target_height > 0,
        crate::raster::raster_width(*img) > 0,
        crate::raster::raster_height(*img) > 0,
    ensures
        preserve_ratio ==> r == crate::raster::resized_of(
            *img,
            fit_width(
                crate::raster::raster_width(*img) as int,
                crate::raster::raster_height(*img) as int,
                target_width as int,
                target_height as int,
            ) as u32,
            fit_height(
                crate::raster::raster_width(*img) as int,
                crate::raster::raster_height(*img) as int,
                target_width as int,
                target_height as int,
            ) as u32,
        ),
        !preserve_ratio ==> r == crate::raster::resized_of(*img, target_width, target_height),
        preserve_ratio ==> crate::raster::raster_width(r) == fit_width(
            crate::raster::raster_width(*img) as int,
            crate::raster::raster_height(*img) as int,
            target_width as int,
            target_height as int,
        ) && crate::raster::raster_height(r) == fit_height(
            crate::raster::raster_width(*img) as int,
            crate::raster::raster_height(*img) as int,
            target_width as int,
            target_height as int,
        ),
        !preserve_ratio ==> crate::raster::raster_width(r) == target_width
            && crate::raster::raster_height(r) == target_height,
{
    if preserve_ratio {
        let w = crate::raster::image_width(img);
        let h = crate::raster::image_height(img);
        let dims = fit_dimensions(w, h, target_width, target_height);
        crate::raster::resize_exact_raster(img, dims.0, dims.1)
    } else {
        crate::raster::resize_exact_raster(img, target_width, target_height)
    }
}

} // verus!
