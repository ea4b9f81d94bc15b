use photo_composer::compose::compute_centering_offset;
use photo_composer::resize::fit_dimensions;
use photo_composer::resize::resize_image;

#[test]
fn doubling_scale_keeps_the_ratio() {
    // scale = min(200/100, 200/50) = 2
    assert_eq!(fit_dimensions(100, 50, 200, 200), (200, 100));
}

#[test]
fn height_constrained_source_fills_the_height() {
    // scale = min(200/50, 150/100) = 1.5
    assert_eq!(fit_dimensions(50, 100, 200, 150), (75, 150));
}

#[test]
fn half_pixels_round_up() {
    // scale = min(6/4, 6/3) = 1.5; 3 * 1.5 = 4.5 rounds to 5
    assert_eq!(fit_dimensions(4, 3, 6, 6), (6, 5));
}

#[test]
fn exact_fit_is_identity() {
    assert_eq!(fit_dimensions(640, 480, 640, 480), (640, 480));
}

#[test]
fn downscale_never_collapses_to_zero() {
    // scale = 10/1000; 1 * 0.01 would round to 0, held at one pixel
    assert_eq!(fit_dimensions(1, 1000, 10, 10), (1, 10));
}

#[test]
fn resized_raster_takes_the_fitted_dimensions() {
    let src = image::DynamicImage::ImageRgba8(image::RgbaImage::from_pixel(
        100,
        50,
        image::Rgba([10, 20, 30, 255]),
    ));
    let fitted = resize_image(&src, 200, 200, true);
    assert_eq!((fitted.width(), fitted.height()), (200, 100));
    let exact = resize_image(&src, 37, 81, false);
    assert_eq!((exact.width(), exact.height()), (37, 81));
}

#[test]
fn centering_splits_slack_within_one_pixel() {
    assert_eq!(compute_centering_offset(100, 60), 20);
    assert_eq!(compute_centering_offset(5, 2), 1);
    assert_eq!(compute_centering_offset(7, 7), 0);
    assert_eq!(compute_centering_offset(4, 9), 0);
}
