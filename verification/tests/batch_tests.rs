use photo_composer::batch::generate_images_with_template;
use photo_composer::batch::process_source_image;
use photo_composer::batch::SourceItem;
use photo_composer::compose::composite_images;
use photo_composer::errors::BatchError;
use photo_composer::errors::ItemError;
use photo_composer::geometry::Geometry;
use image::GenericImageView;

fn png_bytes(w: u32, h: u32, shade: u8) -> Vec<u8> {
    let raster = image::RgbaImage::from_pixel(w, h, image::Rgba([shade, shade, shade, 255]));
    let img = image::DynamicImage::ImageRgba8(raster);
    let mut out = Vec::new();
    img.write_to(&mut std::io::Cursor::new(&mut out), image::ImageFormat::Png).unwrap();
    out
}

fn item(name: &str, bytes: Vec<u8>) -> SourceItem {
    SourceItem { path: format!("/photos/{}", name), name: name.to_string(), bytes }
}

fn photo_region() -> Geometry {
    Geometry::new(10, 10, 60, 40)
}

fn caption_region() -> Option<Geometry> {
    Some(Geometry::new(10, 60, 60, 15))
}

fn member_names(archive: &[u8]) -> Vec<String> {
    let mut zip = zip::ZipArchive::new(std::io::Cursor::new(archive.to_vec())).unwrap();
    (0..zip.len()).map(|i| zip.by_index(i).unwrap().name().to_string()).collect()
}

#[test]
fn partial_failure_archives_the_successes() {
    let template = png_bytes(100, 80, 200);
    let mut items = Vec::new();
    for i in 0..5 {
        items.push(item(&format!("photo{}.png", i), png_bytes(30, 20, 50 + i)));
    }
    items.push(item("broken.png", b"this is not an image".to_vec()));
    let mut progress: Vec<(usize, usize)> = Vec::new();
    let outcome = generate_images_with_template(
        &template,
        &photo_region(),
        &caption_region(),
        &items,
        &mut progress,
    )
    .unwrap();
    assert_eq!(outcome.outputs.len(), 5);
    assert_eq!(outcome.failures.len(), 1);
    assert_eq!(outcome.failures[0].0, "/photos/broken.png");
    let names = member_names(&outcome.archive);
    assert_eq!(names.len(), 5);
    assert_eq!(names[0], "photo0_processed.jpg");
    assert_eq!(
        progress,
        vec![(1, 6), (2, 6), (3, 6), (4, 6), (5, 6), (6, 6)]
    );
}

#[test]
fn all_failures_abort_without_an_archive() {
    let template = png_bytes(100, 80, 200);
    let items = vec![
        item("one.png", b"junk".to_vec()),
        item("two.png", b"more junk".to_vec()),
    ];
    let mut progress: Vec<(usize, usize)> = Vec::new();
    let r = generate_images_with_template(
        &template,
        &photo_region(),
        &None,
        &items,
        &mut progress,
    );
    assert!(matches!(r, Err(BatchError::AllItemsFailed)));
    assert_eq!(progress, vec![(1, 2), (2, 2)]);
}

#[test]
fn empty_folder_aborts_before_any_progress() {
    let template = png_bytes(100, 80, 200);
    let mut progress: Vec<(usize, usize)> = Vec::new();
    let r = generate_images_with_template(
        &template,
        &photo_region(),
        &None,
        &Vec::new(),
        &mut progress,
    );
    assert!(matches!(r, Err(BatchError::NoInput)));
    assert!(progress.is_empty());
}

#[test]
fn invalid_photo_region_is_a_configuration_error() {
    let template = png_bytes(100, 80, 200);
    let bad = Geometry::new(10, 10, 0, 40);
    let mut progress: Vec<(usize, usize)> = Vec::new();
    let r = generate_images_with_template(
        &template,
        &bad,
        &None,
        &vec![item("a.png", png_bytes(10, 10, 1))],
        &mut progress,
    );
    assert!(matches!(r, Err(BatchError::Configuration)));
    assert!(progress.is_empty());
}

#[test]
fn undecodable_template_is_a_template_error() {
    let mut progress: Vec<(usize, usize)> = Vec::new();
    let r = generate_images_with_template(
        &b"no image here".to_vec(),
        &photo_region(),
        &None,
        &vec![item("a.png", png_bytes(10, 10, 1))],
        &mut progress,
    );
    assert!(matches!(r, Err(BatchError::Template(_))));
    assert!(progress.is_empty());
}

#[test]
fn identical_runs_produce_identical_archives() {
    let template = png_bytes(100, 80, 128);
    let items = vec![
        item("img001.png", png_bytes(30, 20, 10)),
        item("img002.png", png_bytes(25, 35, 20)),
    ];
    let mut p1: Vec<(usize, usize)> = Vec::new();
    let mut p2: Vec<(usize, usize)> = Vec::new();
    let first = generate_images_with_template(
        &template,
        &photo_region(),
        &caption_region(),
        &items,
        &mut p1,
    )
    .unwrap();
    let second = generate_images_with_template(
        &template,
        &photo_region(),
        &caption_region(),
        &items,
        &mut p2,
    )
    .unwrap();
    assert_eq!(member_names(&first.archive), member_names(&second.archive));
    assert_eq!(first.archive, second.archive);
}

#[test]
fn processed_item_is_a_jpeg_with_the_template_dimensions() {
    let template_bytes = png_bytes(100, 80, 200);
    let template = image::load_from_memory(&template_bytes).unwrap();
    let one = item("img7.png", png_bytes(30, 20, 50));
    let jpeg = process_source_image(&template, &photo_region(), &caption_region(), &one, 1)
        .unwrap();
    let decoded = image::load_from_memory(&jpeg).unwrap();
    assert_eq!((decoded.width(), decoded.height()), (100, 80));
    assert_eq!(image::guess_format(&jpeg).unwrap(), image::ImageFormat::Jpeg);
}

#[test]
fn caption_mark_darkens_the_caption_slot() {
    let template_bytes = png_bytes(100, 80, 200);
    let template = image::load_from_memory(&template_bytes).unwrap();
    let one = item("img7.png", png_bytes(30, 20, 180));
    let jpeg = process_source_image(&template, &photo_region(), &caption_region(), &one, 1)
        .unwrap();
    let decoded = image::load_from_memory(&jpeg).unwrap();
    // the caption slot (10,60)+(60,15) has its center marked opaquely
    let marked = decoded.get_pixel(40, 65);
    assert!(marked[0] < 60 && marked[1] < 60 && marked[2] < 60);
    // pixels outside the block keep the template's shade
    assert!(decoded.get_pixel(5, 5)[0] > 150);
    // without a caption region the same spot keeps the template's shade
    let plain = process_source_image(&template, &photo_region(), &None, &one, 1).unwrap();
    let plain_img = image::load_from_memory(&plain).unwrap();
    assert!(plain_img.get_pixel(40, 65)[0] > 150);
}

#[test]
fn batch_run_accounts_for_every_attempt() {
    let mut run = photo_composer::batch::BatchRun::new(3);
    assert_eq!(run.progress(), (0, 3));
    run.record_success("a_processed.jpg".to_string(), b"x".to_vec());
    run.record_failure("/photos/b.png".to_string(), "broken".to_string());
    assert_eq!(run.progress(), (2, 3));
    assert_eq!(run.outputs.len(), 1);
    assert_eq!(run.failures.len(), 1);
}

#[test]
fn corrupt_item_reports_a_decode_error() {
    let template_bytes = png_bytes(100, 80, 200);
    let template = image::load_from_memory(&template_bytes).unwrap();
    let bad = item("bad.png", b"garbage".to_vec());
    let r = process_source_image(&template, &photo_region(), &None, &bad, 1);
    assert!(matches!(r, Err(ItemError::Decode(_))));
}

#[test]
fn composition_copies_the_template() {
    let template = image::load_from_memory(&png_bytes(100, 80, 200)).unwrap();
    let source = image::load_from_memory(&png_bytes(30, 20, 0)).unwrap();
    let composed = composite_images(&template, &source, &photo_region());
    assert_eq!((composed.width(), composed.height()), (100, 80));
    // the template itself is untouched
    assert_eq!(template.get_pixel(25, 20), image::Rgba([200, 200, 200, 255]));
    // the source lands centered in the photo slot: region (10,10)+(60,40),
    // centering offset (15, 10), so (25, 20) is its top-left corner
    assert_eq!(composed.get_pixel(25, 20), image::Rgba([0, 0, 0, 255]));
    assert_eq!(composed.get_pixel(24, 20), image::Rgba([200, 200, 200, 255]));
}
