use gallery_index::thumbnail::{cache_file_path, centered_square, plan_thumbnail, render_thumbnail, CacheAction, CropBox};

fn png_bytes(width: u32, height: u32) -> Vec<u8> {
    let img = image::RgbImage::from_fn(width, height, |x, y| image::Rgb([(x % 256) as u8, (y % 256) as u8, 90]));
    let mut out = std::io::Cursor::new(Vec::new());
    image::DynamicImage::ImageRgb8(img).write_to(&mut out, image::ImageFormat::Png).unwrap();
    out.into_inner()
}

#[test]
fn cache_path_layout() {
    assert_eq!(
        cache_file_path("cache", "images/2024-01-01/img.png", 200, 200),
        "cache/images_2024-01-01_img-png_w200_h200.jpg"
    );
    assert_eq!(cache_file_path("cache/", "a.b/c", 0, 1234567890), "cache//a-b_c_w0_h1234567890.jpg");
    assert_eq!(cache_file_path("", "", 4294967295, 9), "/_w4294967295_h9.jpg");
}

#[test]
fn cache_path_is_deterministic() {
    let a = cache_file_path("cache", "images/2024-01-01/x.jpg", 200, 150);
    let b = cache_file_path("cache", "images/2024-01-01/x.jpg", 200, 150);
    assert_eq!(a, b);
    assert_ne!(a, cache_file_path("cache", "images/2024-01-01/x.jpg", 150, 200));
}

#[test]
fn cache_paths_of_distinct_items_differ() {
    let paths = [
        "images/2024-01-01/a.jpg",
        "images/2024-01-01/b.jpg",
        "images/2024-01-02/a.jpg",
        "images/2024-01-01/a.png",
        "images/2024-01-01/a.jpeg",
    ];
    for (i, p) in paths.iter().enumerate() {
        for q in &paths[i + 1..] {
            assert_ne!(cache_file_path("cache", p, 200, 200), cache_file_path("cache", q, 200, 200));
        }
    }
    // the slug folds '.' into '-': such names share a cache file
    assert_eq!(cache_file_path("c", "a.b", 1, 1), cache_file_path("c", "a-b", 1, 1));
}

#[test]
fn crop_of_wide_image_is_centred_horizontally() {
    assert_eq!(centered_square(400, 300), CropBox { x: 50, y: 0, side: 300 });
    assert_eq!(centered_square(301, 300), CropBox { x: 0, y: 0, side: 300 });
    assert_eq!(centered_square(5, 2), CropBox { x: 1, y: 0, side: 2 });
}

#[test]
fn crop_of_tall_image_is_centred_vertically() {
    assert_eq!(centered_square(300, 400), CropBox { x: 0, y: 50, side: 300 });
    assert_eq!(centered_square(7, 7), CropBox { x: 0, y: 0, side: 7 });
    assert_eq!(centered_square(0, 3), CropBox { x: 0, y: 1, side: 0 });
}

#[test]
fn thumbnail_is_a_jpeg_within_the_box() {
    let out = render_thumbnail(&png_bytes(40, 20), 10, 10).expect("thumbnail");
    assert_eq!(image::guess_format(&out).unwrap(), image::ImageFormat::Jpeg);
    let img = image::load_from_memory(&out).unwrap();
    assert_eq!((img.width(), img.height()), (10, 10));

    let out = render_thumbnail(&png_bytes(30, 60), 8, 5).expect("thumbnail");
    let img = image::load_from_memory(&out).unwrap();
    assert!(img.width() <= 8 && img.height() <= 5);
    assert_eq!(img.width(), img.height());
}

#[test]
fn thumbnail_of_small_source_fits_the_box() {
    // a source smaller than the box is cut to its square and not enlarged
    let out = render_thumbnail(&png_bytes(6, 4), 200, 200).expect("thumbnail");
    let img = image::load_from_memory(&out).unwrap();
    assert_eq!((img.width(), img.height()), (4, 4));
}

#[test]
fn thumbnail_of_non_image_fails() {
    assert!(render_thumbnail(&b"not an image".to_vec(), 10, 10).is_none());
    assert!(render_thumbnail(&vec![], 10, 10).is_none());
    let mut truncated = png_bytes(10, 10);
    truncated.truncate(20);
    assert!(render_thumbnail(&truncated, 10, 10).is_none());
}

#[test]
fn cache_hit_is_served_without_rendering() {
    let want = "cache/images_2024-01-01_img-png_w200_h200.jpg";
    match plan_thumbnail("cache", "images/2024-01-01/img.png", 200, 200, false) {
        CacheAction::Render(p) => assert_eq!(p, want),
        CacheAction::Serve(_) => panic!("a missing cache file must be rendered"),
    }
    for _ in 0..2 {
        match plan_thumbnail("cache", "images/2024-01-01/img.png", 200, 200, true) {
            CacheAction::Serve(p) => assert_eq!(p, want),
            CacheAction::Render(_) => panic!("a cache hit must not be rendered again"),
        }
    }
}
