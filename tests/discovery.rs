use gallery_index::date::{is_media_folder, parse_media_folder_name, CalendarDate};
use gallery_index::folders::{find_media_folders, DirEntry, FileMeta};
use gallery_index::gallery::GxData;
use gallery_index::items::{accepts_file, discover_media_folders, ScannedFile};
use gallery_index::metadata::exif_enrich_media_items;
use gallery_index::names::is_image_file;
use gallery_index::thumbnail::{plan_thumbnail, render_thumbnail, CacheAction};

const PNG_HEAD: [u8; 16] = [0x89, 0x50, 0x4e, 0x47, 0x0d, 0x0a, 0x1a, 0x0a, 0, 0, 0, 13, 0x49, 0x48, 0x44, 0x52];
const JPEG_HEAD: [u8; 4] = [0xff, 0xd8, 0xff, 0xe0];

fn dir(name: &str) -> DirEntry {
    DirEntry { name: name.to_string(), meta: FileMeta { is_dir: true, len: 0, modified_secs: Some(1) } }
}

fn file(name: &str, head: Option<&[u8]>) -> ScannedFile {
    ScannedFile {
        name: name.to_string(),
        meta: FileMeta { is_dir: false, len: 123, modified_secs: Some(7) },
        head: head.map(|h| h.to_vec()),
    }
}

#[test]
fn media_folder_names() {
    assert!(is_media_folder("2024-01-15"));
    assert!(!is_media_folder("2024-13-01"));
    assert!(!is_media_folder("2024-1-15"));
    assert!(!is_media_folder("2023-02-30"));
    assert!(!is_media_folder("2023-02-29"));
    assert!(is_media_folder("2024-02-29"));
    assert!(is_media_folder("2000-02-29"));
    assert!(!is_media_folder("1900-02-29"));
    assert!(!is_media_folder("2024-04-31"));
    assert!(!is_media_folder("2024-00-10"));
    assert!(!is_media_folder("2024-01-00"));
    assert!(!is_media_folder("2024-01-15x"));
    assert!(!is_media_folder("x2024-01-15"));
    assert!(!is_media_folder("2024/01/15"));
    assert!(!is_media_folder("+202-01-15"));
    assert!(!is_media_folder(""));
}

#[test]
fn media_folder_name_parses_date() {
    assert_eq!(parse_media_folder_name("2024-06-10"), Some(CalendarDate { year: 2024, month: 6, day: 10 }));
    assert_eq!(parse_media_folder_name("0001-12-31"), Some(CalendarDate { year: 1, month: 12, day: 31 }));
    assert_eq!(parse_media_folder_name("2024-06-31"), None);
}

#[test]
fn image_file_names() {
    for name in ["a.jpg", "A.JPG", "x.JpEg", "p.png", "g.GIF", "b.Bmp", ".jpg", "dir.d/photo.jpeg"] {
        assert!(is_image_file(name), "{}", name);
    }
    for name in ["a.tiff", "jpg", "a.jpgx", "a.txt", "a_jpg", "a.jpe", "", "a.pn g"] {
        assert!(!is_image_file(name), "{}", name);
    }
}

#[test]
fn folders_sorted_newest_first() {
    let mut not_dir = dir("2021-01-01");
    not_dir.meta.is_dir = false;
    let entries = vec![
        dir("2023-01-01"),
        dir("notes"),
        dir("2024-06-10"),
        not_dir,
        dir("2023-02-30"),
        dir("2022-12-31"),
    ];
    let folders = find_media_folders("images/", &entries);
    let paths: Vec<&str> = folders.iter().map(|f| f.path.as_str()).collect();
    assert_eq!(paths, vec!["images/2024-06-10", "images/2023-01-01", "images/2022-12-31"]);
    assert_eq!(folders[0].date, CalendarDate { year: 2024, month: 6, day: 10 });
}

#[test]
fn empty_root_gives_no_folders() {
    assert!(find_media_folders("images/", &vec![]).is_empty());
}

#[test]
fn content_sniffing_overrides_extension() {
    assert!(!accepts_file(&file("photo.jpg", Some(b"this is not an image"))));
    assert!(!accepts_file(&file("photo.jpg", Some(&[]))));
    assert!(!accepts_file(&file("photo.jpg", None)));
    assert!(accepts_file(&file("photo.jpg", Some(&JPEG_HEAD))));
    assert!(accepts_file(&file("img.png", Some(&PNG_HEAD))));
    assert!(!accepts_file(&file("img.txt", Some(&PNG_HEAD))));
    assert!(accepts_file(&file("pic.bmp", Some(b"BM\x36\x00"))));
    assert!(accepts_file(&file("anim.gif", Some(b"GIF87a\x01\x00"))));
}

#[test]
fn discovery_builds_index_and_map() {
    let folders = find_media_folders("images/", &vec![dir("2023-05-01"), dir("2024-01-01"), dir("2022-01-01")]);
    let scans = vec![
        // 2024-01-01
        vec![
            file("b.png", Some(&PNG_HEAD)),
            file("photo.jpg", Some(b"not an image at all")),
            file("notes.txt", None),
            file("a.JPG", Some(&JPEG_HEAD)),
        ],
        // 2023-05-01: could not be listed
        vec![],
        // 2022-01-01: only a file that could not be read
        vec![file("locked.jpg", None)],
    ];
    let index = discover_media_folders(&folders, &scans);
    let paths: Vec<&str> = index.items.iter().map(|m| m.path.as_str()).collect();
    assert_eq!(paths, vec!["images/2024-01-01/b.png", "images/2024-01-01/a.JPG"]);
    assert!(index.items.iter().all(|m| m.exif.is_none() && m.meta.len == 123));
    assert_eq!(index.map.len(), 1);
    assert_eq!(index.map[0].folder, "images/2024-01-01");
    assert_eq!(index.map[0].items, vec!["images/2024-01-01/b.png".to_string(), "images/2024-01-01/a.JPG".to_string()]);
}

fn png_bytes(width: u32, height: u32) -> Vec<u8> {
    let img = image::RgbImage::from_fn(width, height, |x, y| image::Rgb([(x * 3) as u8, (y * 5) as u8, 7]));
    let mut out = std::io::Cursor::new(Vec::new());
    image::DynamicImage::ImageRgb8(img).write_to(&mut out, image::ImageFormat::Png).unwrap();
    out.into_inner()
}

#[test]
fn end_to_end_single_png() {
    let png = png_bytes(64, 48);
    let folders = find_media_folders("data/", &vec![dir("2024-01-01")]);
    let scans = vec![vec![file("img.png", Some(&png[..16]))]];
    let gx = GxData::new("data/".to_string(), "cache/".to_string(), folders, &scans);
    assert_eq!(gx.media_folders.len(), 1);
    assert_eq!(gx.media_folders[0].path, "data/2024-01-01");
    assert_eq!(gx.build_list_data(), vec![("data/2024-01-01".to_string(), "data/2024-01-01/img.png".to_string())]);
    assert_eq!(
        gx.build_folder_data("data/2024-01-01"),
        Some(vec![("data/2024-01-01/img.png".to_string(), "data/2024-01-01/img.png".to_string())])
    );
    assert!(gx.has_item("data/2024-01-01/img.png"));

    let target = match plan_thumbnail(&gx.cache_path, "data/2024-01-01/img.png", 200, 200, false) {
        CacheAction::Render(p) => p,
        CacheAction::Serve(_) => panic!("nothing is cached yet"),
    };
    assert_eq!(target, "cache//data_2024-01-01_img-png_w200_h200.jpg");
    let jpeg = render_thumbnail(&png, 200, 200).expect("thumbnail");
    assert_eq!(image::guess_format(&jpeg).unwrap(), image::ImageFormat::Jpeg);
    let thumb = image::load_from_memory(&jpeg).unwrap();
    assert!(thumb.width() <= 200 && thumb.height() <= 200);
}

#[test]
fn listing_skips_folders_without_items() {
    let folders = find_media_folders("d/", &vec![dir("2024-01-01"), dir("2024-02-01")]);
    let scans = vec![vec![file("x.txt", None)], vec![file("p.gif", Some(b"GIF89a\x01\x00"))]];
    let gx = GxData::new("d/".to_string(), "c/".to_string(), folders, &scans);
    assert_eq!(gx.build_list_data(), vec![("d/2024-01-01".to_string(), "d/2024-01-01/p.gif".to_string())]);
    assert_eq!(gx.build_folder_data("d/2024-02-01"), None);
    assert_eq!(gx.build_folder_data("unknown"), None);
    assert!(!gx.has_item("d/2024-02-01/x.txt"));
    assert!(!gx.has_item("d/2024-01-01"));
}

/// A little-endian TIFF file whose only IFD holds the tag Make = "ab".
fn tiff_with_make() -> Vec<u8> {
    let mut b = vec![b'I', b'I', 42, 0, 8, 0, 0, 0];
    b.extend_from_slice(&[1, 0]);
    b.extend_from_slice(&[0x0f, 0x01, 2, 0, 3, 0, 0, 0, b'a', b'b', 0, 0]);
    b.extend_from_slice(&[0, 0, 0, 0]);
    b
}

#[test]
fn enrichment_attaches_exif_where_present() {
    let folders = find_media_folders("r/", &vec![dir("2024-01-01")]);
    let scans = vec![vec![
        file("a.png", Some(&PNG_HEAD)),
        file("b.png", Some(&PNG_HEAD)),
        file("c.png", Some(&PNG_HEAD)),
    ]];
    let mut index = discover_media_folders(&folders, &scans);
    let contents = vec![Some(tiff_with_make()), Some(b"no exif here".to_vec()), None];
    exif_enrich_media_items(&mut index.items, &contents);
    let fields = index.items[0].exif.as_ref().expect("exif decoded");
    assert_eq!(fields.len(), 1);
    assert_eq!(fields[0].tag, 0x010f);
    assert_eq!(fields[0].ifd, 0);
    assert!(fields[0].value.contains("ab"));
    assert!(index.items[1].exif.is_none());
    assert!(index.items[2].exif.is_none());
    assert_eq!(index.items[0].path, "r/2024-01-01/a.png");

    // running it again changes nothing
    exif_enrich_media_items(&mut index.items, &contents);
    assert_eq!(index.items[0].exif.as_ref().map(|f| f.len()), Some(1));
    assert!(index.items[1].exif.is_none());

    // the last run decides: without readable content the data is unset
    exif_enrich_media_items(&mut index.items, &vec![None, Some(tiff_with_make()), None]);
    assert!(index.items[0].exif.is_none());
    assert_eq!(index.items[1].exif.as_ref().map(|f| f.len()), Some(1));

    // content without EXIF also clears what an earlier run found
    exif_enrich_media_items(&mut index.items, &vec![None, Some(b"plain".to_vec()), None]);
    assert!(index.items[1].exif.is_none());
}

#[test]
fn gallery_enrichment_keeps_index() {
    let folders = find_media_folders("r/", &vec![dir("2024-01-01")]);
    let scans = vec![vec![file("a.png", Some(&PNG_HEAD)), file("b.png", Some(&PNG_HEAD))]];
    let mut gx = GxData::new("r/".to_string(), "c/".to_string(), folders, &scans);
    gx.enrich(&vec![Some(tiff_with_make()), None]);
    assert_eq!(gx.media_items[0].exif.as_ref().map(|f| f[0].tag), Some(0x010f));
    assert!(gx.media_items[1].exif.is_none());
    assert!(gx.has_item("r/2024-01-01/b.png"));
    assert_eq!(gx.build_list_data(), vec![("r/2024-01-01".to_string(), "r/2024-01-01/a.png".to_string())]);
}

#[test]
fn thumbnail_of_sixteen_bit_png_renders() {
    let img = image::ImageBuffer::<image::Rgb<u16>, Vec<u16>>::from_fn(12, 30, |x, _| image::Rgb([x as u16 * 5000, 0, 65535]));
    let mut out = std::io::Cursor::new(Vec::new());
    image::DynamicImage::ImageRgb16(img).write_to(&mut out, image::ImageFormat::Png).unwrap();
    let jpeg = render_thumbnail(&out.into_inner(), 6, 6).expect("thumbnail");
    let thumb = image::load_from_memory(&jpeg).unwrap();
    assert_eq!((thumb.width(), thumb.height()), (6, 6));
}

#[test]
fn formats_outside_the_supported_set_are_rejected() {
    // WebP, TIFF and PNM content is known to the sniffer but not supported here
    assert!(!accepts_file(&file("a.jpg", Some(b"RIFF\x00\x00\x00\x00WEBPVP8 "))));
    assert!(!accepts_file(&file("b.png", Some(b"II*\x00\x08\x00\x00\x00"))));
    assert!(!accepts_file(&file("c.gif", Some(b"P6\n12 12\n255\n"))));
}
