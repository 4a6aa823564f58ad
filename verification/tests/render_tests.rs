use lumen_core::errors::DecodeError;
use lumen_core::raw::{decode_raw, DisplayImage, Image};
use lumen_core::render::RenderCache;

fn tiny_image() -> DisplayImage {
    DisplayImage { width: 1, height: 1, data: vec![1, 2, 3, 255] }
}

#[test]
fn same_path_twice_decodes_at_most_once() {
    let mut cache = RenderCache::new();
    let path = String::from("shots/preview.arw");
    let mut decode_calls: u32 = 0;
    for _ in 0..2 {
        if cache.lookup(&path).is_none() {
            decode_calls += 1;
            cache.insert(path.clone(), tiny_image());
        }
    }
    assert_eq!(decode_calls, 1);
    let stored = cache.lookup(&path).unwrap();
    assert_eq!(stored.width, 1);
    assert_eq!(stored.height, 1);
}

#[test]
fn a_hit_is_served_without_touching_a_decoder() {
    let mut cache = RenderCache::new();
    // The path names no real file: only a cache hit can serve it.
    let path = String::from("ghost/preview.arw");
    cache.insert(path.clone(), tiny_image());
    match cache.get_display_image(&path) {
        Ok(img) => {
            assert_eq!(img.width, 1);
            assert_eq!(img.height, 1);
            assert_eq!(img.data, vec![1, 2, 3, 255]);
        },
        Err(_) => panic!("a cached path must be served from the store"),
    }
}

#[test]
fn a_failed_decode_stores_nothing() {
    let mut cache = RenderCache::new();
    let path = String::from("ghost/missing.arw");
    let first = cache.get_display_image(&path);
    assert!(first.is_err());
    assert!(!cache.contains(&path));
    assert!(matches!(first, Err(DecodeError::DecodeFailure)));
}

#[test]
fn unsupported_preview_fails_with_unsupported_format() {
    let mut cache = RenderCache::new();
    match cache.get_display_image(&String::from("notes.txt")) {
        Err(e) => assert_eq!(e, DecodeError::UnsupportedFormat),
        Ok(_) => panic!("an unsupported file has no displayable image"),
    }
}

#[test]
fn decode_raw_reports_unsupported_extensions() {
    match decode_raw(&String::from("picture.png")) {
        Err(e) => assert_eq!(e, DecodeError::UnsupportedFormat),
        Ok(_) => panic!("png is not on the allow-list"),
    }
    match decode_raw(&String::from("missing.cr2")) {
        Err(e) => assert_eq!(e, DecodeError::DecodeFailure),
        Ok(_) => panic!("a missing file cannot decode"),
    }
    match decode_raw(&String::from("missing.arw")) {
        Err(e) => assert_eq!(e, DecodeError::DecodeFailure),
        Ok(_) => panic!("a missing file cannot decode"),
    }
}

#[test]
fn image_records_its_paths() {
    let img = Image::new(String::from("a/b.arw"), String::from("thumbnail_cache/c.jpg"));
    assert_eq!(img.path, "a/b.arw");
    assert_eq!(img.thumbnail_path, "thumbnail_cache/c.jpg");
    let e = Image::empty();
    assert_eq!(e.path, "");
    assert_eq!(e.thumbnail_path, "");
}
