use lumen_core::thumbs::{
    encode_thumbnail, get_thumbnail_path, hex_string_of_bytes, ThumbnailCache,
};
use lumen_core::errors::DecodeError;
use image::GenericImageView;

#[test]
fn hex_rendering_is_exact() {
    assert_eq!(hex_string_of_bytes(&vec![0x00, 0xff, 0x1a]), "00ff1a");
    assert_eq!(hex_string_of_bytes(&vec![]), "");
    assert_eq!(hex_string_of_bytes(&vec![0x0f]), "0f");
}

#[test]
fn thumbnail_path_has_cache_dir_digest_and_suffix() {
    let path = get_thumbnail_path(&vec![1u8, 2, 3]);
    assert!(path.starts_with("thumbnail_cache/"));
    assert!(path.ends_with(".jpg"));
    let middle = &path["thumbnail_cache/".len()..path.len() - ".jpg".len()];
    assert_eq!(middle.len(), 64);
    assert!(middle.chars().all(|c| c.is_ascii_hexdigit() && !c.is_ascii_uppercase()));
}

#[test]
fn identical_content_maps_to_identical_path() {
    let a = get_thumbnail_path(&vec![7u8, 8, 9]);
    let b = get_thumbnail_path(&vec![7u8, 8, 9]);
    assert_eq!(a, b);
}

#[test]
fn different_content_maps_to_different_paths() {
    let a = get_thumbnail_path(&vec![0u8]);
    let b = get_thumbnail_path(&vec![1u8]);
    assert_ne!(a, b);
    let c = get_thumbnail_path(&vec![1u8, 0]);
    let d = get_thumbnail_path(&vec![0u8, 1]);
    assert_ne!(c, d);
}

#[test]
fn get_or_create_is_idempotent() {
    let mut cache = ThumbnailCache::new();
    let path = String::from("shots/one.arw");
    let content = vec![5u8, 6, 7];
    let (p1, created1) = cache.get_or_create_thumbnail(&path, &content);
    let (p2, created2) = cache.get_or_create_thumbnail(&path, &content);
    assert!(created1);
    assert!(!created2);
    assert_eq!(p1, p2);
}

#[test]
fn cache_path_ignores_the_file_name() {
    let mut cache = ThumbnailCache::new();
    let content = vec![5u8, 6, 7];
    let (p1, _) = cache.get_or_create_thumbnail(&String::from("a/first.arw"), &content);
    let (p2, _) = cache.get_or_create_thumbnail(&String::from("b/second.raf"), &content);
    assert_eq!(p1, p2);
}

#[test]
fn encode_thumbnail_produces_a_jpeg() {
    let rgb = vec![200u8, 10, 10, 10, 200, 10, 10, 10, 200, 128, 128, 128];
    let jpeg = encode_thumbnail(&rgb, 2, 2).unwrap();
    assert!(jpeg.len() > 2);
    assert_eq!(&jpeg[0..2], &[0xff, 0xd8]);
    assert_ne!(jpeg, rgb);
    let decoded = image::load_from_memory(&jpeg).unwrap();
    assert_eq!(decoded.width(), 2);
    assert_eq!(decoded.height(), 2);
}

#[test]
fn encode_thumbnail_checks_dimensions() {
    assert_eq!(encode_thumbnail(&vec![0u8; 5], 1, 1), Err(DecodeError::DimensionMismatch));
    assert_eq!(encode_thumbnail(&vec![], 0, 4), Err(DecodeError::DecodeFailure));
}

#[test]
fn encode_thumbnail_accepts_the_largest_jpeg_dimension() {
    let wide = encode_thumbnail(&vec![7u8; 3 * 65535], 65535, 1);
    assert!(wide.is_ok());
}

#[test]
fn encode_thumbnail_rejects_oversized_dimensions() {
    let too_wide = encode_thumbnail(&vec![7u8; 3 * 65536], 65536, 1);
    assert_eq!(too_wide, Err(DecodeError::DecodeFailure));
}
