use lumen_core::pixels::{convert_bgr_to_rgba, rotate270_rgba};
use lumen_core::raw::{apply_orientation, DisplayImage};

#[test]
fn bgr_triplets_become_rgba() {
    let bgr = vec![1u8, 2, 3, 4, 5, 6];
    let rgba = convert_bgr_to_rgba(&bgr);
    assert_eq!(rgba, vec![3, 2, 1, 255, 6, 5, 4, 255]);
}

#[test]
fn trailing_partial_triplet_is_dropped() {
    let bgr = vec![1u8, 2, 3, 9];
    let rgba = convert_bgr_to_rgba(&bgr);
    assert_eq!(rgba, vec![3, 2, 1, 255]);
}

#[test]
fn rotate270_swaps_width_and_height() {
    // A 2x1 image with pixels A then B becomes a 1x2 image B over A.
    let src = vec![10u8, 11, 12, 13, 20, 21, 22, 23];
    let dst = rotate270_rgba(&src, 2, 1);
    assert_eq!(dst, vec![20, 21, 22, 23, 10, 11, 12, 13]);
}

#[test]
fn rotate270_three_by_two() {
    // Pixels numbered row-major: (0,0)=0 (1,0)=1 (2,0)=2 / (0,1)=3 (1,1)=4 (2,1)=5.
    let mut src = Vec::new();
    for p in 0u8..6 {
        src.extend_from_slice(&[p, p, p, 255]);
    }
    let dst = rotate270_rgba(&src, 3, 2);
    // Output is 2x3; out(x, y) = in(w-1-y, x).
    let expect: Vec<u8> = [2u8, 5, 1, 4, 0, 3]
        .iter()
        .flat_map(|p| vec![*p, *p, *p, 255])
        .collect();
    assert_eq!(dst, expect);
}

#[test]
fn orientation_tag_eight_rotates_a_quarter_turn() {
    let img = DisplayImage { width: 2, height: 1, data: vec![10, 11, 12, 13, 20, 21, 22, 23] };
    let r = apply_orientation(img, 8);
    assert_eq!(r.width, 1);
    assert_eq!(r.height, 2);
    assert_eq!(r.data, vec![20, 21, 22, 23, 10, 11, 12, 13]);
}

#[test]
fn other_orientation_tags_leave_the_image() {
    let img = DisplayImage { width: 2, height: 1, data: vec![10, 11, 12, 13, 20, 21, 22, 23] };
    let r = apply_orientation(img, 1);
    assert_eq!(r.width, 2);
    assert_eq!(r.height, 1);
    assert_eq!(r.data, vec![10, 11, 12, 13, 20, 21, 22, 23]);
}
