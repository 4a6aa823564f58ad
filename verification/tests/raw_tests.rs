use lumen_core::errors::DecodeError;
use lumen_core::raw::{
    decode_raw_16bit, decode_raw_8bit, normalize_decoded, validate_decoded_16bit,
    validate_decoded_8bit, Image,
};

#[test]
fn validation_accepts_exactly_well_formed_buffers() {
    match validate_decoded_8bit(vec![1u8, 2, 3, 4, 5, 6], 2, 1) {
        Ok(b) => {
            assert_eq!(b.width, 2);
            assert_eq!(b.height, 1);
            assert_eq!(b.data, vec![1, 2, 3, 4, 5, 6]);
        },
        Err(_) => panic!("a well-formed buffer must validate"),
    }
    match validate_decoded_8bit(vec![1u8, 2, 3], 0, 1) {
        Err(e) => assert_eq!(e, DecodeError::DecodeFailure),
        Ok(_) => panic!("zero-sized output must be rejected"),
    }
    match validate_decoded_16bit(vec![1u16, 2, 3, 4], 1, 1) {
        Err(e) => assert_eq!(e, DecodeError::DimensionMismatch),
        Ok(_) => panic!("a byte-count mismatch must be rejected"),
    }
    match validate_decoded_16bit(vec![1u16, 2, 3], 1, 1) {
        Ok(b) => assert_eq!(b.data, vec![1, 2, 3]),
        Err(_) => panic!("a well-formed buffer must validate"),
    }
}

#[test]
fn normalize_accepts_exactly_matching_buffers() {
    let data = vec![1u8, 2, 3, 4, 5, 6];
    match normalize_decoded(&data, 2, 1) {
        Ok(img) => {
            assert_eq!(img.width, 2);
            assert_eq!(img.height, 1);
            assert_eq!(img.data, vec![3, 2, 1, 255, 6, 5, 4, 255]);
        },
        Err(_) => panic!("a matching buffer must normalize"),
    }
}

#[test]
fn normalize_rejects_zero_sized_output() {
    match normalize_decoded(&vec![], 0, 5) {
        Err(e) => assert_eq!(e, DecodeError::DecodeFailure),
        Ok(_) => panic!("zero-sized output is a decode failure"),
    }
}

#[test]
fn normalize_rejects_a_byte_count_mismatch() {
    match normalize_decoded(&vec![1u8, 2, 3, 4], 2, 1) {
        Err(e) => assert_eq!(e, DecodeError::DimensionMismatch),
        Ok(_) => panic!("a mismatched buffer must not become a partial image"),
    }
}

#[test]
fn decode_tiers_report_missing_files() {
    match decode_raw_8bit(&String::from("ghost/none.cr2"), 400, 400) {
        Err(e) => assert_eq!(e, DecodeError::DecodeFailure),
        Ok(_) => panic!("a missing file cannot decode"),
    }
    match decode_raw_16bit(&String::from("ghost/none.cr2"), 0, 0) {
        Err(e) => assert_eq!(e, DecodeError::DecodeFailure),
        Ok(_) => panic!("a missing file cannot decode"),
    }
}

#[test]
fn preview_of_a_missing_image_fails_cleanly() {
    let img = Image::new(String::from("ghost/none.raf"), String::new());
    assert!(img.get_display_image().is_err());
}
