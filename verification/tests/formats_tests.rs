use lumen_core::formats::{detect_format, file_extension, file_name, is_supported_file, FormatTag};

#[test]
fn supported_extensions_are_recognized() {
    assert!(is_supported_file(&String::from("photo.arw")));
    assert!(is_supported_file(&String::from("photo.cr2")));
    assert!(is_supported_file(&String::from("photo.raf")));
    assert!(is_supported_file(&String::from("photo.jpg")));
}

#[test]
fn extension_matching_is_case_insensitive() {
    assert!(is_supported_file(&String::from("photo.ARW")));
    assert!(is_supported_file(&String::from("photo.Cr2")));
    assert!(is_supported_file(&String::from("dir/sub/photo.RAF")));
    assert!(is_supported_file(&String::from("photo.JpG")));
}

#[test]
fn unsupported_files_are_rejected() {
    assert!(!is_supported_file(&String::from("photo.png")));
    assert!(!is_supported_file(&String::from("photo")));
    assert!(!is_supported_file(&String::from("")));
    assert!(!is_supported_file(&String::from("archive.arw.txt")));
    assert!(!is_supported_file(&String::from("dir.arw/photo")));
}

#[test]
fn hidden_files_have_no_extension() {
    assert!(!is_supported_file(&String::from(".arw")));
    assert_eq!(file_extension(&String::from(".hidden")), None);
    assert_eq!(file_extension(&String::from("dir/.hidden")), None);
}

#[test]
fn file_name_is_final_component() {
    assert_eq!(file_name(&String::from("dir/sub/name.arw")), "name.arw");
    assert_eq!(file_name(&String::from("name.arw")), "name.arw");
    assert_eq!(file_name(&String::from("dir/")), "");
}

#[test]
fn file_extension_takes_last_dot() {
    assert_eq!(file_extension(&String::from("a.tar.gz")), Some(String::from("gz")));
    assert_eq!(file_extension(&String::from("a/b.c/d")), None);
    assert_eq!(file_extension(&String::from("x.ARW")), Some(String::from("ARW")));
}

#[test]
fn detect_format_maps_to_backends() {
    assert_eq!(detect_format(&String::from("x.ArW")), Some(FormatTag::Arw));
    assert_eq!(detect_format(&String::from("x.cr2")), Some(FormatTag::Cr2));
    assert_eq!(detect_format(&String::from("x.RAF")), Some(FormatTag::Raf));
    assert_eq!(detect_format(&String::from("x.jpg")), Some(FormatTag::Jpg));
    assert_eq!(detect_format(&String::from("x.tiff")), None);
}
