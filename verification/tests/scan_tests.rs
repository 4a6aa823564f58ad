use lumen_core::errors::DecodeError;
use lumen_core::scan::{
    collect_records, keep_current_records, load_thumbnails, make_record, process_file, scan_filter,
};
use lumen_core::thumbs::{get_thumbnail_path, ThumbnailCache};

#[test]
fn make_record_extracts_the_filename() {
    let rec = make_record(&String::from("dir/shot.arw"), String::from("thumbnail_cache/x.jpg"));
    assert_eq!(rec.source_path, "dir/shot.arw");
    assert_eq!(rec.filename, "shot.arw");
    assert_eq!(rec.thumbnail_path, "thumbnail_cache/x.jpg");
}

#[test]
fn scan_filter_keeps_only_supported_names() {
    let names = vec![
        String::from("a.arw"),
        String::from("b.txt"),
        String::from("c.CR2"),
        String::from("d"),
        String::from("e.raf"),
        String::from("f.jpeg"),
    ];
    let kept = scan_filter(&names);
    assert_eq!(kept, vec![String::from("a.arw"), String::from("c.CR2"), String::from("e.raf")]);
}

#[test]
fn collect_records_omits_failed_files() {
    let items = vec![
        (String::from("a.arw"), Some(String::from("thumbnail_cache/1.jpg"))),
        (String::from("b.cr2"), None),
        (String::from("c.raf"), Some(String::from("thumbnail_cache/3.jpg"))),
    ];
    let recs = collect_records(items);
    assert_eq!(recs.len(), 2);
    assert_eq!(recs[0].source_path, "a.arw");
    assert_eq!(recs[0].filename, "a.arw");
    assert_eq!(recs[0].thumbnail_path, "thumbnail_cache/1.jpg");
    assert_eq!(recs[1].source_path, "c.raf");
    assert_eq!(recs[1].thumbnail_path, "thumbnail_cache/3.jpg");
}

#[test]
fn process_file_rejects_unsupported_names() {
    let mut cache = ThumbnailCache::new();
    let r = process_file(&mut cache, &String::from("notes.txt"), &vec![1, 2, 3]);
    match r {
        Err(e) => assert_eq!(e, DecodeError::UnsupportedFormat),
        Ok(_) => panic!("an unsupported file must be rejected"),
    }
}

#[test]
fn process_file_serves_hits_without_decoding() {
    let mut cache = ThumbnailCache::new();
    let content = vec![9u8, 9, 9];
    let (_, created) = cache.get_or_create_thumbnail(&String::from("seed.arw"), &content);
    assert!(created);
    // The file does not exist on disk; a hit must not touch a decoder.
    let r = process_file(&mut cache, &String::from("ghost/shot.arw"), &content);
    match r {
        Ok((rec, job)) => {
            assert!(job.is_none());
            assert_eq!(rec.filename, "shot.arw");
            assert_eq!(rec.thumbnail_path, get_thumbnail_path(&content));
        },
        Err(_) => panic!("a cached file must be served"),
    }
}

#[test]
fn scan_yields_all_cached_supported_files() {
    let mut cache = ThumbnailCache::new();
    let c1 = vec![1u8];
    let c3 = vec![3u8];
    cache.get_or_create_thumbnail(&String::from("x.arw"), &c1);
    cache.get_or_create_thumbnail(&String::from("z.raf"), &c3);
    let entries = vec![
        (String::from("x.arw"), c1.clone()),
        (String::from("y.txt"), vec![2u8]),
        (String::from("z.raf"), c3.clone()),
    ];
    let (recs, jobs) = load_thumbnails(&mut cache, &entries);
    assert_eq!(jobs.len(), 0);
    assert_eq!(recs.len(), 2);
    assert_eq!(recs[0].source_path, "x.arw");
    assert_eq!(recs[0].thumbnail_path, get_thumbnail_path(&c1));
    assert_eq!(recs[1].source_path, "z.raf");
    assert_eq!(recs[1].thumbnail_path, get_thumbnail_path(&c3));
}

#[test]
fn scan_omits_a_corrupt_file_and_completes() {
    let mut cache = ThumbnailCache::new();
    let good = vec![1u8];
    cache.get_or_create_thumbnail(&String::from("x.arw"), &good);
    // The second entry misses the store, and its path points at no real
    // file, so its creation work fails; the scan must still complete.
    let entries = vec![
        (String::from("x.arw"), good.clone()),
        (String::from("missing.arw"), vec![2u8]),
    ];
    let (recs, jobs) = load_thumbnails(&mut cache, &entries);
    assert_eq!(recs.len(), 1);
    assert_eq!(recs[0].source_path, "x.arw");
    assert_eq!(jobs.len(), 0);
}

#[test]
fn stale_completions_are_discarded() {
    let r1 = make_record(&String::from("a/x.arw"), String::from("thumbnail_cache/1.jpg"));
    let r2 = make_record(&String::from("a/y.arw"), String::from("thumbnail_cache/2.jpg"));
    let r3 = make_record(&String::from("b/z.arw"), String::from("thumbnail_cache/3.jpg"));
    let kept = keep_current_records(2, vec![(1, r1), (2, r2), (2, r3)]);
    assert_eq!(kept.len(), 2);
    assert_eq!(kept[0].source_path, "a/y.arw");
    assert_eq!(kept[1].source_path, "b/z.arw");
}

#[test]
fn empty_scan_is_a_valid_outcome() {
    let mut cache = ThumbnailCache::new();
    let entries: Vec<(String, Vec<u8>)> = Vec::new();
    let (recs, jobs) = load_thumbnails(&mut cache, &entries);
    assert_eq!(recs.len(), 0);
    assert_eq!(jobs.len(), 0);
}
