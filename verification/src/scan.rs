use vstd::prelude::*;
use crate::backends;
use crate::errors::DecodeError;
use crate::formats;
use crate::thumbs;
use crate::thumbs::ThumbnailCache;

verus! {

/// One scan result handed to the presentation layer: the source file,
/// its display filename, and the cached thumbnail's path.
pub struct ThumbnailRecord {
    pub source_path: String,
    pub filename: String,
    pub thumbnail_path: String,
}

impl View for ThumbnailRecord {
    type V = (Seq<char>, Seq<char>, Seq<char>);

    open spec fn view(&self) -> (Seq<char>, Seq<char>, Seq<char>) {
        (self.source_path@, self.filename@, self.thumbnail_path@)
    }
}

/// The record a file contributes: its path, its final path component as
/// the display filename, and the thumbnail path.
pub open spec fn record_model(source_path: Seq<char>, thumb: Seq<char>) -> (
    Seq<char>,
    Seq<char>,
    Seq<char>,
) {
    (source_path, formats::file_name_spec(source_path), thumb)
}

/// Builds the record of one scanned file.
pub fn make_record(source_path: &String, thumbnail_path: String) -> (r: ThumbnailRecord)
    ensures
        r@ == record_model(source_path@, thumbnail_path@),
{
    let filename = formats::file_name(source_path);
    ThumbnailRecord { source_path: source_path.clone(), filename, thumbnail_path }
}

pub open spec fn name_view_fn() -> spec_fn(String) -> Seq<char> {
    |s: String| s@
}

pub open spec fn name_views(ns: Seq<String>) -> Seq<Seq<char>> {
    ns.map_values(name_view_fn())
}

pub open spec fn supported_name_pred() -> spec_fn(Seq<char>) -> bool {
    |p: Seq<char>| formats::is_supported_spec(p)
}

/// Keeps exactly the supported entries of a directory listing, in
/// order; unsupported names never reach a decode backend.
pub fn scan_filter(names: &Vec<String>) -> (r: Vec<String>)
    ensures
        name_views(r@) == name_views(names@).filter(supported_name_pred()),
{
    broadcast use Seq::lemma_filter_push;

    let n: usize = names.len();
    let mut out: Vec<String> = Vec::new();
    let mut i: usize = 0;
    while i < n
        invariant
            n == names@.len(),
            i <= n,
            name_views(out@) == name_views(names@.take(i as int)).filter(supported_name_pred()),
        decreases n - i,
    {
        let ghost prev_out = out@;
        let nm: &String = &names[i];
        if formats::is_supported_file(nm) {
            out.push(nm.clone());
        }
        proof {
            let nv = name_views(names@.take(i as int));
            let x = names@[i as int]@;
            assert(names@.take(i + 1) =~= names@.take(i as int).push(names@[i as int]));
            assert(name_views(names@.take(i + 1)) =~= nv.push(x));
            nv.lemma_filter_push(x, supported_name_pred());
            if formats::is_supported_spec(x) {
                assert(supported_name_pred()(x));
                assert(name_views(out@) =~= nv.filter(supported_name_pred()).push(x));
            } else {
                assert(!supported_name_pred()(x));
                assert(name_views(out@) =~= nv.filter(supported_name_pred()));
            }
        }
        i = i + 1;
    }
    proof {
        assert(names@.take(n as int) =~= names@);
    }
    out
}

/// The per-file outcomes a scan collects: a path together with the
/// thumbnail path its work produced, or nothing where that file failed.
pub open spec fn item_some_pred() -> spec_fn((Seq<char>, Option<Seq<char>>)) -> bool {
    |it: (Seq<char>, Option<Seq<char>>)| it.1 is Some
}

pub open spec fn item_record_fn() -> spec_fn((Seq<char>, Option<Seq<char>>)) -> (
    Seq<char>,
    Seq<char>,
    Seq<char>,
) {
    |it: (Seq<char>, Option<Seq<char>>)|
        record_model(
            it.0,
            match it.1 {
                Option::Some(t) => t,
                Option::None => Seq::empty(),
            },
        )
}

/// The records of a set of per-file outcomes: one per succeeded file,
/// in order; failed files are omitted.
pub open spec fn collected_model(items: Seq<(Seq<char>, Option<Seq<char>>)>) -> Seq<
    (Seq<char>, Seq<char>, Seq<char>),
> {
    items.filter(item_some_pred()).map_values(item_record_fn())
}

pub open spec fn item_view_fn() -> spec_fn((String, Option<String>)) -> (
    Seq<char>,
    Option<Seq<char>>,
) {
    |it: (String, Option<String>)|
        (
            it.0@,
            match it.1 {
                Option::Some(t) => Option::Some(t@),
                Option::None => Option::None,
            },
        )
}

pub open spec fn item_views(items: Seq<(String, Option<String>)>) -> Seq<
    (Seq<char>, Option<Seq<char>>),
> {
    items.map_values(item_view_fn())
}

pub open spec fn record_view_fn() -> spec_fn(ThumbnailRecord) -> (Seq<char>, Seq<char>, Seq<char>) {
    |t: ThumbnailRecord| t@
}

pub open spec fn record_views(rs: Seq<ThumbnailRecord>) -> Seq<(Seq<char>, Seq<char>, Seq<char>)> {
    rs.map_values(record_view_fn())
}

/// Collects per-file outcomes into the scan's result set: every file
/// whose thumbnail was produced contributes its record; a failed file
/// is omitted and every other record still stands.
pub fn collect_records(items: Vec<(String, Option<String>)>) -> (r: Vec<ThumbnailRecord>)
    ensures
        record_views(r@) == collected_model(item_views(items@)),
{
    broadcast use Seq::lemma_filter_push;

    let n: usize = items.len();
    let mut out: Vec<ThumbnailRecord> = Vec::new();
    let mut i: usize = 0;
    while i < n
        invariant
            n == items@.len(),
            i <= n,
            record_views(out@) == collected_model(item_views(items@.take(i as int))),
        decreases n - i,
    {
        let ghost prev_out = out@;
        let (path, outcome) = &items[i];
        match outcome {
            Option::Some(thumb) => {
                let rec = make_record(path, thumb.clone());
                out.push(rec);
            },
            Option::None => {},
        }
        proof {
            let itv = item_views(items@.take(i as int));
            let x = item_view_fn()(items@[i as int]);
            assert(items@.take(i + 1) =~= items@.take(i as int).push(items@[i as int]));
            assert(item_views(items@.take(i + 1)) =~= itv.push(x));
            itv.lemma_filter_push(x, item_some_pred());
            if items@[i as int].1 is Some {
                assert(item_some_pred()(x));
                assert(record_views(out@) =~= record_views(prev_out).push(item_record_fn()(x)));
                assert(itv.push(x).filter(item_some_pred()).map_values(item_record_fn()) =~= itv
                    .filter(item_some_pred()).map_values(item_record_fn()).push(
                    item_record_fn()(x),
                ));
            } else {
                assert(!item_some_pred()(x));
            }
        }
        i = i + 1;
    }
    proof {
        assert(items@.take(n as int) =~= items@);
    }
    out
}

/// Handles one directory entry end to end: dispatches on support,
/// consults the thumbnail store, has the backend produce a missing
/// JPEG, and builds the record. `content` is the file's entire byte
/// content, read by the caller. A hit in the store is always served
/// without any creation work; a creation failure leaves the store as it
/// stood, so the scan omits exactly this file and goes on.
pub fn process_file(cache: &mut ThumbnailCache, path: &String, content: &Vec<u8>) -> (r: Result<
    (ThumbnailRecord, Option<(String, Vec<u8>)>),
    DecodeError,
>)
    ensures
        r matches Err(e) ==> final(cache)@ == old(cache)@ && (e == DecodeError::UnsupportedFormat
            <==> !formats::is_supported_spec(path@)),
        !formats::is_supported_spec(path@) ==> r is Err,
        formats::is_supported_spec(path@) && old(cache)@.contains(backends::blake3_of(content@))
            ==> r is Ok,
        r matches Ok((rec, job)) ==> formats::is_supported_spec(path@) && rec@ == record_model(
            path@,
            thumbs::cache_path_of(path@, content@),
        ) && match job {
            Option::None => old(cache)@.contains(backends::blake3_of(content@)) && final(cache)@
                == old(cache)@,
            Option::Some((jp, jpeg)) => !old(cache)@.contains(backends::blake3_of(content@))
                && jp@ == thumbs::cache_path_of(path@, content@) && thumbs::is_thumbnail_jpeg(
                jpeg@,
            ) && final(cache)@ == old(cache)@.insert(backends::blake3_of(content@)),
        },
{
    if !formats::is_supported_file(path) {
        return Err(DecodeError::UnsupportedFormat);
    }
    let digest = backends::blake3_hash(content);
    let thumb = thumbs::thumb_path_of_digest(&digest);
    if cache.contains_digest(&digest) {
        let rec = make_record(path, thumb);
        return Ok((rec, None));
    }
    match thumbs::create_thumbnail(path) {
        Ok(jpeg) => {
            cache.register(&digest);
            let rec = make_record(path, thumb.clone());
            Ok((rec, Some((thumb, jpeg))))
        },
        Err(e) => Err(e),
    }
}

pub open spec fn entry_view_fn() -> spec_fn((String, Vec<u8>)) -> (Seq<char>, Seq<u8>) {
    |e: (String, Vec<u8>)| (e.0@, e.1@)
}

pub open spec fn entry_views(es: Seq<(String, Vec<u8>)>) -> Seq<(Seq<char>, Seq<u8>)> {
    es.map_values(entry_view_fn())
}

pub open spec fn supported_entry_pred() -> spec_fn((Seq<char>, Seq<u8>)) -> bool {
    |e: (Seq<char>, Seq<u8>)| formats::is_supported_spec(e.0)
}

pub open spec fn entry_record_fn() -> spec_fn((Seq<char>, Seq<u8>)) -> (
    Seq<char>,
    Seq<char>,
    Seq<char>,
) {
    |e: (Seq<char>, Seq<u8>)| record_model(e.0, thumbs::cache_path_of(e.0, e.1))
}

/// What a scan of the given entries owes when no creation work fails:
/// one record per supported entry, in order.
pub open spec fn scan_records_model(es: Seq<(Seq<char>, Seq<u8>)>) -> Seq<
    (Seq<char>, Seq<char>, Seq<char>),
> {
    es.filter(supported_entry_pred()).map_values(entry_record_fn())
}

/// Every record names a supported source file and carries its final
/// path component as the display filename.
pub open spec fn records_wf(recs: Seq<ThumbnailRecord>) -> bool {
    forall|j: int|
        0 <= j < recs.len() ==> formats::is_supported_spec((#[trigger] recs[j])@.0) && recs[j]@.1
            == formats::file_name_spec(recs[j]@.0)
}

/// Membership in a sequence survives appending.
proof fn lemma_contains_after_push<A>(s: Seq<A>, x: A, v: A)
    requires
        s.contains(v),
    ensures
        s.push(x).contains(v),
{
    let j = choose|j: int| 0 <= j < s.len() && s[j] == v;
    assert(s.push(x)[j] == v);
}

/// A supported entry's record stands in the full scan model.
proof fn lemma_scan_records_model_contains(es: Seq<(Seq<char>, Seq<u8>)>, i: int)
    requires
        0 <= i < es.len(),
        formats::is_supported_spec(es[i].0),
    ensures
        scan_records_model(es).contains(entry_record_fn()(es[i])),
{
    assert(supported_entry_pred()(es[i]));
    es.lemma_filter_contains(supported_entry_pred(), i);
    let f = es.filter(supported_entry_pred());
    let j = choose|j: int| 0 <= j < f.len() && f[j] == es[i];
    assert(f.map_values(entry_record_fn())[j] == entry_record_fn()(es[i]));
}

/// Every supported entry's digest already stands in the store.
pub open spec fn all_hits(cache: Set<Seq<u8>>, es: Seq<(Seq<char>, Seq<u8>)>) -> bool {
    forall|i: int|
        0 <= i < es.len() && formats::is_supported_spec((#[trigger] es[i]).0) ==> cache.contains(
            backends::blake3_of(es[i].1),
        )
}

/// Runs a scan over pre-read directory entries, each a path with the
/// file's entire content. Unsupported files are skipped, thumbnails are
/// found or created through the store, and a file whose thumbnail
/// cannot be produced is omitted while the scan runs to completion; an
/// empty result is a valid outcome, not an error. Returns the records
/// in entry order and the pending JPEG writes (cache path, bytes).
/// Every record belongs to some supported entry of the scan; an entry
/// already cached when the scan starts always contributes its record;
/// and when every supported entry is already cached, the result is
/// exactly one record per supported entry and the store is unchanged.
pub fn load_thumbnails(cache: &mut ThumbnailCache, entries: &Vec<(String, Vec<u8>)>) -> (r: (
    Vec<ThumbnailRecord>,
    Vec<(String, Vec<u8>)>,
))
    ensures
        r.0@.len() <= entries@.len(),
        records_wf(r.0@),
        forall|j: int|
            0 <= j < r.0@.len() ==> scan_records_model(entry_views(entries@)).contains(
                (#[trigger] r.0@[j])@,
            ),
        forall|i: int|
            0 <= i < entries@.len() && formats::is_supported_spec((#[trigger] entries@[i]).0@)
                && old(cache)@.contains(backends::blake3_of(entries@[i].1@)) ==> record_views(
                r.0@,
            ).contains(
                record_model(
                    entries@[i].0@,
                    thumbs::cache_path_of(entries@[i].0@, entries@[i].1@),
                ),
            ),
        forall|j: int|
            0 <= j < r.1@.len() ==> thumbs::is_thumbnail_jpeg((#[trigger] r.1@[j]).1@),
        all_hits(old(cache)@, entry_views(entries@)) ==> final(cache)@ == old(cache)@
            && record_views(r.0@) == scan_records_model(entry_views(entries@)) && r.1@.len() == 0,
{
    let ghost ev = entry_views(entries@);
    let n: usize = entries.len();
    let mut recs: Vec<ThumbnailRecord> = Vec::new();
    let mut jobs: Vec<(String, Vec<u8>)> = Vec::new();
    let mut i: usize = 0;
    while i < n
        invariant
            n == entries@.len(),
            ev == entry_views(entries@),
            i <= n,
            recs@.len() <= i,
            records_wf(recs@),
            forall|d: Seq<u8>| #[trigger] old(cache)@.contains(d) ==> cache@.contains(d),
            forall|j: int|
                0 <= j < recs@.len() ==> scan_records_model(ev).contains((#[trigger] recs@[j])@),
            forall|i2: int|
                0 <= i2 < i && formats::is_supported_spec((#[trigger] entries@[i2]).0@) && old(
                    cache,
                )@.contains(backends::blake3_of(entries@[i2].1@)) ==> record_views(recs@).contains(
                    record_model(
                        entries@[i2].0@,
                        thumbs::cache_path_of(entries@[i2].0@, entries@[i2].1@),
                    ),
                ),
            forall|j: int|
                0 <= j < jobs@.len() ==> thumbs::is_thumbnail_jpeg((#[trigger] jobs@[j]).1@),
            all_hits(old(cache)@, ev) ==> cache@ == old(cache)@ && record_views(recs@)
                == scan_records_model(ev.take(i as int)) && jobs@.len() == 0,
        decreases n - i,
    {
        let ghost prev_recs = recs@;
        let ghost prev_jobs = jobs@;
        let ghost head_cache = cache@;
        let (path, content) = &entries[i];
        proof {
            assert(path@ == entries@[i as int].0@);
            assert(content@ == entries@[i as int].1@);
            assert(ev[i as int] == entry_view_fn()(entries@[i as int]));
        }
        match process_file(cache, path, content) {
            Ok((rec, job)) => {
                let ghost rv = rec@;
                recs.push(rec);
                match job {
                    Option::Some(jb) => jobs.push(jb),
                    Option::None => {},
                }
                proof {
                    assert forall|j: int| 0 <= j < recs@.len() implies formats::is_supported_spec(
                        (#[trigger] recs@[j])@.0,
                    ) && recs@[j]@.1 == formats::file_name_spec(recs@[j]@.0) by {
                        if j < prev_recs.len() {
                            assert(recs@[j] == prev_recs[j]);
                        } else {
                            assert(recs@[j]@ == rv);
                        }
                    }
                    assert(record_views(recs@) =~= record_views(prev_recs).push(rv));
                    assert(rv == entry_record_fn()(ev[i as int]));
                    lemma_scan_records_model_contains(ev, i as int);
                    assert forall|j: int| 0 <= j < recs@.len() implies scan_records_model(
                        ev,
                    ).contains((#[trigger] recs@[j])@) by {
                        if j < prev_recs.len() {
                            assert(recs@[j] == prev_recs[j]);
                        } else {
                            assert(recs@[j]@ == rv);
                        }
                    }
                    assert forall|i2: int|
                        0 <= i2 < i + 1 && formats::is_supported_spec((
                        #[trigger] entries@[i2]).0@) && old(cache)@.contains(
                            backends::blake3_of(entries@[i2].1@),
                        ) implies record_views(recs@).contains(
                        record_model(
                            entries@[i2].0@,
                            thumbs::cache_path_of(entries@[i2].0@, entries@[i2].1@),
                        ),
                    ) by {
                        let m = record_model(
                            entries@[i2].0@,
                            thumbs::cache_path_of(entries@[i2].0@, entries@[i2].1@),
                        );
                        if i2 < i {
                            assert(record_views(prev_recs).contains(m));
                            lemma_contains_after_push(record_views(prev_recs), rv, m);
                        } else {
                            assert(rv == m);
                            assert(record_views(recs@)[recs@.len() - 1] == rv);
                        }
                    }
                    assert forall|j: int| 0 <= j < jobs@.len() implies thumbs::is_thumbnail_jpeg(
                        (#[trigger] jobs@[j]).1@,
                    ) by {
                        if j < prev_jobs.len() {
                            assert(jobs@[j] == prev_jobs[j]);
                        }
                    }
                }
            },
            Err(_) => {
                proof {
                    assert forall|i2: int|
                        0 <= i2 < i + 1 && formats::is_supported_spec((
                        #[trigger] entries@[i2]).0@) && old(cache)@.contains(
                            backends::blake3_of(entries@[i2].1@),
                        ) implies record_views(recs@).contains(
                        record_model(
                            entries@[i2].0@,
                            thumbs::cache_path_of(entries@[i2].0@, entries@[i2].1@),
                        ),
                    ) by {
                        if i2 == i {
                            assert(head_cache.contains(backends::blake3_of(content@)));
                            assert(false);
                        }
                    }
                }
            },
        }
        proof {
            assert forall|d2: Seq<u8>| #[trigger] old(cache)@.contains(d2) implies cache@.contains(
                d2,
            ) by {
                assert(head_cache.contains(d2));
            }
        }
        proof {
            assert(ev[i as int] == entry_view_fn()(entries@[i as int]));
            let e = ev[i as int];
            assert(e.0 == entries@[i as int].0@ && e.1 == entries@[i as int].1@);
            if all_hits(old(cache)@, ev) {
                assert(ev.take(i + 1) =~= ev.take(i as int).push(e));
                ev.take(i as int).lemma_filter_push(e, supported_entry_pred());
                if formats::is_supported_spec(e.0) {
                    assert(supported_entry_pred()(e));
                    assert(record_views(recs@) =~= record_views(prev_recs).push(
                        entry_record_fn()(e),
                    ));
                    assert(ev.take(i as int).push(e).filter(supported_entry_pred()).map_values(
                        entry_record_fn(),
                    ) =~= ev.take(i as int).filter(supported_entry_pred()).map_values(
                        entry_record_fn(),
                    ).push(entry_record_fn()(e)));
                } else {
                    assert(!supported_entry_pred()(e));
                }
            }
        }
        i = i + 1;
    }
    proof {
        assert(ev.take(n as int) =~= ev);
    }
    (recs, jobs)
}

/// Copies a record; the copy reads the same.
fn clone_record(rec: &ThumbnailRecord) -> (r: ThumbnailRecord)
    ensures
        r@ == rec@,
{
    ThumbnailRecord {
        source_path: rec.source_path.clone(),
        filename: rec.filename.clone(),
        thumbnail_path: rec.thumbnail_path.clone(),
    }
}

pub open spec fn tagged_record_view_fn() -> spec_fn((u64, ThumbnailRecord)) -> (
    u64,
    (Seq<char>, Seq<char>, Seq<char>),
) {
    |t: (u64, ThumbnailRecord)| (t.0, t.1@)
}

pub open spec fn tagged_views(ts: Seq<(u64, ThumbnailRecord)>) -> Seq<
    (u64, (Seq<char>, Seq<char>, Seq<char>)),
> {
    ts.map_values(tagged_record_view_fn())
}

pub open spec fn epoch_pred(current: u64) -> spec_fn((u64, (Seq<char>, Seq<char>, Seq<char>))) -> bool {
    |t: (u64, (Seq<char>, Seq<char>, Seq<char>))| t.0 == current
}

pub open spec fn untag_fn() -> spec_fn((u64, (Seq<char>, Seq<char>, Seq<char>))) -> (
    Seq<char>,
    Seq<char>,
    Seq<char>,
) {
    |t: (u64, (Seq<char>, Seq<char>, Seq<char>))| t.1
}

/// Switching directories mid-scan does not cancel in-flight per-file
/// work, so every completion carries the epoch of the scan that issued
/// it. This keeps exactly the completions of the current epoch, in
/// order; a stale completion is discarded, never shown.
pub fn keep_current_records(current: u64, tagged: Vec<(u64, ThumbnailRecord)>) -> (r: Vec<
    ThumbnailRecord,
>)
    ensures
        record_views(r@) == tagged_views(tagged@).filter(epoch_pred(current)).map_values(
            untag_fn(),
        ),
{
    let n: usize = tagged.len();
    let mut out: Vec<ThumbnailRecord> = Vec::new();
    let mut i: usize = 0;
    while i < n
        invariant
            n == tagged@.len(),
            i <= n,
            record_views(out@) == tagged_views(tagged@.take(i as int)).filter(
                epoch_pred(current),
            ).map_values(untag_fn()),
        decreases n - i,
    {
        let ghost prev_out = out@;
        let (epoch, rec) = &tagged[i];
        if *epoch == current {
            out.push(clone_record(rec));
        }
        proof {
            let tv = tagged_views(tagged@.take(i as int));
            let x = tagged_record_view_fn()(tagged@[i as int]);
            assert(tagged@.take(i + 1) =~= tagged@.take(i as int).push(tagged@[i as int]));
            assert(tagged_views(tagged@.take(i + 1)) =~= tv.push(x));
            tv.lemma_filter_push(x, epoch_pred(current));
            if tagged@[i as int].0 == current {
                assert(epoch_pred(current)(x));
                assert(record_views(out@) =~= record_views(prev_out).push(untag_fn()(x)));
                assert(tv.push(x).filter(epoch_pred(current)).map_values(untag_fn()) =~= tv.filter(
                    epoch_pred(current),
                ).map_values(untag_fn()).push(untag_fn()(x)));
            } else {
                assert(!epoch_pred(current)(x));
            }
        }
        i = i + 1;
    }
    proof {
        assert(tagged@.take(n as int) =~= tagged@);
    }
    out
}

/// Filtering keeps a sequence whole when every element satisfies the
/// predicate.
proof fn lemma_filter_all_kept<A>(s: Seq<A>, pred: spec_fn(A) -> bool)
    requires
        forall|i: int| 0 <= i < s.len() ==> pred(#[trigger] s[i]),
    ensures
        s.filter(pred) == s,
    decreases s.len(),
{
    reveal(Seq::filter);
    if s.len() > 0 {
        assert forall|i: int| 0 <= i < s.drop_last().len() implies pred(
            #[trigger] s.drop_last()[i],
        ) by {
            assert(s.drop_last()[i] == s[i]);
        }
        lemma_filter_all_kept(s.drop_last(), pred);
        assert(s.filter(pred) =~= s);
    } else {
        assert(s.filter(pred) =~= s);
    }
}

/// A scan of a mixed directory yields records for exactly its supported
/// entries: each supported entry is kept, only supported entries appear,
/// and the record count equals the count of supported entries.
pub proof fn law_scan_keeps_exactly_supported(es: Seq<(Seq<char>, Seq<u8>)>)
    ensures
        scan_records_model(es).len() == es.filter(supported_entry_pred()).len(),
        forall|i: int|
            0 <= i < es.len() && formats::is_supported_spec((#[trigger] es[i]).0) ==> es.filter(
                supported_entry_pred(),
            ).contains(es[i]),
        forall|j: int|
            0 <= j < es.filter(supported_entry_pred()).len() ==> formats::is_supported_spec(
                (#[trigger] es.filter(supported_entry_pred())[j]).0,
            ),
{
    assert forall|i: int|
        0 <= i < es.len() && formats::is_supported_spec((#[trigger] es[i]).0) implies es.filter(
        supported_entry_pred(),
    ).contains(es[i]) by {
        assert(supported_entry_pred()(es[i]));
        es.lemma_filter_contains(supported_entry_pred(), i);
    }
    assert forall|j: int|
        0 <= j < es.filter(supported_entry_pred()).len() implies formats::is_supported_spec(
        (#[trigger] es.filter(supported_entry_pred())[j]).0,
    ) by {
        es.lemma_filter_pred(supported_entry_pred(), j);
    }
}

/// A scan where exactly one file's work fails yields every other
/// file's record and omits only the failed one; the collection runs to
/// completion with one record fewer.
pub proof fn law_scan_tolerates_failure(items: Seq<(Seq<char>, Option<Seq<char>>)>, k: int)
    requires
        0 <= k < items.len(),
        items[k].1 is None,
        forall|j: int| 0 <= j < items.len() && j != k ==> (#[trigger] items[j]).1 is Some,
    ensures
        collected_model(items).len() == items.len() - 1,
        collected_model(items) == collected_model(items.remove(k)),
{
    let pred = item_some_pred();
    let pre = items.subrange(0, k);
    let mid = seq![items[k]];
    let post = items.subrange(k + 1, items.len() as int);
    assert(items =~= pre + (mid + post));
    Seq::filter_distributes_over_add(pre, mid + post, pred);
    Seq::filter_distributes_over_add(mid, post, pred);
    assert(mid.filter(pred) =~= Seq::<(Seq<char>, Option<Seq<char>>)>::empty()) by {
        reveal(Seq::filter);
        assert(mid.drop_last() =~= Seq::<(Seq<char>, Option<Seq<char>>)>::empty());
        assert(Seq::<(Seq<char>, Option<Seq<char>>)>::empty().filter(pred) =~= Seq::<
            (Seq<char>, Option<Seq<char>>),
        >::empty());
        assert(!pred(mid.last()));
    }
    assert forall|i: int| 0 <= i < pre.len() implies pred(#[trigger] pre[i]) by {
        assert(pre[i] == items[i]);
    }
    assert forall|i: int| 0 <= i < post.len() implies pred(#[trigger] post[i]) by {
        assert(post[i] == items[k + 1 + i]);
    }
    lemma_filter_all_kept(pre, pred);
    lemma_filter_all_kept(post, pred);
    assert(items.filter(pred) =~= pre + post);
    assert(items.remove(k) =~= pre + post);
    Seq::filter_distributes_over_add(pre, post, pred);
    assert((pre + post).filter(pred) =~= pre + post);
}

} // verus!
