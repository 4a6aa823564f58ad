use vstd::prelude::*;
use crate::backends;
use crate::errors::DecodeError;

verus! {

/// The character of one hex digit (0 to 15), lower case.
pub open spec fn hex_digit_spec(d: int) -> char {
    if d == 0 {
        '0'
    } else if d == 1 {
        '1'
    } else if d == 2 {
        '2'
    } else if d == 3 {
        '3'
    } else if d == 4 {
        '4'
    } else if d == 5 {
        '5'
    } else if d == 6 {
        '6'
    } else if d == 7 {
        '7'
    } else if d == 8 {
        '8'
    } else if d == 9 {
        '9'
    } else if d == 10 {
        'a'
    } else if d == 11 {
        'b'
    } else if d == 12 {
        'c'
    } else if d == 13 {
        'd'
    } else if d == 14 {
        'e'
    } else {
        'f'
    }
}

/// Lower-case hex rendering of a byte sequence, two digits per byte.
pub open spec fn hex_of_bytes(bs: Seq<u8>) -> Seq<char>
    decreases bs.len(),
{
    if bs.len() == 0 {
        Seq::empty()
    } else {
        hex_of_bytes(bs.drop_last()) + seq![
            hex_digit_spec((bs.last() / 16) as int),
            hex_digit_spec((bs.last() % 16) as int),
        ]
    }
}

pub proof fn lemma_hex_of_bytes_len(bs: Seq<u8>)
    ensures
        hex_of_bytes(bs).len() == 2 * bs.len(),
    decreases bs.len(),
{
    if bs.len() > 0 {
        lemma_hex_of_bytes_len(bs.drop_last());
    }
}

/// Distinct digits render as distinct characters.
pub proof fn lemma_hex_digit_injective(d1: int, d2: int)
    requires
        0 <= d1 < 16,
        0 <= d2 < 16,
        hex_digit_spec(d1) == hex_digit_spec(d2),
    ensures
        d1 == d2,
{
}

/// Hex rendering is injective on byte sequences of equal length.
pub proof fn lemma_hex_of_bytes_injective(a: Seq<u8>, b: Seq<u8>)
    requires
        a.len() == b.len(),
        hex_of_bytes(a) == hex_of_bytes(b),
    ensures
        a == b,
    decreases a.len(),
{
    if a.len() == 0 {
        assert(a =~= b);
    } else {
        let ha = hex_of_bytes(a);
        let hb = hex_of_bytes(b);
        lemma_hex_of_bytes_len(a);
        lemma_hex_of_bytes_len(b);
        lemma_hex_of_bytes_len(a.drop_last());
        assert(ha[ha.len() - 1] == hex_digit_spec((a.last() % 16) as int));
        assert(ha[ha.len() - 2] == hex_digit_spec((a.last() / 16) as int));
        assert(hb[hb.len() - 1] == hex_digit_spec((b.last() % 16) as int));
        assert(hb[hb.len() - 2] == hex_digit_spec((b.last() / 16) as int));
        lemma_hex_digit_injective((a.last() % 16) as int, (b.last() % 16) as int);
        lemma_hex_digit_injective((a.last() / 16) as int, (b.last() / 16) as int);
        assert(a.last() == b.last());
        assert(hex_of_bytes(a.drop_last()) =~= ha.take(ha.len() - 2));
        assert(hex_of_bytes(b.drop_last()) =~= hb.take(hb.len() - 2));
        lemma_hex_of_bytes_injective(a.drop_last(), b.drop_last());
        assert forall|i: int| 0 <= i < a.len() implies a[i] == b[i] by {
            if i < a.len() - 1 {
                assert(a[i] == a.drop_last()[i]);
                assert(b[i] == b.drop_last()[i]);
            }
        }
        assert(a =~= b);
    }
}

fn hex_digit_str(d: u8) -> (r: &'static str)
    requires
        d < 16,
    ensures
        r@ == seq![hex_digit_spec(d as int)],
{
    if d == 0 {
        proof {
            reveal_strlit("0");
            assert("0"@ =~= seq![hex_digit_spec(0)]);
        }
        "0"
    } else if d == 1 {
        proof {
            reveal_strlit("1");
            assert("1"@ =~= seq![hex_digit_spec(1)]);
        }
        "1"
    } else if d == 2 {
        proof {
            reveal_strlit("2");
            assert("2"@ =~= seq![hex_digit_spec(2)]);
        }
        "2"
    } else if d == 3 {
        proof {
            reveal_strlit("3");
            assert("3"@ =~= seq![hex_digit_spec(3)]);
        }
        "3"
    } else if d == 4 {
        proof {
            reveal_strlit("4");
            assert("4"@ =~= seq![hex_digit_spec(4)]);
        }
        "4"
    } else if d == 5 {
        proof {
            reveal_strlit("5");
            assert("5"@ =~= seq![hex_digit_spec(5)]);
        }
        "5"
    } else if d == 6 {
        proof {
            reveal_strlit("6");
            assert("6"@ =~= seq![hex_digit_spec(6)]);
        }
        "6"
    } else if d == 7 {
        proof {
            reveal_strlit("7");
            assert("7"@ =~= seq![hex_digit_spec(7)]);
        }
        "7"
    } else if d == 8 {
        proof {
            reveal_strlit("8");
            assert("8"@ =~= seq![hex_digit_spec(8)]);
        }
        "8"
    } else if d == 9 {
        proof {
            reveal_strlit("9");
            assert("9"@ =~= seq![hex_digit_spec(9)]);
        }
        "9"
    } else if d == 10 {
        proof {
            reveal_strlit("a");
            assert("a"@ =~= seq![hex_digit_spec(10)]);
        }
        "a"
    } else if d == 11 {
        proof {
            reveal_strlit("b");
            assert("b"@ =~= seq![hex_digit_spec(11)]);
        }
        "b"
    } else if d == 12 {
        proof {
            reveal_strlit("c");
            assert("c"@ =~= seq![hex_digit_spec(12)]);
        }
        "c"
    } else if d == 13 {
        proof {
            reveal_strlit("d");
            assert("d"@ =~= seq![hex_digit_spec(13)]);
        }
        "d"
    } else if d == 14 {
        proof {
            reveal_strlit("e");
            assert("e"@ =~= seq![hex_digit_spec(14)]);
        }
        "e"
    } else {
        proof {
            reveal_strlit("f");
            assert("f"@ =~= seq![hex_digit_spec(15)]);
        }
        "f"
    }
}

/// Renders a byte sequence as lower-case hex, two digits per byte.
pub fn hex_string_of_bytes(bytes: &Vec<u8>) -> (r: String)
    ensures
        r@ == hex_of_bytes(bytes@),
{
    let n: usize = bytes.len();
    let mut s = String::new();
    let mut i: usize = 0;
    while i < n
        invariant
            n == bytes@.len(),
            i <= n,
            s@ == hex_of_bytes(bytes@.take(i as int)),
        decreases n - i,
    {
        let b: u8 = bytes[i];
        s.append(hex_digit_str(b / 16));
        s.append(hex_digit_str(b % 16));
        proof {
            let t1 = bytes@.take(i + 1);
            assert(t1.drop_last() =~= bytes@.take(i as int));
            assert(t1.last() == bytes@[i as int]);
            assert(s@ =~= hex_of_bytes(t1));
        }
        i = i + 1;
    }
    proof {
        assert(bytes@.take(n as int) =~= bytes@);
    }
    s
}

/// The cache path a content digest maps to: `thumbnail_cache/<hex>.jpg`.
pub open spec fn digest_path_spec(digest: Seq<u8>) -> Seq<char> {
    "thumbnail_cache/"@ + hex_of_bytes(digest) + ".jpg"@
}

/// The cache path of a file's content: the flat cache directory, then
/// the hex digest of the entire content, with a JPEG suffix.
pub open spec fn thumb_path_spec(content: Seq<u8>) -> Seq<char> {
    digest_path_spec(backends::blake3_of(content))
}

/// The cache path a scanned file maps to. The path depends on the file's
/// content alone: its name and location play no part.
pub open spec fn cache_path_of(source_path: Seq<char>, content: Seq<u8>) -> Seq<char> {
    thumb_path_spec(content)
}

/// Builds the on-disk cache path of a digest.
pub fn thumb_path_of_digest(digest: &Vec<u8>) -> (r: String)
    ensures
        r@ == digest_path_spec(digest@),
{
    let mut s = String::from_str("thumbnail_cache/");
    let hex = hex_string_of_bytes(digest);
    s.append(hex.as_str());
    s.append(".jpg");
    s
}

/// The cache path of a file with the given entire byte content. Hashing
/// covers the whole content: identical bytes under different names hit
/// the same entry, and a changed byte anywhere misses.
pub fn get_thumbnail_path(content: &Vec<u8>) -> (r: String)
    ensures
        r@ == thumb_path_spec(content@),
{
    let digest = backends::blake3_hash(content);
    thumb_path_of_digest(&digest)
}

fn bytes_eq(a: &Vec<u8>, b: &Vec<u8>) -> (r: bool)
    ensures
        r == (a@ == b@),
{
    let n: usize = a.len();
    if n != b.len() {
        return false;
    }
    let mut i: usize = 0;
    while i < n
        invariant
            n == a@.len(),
            n == b@.len(),
            i <= n,
            forall|j: int| 0 <= j < i ==> a@[j] == b@[j],
        decreases n - i,
    {
        if a[i] != b[i] {
            return false;
        }
        i = i + 1;
    }
    proof {
        assert(a@ =~= b@);
    }
    true
}

fn clone_bytes(v: &Vec<u8>) -> (r: Vec<u8>)
    ensures
        r@ == v@,
{
    let n: usize = v.len();
    let mut out: Vec<u8> = Vec::new();
    let mut i: usize = 0;
    while i < n
        invariant
            n == v@.len(),
            i <= n,
            out@ == v@.take(i as int),
        decreases n - i,
    {
        out.push(v[i]);
        proof {
            assert(out@ =~= v@.take(i + 1));
        }
        i = i + 1;
    }
    proof {
        assert(out@ =~= v@);
    }
    out
}

/// A model of the content-addressed thumbnail store: the set of digests
/// whose JPEG already stands in the cache directory. Existence on disk
/// is the store's only index; this mirror lets the scan decide, and
/// prove, when creation work is owed.
pub struct ThumbnailCache {
    present: Vec<Vec<u8>>,
}

impl View for ThumbnailCache {
    type V = Set<Seq<u8>>;

    closed spec fn view(&self) -> Set<Seq<u8>> {
        self.present@.map_values(|d: Vec<u8>| d@).to_set()
    }
}

impl ThumbnailCache {
    /// A store with nothing cached yet.
    pub fn new() -> (r: ThumbnailCache)
        ensures
            r@ == Set::<Seq<u8>>::empty(),
    {
        let r = ThumbnailCache { present: Vec::new() };
        proof {
            assert(r@ =~= Set::<Seq<u8>>::empty());
        }
        r
    }

    /// Whether a digest's thumbnail already exists in the store.
    pub(crate) fn contains_digest(&self, digest: &Vec<u8>) -> (r: bool)
        ensures
            r == self@.contains(digest@),
    {
        let ghost m = self.present@.map_values(|d: Vec<u8>| d@);
        let n: usize = self.present.len();
        let mut i: usize = 0;
        while i < n
            invariant
                n == self.present@.len(),
                i <= n,
                m == self.present@.map_values(|d: Vec<u8>| d@),
                forall|j: int| 0 <= j < i ==> m[j] != digest@,
            decreases n - i,
        {
            if bytes_eq(&self.present[i], digest) {
                proof {
                    assert(m[i as int] == digest@);
                    assert(m.contains(digest@));
                }
                return true;
            }
            i = i + 1;
        }
        proof {
            assert(!m.contains(digest@));
        }
        false
    }

    /// Marks a digest's thumbnail as present once its JPEG is written.
    pub(crate) fn register(&mut self, digest: &Vec<u8>)
        ensures
            final(self)@ == old(self)@.insert(digest@),
    {
        let ghost m = self.present@.map_values(|d: Vec<u8>| d@);
        let copy = clone_bytes(digest);
        self.present.push(copy);
        proof {
            assert(self.present@.map_values(|d: Vec<u8>| d@) =~= m.push(digest@));
            m.lemma_push_to_set_commute(digest@);
            assert(self@ =~= old(self)@.insert(digest@));
        }
    }

    /// Looks a file's content up and, on a miss, claims the creation
    /// work: returns the content-addressed cache path, and whether the
    /// thumbnail must still be produced. A hit performs no work and
    /// leaves the store as it stood.
    pub fn get_or_create_thumbnail(&mut self, source_path: &String, content: &Vec<u8>) -> (r: (
        String,
        bool,
    ))
        ensures
            r.0@ == cache_path_of(source_path@, content@),
            r.1 == !old(self)@.contains(backends::blake3_of(content@)),
            final(self)@ == old(self)@.insert(backends::blake3_of(content@)),
    {
        let digest = backends::blake3_hash(content);
        let path = thumb_path_of_digest(&digest);
        if self.contains_digest(&digest) {
            proof {
                assert(old(self)@ =~= old(self)@.insert(digest@));
            }
            (path, false)
        } else {
            self.register(&digest);
            (path, true)
        }
    }
}

/// What every cached artifact is: the fixed-quality JPEG encoding of
/// some validated 3-channel buffer whose dimensions a JPEG can carry.
pub open spec fn is_thumbnail_jpeg(b: Seq<u8>) -> bool {
    exists|d: Seq<u8>, w: int, h: int|
        0 < w <= 65535 && 0 < h <= 65535 && d.len() == 3 * w * h && b == backends::jpeg_of(
            d,
            w,
            h,
            90,
        )
}

/// Produces the JPEG bytes of a new thumbnail: an 8-bit decode bounded
/// to 400 x 400, validated, then encoded at a fixed quality. The pixels
/// depend on what is on disk, so the exact statements stand with
/// `encode_thumbnail`, which validates whatever the backend returned;
/// whatever comes back on success is a true thumbnail JPEG.
pub fn create_thumbnail(filepath: &String) -> (r: Result<Vec<u8>, DecodeError>)
    ensures
        r matches Ok(b) ==> is_thumbnail_jpeg(b@),
        r matches Err(e) ==> e == DecodeError::DecodeFailure || e
            == DecodeError::DimensionMismatch,
{
    match crate::raw::decode_raw_8bit(filepath, 400, 400) {
        Ok(buf) => encode_thumbnail(&buf.data, buf.width, buf.height),
        Err(e) => Err(e),
    }
}

/// Encodes a validated 3-channel decode as the cached JPEG at the fixed
/// quality of 90. The byte-length check against the declared dimensions
/// is explicit; given that, encoding succeeds exactly when both
/// dimensions lie within what a JPEG can carry, 1 to 65535.
pub fn encode_thumbnail(data: &Vec<u8>, width: usize, height: usize) -> (r: Result<
    Vec<u8>,
    DecodeError,
>)
    ensures
        0 < width <= 65535 && 0 < height <= 65535 && data@.len() == 3 * width * height ==> r is Ok,
        r matches Ok(b) ==> 0 < width <= 65535 && 0 < height <= 65535 && data@.len() == 3 * width
            * height && b@ == backends::jpeg_of(data@, width as int, height as int, 90)
            && is_thumbnail_jpeg(b@),
        r matches Err(e) ==> e == DecodeError::DecodeFailure || e
            == DecodeError::DimensionMismatch,
{
    if width == 0 || height == 0 {
        return Err(DecodeError::DecodeFailure);
    }
    if width > u32::MAX as usize || height > u32::MAX as usize {
        return Err(DecodeError::DecodeFailure);
    }
    let n: usize = data.len();
    let wh: usize = match width.checked_mul(height) {
        Some(v) => v,
        None => {
            proof {
                if width <= 65535 && height <= 65535 {
                    assert((width as int) * (height as int) <= 65535 * 65535)
                        by (nonlinear_arith)
                        requires
                            width <= 65535,
                            height <= 65535,
                    ;
                }
            }
            return Err(DecodeError::DimensionMismatch);
        },
    };
    let expected: usize = match wh.checked_mul(3) {
        Some(v) => v,
        None => {
            proof {
                assert(3 * ((width as int) * (height as int)) == 3 * (width as int) * (
                height as int)) by (nonlinear_arith);
            }
            return Err(DecodeError::DimensionMismatch);
        },
    };
    if n != expected {
        proof {
            assert(3 * ((width as int) * (height as int)) == 3 * (width as int) * (height as int))
                by (nonlinear_arith);
        }
        return Err(DecodeError::DimensionMismatch);
    }
    proof {
        assert(3 * ((width as int) * (height as int)) == 3 * (width as int) * (height as int))
            by (nonlinear_arith);
        assert((width as u32) as int == width as int);
        assert((height as u32) as int == height as int);
    }
    match backends::jpeg_encode_rgb(data, width as u32, height as u32, 90) {
        Some(b) => {
            proof {
                assert(is_thumbnail_jpeg(b@)) by {
                    assert(0 < width as int <= 65535 && 0 < height as int <= 65535 && data@.len()
                        == 3 * (width as int) * (height as int) && b@ == backends::jpeg_of(
                        data@,
                        width as int,
                        height as int,
                        90,
                    ));
                }
            }
            Ok(b)
        },
        None => Err(DecodeError::DecodeFailure),
    }
}

/// Idempotence of get-or-create: the cache path is a function of the
/// content alone, so a second run for unchanged content computes the
/// same path; and after any run the store holds the digest, so the
/// second run owes no creation work and leaves the store as it stood.
pub proof fn law_thumbnail_idempotent(cache: Set<Seq<u8>>, content: Seq<u8>)
    ensures
        cache.insert(backends::blake3_of(content)).contains(backends::blake3_of(content)),
        cache.insert(backends::blake3_of(content)).insert(backends::blake3_of(content))
            == cache.insert(backends::blake3_of(content)),
{
    let d = backends::blake3_of(content);
    assert(cache.insert(d).insert(d) =~= cache.insert(d));
}

/// Two files with identical byte content map to the identical cache
/// path, whatever their names or locations.
pub proof fn law_same_content_same_path(path1: Seq<char>, path2: Seq<char>, content: Seq<u8>)
    ensures
        cache_path_of(path1, content) == cache_path_of(path2, content),
{
}

/// Two contents whose digests differ map to different cache paths; a
/// digest collision is the accepted exception, since the store trusts
/// digest equality as content equality.
pub proof fn law_distinct_digest_distinct_path(c1: Seq<u8>, c2: Seq<u8>)
    requires
        backends::blake3_of(c1) != backends::blake3_of(c2),
    ensures
        thumb_path_spec(c1) != thumb_path_spec(c2),
{
    let d1 = backends::blake3_of(c1);
    let d2 = backends::blake3_of(c2);
    lemma_hex_of_bytes_len(d1);
    lemma_hex_of_bytes_len(d2);
    if thumb_path_spec(c1) == thumb_path_spec(c2) {
        let p1 = digest_path_spec(d1);
        let p2 = digest_path_spec(d2);
        assert(p1.len() == "thumbnail_cache/"@.len() + 2 * d1.len() + ".jpg"@.len());
        assert(p2.len() == "thumbnail_cache/"@.len() + 2 * d2.len() + ".jpg"@.len());
        assert(d1.len() == d2.len());
        let pre = "thumbnail_cache/"@.len() as int;
        assert(hex_of_bytes(d1) =~= p1.subrange(pre, pre + 2 * d1.len()));
        assert(hex_of_bytes(d2) =~= p2.subrange(pre, pre + 2 * d2.len()));
        lemma_hex_of_bytes_injective(d1, d2);
        assert(false);
    }
}

} // verus!
