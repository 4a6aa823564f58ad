use vstd::prelude::*;
use crate::backends;
use crate::errors::DecodeError;
use crate::formats;
use crate::formats::FormatTag;
use crate::pixels;

verus! {

/// A display-ready image: 8-bit sRGB samples in the canonical RGBA
/// layout, row-major.
#[derive(Debug)]
pub struct DisplayImage {
    pub width: usize,
    pub height: usize,
    pub data: Vec<u8>,
}

impl DisplayImage {
    /// The buffer holds exactly four bytes per pixel.
    pub open spec fn wf(&self) -> bool {
        self.data@.len() == 4 * self.width * self.height
    }
}

/// Copies a display image; the copy has the same dimensions and bytes.
pub fn clone_display_image(img: &DisplayImage) -> (r: DisplayImage)
    ensures
        r.width == img.width,
        r.height == img.height,
        r.data@ == img.data@,
{
    let n: usize = img.data.len();
    let mut data: Vec<u8> = Vec::new();
    let mut i: usize = 0;
    while i < n
        invariant
            n == img.data@.len(),
            i <= n,
            data@ == img.data@.take(i as int),
        decreases n - i,
    {
        data.push(img.data[i]);
        proof {
            assert(data@ =~= img.data@.take(i + 1));
        }
        i = i + 1;
    }
    proof {
        assert(data@ =~= img.data@);
    }
    DisplayImage { width: img.width, height: img.height, data }
}

/// The backend-neutral decode result of the thumbnail tier: 8-bit
/// samples, interleaved 3-channel, validated against its dimensions.
pub struct DecodedBuffer8 {
    pub width: usize,
    pub height: usize,
    pub data: Vec<u8>,
}

impl DecodedBuffer8 {
    /// Positive dimensions and exactly three bytes per pixel.
    pub open spec fn wf(&self) -> bool {
        self.width > 0 && self.height > 0 && self.data@.len() == 3 * self.width * self.height
    }
}

/// The decode result of the full-fidelity tier: 16-bit samples,
/// interleaved 3-channel, for high-precision color work.
pub struct DecodedBuffer16 {
    pub width: usize,
    pub height: usize,
    pub data: Vec<u16>,
}

impl DecodedBuffer16 {
    /// Positive dimensions and exactly three samples per pixel.
    pub open spec fn wf(&self) -> bool {
        self.width > 0 && self.height > 0 && self.data@.len() == 3 * self.width * self.height
    }
}

/// The byte count a 3-channel buffer of the given dimensions must have,
/// or `None` where that count does not fit the machine.
fn expected_len_3(width: usize, height: usize) -> (r: Option<usize>)
    ensures
        match r {
            Some(v) => v == 3 * width * height,
            None => 3 * width * height > usize::MAX,
        },
{
    proof {
        assert(3 * ((width as int) * (height as int)) == 3 * (width as int) * (height as int))
            by (nonlinear_arith);
    }
    let wh: usize = match width.checked_mul(height) {
        Some(v) => v,
        None => {
            return None;
        },
    };
    wh.checked_mul(3)
}

/// Validates an 8-bit backend output against its declared dimensions:
/// accepts exactly a buffer of positive dimensions holding three bytes
/// per pixel; zero-sized output is a decode failure, a byte-count
/// mismatch a dimension mismatch, never a partial image.
pub fn validate_decoded_8bit(data: Vec<u8>, width: usize, height: usize) -> (r: Result<
    DecodedBuffer8,
    DecodeError,
>)
    ensures
        r is Ok <==> width > 0 && height > 0 && data@.len() == 3 * width * height,
        r matches Ok(b) ==> b.width == width && b.height == height && b.data@ == data@ && b.wf(),
        r matches Err(e) ==> (e == DecodeError::DecodeFailure <==> (width == 0 || height == 0))
            && (e == DecodeError::DimensionMismatch <==> !(width == 0 || height == 0)),
{
    if width == 0 || height == 0 {
        return Err(DecodeError::DecodeFailure);
    }
    let n: usize = data.len();
    match expected_len_3(width, height) {
        Some(expected) => {
            if n == expected {
                Ok(DecodedBuffer8 { width, height, data })
            } else {
                Err(DecodeError::DimensionMismatch)
            }
        },
        None => Err(DecodeError::DimensionMismatch),
    }
}

/// Validates a 16-bit backend output the same way as the 8-bit tier.
pub fn validate_decoded_16bit(data: Vec<u16>, width: usize, height: usize) -> (r: Result<
    DecodedBuffer16,
    DecodeError,
>)
    ensures
        r is Ok <==> width > 0 && height > 0 && data@.len() == 3 * width * height,
        r matches Ok(b) ==> b.width == width && b.height == height && b.data@ == data@ && b.wf(),
        r matches Err(e) ==> (e == DecodeError::DecodeFailure <==> (width == 0 || height == 0))
            && (e == DecodeError::DimensionMismatch <==> !(width == 0 || height == 0)),
{
    if width == 0 || height == 0 {
        return Err(DecodeError::DecodeFailure);
    }
    let n: usize = data.len();
    match expected_len_3(width, height) {
        Some(expected) => {
            if n == expected {
                Ok(DecodedBuffer16 { width, height, data })
            } else {
                Err(DecodeError::DimensionMismatch)
            }
        },
        None => Err(DecodeError::DimensionMismatch),
    }
}

/// Decodes the thumbnail tier: an 8-bit image through imagepipe,
/// downscaled so that a nonzero size hint up to 65535 bounds its
/// dimension of the output. Whatever the backend returns goes through
/// `validate_decoded_8bit` before anything is handed on.
pub fn decode_raw_8bit(path: &String, maxwidth: usize, maxheight: usize) -> (r: Result<
    DecodedBuffer8,
    DecodeError,
>)
    ensures
        r matches Ok(b) ==> b.wf() && (0 < maxwidth <= 65535 ==> b.width <= maxwidth) && (0
            < maxheight <= 65535 ==> b.height <= maxheight),
        r matches Err(e) ==> e == DecodeError::DecodeFailure || e == DecodeError::DimensionMismatch,
{
    match backends::imagepipe_decode_8bit(path.as_str(), maxwidth, maxheight) {
        Ok((data, width, height)) => validate_decoded_8bit(data, width, height),
        Err(_) => Err(DecodeError::DecodeFailure),
    }
}

/// Decodes the full-fidelity tier: a 16-bit image through imagepipe for
/// numeric color work, validated and bounded as the thumbnail tier is.
pub fn decode_raw_16bit(path: &String, maxwidth: usize, maxheight: usize) -> (r: Result<
    DecodedBuffer16,
    DecodeError,
>)
    ensures
        r matches Ok(b) ==> b.wf() && (0 < maxwidth <= 65535 ==> b.width <= maxwidth) && (0
            < maxheight <= 65535 ==> b.height <= maxheight),
        r matches Err(e) ==> e == DecodeError::DecodeFailure || e == DecodeError::DimensionMismatch,
{
    match backends::imagepipe_decode_16bit(path.as_str(), maxwidth, maxheight) {
        Ok((data, width, height)) => validate_decoded_16bit(data, width, height),
        Err(_) => Err(DecodeError::DecodeFailure),
    }
}

/// Validates a backend's 3-channel output against its declared
/// dimensions and normalizes it to the canonical RGBA layout. The
/// byte-length check is explicit: a mismatch is fatal for this file and
/// never yields a partial image.
pub fn normalize_decoded(data: &Vec<u8>, width: usize, height: usize) -> (r: Result<
    DisplayImage,
    DecodeError,
>)
    ensures
        r is Ok <==> width > 0 && height > 0 && data@.len() == 3 * width * height,
        r matches Ok(img) ==> img.width == width && img.height == height && img.wf()
            && pixels::is_rgba_of_bgr(data@, img.data@),
        r matches Err(e) ==> (e == DecodeError::DecodeFailure <==> (width == 0 || height == 0))
            && (e == DecodeError::DimensionMismatch <==> !(width == 0 || height == 0)),
{
    if width == 0 || height == 0 {
        return Err(DecodeError::DecodeFailure);
    }
    let n: usize = data.len();
    let wh: usize = match width.checked_mul(height) {
        Some(v) => v,
        None => {
            proof {
                assert(3 * ((width as int) * (height as int)) == 3 * (width as int) * (
                height as int)) by (nonlinear_arith);
            }
            return Err(DecodeError::DimensionMismatch);
        },
    };
    let expected: usize = match wh.checked_mul(3) {
        Some(v) => v,
        None => {
            proof {
                assert(3 * ((width as int) * (height as int)) == 3 * (width as int) * (
                height as int)) by (nonlinear_arith);
            }
            return Err(DecodeError::DimensionMismatch);
        },
    };
    proof {
        assert(3 * ((width as int) * (height as int)) == 3 * (width as int) * (height as int))
            by (nonlinear_arith);
    }
    if n != expected {
        return Err(DecodeError::DimensionMismatch);
    }
    let rgba = pixels::convert_bgr_to_rgba(data);
    proof {
        assert((3 * ((width as int) * (height as int))) / 3 == (width as int) * (height as int));
        assert(4 * ((width as int) * (height as int)) == 4 * (width as int) * (height as int))
            by (nonlinear_arith);
    }
    Ok(DisplayImage { width, height, data: rgba })
}

/// Applies the orientation correction an EXIF tag calls for, from the
/// fixed table of right-angle rotations: tag 8 is a 270-degree clockwise
/// rotation, which swaps width and height; every other tag leaves the
/// image as decoded.
pub fn apply_orientation(img: DisplayImage, orientation: u16) -> (r: DisplayImage)
    requires
        img.wf(),
    ensures
        r.wf(),
        orientation == 8 ==> r.width == img.height && r.height == img.width
            && pixels::is_rotate270_of(img.data@, img.width as int, img.height as int, r.data@),
        orientation != 8 ==> r.width == img.width && r.height == img.height && r.data@
            == img.data@,
        img.width > 0 && img.height > 0 ==> r.width > 0 && r.height > 0,
{
    if orientation == 8 {
        let rotated = pixels::rotate270_rgba(&img.data, img.width, img.height);
        proof {
            assert(4 * (img.width as int) * (img.height as int) == 4 * (img.height as int) * (
            img.width as int)) by (nonlinear_arith);
        }
        DisplayImage { width: img.height, height: img.width, data: rotated }
    } else {
        img
    }
}

/// Decodes through quickraw (the backend of the Arw and Raf formats) and
/// corrects the orientation its metadata reports.
fn decode_with_quickraw(path: &String) -> (r: Result<DisplayImage, DecodeError>)
    ensures
        r matches Ok(img) ==> img.wf() && img.width > 0 && img.height > 0,
        r matches Err(e) ==> e == DecodeError::DecodeFailure || e == DecodeError::DimensionMismatch,
{
    let orientation: u16 = match backends::quickraw_orientation(path.as_str()) {
        Some(o) => o,
        None => {
            return Err(DecodeError::DecodeFailure);
        },
    };
    let (data, width, height) = match backends::quickraw_export_8bit(path.as_str()) {
        Some(t) => t,
        None => {
            return Err(DecodeError::DecodeFailure);
        },
    };
    match normalize_decoded(&data, width, height) {
        Ok(img) => Ok(apply_orientation(img, orientation)),
        Err(e) => Err(e),
    }
}

/// Decodes through imagepipe (the backend of the Cr2 and Jpg formats).
fn decode_with_imagepipe(path: &String) -> (r: Result<DisplayImage, DecodeError>)
    ensures
        r matches Ok(img) ==> img.wf() && img.width > 0 && img.height > 0,
        r matches Err(e) ==> e == DecodeError::DecodeFailure || e == DecodeError::DimensionMismatch,
{
    match decode_raw_8bit(path, 0, 0) {
        Ok(buf) => normalize_decoded(&buf.data, buf.width, buf.height),
        Err(e) => Err(e),
    }
}

/// Decodes a file for display: selects the decode backend by the file's
/// extension, validates the backend's output, normalizes it to RGBA and
/// applies the orientation correction. Unsupported extensions fail with
/// `UnsupportedFormat` and exactly those; a decoded image always has
/// positive dimensions and a buffer of exactly width x height x 4 bytes.
pub fn decode_raw(path: &String) -> (r: Result<DisplayImage, DecodeError>)
    ensures
        r matches Ok(img) ==> img.wf() && img.width > 0 && img.height > 0,
        r matches Err(e) ==> (e == DecodeError::UnsupportedFormat <==> !formats::is_supported_spec(
            path@,
        )),
        !formats::is_supported_spec(path@) ==> r is Err,
{
    let fmt: FormatTag = match formats::detect_format(path) {
        Some(f) => f,
        None => {
            return Err(DecodeError::UnsupportedFormat);
        },
    };
    match fmt {
        FormatTag::Arw => decode_with_quickraw(path),
        FormatTag::Raf => decode_with_quickraw(path),
        FormatTag::Cr2 => decode_with_imagepipe(path),
        FormatTag::Jpg => decode_with_imagepipe(path),
    }
}

/// One RAW file known to the browser: its path and the path of its
/// cached thumbnail. Pixel data is decoded on demand, not retained here.
#[derive(Debug)]
pub struct Image {
    pub path: String,
    pub thumbnail_path: String,
}

impl Image {
    /// Records a file together with its cached thumbnail location.
    pub fn new(path: String, thumbnail_path: String) -> (r: Image)
        ensures
            r.path@ == path@,
            r.thumbnail_path@ == thumbnail_path@,
    {
        Image { path, thumbnail_path }
    }

    /// The placeholder that stands before any file is selected.
    pub fn empty() -> (r: Image)
        ensures
            r.path@ == Seq::<char>::empty(),
            r.thumbnail_path@ == Seq::<char>::empty(),
    {
        Image { path: String::new(), thumbnail_path: String::new() }
    }

    /// Decodes this file for on-screen preview through the format
    /// dispatcher's display path.
    pub fn get_display_image(&self) -> (r: Result<DisplayImage, DecodeError>)
        ensures
            r matches Ok(img) ==> img.wf() && img.width > 0 && img.height > 0,
            r matches Err(e) ==> (e == DecodeError::UnsupportedFormat
                <==> !formats::is_supported_spec(self.path@)),
    {
        decode_raw(&self.path)
    }
}

} // verus!
