use vstd::prelude::*;
use image::ImageEncoder;

verus! {

/// Relies on imagepipe's Pipeline (new_from_file, output_16bit): decodes
/// the file at `path` into a 16-bit interleaved 3-channel sRGB buffer.
/// The pixels depend on what is on disk, so nothing is assumed of them;
/// callers validate the buffer against its declared dimensions. The
/// crate's scaling step caps each output dimension at its nonzero size
/// hint; it computes sizes in f32, so that cap is only promised here
/// for hints small enough (up to 65535) that rounding cannot breach it.
#[verifier::external_body]
pub(crate) fn imagepipe_decode_16bit(path: &str, maxwidth: usize, maxheight: usize) -> (r: Result<
    (Vec<u16>, usize, usize),
    String,
>)
    ensures
        r matches Ok(t) ==> (0 < maxwidth <= 65535 ==> t.1 <= maxwidth) && (0 < maxheight <= 65535
            ==> t.2 <= maxheight),
{
    let mut pipeline = match imagepipe::Pipeline::new_from_file(path) {
        Ok(p) => p,
        Err(e) => return Err(e),
    };
    if maxwidth > 0 {
        pipeline.globals.settings.maxwidth = maxwidth;
    }
    if maxheight > 0 {
        pipeline.globals.settings.maxheight = maxheight;
    }
    match pipeline.output_16bit(None) {
        Ok(img) => Ok((img.data, img.width, img.height)),
        Err(e) => Err(e),
    }
}

/// Relies on imagepipe::simple_decode_8bit: decodes the file at `path`
/// into an 8-bit interleaved 3-channel sRGB buffer, downscaled to the
/// size hints when they are nonzero. Disk-dependent, so nothing is
/// assumed of the pixels; callers validate them. As for the 16-bit
/// tier, a nonzero hint up to 65535 caps its output dimension.
#[verifier::external_body]
pub(crate) fn imagepipe_decode_8bit(path: &str, maxwidth: usize, maxheight: usize) -> (r: Result<
    (Vec<u8>, usize, usize),
    String,
>)
    ensures
        r matches Ok(t) ==> (0 < maxwidth <= 65535 ==> t.1 <= maxwidth) && (0 < maxheight <= 65535
            ==> t.2 <= maxheight),
{
    match imagepipe::simple_decode_8bit(path, maxwidth, maxheight) {
        Ok(img) => Ok((img.data, img.width, img.height)),
        Err(e) => Err(e),
    }
}

/// Relies on quickraw's Export (new, export_8bit_image): renders the RAW
/// file at `path` to an 8-bit interleaved 3-channel buffer with linear
/// demosaicing, the XYZ-to-sRGB matrix and sRGB gamma, without auto-crop
/// or auto-rotate. Disk-dependent; callers validate the result.
#[verifier::external_body]
pub(crate) fn quickraw_export_8bit(path: &str) -> (r: Option<(Vec<u8>, usize, usize)>) {
    let output = quickraw::Output::new(
        quickraw::DemosaicingMethod::Linear,
        quickraw::data::XYZ2SRGB,
        quickraw::data::GAMMA_SRGB,
        quickraw::OutputType::Raw8,
        false,
        false,
    );
    match quickraw::Export::new(quickraw::Input::ByFile(path), output) {
        Ok(job) => Some(job.export_8bit_image()),
        Err(_) => None,
    }
}

/// Relies on quickraw::Export::export_exif_info and on the u16 accessor
/// of the parsed info it returns: reads the embedded orientation tag of
/// the RAW file at `path`. Disk-dependent.
#[verifier::external_body]
pub(crate) fn quickraw_orientation(path: &str) -> (r: Option<u16>) {
    match quickraw::Export::export_exif_info(quickraw::Input::ByFile(path)) {
        Ok(info) => info.u16("orientation").ok(),
        Err(_) => None,
    }
}

/// The digest of a byte sequence: a function of the bytes alone, the
/// same in every process and on every machine.
pub uninterp spec fn blake3_of(bytes: Seq<u8>) -> Seq<u8>;

/// Relies on blake3::hash: a 32-byte cryptographic digest of the input
/// bytes, depending on them alone.
#[verifier::external_body]
pub(crate) fn blake3_hash(bytes: &Vec<u8>) -> (digest: Vec<u8>)
    ensures
        digest@ == blake3_of(bytes@),
        digest@.len() == 32,
{
    blake3::hash(bytes.as_slice()).as_bytes().to_vec()
}

/// What image's JPEG encoder produces for an RGB8 buffer at a quality
/// setting: a function of its arguments alone.
pub uninterp spec fn jpeg_of(rgb: Seq<u8>, width: int, height: int, quality: u8) -> Seq<u8>;

/// Relies on image's JpegEncoder (new_with_quality, write_image): encodes
/// an interleaved RGB8 buffer as JPEG into memory. The encoder asserts
/// that the buffer length matches the dimensions, so that is required
/// here. Writing into a Vec cannot fail, so the encoder errs exactly
/// when a dimension lies outside what a JPEG can carry, 1 to 65535.
#[verifier::external_body]
pub(crate) fn jpeg_encode_rgb(rgb: &Vec<u8>, width: u32, height: u32, quality: u8) -> (r: Option<
    Vec<u8>,
>)
    requires
        rgb@.len() == 3 * width * height,
    ensures
        r matches Some(b) ==> b@ == jpeg_of(rgb@, width as int, height as int, quality),
        r is Some <==> (1 <= width && width <= 65535 && 1 <= height && height <= 65535),
{
    let mut out: Vec<u8> = Vec::new();
    let encoder = image::codecs::jpeg::JpegEncoder::new_with_quality(&mut out, quality);
    match encoder.write_image(rgb.as_slice(), width, height, image::ExtendedColorType::Rgb8) {
        Ok(()) => Some(out),
        Err(_) => None,
    }
}

} // verus!
