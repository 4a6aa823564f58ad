use vstd::prelude::*;

verus! {

/// The error kinds of the ingestion pipeline.
///
/// During a directory scan these degrade to "omit this file, continue";
/// only `DirectoryReadFailure` is fatal to a scan request.
#[derive(Clone, Copy, Debug, PartialEq, Eq, Structural)]
pub enum DecodeError {
    /// The file's extension maps to no decode backend.
    UnsupportedFormat,
    /// The decode backend failed or produced malformed output.
    DecodeFailure,
    /// The decoded byte count is inconsistent with width x height x channels.
    DimensionMismatch,
    /// Reading or writing bytes failed.
    IoFailure,
    /// The directory could not be enumerated at all.
    DirectoryReadFailure,
}

} // verus!
