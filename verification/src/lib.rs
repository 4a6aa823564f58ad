//! The image ingestion pipeline of a RAW-photo browser: a format
//! dispatcher that selects a decode backend by file extension and
//! validates what it returns, pixel normalization and orientation
//! correction, a content-addressed thumbnail cache keyed by a digest of
//! each file's entire content, the directory scan that drives all of
//! the above and tolerates per-file failures, and an in-memory render
//! cache that decodes each preview at most once.

pub mod backends;
pub mod errors;
pub mod formats;
pub mod pixels;
pub mod raw;
pub mod render;
pub mod scan;
pub mod thumbs;
