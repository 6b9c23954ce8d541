//! The gzip encoder, as far as the pipeline relies on it.

use vstd::prelude::*;
use flate2::write::GzEncoder;
use flate2::Compression;
use std::io::Write;

verus! {

/// The gzip stream that the encoder produces for `data` at the default
/// compression level, or nothing when the encoder reports an error. The
/// encoder writes no time stamp and a fixed header, so the stream depends on
/// the data alone.
pub uninterp spec fn gzip_stream(data: Seq<u8>) -> Option<Seq<u8>>;

/// The bytes of an optional buffer.
pub open spec fn optional_bytes(buffer: Option<Vec<u8>>) -> Option<Seq<u8>> {
    match buffer {
        Some(bytes) => Some(bytes@),
        None => None,
    }
}

/// Encodes `data` with `flate2::write::GzEncoder` over a `Vec<u8>`, at
/// `Compression::default()`: `write_all`, then `finish`. Not proved: that the
/// result is the stream named `gzip_stream(data)`, and nothing when either
/// call fails. Nothing is claimed of what the stream holds.
#[verifier::external_body]
pub(crate) fn gzip_encode(data: &[u8]) -> (encoded: Option<Vec<u8>>)
    ensures
        optional_bytes(encoded) == gzip_stream(data@),
{
    let mut encoder = GzEncoder::new(Vec::new(), Compression::default());
    match encoder.write_all(data) {
        Ok(()) => encoder.finish().ok(),
        Err(_) => None,
    }
}

} // verus!
