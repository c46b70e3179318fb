//! The compression facade: three algorithms behind one pair of verified
//! dispatch functions. The calls into the compression crates are trusted
//! items; what each emits is named, and the round trip (decompressing
//! what was compressed) is stated where the compression happens.

use vstd::prelude::*;
use crate::errors::{InternalError, InternalResult};

verus! {

/// The compression algorithm an entry is stored with. Brotli carries
/// its quality, `0..=11`; larger values are clamped to 11.
#[derive(Clone, Copy, Debug, PartialEq, Eq, Structural)]
pub enum CompressionAlgorithm {
    /// The LZ4 frame format: fast, light compression.
    LZ4,
    /// Brotli at the carried quality: slow, dense compression.
    Brotli(u32),
    /// The Snappy frame format: fast, moderate compression.
    Snappy,
}

/// The quality Brotli actually runs at: the carried value, capped at 11.
pub open spec fn clamp_quality(q: u32) -> u32 {
    if q > 11 {
        11
    } else {
        q
    }
}

/// What LZ4 frame compression emits for the given bytes.
pub uninterp spec fn lz4_of(data: Seq<u8>) -> Seq<u8>;

/// What LZ4 frame decompression yields for the given bytes, or nothing
/// when it rejects them.
pub uninterp spec fn lz4_decompressed(data: Seq<u8>) -> Option<Seq<u8>>;

/// What Brotli compression at the given quality emits for the given bytes.
pub uninterp spec fn brotli_of(data: Seq<u8>, quality: u32) -> Seq<u8>;

/// What Brotli decompression yields for the given bytes, or nothing
/// when it rejects them.
pub uninterp spec fn brotli_decompressed(data: Seq<u8>) -> Option<Seq<u8>>;

/// What Snappy frame compression emits for the given bytes.
pub uninterp spec fn snappy_of(data: Seq<u8>) -> Seq<u8>;

/// What Snappy frame decompression yields for the given bytes, or
/// nothing when it rejects them.
pub uninterp spec fn snappy_decompressed(data: Seq<u8>) -> Option<Seq<u8>>;

/// What the configured algorithm emits for the given bytes.
pub open spec fn compress_of(algo: CompressionAlgorithm, data: Seq<u8>) -> Seq<u8> {
    match algo {
        CompressionAlgorithm::LZ4 => lz4_of(data),
        CompressionAlgorithm::Brotli(q) => brotli_of(data, clamp_quality(q)),
        CompressionAlgorithm::Snappy => snappy_of(data),
    }
}

/// What decompressing under the configured algorithm yields. Brotli's
/// quality steers compression only; decompression ignores it.
pub open spec fn decompress_of(algo: CompressionAlgorithm, data: Seq<u8>) -> Option<Seq<u8>> {
    match algo {
        CompressionAlgorithm::LZ4 => lz4_decompressed(data),
        CompressionAlgorithm::Brotli(_) => brotli_decompressed(data),
        CompressionAlgorithm::Snappy => snappy_decompressed(data),
    }
}

/// Relies on lz4_flex::frame::FrameEncoder: encodes the input as one
/// in-memory LZ4 frame, which lz4_flex's FrameDecoder inverts. Writing
/// into a Vec cannot fail.
#[verifier::external_body]
fn lz4_compress(data: &[u8]) -> (r: Vec<u8>)
    ensures
        r@ == lz4_of(data@),
        lz4_decompressed(r@) == Some(data@),
{
    let mut encoder = lz4_flex::frame::FrameEncoder::new(Vec::new());
    std::io::Write::write_all(&mut encoder, data).expect("a Vec accepts all writes");
    encoder.finish().expect("a Vec accepts all writes")
}

/// Relies on lz4_flex::frame::FrameDecoder: decodes an LZ4 frame, and
/// reports malformed input as an error.
#[verifier::external_body]
fn lz4_decompress(data: &[u8]) -> (r: Option<Vec<u8>>)
    ensures
        match lz4_decompressed(data@) {
            Some(d) => r matches Some(v) && v@ == d,
            None => r is None,
        },
{
    let mut decoder = lz4_flex::frame::FrameDecoder::new(data);
    let mut out = Vec::new();
    match std::io::Read::read_to_end(&mut decoder, &mut out) {
        Ok(_) => Some(out),
        Err(_) => None,
    }
}

/// Relies on brotli::CompressorWriter: encodes the input as one
/// in-memory Brotli stream at the given quality with window size 22,
/// which brotli's Decompressor inverts. Writing into a Vec cannot fail.
#[verifier::external_body]
fn brotli_compress(data: &[u8], quality: u32) -> (r: Vec<u8>)
    requires
        quality <= 11,
    ensures
        r@ == brotli_of(data@, quality),
        brotli_decompressed(r@) == Some(data@),
{
    let mut out = Vec::new();
    let mut encoder = brotli::CompressorWriter::new(&mut out, 4096, quality, 22);
    std::io::Write::write_all(&mut encoder, data).expect("a Vec accepts all writes");
    drop(encoder);
    out
}

/// Relies on brotli::Decompressor: decodes a Brotli stream, and reports
/// malformed input as an error.
#[verifier::external_body]
fn brotli_decompress(data: &[u8]) -> (r: Option<Vec<u8>>)
    ensures
        match brotli_decompressed(data@) {
            Some(d) => r matches Some(v) && v@ == d,
            None => r is None,
        },
{
    let mut decoder = brotli::Decompressor::new(data, 4096);
    let mut out = Vec::new();
    match std::io::Read::read_to_end(&mut decoder, &mut out) {
        Ok(_) => Some(out),
        Err(_) => None,
    }
}

/// Relies on snap::write::FrameEncoder: encodes the input as one
/// in-memory Snappy frame, which snap's FrameDecoder inverts. Writing
/// into a Vec cannot fail.
#[verifier::external_body]
fn snappy_compress(data: &[u8]) -> (r: Vec<u8>)
    ensures
        r@ == snappy_of(data@),
        snappy_decompressed(r@) == Some(data@),
{
    let mut encoder = snap::write::FrameEncoder::new(Vec::new());
    std::io::Write::write_all(&mut encoder, data).expect("a Vec accepts all writes");
    encoder.into_inner().expect("a Vec accepts all writes")
}

/// Relies on snap::read::FrameDecoder: decodes a Snappy frame, and
/// reports malformed input as an error.
#[verifier::external_body]
fn snappy_decompress(data: &[u8]) -> (r: Option<Vec<u8>>)
    ensures
        match snappy_decompressed(data@) {
            Some(d) => r matches Some(v) && v@ == d,
            None => r is None,
        },
{
    let mut decoder = snap::read::FrameDecoder::new(data);
    let mut out = Vec::new();
    match std::io::Read::read_to_end(&mut decoder, &mut out) {
        Ok(_) => Some(out),
        Err(_) => None,
    }
}

/// Compresses the bytes with the chosen algorithm; what comes back is
/// exactly what decompression inverts.
pub fn compress(algo: CompressionAlgorithm, data: &[u8]) -> (r: Vec<u8>)
    ensures
        r@ == compress_of(algo, data@),
        decompress_of(algo, r@) == Some(data@),
{
    match algo {
        CompressionAlgorithm::LZ4 => lz4_compress(data),
        CompressionAlgorithm::Brotli(q) => {
            let quality = if q > 11 {
                11
            } else {
                q
            };
            brotli_compress(data, quality)
        },
        CompressionAlgorithm::Snappy => snappy_compress(data),
    }
}

/// Decompresses the bytes with the chosen algorithm; fails exactly when
/// the algorithm rejects the bytes.
pub fn decompress(algo: CompressionAlgorithm, data: &[u8]) -> (r: InternalResult<Vec<u8>>)
    ensures
        match decompress_of(algo, data@) {
            Some(d) => r matches Ok(v) && v@ == d,
            None => r matches Err(e) && e is DecompressionError,
        },
{
    let out = match algo {
        CompressionAlgorithm::LZ4 => lz4_decompress(data),
        CompressionAlgorithm::Brotli(_) => brotli_decompress(data),
        CompressionAlgorithm::Snappy => snappy_decompress(data),
    };
    match out {
        Some(v) => Ok(v),
        None => Err(InternalError::DecompressionError("could not decompress the entry".to_owned())),
    }
}

} // verus!
