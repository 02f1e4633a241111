//! Payload compression with one of two frame codecs.
//!
//! Only decompression is a function of its input, so the trusted contracts
//! name the inflating direction of each codec and state of every compression
//! outcome that it inflates back to the input.

use vstd::prelude::*;

use std::io::{Read, Write};

use crate::error::ProtocolError;

verus! {

/// The bytes that Zstd frame decompression yields for the given input, if it
/// is a well-formed frame.
pub uninterp spec fn zstd_inflate(data: Seq<u8>) -> Option<Seq<u8>>;

/// The bytes that LZ4 frame decompression yields for the given input, if it
/// is a well-formed frame.
pub uninterp spec fn lz4_inflate(data: Seq<u8>) -> Option<Seq<u8>>;

/// Relies on `zstd::encode_all`: whatever frame it emits, `zstd::decode_all`
/// inflates it back to the input. It succeeds on every input: levels outside
/// the codec's range are clamped, and the in-memory output buffer cannot
/// fail a write.
#[verifier::external_body]
fn zstd_deflate_raw(data: &[u8], level: i32) -> (r: Option<Vec<u8>>)
    ensures
        r is Some,
        r matches Some(c) ==> zstd_inflate(c@) == Some(data@),
{
    zstd::encode_all(data, level).ok()
}

/// Relies on `zstd::decode_all`: deterministic in its input; its result is
/// the function `zstd_inflate` names.
#[verifier::external_body]
fn zstd_inflate_raw(data: &[u8]) -> (r: Option<Vec<u8>>)
    ensures
        r matches Some(p) ==> zstd_inflate(data@) == Some(p@),
        r is None ==> zstd_inflate(data@) is None,
{
    zstd::decode_all(data).ok()
}

/// Relies on `lz4::EncoderBuilder` and `lz4::Encoder`: whatever frame the
/// encoder emits, `lz4::Decoder` inflates it back to the input. It succeeds
/// on every input: levels outside the codec's range are clamped, and the
/// in-memory output buffer cannot fail a write.
#[verifier::external_body]
fn lz4_deflate_raw(data: &[u8], level: i32) -> (r: Option<Vec<u8>>)
    ensures
        r is Some,
        r matches Some(c) ==> lz4_inflate(c@) == Some(data@),
{
    let mut encoder = lz4::EncoderBuilder::new().level(level as u32).build(Vec::new()).ok()?;
    encoder.write_all(data).ok()?;
    let (compressed, result) = encoder.finish();
    result.ok()?;
    Some(compressed)
}

/// Relies on `lz4::Decoder`: deterministic in its input; its result is the
/// function `lz4_inflate` names.
#[verifier::external_body]
fn lz4_inflate_raw(data: &[u8]) -> (r: Option<Vec<u8>>)
    ensures
        r matches Some(p) ==> lz4_inflate(data@) == Some(p@),
        r is None ==> lz4_inflate(data@) is None,
{
    let mut decoder = lz4::Decoder::new(data).ok()?;
    let mut decompressed = Vec::new();
    decoder.read_to_end(&mut decompressed).ok()?;
    Some(decompressed)
}

/// The compression codecs the provider can run.
#[derive(Debug, Clone, Copy, PartialEq, Eq, Structural)]
pub enum CompressionAlgorithm {
    /// The Zstd frame codec.
    Zstd,
    /// The LZ4 frame codec.
    Lz4,
}

/// The mathematical value of a compression provider.
pub struct CompressionModel {
    /// Which codec the provider runs.
    pub algorithm: CompressionAlgorithm,
    /// The codec's compression level.
    pub level: int,
}

/// Compresses and decompresses payloads with one codec at a fixed level.
pub struct CompressionProvider {
    algorithm: CompressionAlgorithm,
    level: i32,
}

impl View for CompressionProvider {
    type V = CompressionModel;

    closed spec fn view(&self) -> CompressionModel {
        CompressionModel { algorithm: self.algorithm, level: self.level as int }
    }
}

/// The bytes the named codec's decompression yields, if any.
pub open spec fn spec_decompress(alg: CompressionAlgorithm, data: Seq<u8>) -> Option<Seq<u8>> {
    match alg {
        CompressionAlgorithm::Zstd => zstd_inflate(data),
        CompressionAlgorithm::Lz4 => lz4_inflate(data),
    }
}

/// What `compress` guarantees of every frame it returns: decompression back
/// to the input under the same codec.
pub open spec fn spec_compress_post(
    alg: CompressionAlgorithm,
    data: Seq<u8>,
    frame: Seq<u8>,
) -> bool {
    spec_decompress(alg, frame) == Some(data)
}

/// Compression round-trip law: every frame `compress` can return satisfies
/// `decompress`'s success condition and inflates to exactly the input, so
/// decompressing what was compressed under the same provider is owed `Ok`
/// and returns the original bytes — for either codec, at any level, for any
/// input.
pub proof fn lemma_compression_round_trip(
    alg: CompressionAlgorithm,
    data: Seq<u8>,
    frame: Seq<u8>,
)
    requires
        spec_compress_post(alg, data, frame),
    ensures
        spec_decompress(alg, frame) is Some,
        spec_decompress(alg, frame) == Some(data),
{
}

impl CompressionProvider {
    /// A provider running the Zstd codec at the given level.
    pub fn new_zstd(level: i32) -> (r: CompressionProvider)
        ensures
            r@ == (CompressionModel { algorithm: CompressionAlgorithm::Zstd, level: level as int }),
    {
        CompressionProvider { algorithm: CompressionAlgorithm::Zstd, level }
    }

    /// A provider running the LZ4 codec at the given level.
    pub fn new_lz4(level: i32) -> (r: CompressionProvider)
        ensures
            r@ == (CompressionModel { algorithm: CompressionAlgorithm::Lz4, level: level as int }),
    {
        CompressionProvider { algorithm: CompressionAlgorithm::Lz4, level }
    }

    /// Compresses `data`, and succeeds on every input. The frame it returns
    /// decompresses back to `data` under the same provider.
    pub fn compress(&self, data: &[u8]) -> (r: Result<Vec<u8>, ProtocolError>)
        ensures
            r is Ok,
            r matches Ok(c) ==> spec_compress_post(self@.algorithm, data@, c@),
    {
        let deflated = match self.algorithm {
            CompressionAlgorithm::Zstd => zstd_deflate_raw(data, self.level),
            CompressionAlgorithm::Lz4 => lz4_deflate_raw(data, self.level),
        };
        match deflated {
            Some(compressed) => Ok(compressed),
            None => {
                proof {
                    assert(false);
                }
                Err(ProtocolError::Compression("compression failed".to_owned()))
            },
        }
    }

    /// Decompresses `data`, succeeding exactly when it is a frame the codec
    /// accepts.
    pub fn decompress(&self, data: &[u8]) -> (r: Result<Vec<u8>, ProtocolError>)
        ensures
            r is Ok <==> spec_decompress(self@.algorithm, data@) is Some,
            r matches Ok(p) ==> spec_decompress(self@.algorithm, data@) == Some(p@),
            r is Err ==> r->Err_0 is Compression,
    {
        let inflated = match self.algorithm {
            CompressionAlgorithm::Zstd => zstd_inflate_raw(data),
            CompressionAlgorithm::Lz4 => lz4_inflate_raw(data),
        };
        match inflated {
            Some(decompressed) => Ok(decompressed),
            None => Err(ProtocolError::Compression("decompression failed".to_owned())),
        }
    }
}

} // verus!
