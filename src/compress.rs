//! Compression before encryption; the strategy selects the codec.
use vstd::prelude::*;

use crate::encoding::opt_bytes;
use crate::strategy::CompressionAlg;

verus! {

/// What brotli makes of `data` at a quality and window size, if it succeeds.
pub uninterp spec fn brotli_compressed(data: Seq<u8>, quality: u32, lgwin: u32) -> Option<Seq<u8>>;

/// What brotli's decoder makes of `data`, if it succeeds.
pub uninterp spec fn brotli_decompressed(data: Seq<u8>) -> Option<Seq<u8>>;

/// Relies on brotli::CompressorReader with a 4096-byte buffer, read to the end.
#[verifier::external_body]
fn brotli_compress_raw(data: &[u8], quality: u32, lgwin: u32) -> (r: Option<Vec<u8>>)
    ensures
        opt_bytes(r) == brotli_compressed(data@, quality, lgwin),
{
    let mut reader = brotli::CompressorReader::new(data, 4096, quality, lgwin);
    let mut output = Vec::with_capacity(data.len());
    match std::io::Read::read_to_end(&mut reader, &mut output) {
        Ok(_) => Some(output),
        Err(_) => None,
    }
}

/// Relies on brotli::Decompressor with a 4096-byte buffer, read to the end;
/// it gives back what CompressorReader compressed.
#[verifier::external_body]
fn brotli_decompress_raw(data: &[u8]) -> (r: Option<Vec<u8>>)
    ensures
        opt_bytes(r) == brotli_decompressed(data@),
        forall|x: Seq<u8>, q: u32, w: u32| #[trigger] brotli_compressed(x, q, w) == Some(data@)
            ==> opt_bytes(r) == Some(x),
{
    let mut reader = brotli::Decompressor::new(data, 4096);
    let mut output = Vec::with_capacity(data.len());
    match std::io::Read::read_to_end(&mut reader, &mut output) {
        Ok(_) => Some(output),
        Err(_) => None,
    }
}

pub const BROTLI_QUALITY: u32 = 6;

pub const BROTLI_WINDOW: u32 = 22;

/// Why compressing or decompressing failed.
#[derive(Debug, Clone, Copy, PartialEq, Eq, Structural)]
pub enum CompressError {
    /// The compressor failed or gave no output.
    Compress,
    /// The data is not a valid compressed stream.
    Decompress,
}

/// Brotli at quality 6 with a 22-bit window; an empty output counts as failure.
pub open spec fn brotli_spec(data: Seq<u8>) -> Result<Seq<u8>, CompressError> {
    match brotli_compressed(data, BROTLI_QUALITY, BROTLI_WINDOW) {
        Some(v) => if v.len() > 0 {
            Ok(v)
        } else {
            Err(CompressError::Compress)
        },
        None => Err(CompressError::Compress),
    }
}

/// What `compress_file` gives.
pub open spec fn compressed(data: Seq<u8>, alg: CompressionAlg) -> Result<Seq<u8>, CompressError> {
    match alg {
        CompressionAlg::Brotli => brotli_spec(data),
        CompressionAlg::Uncompressed => Ok(data),
    }
}

/// What `decompress_file` gives.
pub open spec fn decompressed(data: Seq<u8>, alg: CompressionAlg) -> Result<Seq<u8>, CompressError> {
    match alg {
        CompressionAlg::Brotli => match brotli_decompressed(data) {
            Some(v) => Ok(v),
            None => Err(CompressError::Decompress),
        },
        CompressionAlg::Uncompressed => Ok(data),
    }
}

pub fn brotli_compress(data: &[u8]) -> (r: Result<Vec<u8>, CompressError>)
    ensures
        match brotli_spec(data@) {
            Ok(v) => r matches Ok(rv) && rv@ == v,
            Err(e) => r matches Err(re) && re == e,
        },
{
    match brotli_compress_raw(data, BROTLI_QUALITY, BROTLI_WINDOW) {
        Some(v) => {
            if v.len() > 0 {
                Ok(v)
            } else {
                Err(CompressError::Compress)
            }
        },
        None => Err(CompressError::Compress),
    }
}

pub fn brotli_decompress(data: &[u8]) -> (r: Result<Vec<u8>, CompressError>)
    ensures
        match decompressed(data@, CompressionAlg::Brotli) {
            Ok(v) => r matches Ok(rv) && rv@ == v,
            Err(e) => r matches Err(re) && re == e,
        },
        forall|x: Seq<u8>| #[trigger] brotli_spec(x) == Ok::<Seq<u8>, CompressError>(data@) ==> (r matches Ok(
            rv,
        ) && rv@ == x),
{
    let out = brotli_decompress_raw(data);
    assert forall|x: Seq<u8>| #[trigger] brotli_spec(x) == Ok::<Seq<u8>, CompressError>(data@) implies opt_bytes(out) == Some(x) by {
        assert(brotli_compressed(x, BROTLI_QUALITY, BROTLI_WINDOW) == Some(data@));
    }
    match out {
        Some(v) => Ok(v),
        None => Err(CompressError::Decompress),
    }
}

/// Compress with the strategy's codec.
pub fn compress_file(data: Vec<u8>, alg: &CompressionAlg) -> (r: Result<Vec<u8>, CompressError>)
    ensures
        match compressed(data@, *alg) {
            Ok(v) => r matches Ok(rv) && rv@ == v,
            Err(e) => r matches Err(re) && re == e,
        },
{
    match alg {
        CompressionAlg::Brotli => brotli_compress(data.as_slice()),
        CompressionAlg::Uncompressed => Ok(data),
    }
}

/// Undo `compress_file`: what it compressed comes back unchanged.
pub fn decompress_file(data: Vec<u8>, alg: &CompressionAlg) -> (r: Result<Vec<u8>, CompressError>)
    ensures
        match decompressed(data@, *alg) {
            Ok(v) => r matches Ok(rv) && rv@ == v,
            Err(e) => r matches Err(re) && re == e,
        },
        forall|x: Seq<u8>| #[trigger] compressed(x, *alg) == Ok::<Seq<u8>, CompressError>(data@) ==> (r matches Ok(
            rv,
        ) && rv@ == x),
{
    match alg {
        CompressionAlg::Brotli => {
            let r = brotli_decompress(data.as_slice());
            assert forall|x: Seq<u8>| #[trigger] compressed(x, *alg) == Ok::<Seq<u8>, CompressError>(data@) implies (r matches Ok(
                rv,
            ) && rv@ == x) by {
                assert(brotli_spec(x) == Ok::<Seq<u8>, CompressError>(data@));
            }
            r
        },
        CompressionAlg::Uncompressed => Ok(data),
    }
}

} // verus!
