//! Checksums and codecs provided by outside crates.
//!
//! Each item here makes exactly one outside call. Their results are named by
//! uninterpreted spec functions so that the verified code around them can
//! state its behaviour exactly in terms of those names.

use sha2::Digest;
use vstd::prelude::*;

verus! {

/// The CRC-32 (IEEE) checksum that `crc32fast::hash` computes over `data`.
pub uninterp spec fn crc32_of(data: Seq<u8>) -> u32;

/// Calls `crc32fast::hash`. Trusted: the result is exactly the named
/// `crc32_of` of the input bytes; nothing else is claimed about the value.
#[verifier::external_body]
pub(crate) fn crc32(data: &[u8]) -> (checksum: u32)
    ensures
        checksum == crc32_of(data@),
{
    crc32fast::hash(data)
}

/// The frame that `zstd::bulk::compress(data, level)` produces, or `None`
/// when that call fails.
pub uninterp spec fn zstd_frame(data: Seq<u8>, level: i32) -> Option<Seq<u8>>;

/// Calls `zstd::bulk::compress`. Trusted: it succeeds exactly when the named
/// `zstd_frame` is `Some`, and then returns those bytes. As the crate
/// documents for its own frames, `zstd::bulk::decompress` with a capacity of
/// the original length gives the data back, and a frame is never empty: it
/// opens with the format's four-byte magic number. The text of the error
/// message is not described.
#[verifier::external_body]
pub(crate) fn zstd_compress(data: &[u8], level: i32) -> (result: Result<Vec<u8>, String>)
    ensures
        result is Ok <==> zstd_frame(data@, level) is Some,
        result matches Ok(frame) ==> zstd_frame(data@, level) == Some(frame@),
        result matches Ok(frame) ==> zstd_inflated(frame@, data@.len() as usize) == Some(data@),
        result matches Ok(frame) ==> frame@.len() >= 4,
{
    zstd::bulk::compress(data, level).map_err(|error| error.to_string())
}

/// The bytes that `zstd::bulk::decompress(data, capacity)` returns, or `None`
/// when that call fails.
pub uninterp spec fn zstd_inflated(data: Seq<u8>, capacity: usize) -> Option<Seq<u8>>;

/// Calls `zstd::bulk::decompress`. Trusted: it succeeds exactly when the named
/// `zstd_inflated` is `Some` and then returns those bytes, which by the
/// crate's documentation are at most `capacity` long. The text of the error
/// message is not described.
#[verifier::external_body]
pub(crate) fn zstd_decompress(data: &[u8], capacity: usize) -> (result: Result<Vec<u8>, String>)
    ensures
        result is Ok <==> zstd_inflated(data@, capacity) is Some,
        result matches Ok(bytes) ==> zstd_inflated(data@, capacity) == Some(bytes@)
            && bytes@.len() <= capacity,
{
    zstd::bulk::decompress(data, capacity).map_err(|error| error.to_string())
}

/// Lowercase hex of the SHA-256 digest that `sha2::Sha256::digest` gives,
/// as `hex::encode` writes it.
pub uninterp spec fn sha256_hex_of(data: Seq<u8>) -> Seq<char>;

/// Calls `hex::encode(sha2::Sha256::digest(data))`. Trusted: the result is
/// the named `sha256_hex_of` of the bytes, 64 characters long.
#[verifier::external_body]
pub(crate) fn sha256_hex(data: &[u8]) -> (digest: String)
    ensures
        digest@ == sha256_hex_of(data@),
        digest@.len() == 64,
{
    hex::encode(sha2::Sha256::digest(data))
}

} // verus!
