//! Codec-independent MOMO LSB Carrier v1.
//!
//! A carrier is a 24-byte header followed by the stored payload, written one
//! bit per red, green and blue sample (most significant bit first) into the
//! least significant bit of each sample. Alpha samples are never touched.

use vstd::prelude::*;

use crate::checksum::{crc32, crc32_of, zstd_compress, zstd_decompress, zstd_frame, zstd_inflated};
use crate::image_codec::{decode_png_rgba, encode_png_rgba, png_encoding, png_rgba};

verus! {

pub const LSB_CARRIER_MAGIC: [u8; 8] = [0x4d, 0x4f, 0x4d, 0x4f, 0x4c, 0x53, 0x42, 0x31];

pub const LSB_CARRIER_VERSION: u8 = 1;

pub const LSB_HEADER_BYTES: usize = 24;

pub const MAX_LSB_PAYLOAD_BYTES: usize = 64 * 1024 * 1024;

pub const MAX_LSB_PNG_BYTES: usize = 128 * 1024 * 1024;

pub const MAX_LSB_IMAGE_PIXELS: u64 = 64 * 1024 * 1024;

pub const LSB_ZSTD_LEVEL: i32 = 9;

const FLAG_ZSTD: u8 = 1;

#[derive(Debug, Clone, Copy, PartialEq, Eq, Structural)]
pub enum LsbPayloadType {
    CharacterData,
    Moc,
    Charx,
}

impl LsbPayloadType {
    /// The wire code stored in byte 10 of the carrier header.
    pub open spec fn spec_code(self) -> u8 {
        match self {
            LsbPayloadType::CharacterData => 1,
            LsbPayloadType::Moc => 2,
            LsbPayloadType::Charx => 3,
        }
    }

    pub open spec fn spec_from_code(code: u8) -> Option<LsbPayloadType> {
        if code == 1 {
            Some(LsbPayloadType::CharacterData)
        } else if code == 2 {
            Some(LsbPayloadType::Moc)
        } else if code == 3 {
            Some(LsbPayloadType::Charx)
        } else {
            None
        }
    }

    pub fn code(self) -> (code: u8)
        ensures
            code == self.spec_code(),
    {
        match self {
            LsbPayloadType::CharacterData => 1,
            LsbPayloadType::Moc => 2,
            LsbPayloadType::Charx => 3,
        }
    }

    /// Decodes a wire code; unknown codes are rejected with their value.
    pub fn try_from_code(code: u8) -> (result: Result<LsbPayloadType, LsbCarrierError>)
        ensures
            match Self::spec_from_code(code) {
                Some(t) => result == Ok::<LsbPayloadType, LsbCarrierError>(t),
                None => result == Err::<LsbPayloadType, LsbCarrierError>(
                    LsbCarrierError::UnknownPayloadType(code),
                ),
            },
    {
        if code == 1 {
            Ok(LsbPayloadType::CharacterData)
        } else if code == 2 {
            Ok(LsbPayloadType::Moc)
        } else if code == 3 {
            Ok(LsbPayloadType::Charx)
        } else {
            Err(LsbCarrierError::UnknownPayloadType(code))
        }
    }
}

#[derive(Debug, Clone, PartialEq, Eq)]
pub struct LsbPayload {
    pub payload_type: LsbPayloadType,
    pub compressed: bool,
    pub bytes: Vec<u8>,
}

#[derive(Debug, Clone, Copy, PartialEq, Eq)]
pub struct LsbCarrierInfo {
    pub payload_type: LsbPayloadType,
    pub compressed: bool,
    pub stored_bytes: usize,
    pub original_bytes: usize,
    pub available_bytes: usize,
}

#[derive(Debug, Clone, PartialEq, Eq)]
pub enum LsbCarrierError {
    InvalidChannels,
    InvalidPixelBuffer,
    EmptyPayload,
    PayloadTooLarge,
    InsufficientCapacity { required: usize, available: usize },
    MissingCarrier,
    UnsupportedVersion(u8),
    UnknownFlags(u8),
    UnknownPayloadType(u8),
    InvalidLength,
    ChecksumMismatch,
    Compression(String),
    Decompression(String),
    ImageTooLarge,
    InvalidImage(String),
}

// ---------------------------------------------------------------------------
// Sample geometry
// ---------------------------------------------------------------------------

pub open spec fn valid_channels(channels: u8) -> bool {
    channels == 3 || channels == 4
}

/// Pixel buffers accepted by the carrier: RGB or RGBA, whole pixels only.
pub open spec fn valid_pixel_buffer(len: int, channels: u8) -> bool {
    valid_channels(channels) && len % (channels as int) == 0
}

/// Number of red, green and blue samples in a buffer of whole pixels.
pub open spec fn rgb_sample_count(len: int, channels: u8) -> int {
    (len / (channels as int)) * 3
}

pub open spec fn spec_lsb_capacity(len: int, channels: u8) -> int {
    if valid_pixel_buffer(len, channels) {
        rgb_sample_count(len, channels) / 8
    } else {
        0
    }
}

/// Buffer index of the `k`-th colour sample (alpha samples are skipped).
pub open spec fn rgb_pos(k: int, channels: u8) -> int {
    (k / 3) * (channels as int) + k % 3
}

/// Rank among colour samples of the sample at buffer index `i`.
pub open spec fn rgb_rank(i: int, channels: u8) -> int {
    (i / (channels as int)) * 3 + i % (channels as int)
}

pub open spec fn is_rgb_index(i: int, channels: u8) -> bool {
    i % (channels as int) < 3
}

proof fn lemma_rgb_geometry(k: int, channels: u8, len: int)
    requires
        valid_pixel_buffer(len, channels),
        0 <= k < rgb_sample_count(len, channels),
    ensures
        0 <= rgb_pos(k, channels) < len,
        is_rgb_index(rgb_pos(k, channels), channels),
        rgb_rank(rgb_pos(k, channels), channels) == k,
{
    if channels == 3 {
        assert(rgb_pos(k, channels) == k);
    } else {
        assert(channels == 4);
    }
}

proof fn lemma_rgb_rank(i: int, channels: u8, len: int)
    requires
        valid_pixel_buffer(len, channels),
        0 <= i < len,
        is_rgb_index(i, channels),
    ensures
        0 <= rgb_rank(i, channels) < rgb_sample_count(len, channels),
        rgb_pos(rgb_rank(i, channels), channels) == i,
{
    if channels == 3 {
        assert(rgb_rank(i, channels) == i);
    } else {
        assert(channels == 4);
    }
}

proof fn lemma_rgb_count_bound(len: int, channels: u8)
    requires
        valid_channels(channels),
        0 <= len,
    ensures
        0 <= rgb_sample_count(len, channels) <= len,
{
}

proof fn lemma_rgb_pos_terms(k: int, channels: u8)
    requires
        valid_channels(channels),
        0 <= k,
    ensures
        0 <= (k / 3) * (channels as int) <= rgb_pos(k, channels),
{
}

// ---------------------------------------------------------------------------
// Bit streams
// ---------------------------------------------------------------------------

/// Bit `k` of a byte stream, most significant bit of each byte first.
pub open spec fn stream_bit(bytes: Seq<u8>, k: int) -> u8 {
    (bytes[k / 8] >> ((7 - k % 8) as u8)) & 1
}

/// The value a pixel sample has after the first `nbits` bits of `bytes` were
/// written into the colour samples of `old`.
pub open spec fn written_sample(old: Seq<u8>, channels: u8, bytes: Seq<u8>, nbits: int, i: int) -> u8 {
    if is_rgb_index(i, channels) && rgb_rank(i, channels) < nbits {
        (old[i] & 0xfe) | stream_bit(bytes, rgb_rank(i, channels))
    } else {
        old[i]
    }
}

/// `new` is `old` with all of `bytes` written into its colour samples.
pub open spec fn carries(old: Seq<u8>, new: Seq<u8>, channels: u8, bytes: Seq<u8>) -> bool {
    &&& new.len() == old.len()
    &&& forall|i: int|
        0 <= i < old.len() ==> #[trigger] new[i] == written_sample(
            old,
            channels,
            bytes,
            (bytes.len() * 8) as int,
            i,
        )
}

/// Least significant bit of the `k`-th colour sample; zero past the end.
pub open spec fn sample_bit(pixels: Seq<u8>, channels: u8, k: int) -> u8 {
    if 0 <= k < rgb_sample_count(pixels.len() as int, channels) {
        pixels[rgb_pos(k, channels)] & 1
    } else {
        0
    }
}

/// The first `t` bits of byte `j` of the embedded stream, as a number.
pub open spec fn sample_prefix(pixels: Seq<u8>, channels: u8, j: int, t: nat) -> int
    decreases t,
{
    if t == 0 {
        0
    } else {
        sample_prefix(pixels, channels, j, (t - 1) as nat) * 2 + sample_bit(
            pixels,
            channels,
            8 * j + t - 1,
        )
    }
}

pub open spec fn sample_byte(pixels: Seq<u8>, channels: u8, j: int) -> u8 {
    sample_prefix(pixels, channels, j, 8) as u8
}

/// The first `n` bytes embedded in the colour samples of `pixels`.
pub open spec fn sample_stream(pixels: Seq<u8>, channels: u8, n: int) -> Seq<u8> {
    Seq::new(n as nat, |j: int| sample_byte(pixels, channels, j))
}

pub open spec fn two_pow(t: nat) -> int
    decreases t,
{
    if t == 0 {
        1
    } else {
        2 * two_pow((t - 1) as nat)
    }
}

proof fn lemma_sample_prefix_bound(pixels: Seq<u8>, channels: u8, j: int, t: nat)
    ensures
        0 <= sample_prefix(pixels, channels, j, t) < two_pow(t),
    decreases t,
{
    if t > 0 {
        lemma_sample_prefix_bound(pixels, channels, j, (t - 1) as nat);
        lemma_sample_bit_bound(pixels, channels, 8 * j + t - 1);
    }
}

proof fn lemma_byte_from_bits(b: u8)
    ensures
        ((((((((b >> 7u8) & 1) as int * 2 + ((b >> 6u8) & 1) as int) * 2 + ((b >> 5u8) & 1) as int)
            * 2 + ((b >> 4u8) & 1) as int) * 2 + ((b >> 3u8) & 1) as int) * 2 + ((b >> 2u8)
            & 1) as int) * 2 + ((b >> 1u8) & 1) as int) * 2 + ((b >> 0u8) & 1) as int == b as int,
{
    assert(((((((((b >> 7u8) & 1) * 2 + ((b >> 6u8) & 1)) * 2 + ((b >> 5u8) & 1)) * 2 + ((b
        >> 4u8) & 1)) * 2 + ((b >> 3u8) & 1)) * 2 + ((b >> 2u8) & 1)) * 2 + ((b >> 1u8) & 1)) * 2
        + ((b >> 0u8) & 1) == b) by (bit_vector);
}

/// Reading back what was written: each byte written into the colour samples
/// is recovered from their least significant bits.
pub proof fn lemma_carried_bytes_read_back(old: Seq<u8>, new: Seq<u8>, channels: u8, bytes: Seq<u8>, j: int)
    requires
        valid_pixel_buffer(old.len() as int, channels),
        bytes.len() * 8 <= rgb_sample_count(old.len() as int, channels),
        carries(old, new, channels, bytes),
        0 <= j < bytes.len(),
    ensures
        sample_byte(new, channels, j) == bytes[j],
{
    let b = bytes[j];
    assert forall|k: int| 8 * j <= k < 8 * j + 8 implies #[trigger] sample_bit(new, channels, k)
        == (b >> ((7 - (k - 8 * j)) as u8)) & 1 by {
        let t = k - 8 * j;
        lemma_rgb_geometry(k, channels, old.len() as int);
        let i = rgb_pos(k, channels);
        assert(new[i] == (old[i] & 0xfe) | stream_bit(bytes, k));
        assert(k / 8 == j && k % 8 == t);
        let x = old[i];
        let s = stream_bit(bytes, k);
        let sh = (7 - t) as u8;
        assert(s == (b >> sh) & 1);
        assert(s <= 1) by (bit_vector)
            requires
                s == (b >> sh) & 1,
        ;
        assert(((x & 0xfe) | s) & 1 == s) by (bit_vector)
            requires
                s <= 1,
        ;
    }
    assert(sample_bit(new, channels, 8 * j + 0) == (b >> 7u8) & 1);
    assert(sample_bit(new, channels, 8 * j + 1) == (b >> 6u8) & 1);
    assert(sample_bit(new, channels, 8 * j + 2) == (b >> 5u8) & 1);
    assert(sample_bit(new, channels, 8 * j + 3) == (b >> 4u8) & 1);
    assert(sample_bit(new, channels, 8 * j + 4) == (b >> 3u8) & 1);
    assert(sample_bit(new, channels, 8 * j + 5) == (b >> 2u8) & 1);
    assert(sample_bit(new, channels, 8 * j + 6) == (b >> 1u8) & 1);
    assert(sample_bit(new, channels, 8 * j + 7) == (b >> 0u8) & 1);
    reveal_with_fuel(sample_prefix, 9);
    lemma_byte_from_bits(b);
}

/// Writing a byte stream into a pixel buffer and reading the same number of
/// bytes back returns the stream.
pub proof fn lemma_carrier_stream_round_trip(old: Seq<u8>, new: Seq<u8>, channels: u8, bytes: Seq<u8>)
    requires
        valid_pixel_buffer(old.len() as int, channels),
        bytes.len() * 8 <= rgb_sample_count(old.len() as int, channels),
        carries(old, new, channels, bytes),
    ensures
        sample_stream(new, channels, bytes.len() as int) == bytes,
{
    assert forall|j: int| 0 <= j < bytes.len() implies #[trigger] sample_stream(
        new,
        channels,
        bytes.len() as int,
    )[j] == bytes[j] by {
        lemma_carried_bytes_read_back(old, new, channels, bytes, j);
    }
    assert(sample_stream(new, channels, bytes.len() as int) =~= bytes);
}

/// Writing a carrier never changes alpha samples, and changes colour samples
/// in their least significant bit only.
pub proof fn lemma_carrier_keeps_alpha_and_high_bits(old: Seq<u8>, new: Seq<u8>, channels: u8, bytes: Seq<u8>, i: int)
    requires
        valid_pixel_buffer(old.len() as int, channels),
        carries(old, new, channels, bytes),
        0 <= i < old.len(),
    ensures
        !is_rgb_index(i, channels) ==> new[i] == old[i],
        new[i] & 0xfe == old[i] & 0xfe,
{
    let x = old[i];
    if is_rgb_index(i, channels) && rgb_rank(i, channels) < bytes.len() * 8 {
        let s = stream_bit(bytes, rgb_rank(i, channels));
        let y = bytes[rgb_rank(i, channels) / 8];
        let sh = (7 - rgb_rank(i, channels) % 8) as u8;
        assert(s == (y >> sh) & 1);
        assert(s <= 1) by (bit_vector)
            requires
                s == (y >> sh) & 1,
        ;
        assert(((x & 0xfe) | s) & 0xfe == x & 0xfe) by (bit_vector)
            requires
                s <= 1,
        ;
    }
}

// ---------------------------------------------------------------------------
// Byte order and header
// ---------------------------------------------------------------------------

pub open spec fn be32(x: u32) -> Seq<u8> {
    seq![(x >> 24u32) as u8, (x >> 16u32) as u8, (x >> 8u32) as u8, x as u8]
}

pub open spec fn from_be32(b: Seq<u8>) -> u32 {
    ((b[0] as u32) << 24u32) | ((b[1] as u32) << 16u32) | ((b[2] as u32) << 8u32) | (b[3] as u32)
}

pub proof fn lemma_be32_round_trip(x: u32)
    ensures
        from_be32(be32(x)) == x,
{
    let b0 = (x >> 24u32) as u8;
    let b1 = (x >> 16u32) as u8;
    let b2 = (x >> 8u32) as u8;
    let b3 = x as u8;
    assert(((b0 as u32) << 24u32) | ((b1 as u32) << 16u32) | ((b2 as u32) << 8u32) | (b3 as u32)
        == x) by (bit_vector)
        requires
            b0 == (x >> 24u32) as u8,
            b1 == (x >> 16u32) as u8,
            b2 == (x >> 8u32) as u8,
            b3 == x as u8,
    ;
}

fn push_be32(out: &mut Vec<u8>, x: u32)
    ensures
        final(out)@ == old(out)@ + be32(x),
{
    out.push((x >> 24u32) as u8);
    out.push((x >> 16u32) as u8);
    out.push((x >> 8u32) as u8);
    out.push(x as u8);
    assert(out@ =~= old(out)@ + be32(x));
}

fn read_be32(b: &Vec<u8>, at: usize) -> (x: u32)
    requires
        at + 4 <= b.len(),
    ensures
        x == from_be32(b@.subrange(at as int, at + 4)),
{
    let b0 = b[at] as u32;
    let b1 = b[at + 1] as u32;
    let b2 = b[at + 2] as u32;
    let b3 = b[at + 3] as u32;
    let x = (b0 << 24u32) | (b1 << 16u32) | (b2 << 8u32) | b3;
    assert(b@.subrange(at as int, at + 4)[0] == b[at as int]);
    assert(b@.subrange(at as int, at + 4)[1] == b[at + 1]);
    assert(b@.subrange(at as int, at + 4)[2] == b[at + 2]);
    assert(b@.subrange(at as int, at + 4)[3] == b[at + 3]);
    x
}

pub open spec fn magic_bytes() -> Seq<u8> {
    seq![0x4du8, 0x4fu8, 0x4du8, 0x4fu8, 0x4cu8, 0x53u8, 0x42u8, 0x31u8]
}

pub open spec fn flags_byte(compressed: bool) -> u8 {
    if compressed {
        1
    } else {
        0
    }
}

/// The 24-byte carrier header.
pub open spec fn carrier_header(
    payload_type: LsbPayloadType,
    compressed: bool,
    stored_len: u32,
    original_len: u32,
    checksum: u32,
) -> Seq<u8> {
    magic_bytes() + seq![LSB_CARRIER_VERSION, flags_byte(compressed), payload_type.spec_code(), 0u8]
        + be32(stored_len) + be32(original_len) + be32(checksum)
}

/// The complete carrier: header, then the stored (possibly compressed) bytes.
pub open spec fn carrier_bytes(
    payload_type: LsbPayloadType,
    compressed: bool,
    stored: Seq<u8>,
    original_len: u32,
    checksum: u32,
) -> Seq<u8> {
    carrier_header(payload_type, compressed, stored.len() as u32, original_len, checksum) + stored
}

proof fn lemma_header_layout(
    payload_type: LsbPayloadType,
    compressed: bool,
    stored_len: u32,
    original_len: u32,
    checksum: u32,
)
    ensures
        ({
            let h = carrier_header(payload_type, compressed, stored_len, original_len, checksum);
            &&& h.len() == 24
            &&& h.subrange(0, 8) == magic_bytes()
            &&& h[8] == LSB_CARRIER_VERSION
            &&& h[9] == flags_byte(compressed)
            &&& h[10] == payload_type.spec_code()
            &&& h.subrange(12, 16) == be32(stored_len)
            &&& h.subrange(16, 20) == be32(original_len)
            &&& h.subrange(20, 24) == be32(checksum)
        }),
{
    let h = carrier_header(payload_type, compressed, stored_len, original_len, checksum);
    let a = magic_bytes() + seq![LSB_CARRIER_VERSION, flags_byte(compressed), payload_type.spec_code(), 0u8];
    let b = a + be32(stored_len);
    let c = b + be32(original_len);
    assert(a.len() == 12);
    assert(a.subrange(0, 8) =~= magic_bytes());
    assert(b.subrange(0, 8) =~= magic_bytes());
    assert(b.subrange(12, 16) =~= be32(stored_len));
    assert(c.subrange(0, 8) =~= magic_bytes());
    assert(c.subrange(12, 16) =~= be32(stored_len));
    assert(c.subrange(16, 20) =~= be32(original_len));
    assert(h.subrange(0, 8) =~= magic_bytes());
    assert(h.subrange(12, 16) =~= be32(stored_len));
    assert(h.subrange(16, 20) =~= be32(original_len));
    assert(h.subrange(20, 24) =~= be32(checksum));
}

// ---------------------------------------------------------------------------
// Capacity, validation and the two bit-level primitives
// ---------------------------------------------------------------------------

/// Number of carrier bytes an RGB or RGBA buffer can hold; zero for a buffer
/// that is not made of whole pixels of 3 or 4 channels.
pub fn lsb_capacity(pixels: &[u8], channels: u8) -> (capacity: usize)
    ensures
        capacity == spec_lsb_capacity(pixels@.len() as int, channels),
{
    if !(channels == 3 || channels == 4) || pixels.len() % (channels as usize) != 0 {
        return 0;
    }
    proof {
        lemma_rgb_count_bound(pixels@.len() as int, channels);
    }
    let rgb_samples = pixels.len() / (channels as usize) * 3;
    rgb_samples / 8
}

pub fn validate_pixels(pixels: &[u8], channels: u8) -> (result: Result<(), LsbCarrierError>)
    ensures
        !valid_channels(channels) ==> result == Err::<(), LsbCarrierError>(
            LsbCarrierError::InvalidChannels,
        ),
        valid_channels(channels) && !valid_pixel_buffer(pixels@.len() as int, channels)
            ==> result == Err::<(), LsbCarrierError>(LsbCarrierError::InvalidPixelBuffer),
        valid_pixel_buffer(pixels@.len() as int, channels) ==> result is Ok,
{
    if !(channels == 3 || channels == 4) {
        return Err(LsbCarrierError::InvalidChannels);
    }
    if pixels.len() % (channels as usize) != 0 {
        return Err(LsbCarrierError::InvalidPixelBuffer);
    }
    Ok(())
}

/// Writes every bit of `bytes` into the colour samples of `pixels`.
fn write_bits(pixels: &mut [u8], channels: u8, bytes: &[u8])
    requires
        valid_pixel_buffer(old(pixels)@.len() as int, channels),
        bytes@.len() * 8 <= rgb_sample_count(old(pixels)@.len() as int, channels),
    ensures
        carries(old(pixels)@, final(pixels)@, channels, bytes@),
{
    let ghost original = pixels@;
    let ghost len = pixels@.len() as int;
    assert(pixels@.len() == pixels.len());
    proof {
        lemma_rgb_count_bound(len, channels);
    }
    let nbits = bytes.len() * 8;
    let ch = channels as usize;
    let mut k: usize = 0;
    while k < nbits
        invariant
            valid_pixel_buffer(len, channels),
            len <= usize::MAX,
            ch == channels as usize,
            nbits == bytes@.len() * 8,
            nbits <= rgb_sample_count(len, channels),
            original.len() == len,
            pixels@.len() == len,
            k <= nbits,
            forall|i: int|
                0 <= i < len ==> #[trigger] pixels@[i] == written_sample(
                    original,
                    channels,
                    bytes@,
                    k as int,
                    i,
                ),
        decreases nbits - k,
    {
        proof {
            lemma_rgb_geometry(k as int, channels, len);
            lemma_rgb_pos_terms(k as int, channels);
        }
        let i = (k / 3) * ch + k % 3;
        assert(i as int == rgb_pos(k as int, channels));
        let byte = bytes[k / 8];
        let bit = (byte >> ((7 - k % 8) as u8)) & 1;
        let ghost before = pixels@;
        pixels[i] = (pixels[i] & 0xfe) | bit;
        proof {
            assert forall|x: int| 0 <= x < len implies #[trigger] pixels@[x] == written_sample(
                original,
                channels,
                bytes@,
                k + 1,
                x,
            ) by {
                if x == i as int {
                    assert(rgb_rank(x, channels) == k);
                } else {
                    assert(pixels@[x] == before[x]);
                    if is_rgb_index(x, channels) && rgb_rank(x, channels) == k {
                        lemma_rgb_rank(x, channels, len);
                    }
                }
            }
        }
        k += 1;
    }
}

proof fn lemma_prefix_step(pixels: Seq<u8>, channels: u8, j: int, t: nat)
    requires
        t < 8,
    ensures
        sample_prefix(pixels, channels, j, t) <= 127,
        sample_bit(pixels, channels, 8 * j + t) <= 1,
        0 <= sample_prefix(pixels, channels, j, t + 1) <= 255,
{
    lemma_sample_prefix_bound(pixels, channels, j, t);
    lemma_sample_prefix_bound(pixels, channels, j, t + 1);
    lemma_sample_bit_bound(pixels, channels, 8 * j + t);
    reveal_with_fuel(two_pow, 9);
    if t == 0 {
    } else if t == 1 {
    } else if t == 2 {
    } else if t == 3 {
    } else if t == 4 {
    } else if t == 5 {
    } else if t == 6 {
    } else {
    }
}

proof fn lemma_sample_bit_bound(pixels: Seq<u8>, channels: u8, k: int)
    ensures
        sample_bit(pixels, channels, k) <= 1,
{
    if 0 <= k < rgb_sample_count(pixels.len() as int, channels) {
        let x = pixels[rgb_pos(k, channels)];
        assert(x & 1 <= 1) by (bit_vector);
    }
}

/// Reads `count` bytes from the least significant bits of the colour samples.
pub fn read_bytes(pixels: &[u8], channels: u8, count: usize) -> (out: Vec<u8>)
    requires
        valid_pixel_buffer(pixels@.len() as int, channels),
        count <= spec_lsb_capacity(pixels@.len() as int, channels),
    ensures
        out@ == sample_stream(pixels@, channels, count as int),
{
    let ch = channels as usize;
    assert(pixels@.len() == pixels.len());
    proof {
        lemma_rgb_count_bound(pixels@.len() as int, channels);
    }
    let rgb = pixels.len() / ch * 3;
    let mut out: Vec<u8> = Vec::new();
    let mut j: usize = 0;
    while j < count
        invariant
            valid_pixel_buffer(pixels@.len() as int, channels),
            pixels@.len() <= usize::MAX,
            ch == channels as usize,
            rgb == rgb_sample_count(pixels@.len() as int, channels),
            count <= spec_lsb_capacity(pixels@.len() as int, channels),
            j <= count,
            out@.len() == j,
            forall|x: int| 0 <= x < j ==> #[trigger] out@[x] == sample_byte(pixels@, channels, x),
        decreases count - j,
    {
        let mut acc: u8 = 0;
        let mut t: usize = 0;
        while t < 8
            invariant
                valid_pixel_buffer(pixels@.len() as int, channels),
                pixels@.len() <= usize::MAX,
                ch == channels as usize,
                rgb == rgb_sample_count(pixels@.len() as int, channels),
                count <= spec_lsb_capacity(pixels@.len() as int, channels),
                j < count,
                t <= 8,
                acc as int == sample_prefix(pixels@, channels, j as int, t as nat),
            decreases 8 - t,
        {
            let k = j * 8 + t;
            let bit = if k < rgb {
                proof {
                    lemma_rgb_geometry(k as int, channels, pixels@.len() as int);
                    lemma_rgb_pos_terms(k as int, channels);
                }
                let i = (k / 3) * ch + k % 3;
                pixels[i] & 1
            } else {
                0
            };
            proof {
                lemma_prefix_step(pixels@, channels, j as int, t as nat);
            }
            assert(bit == sample_bit(pixels@, channels, 8 * j + t));
            acc = acc * 2 + bit;
            t += 1;
        }
        proof {
            lemma_prefix_step(pixels@, channels, j as int, 7);
        }
        out.push(acc);
        j += 1;
    }
    assert(out@ =~= sample_stream(pixels@, channels, count as int));
    out
}

// ---------------------------------------------------------------------------
// Embedding and extraction
// ---------------------------------------------------------------------------

/// The bytes that are stored for `payload`: the zstd frame when compressing.
pub open spec fn stored_for(payload: Seq<u8>, compress: bool) -> Option<Seq<u8>> {
    if compress {
        zstd_frame(payload, LSB_ZSTD_LEVEL)
    } else {
        Some(payload)
    }
}

/// What `embed_lsb_carrier` returns on a given buffer and payload. On success
/// the buffer carries `carrier_bytes`; on every error it is left unchanged.
pub open spec fn embed_outcome(
    len: int,
    channels: u8,
    payload_type: LsbPayloadType,
    payload: Seq<u8>,
    compress: bool,
) -> Result<LsbCarrierInfo, LsbCarrierError> {
    if !valid_channels(channels) {
        Err(LsbCarrierError::InvalidChannels)
    } else if !valid_pixel_buffer(len, channels) {
        Err(LsbCarrierError::InvalidPixelBuffer)
    } else if payload.len() == 0 {
        Err(LsbCarrierError::EmptyPayload)
    } else if payload.len() > MAX_LSB_PAYLOAD_BYTES {
        Err(LsbCarrierError::PayloadTooLarge)
    } else {
        match stored_for(payload, compress) {
            None => Err(LsbCarrierError::Compression(arbitrary())),
            Some(stored) => if stored.len() > u32::MAX {
                Err(LsbCarrierError::PayloadTooLarge)
            } else if LSB_HEADER_BYTES + stored.len() > spec_lsb_capacity(len, channels) {
                Err(
                    LsbCarrierError::InsufficientCapacity {
                        required: saturating_usize(LSB_HEADER_BYTES + stored.len()),
                        available: spec_lsb_capacity(len, channels) as usize,
                    },
                )
            } else {
                Ok(
                    LsbCarrierInfo {
                        payload_type,
                        compressed: compress,
                        stored_bytes: stored.len() as usize,
                        original_bytes: payload.len() as usize,
                        available_bytes: spec_lsb_capacity(len, channels) as usize,
                    },
                )
            },
        }
    }
}

/// `n` as a `usize`, or `usize::MAX` when it does not fit.
pub open spec fn saturating_usize(n: int) -> usize {
    if n > usize::MAX {
        usize::MAX
    } else {
        n as usize
    }
}

/// Two outcomes agree, except for the free text of codec error messages.
pub open spec fn same_outcome<T>(a: Result<T, LsbCarrierError>, b: Result<T, LsbCarrierError>) -> bool {
    match (a, b) {
        (Ok(x), Ok(y)) => x == y,
        (Err(LsbCarrierError::Compression(_)), Err(LsbCarrierError::Compression(_))) => true,
        (Err(LsbCarrierError::Decompression(_)), Err(LsbCarrierError::Decompression(_))) => true,
        (Err(LsbCarrierError::InvalidImage(_)), Err(LsbCarrierError::InvalidImage(_))) => true,
        (Err(x), Err(y)) => x == y,
        _ => false,
    }
}

/// Embeds a payload into interleaved RGB or RGBA samples. On success the
/// samples carry the header and stored bytes; on any error they are unchanged.
pub fn embed_lsb_carrier(
    pixels: &mut [u8],
    channels: u8,
    payload_type: LsbPayloadType,
    payload: &[u8],
    compress: bool,
) -> (result: Result<LsbCarrierInfo, LsbCarrierError>)
    ensures
        same_outcome(
            result,
            embed_outcome(old(pixels)@.len() as int, channels, payload_type, payload@, compress),
        ),
        result is Ok ==> ({
            let stored = stored_for(payload@, compress)->Some_0;
            carries(
                old(pixels)@,
                final(pixels)@,
                channels,
                carrier_bytes(
                    payload_type,
                    compress,
                    stored,
                    payload@.len() as u32,
                    crc32_of(payload@),
                ),
            )
        }),
        result is Err ==> final(pixels)@ == old(pixels)@,
        result matches Ok(info) && info.stored_bytes <= MAX_LSB_PAYLOAD_BYTES ==> ({
            &&& extract_outcome(final(pixels)@, channels) == Ok::<LsbPayload, LsbCarrierError>(
                LsbPayload { payload_type, compressed: compress, bytes: arbitrary() },
            )
            &&& extracted_bytes(final(pixels)@, channels) == payload@
        }),
{
    let ghost start = pixels@;
    match validate_pixels(pixels, channels) {
        Err(error) => return Err(error),
        Ok(()) => {},
    }
    if payload.len() == 0 {
        return Err(LsbCarrierError::EmptyPayload);
    }
    if payload.len() > MAX_LSB_PAYLOAD_BYTES {
        return Err(LsbCarrierError::PayloadTooLarge);
    }
    let stored: Vec<u8> = if compress {
        match zstd_compress(payload, LSB_ZSTD_LEVEL) {
            Ok(frame) => frame,
            Err(message) => return Err(LsbCarrierError::Compression(message)),
        }
    } else {
        vstd::slice::slice_to_vec(payload)
    };
    if stored.len() > 0xffff_ffffusize {
        return Err(LsbCarrierError::PayloadTooLarge);
    }
    let stored_len = stored.len() as u32;
    let original_len = payload.len() as u32;
    let available = lsb_capacity(pixels, channels);
    if stored.len() > available || LSB_HEADER_BYTES > available - stored.len() {
        return Err(
            LsbCarrierError::InsufficientCapacity {
                required: LSB_HEADER_BYTES.saturating_add(stored.len()),
                available,
            },
        );
    }
    let checksum = crc32(payload);
    let mut carrier: Vec<u8> = Vec::new();
    carrier.push(0x4d);
    carrier.push(0x4f);
    carrier.push(0x4d);
    carrier.push(0x4f);
    carrier.push(0x4c);
    carrier.push(0x53);
    carrier.push(0x42);
    carrier.push(0x31);
    carrier.push(LSB_CARRIER_VERSION);
    carrier.push(if compress { FLAG_ZSTD } else { 0 });
    carrier.push(payload_type.code());
    carrier.push(0);
    push_be32(&mut carrier, stored_len);
    push_be32(&mut carrier, original_len);
    push_be32(&mut carrier, checksum);
    assert(carrier@ =~= carrier_header(payload_type, compress, stored_len, original_len, checksum));
    let mut s: usize = 0;
    let ghost header = carrier@;
    while s < stored.len()
        invariant
            s <= stored@.len(),
            carrier@ == header + stored@.subrange(0, s as int),
        decreases stored@.len() - s,
    {
        carrier.push(stored[s]);
        s += 1;
        assert(carrier@ =~= header + stored@.subrange(0, s as int));
    }
    assert(stored@.subrange(0, stored@.len() as int) =~= stored@);
    assert(carrier@ =~= carrier_bytes(payload_type, compress, stored@, original_len, checksum));
    assert(carrier@.len() == LSB_HEADER_BYTES + stored@.len());
    write_bits(pixels, channels, carrier.as_slice());
    proof {
        if stored@.len() <= MAX_LSB_PAYLOAD_BYTES {
            lemma_embed_then_extract(start, pixels@, channels, payload_type, payload@, compress);
        }
    }
    Ok(
        LsbCarrierInfo {
            payload_type,
            compressed: compress,
            stored_bytes: stored.len(),
            original_bytes: payload.len(),
            available_bytes: available,
        },
    )
}

/// Header fields read from a carrier stream.
pub open spec fn header_stored_len(header: Seq<u8>) -> u32 {
    from_be32(header.subrange(12, 16))
}

pub open spec fn header_original_len(header: Seq<u8>) -> u32 {
    from_be32(header.subrange(16, 20))
}

pub open spec fn header_checksum(header: Seq<u8>) -> u32 {
    from_be32(header.subrange(20, 24))
}

/// The stored bytes that follow the header, given their declared length.
pub open spec fn stored_region(pixels: Seq<u8>, channels: u8, stored_len: int) -> Seq<u8> {
    sample_stream(pixels, channels, LSB_HEADER_BYTES + stored_len).subrange(24, 24 + stored_len)
}

/// The bytes a header and stored region decode to, before the checksum test.
pub open spec fn decoded_payload(header: Seq<u8>, stored: Seq<u8>) -> Result<Seq<u8>, LsbCarrierError> {
    let stored_len = header_stored_len(header) as int;
    let original_len = header_original_len(header) as int;
    if header[9] & 1 != 0 {
        match zstd_inflated(stored, original_len as usize) {
            Some(bytes) => Ok(bytes),
            None => Err(LsbCarrierError::Decompression(arbitrary())),
        }
    } else if stored_len != original_len {
        Err(LsbCarrierError::InvalidLength)
    } else {
        Ok(stored)
    }
}

/// Decision on a carrier whose 24 header bytes have been read.
pub open spec fn decode_carrier(header: Seq<u8>, stored: Seq<u8>, capacity: int) -> Result<LsbPayload, LsbCarrierError> {
    let flags = header[9];
    let stored_len = header_stored_len(header) as int;
    let original_len = header_original_len(header) as int;
    if header.subrange(0, 8) != magic_bytes() {
        Err(LsbCarrierError::MissingCarrier)
    } else if header[8] != LSB_CARRIER_VERSION {
        Err(LsbCarrierError::UnsupportedVersion(header[8]))
    } else if flags & 0xfe != 0 {
        Err(LsbCarrierError::UnknownFlags(flags))
    } else if LsbPayloadType::spec_from_code(header[10]) is None {
        Err(LsbCarrierError::UnknownPayloadType(header[10]))
    } else if stored_len == 0 || original_len == 0 || original_len > MAX_LSB_PAYLOAD_BYTES
        || stored_len > MAX_LSB_PAYLOAD_BYTES || LSB_HEADER_BYTES + stored_len > capacity {
        Err(LsbCarrierError::InvalidLength)
    } else {
        match decoded_payload(header, stored) {
            Err(error) => Err(error),
            Ok(bytes) => if bytes.len() != original_len || crc32_of(bytes) != header_checksum(
                header,
            ) {
                Err(LsbCarrierError::ChecksumMismatch)
            } else {
                Ok(
                    LsbPayload {
                        payload_type: LsbPayloadType::spec_from_code(header[10])->Some_0,
                        compressed: flags & 1 != 0,
                        bytes: arbitrary(),
                    },
                )
            },
        }
    }
}

/// What `extract_lsb_carrier` returns for a pixel buffer (the payload bytes
/// of a success are given by `extracted_bytes`).
pub open spec fn extract_outcome(pixels: Seq<u8>, channels: u8) -> Result<LsbPayload, LsbCarrierError> {
    let len = pixels.len() as int;
    if !valid_channels(channels) {
        Err(LsbCarrierError::InvalidChannels)
    } else if !valid_pixel_buffer(len, channels) {
        Err(LsbCarrierError::InvalidPixelBuffer)
    } else if spec_lsb_capacity(len, channels) < LSB_HEADER_BYTES {
        Err(LsbCarrierError::MissingCarrier)
    } else {
        let header = sample_stream(pixels, channels, 24);
        decode_carrier(
            header,
            stored_region(pixels, channels, header_stored_len(header) as int),
            spec_lsb_capacity(len, channels),
        )
    }
}

/// The payload bytes that a successful extraction returns.
pub open spec fn extracted_bytes(pixels: Seq<u8>, channels: u8) -> Seq<u8> {
    let header = sample_stream(pixels, channels, 24);
    decoded_payload(header, stored_region(pixels, channels, header_stored_len(header) as int))->Ok_0
}

/// Two extraction results agree: same error (up to codec message text), or
/// same type, compression flag and bytes.
pub open spec fn extraction_matches(
    result: Result<LsbPayload, LsbCarrierError>,
    expected: Result<LsbPayload, LsbCarrierError>,
    bytes: Seq<u8>,
) -> bool {
    match (result, expected) {
        (Ok(x), Ok(y)) => x.payload_type == y.payload_type && x.compressed == y.compressed
            && x.bytes@ == bytes,
        (Err(LsbCarrierError::Decompression(_)), Err(LsbCarrierError::Decompression(_))) => true,
        (Err(x), Err(y)) => x == y,
        _ => false,
    }
}

/// Reads and verifies a carrier from interleaved RGB or RGBA samples.
pub fn extract_lsb_carrier(pixels: &[u8], channels: u8) -> (result: Result<LsbPayload, LsbCarrierError>)
    ensures
        extraction_matches(
            result,
            extract_outcome(pixels@, channels),
            extracted_bytes(pixels@, channels),
        ),
{
    match validate_pixels(pixels, channels) {
        Err(error) => return Err(error),
        Ok(()) => {},
    }
    let capacity = lsb_capacity(pixels, channels);
    if capacity < LSB_HEADER_BYTES {
        return Err(LsbCarrierError::MissingCarrier);
    }
    let header = read_bytes(pixels, channels, LSB_HEADER_BYTES);
    let ghost h = header@;
    let mut m: usize = 0;
    while m < 8
        invariant
            m <= 8,
            header@ == h,
            h.len() == 24,
            h == sample_stream(pixels@, channels, 24),
            valid_pixel_buffer(pixels@.len() as int, channels),
            capacity == spec_lsb_capacity(pixels@.len() as int, channels),
            capacity >= LSB_HEADER_BYTES,
            forall|x: int| 0 <= x < m ==> h[x] == #[trigger] magic_bytes()[x],
        decreases 8 - m,
    {
        if header[m] != LSB_CARRIER_MAGIC[m] {
            assert(h.subrange(0, 8)[m as int] != magic_bytes()[m as int]);
            assert(h.subrange(0, 8) != magic_bytes());
            return Err(LsbCarrierError::MissingCarrier);
        }
        m += 1;
    }
    assert(h.subrange(0, 8) =~= magic_bytes());
    if header[8] != LSB_CARRIER_VERSION {
        return Err(LsbCarrierError::UnsupportedVersion(header[8]));
    }
    let flags = header[9];
    if flags & 0xfe != 0 {
        return Err(LsbCarrierError::UnknownFlags(flags));
    }
    let payload_type = match LsbPayloadType::try_from_code(header[10]) {
        Ok(t) => t,
        Err(error) => return Err(error),
    };
    let stored_len_u32 = read_be32(&header, 12);
    let original_len_u32 = read_be32(&header, 16);
    let checksum = read_be32(&header, 20);
    let stored_len = stored_len_u32 as usize;
    let original_len = original_len_u32 as usize;
    if stored_len == 0 || original_len == 0 || original_len > MAX_LSB_PAYLOAD_BYTES || stored_len
        > MAX_LSB_PAYLOAD_BYTES || LSB_HEADER_BYTES + stored_len > capacity {
        return Err(LsbCarrierError::InvalidLength);
    }
    let carrier = read_bytes(pixels, channels, LSB_HEADER_BYTES + stored_len);
    let mut stored: Vec<u8> = Vec::new();
    let mut s: usize = LSB_HEADER_BYTES;
    while s < carrier.len()
        invariant
            LSB_HEADER_BYTES <= s <= carrier@.len(),
            carrier@.len() == LSB_HEADER_BYTES + stored_len,
            stored@ == carrier@.subrange(24, s as int),
        decreases carrier@.len() - s,
    {
        stored.push(carrier[s]);
        s += 1;
        assert(stored@ =~= carrier@.subrange(24, s as int));
    }
    let compressed = flags & 1 != 0;
    let bytes: Vec<u8> = if compressed {
        match zstd_decompress(stored.as_slice(), original_len) {
            Ok(bytes) => bytes,
            Err(message) => return Err(LsbCarrierError::Decompression(message)),
        }
    } else {
        if stored_len != original_len {
            return Err(LsbCarrierError::InvalidLength);
        }
        stored
    };
    if bytes.len() != original_len || crc32(bytes.as_slice()) != checksum {
        return Err(LsbCarrierError::ChecksumMismatch);
    }
    Ok(LsbPayload { payload_type, compressed, bytes })
}

/// Round trip: a payload embedded into a buffer is extracted unchanged, with
/// its type and compression flag, whenever its stored form can be described
/// by the carrier header. For a compressed payload this rests on the codec
/// inflating its own frame back to the payload.
#[verifier::rlimit(100)]
#[verifier::spinoff_prover]
pub proof fn lemma_embed_then_extract(
    old: Seq<u8>,
    new: Seq<u8>,
    channels: u8,
    payload_type: LsbPayloadType,
    payload: Seq<u8>,
    compress: bool,
)
    requires
        embed_outcome(old.len() as int, channels, payload_type, payload, compress) is Ok,
        carries(
            old,
            new,
            channels,
            carrier_bytes(
                payload_type,
                compress,
                stored_for(payload, compress)->Some_0,
                payload.len() as u32,
                crc32_of(payload),
            ),
        ),
        stored_for(payload, compress)->Some_0.len() > 0,
        stored_for(payload, compress)->Some_0.len() <= MAX_LSB_PAYLOAD_BYTES,
        compress ==> zstd_inflated(stored_for(payload, compress)->Some_0, payload.len() as usize)
            == Some(payload),
    ensures
        extract_outcome(new, channels) == Ok::<LsbPayload, LsbCarrierError>(
            LsbPayload { payload_type, compressed: compress, bytes: arbitrary() },
        ),
        extracted_bytes(new, channels) == payload,
{
    let stored = stored_for(payload, compress)->Some_0;
    let checksum = crc32_of(payload);
    let carrier = carrier_bytes(payload_type, compress, stored, payload.len() as u32, checksum);
    let len = old.len() as int;
    lemma_header_layout(payload_type, compress, stored.len() as u32, payload.len() as u32, checksum);
    let h = carrier_header(payload_type, compress, stored.len() as u32, payload.len() as u32, checksum);
    assert(carrier.len() == 24 + stored.len());
    lemma_carrier_stream_round_trip(old, new, channels, carrier);
    let full = sample_stream(new, channels, carrier.len() as int);
    assert(full == carrier);
    let header = sample_stream(new, channels, 24);
    assert(header =~= h) by {
        assert forall|x: int| 0 <= x < 24 implies header[x] == h[x] by {
            assert(header[x] == full[x]);
        }
    }
    lemma_be32_round_trip(stored.len() as u32);
    lemma_be32_round_trip(payload.len() as u32);
    lemma_be32_round_trip(checksum);
    let fl = flags_byte(compress);
    assert(fl & 0xfe == 0 && (fl & 1 != 0) == compress) by (bit_vector)
        requires
            fl == (if compress {
                1u8
            } else {
                0u8
            }),
    ;
    assert(full.subrange(24, 24 + stored.len() as int) =~= stored);
    assert(stored_region(new, channels, stored.len() as int) == stored);
    assert(header_stored_len(header) == stored.len() as u32);
    assert(new.len() == len);
    assert(decoded_payload(header, stored) == Ok::<Seq<u8>, LsbCarrierError>(payload));
}

// ---------------------------------------------------------------------------
// PNG carriers
// ---------------------------------------------------------------------------

pub open spec fn png_signature() -> Seq<u8> {
    seq![0x89u8, 0x50u8, 0x4eu8, 0x47u8, 0x0du8, 0x0au8, 0x1au8, 0x0au8]
}

pub open spec fn ihdr_tag() -> Seq<u8> {
    seq![0x49u8, 0x48u8, 0x44u8, 0x52u8]
}

/// A file that starts with the PNG signature and a 13-byte IHDR chunk.
pub open spec fn has_canonical_png_header(png: Seq<u8>) -> bool {
    &&& png.len() >= 24
    &&& png.subrange(0, 8) == png_signature()
    &&& png.subrange(12, 16) == ihdr_tag()
    &&& from_be32(png.subrange(8, 12)) == 13
}

fn bytes_match(data: &[u8], at: usize, expected: &[u8]) -> (same: bool)
    requires
        at + expected.len() <= data.len(),
    ensures
        same == (data@.subrange(at as int, at + expected@.len()) == expected@),
{
    let mut x: usize = 0;
    while x < expected.len()
        invariant
            at + expected.len() <= data.len(),
            x <= expected@.len(),
            forall|y: int| 0 <= y < x ==> data@[at + y] == expected@[y],
        decreases expected@.len() - x,
    {
        if data[at + x] != expected[x] {
            assert(data@.subrange(at as int, at + expected@.len())[x as int] != expected@[x as int]);
            return false;
        }
        x += 1;
    }
    assert(data@.subrange(at as int, at + expected@.len()) =~= expected@);
    true
}

fn slice_be32(data: &[u8], at: usize) -> (x: u32)
    requires
        at + 4 <= data.len(),
    ensures
        x == from_be32(data@.subrange(at as int, at + 4)),
{
    let b0 = data[at] as u32;
    let b1 = data[at + 1] as u32;
    let b2 = data[at + 2] as u32;
    let b3 = data[at + 3] as u32;
    assert(data@.subrange(at as int, at + 4)[0] == data@[at as int]);
    assert(data@.subrange(at as int, at + 4)[1] == data@[at + 1]);
    assert(data@.subrange(at as int, at + 4)[2] == data@[at + 2]);
    assert(data@.subrange(at as int, at + 4)[3] == data@[at + 3]);
    (b0 << 24u32) | (b1 << 16u32) | (b2 << 8u32) | b3
}

/// Reads width and height from the IHDR chunk without decoding the image.
pub fn png_dimensions(png: &[u8]) -> (result: Result<(u32, u32), LsbCarrierError>)
    ensures
        has_canonical_png_header(png@) ==> result == Ok::<(u32, u32), LsbCarrierError>(
            (from_be32(png@.subrange(16, 20)), from_be32(png@.subrange(20, 24))),
        ),
        !has_canonical_png_header(png@) ==> result matches Err(LsbCarrierError::InvalidImage(_)),
{
    let signature: [u8; 8] = [0x89, 0x50, 0x4e, 0x47, 0x0d, 0x0a, 0x1a, 0x0a];
    let ihdr: [u8; 4] = [0x49, 0x48, 0x44, 0x52];
    assert(signature@ =~= png_signature());
    assert(ihdr@ =~= ihdr_tag());
    if png.len() < 24 || !bytes_match(png, 0, signature.as_slice()) || !bytes_match(
        png,
        12,
        ihdr.as_slice(),
    ) || slice_be32(png, 8) != 13 {
        return Err(
            LsbCarrierError::InvalidImage(
                String::from_str("missing canonical PNG signature and IHDR"),
            ),
        );
    }
    Ok((slice_be32(png, 16), slice_be32(png, 20)))
}

/// Whether a PNG of this size is accepted before decoding.
pub open spec fn png_within_limits(png: Seq<u8>) -> bool {
    let width = from_be32(png.subrange(16, 20)) as int;
    let height = from_be32(png.subrange(20, 24)) as int;
    &&& png.len() <= MAX_LSB_PNG_BYTES
    &&& has_canonical_png_header(png)
    &&& width != 0
    &&& height != 0
    &&& width * height <= MAX_LSB_IMAGE_PIXELS
}

/// What `decode_bounded_png` returns: the decoded RGBA image, or the error.
pub open spec fn bounded_png_outcome(png: Seq<u8>) -> Result<(u32, u32, Seq<u8>), LsbCarrierError> {
    if png.len() > MAX_LSB_PNG_BYTES {
        Err(LsbCarrierError::ImageTooLarge)
    } else if !has_canonical_png_header(png) {
        Err(LsbCarrierError::InvalidImage(arbitrary()))
    } else if !png_within_limits(png) {
        Err(LsbCarrierError::ImageTooLarge)
    } else {
        match png_rgba(png) {
            Some(image) => Ok(image),
            None => Err(LsbCarrierError::InvalidImage(arbitrary())),
        }
    }
}

fn decode_bounded_png(png: &[u8]) -> (result: Result<(u32, u32, Vec<u8>), LsbCarrierError>)
    ensures
        match (result, bounded_png_outcome(png@)) {
            (Ok((w, h, px)), Ok((w2, h2, px2))) => w == w2 && h == h2 && px@ == px2,
            (Err(LsbCarrierError::InvalidImage(_)), Err(LsbCarrierError::InvalidImage(_))) => true,
            (Err(a), Err(b)) => a == b,
            _ => false,
        },
{
    if png.len() > MAX_LSB_PNG_BYTES {
        return Err(LsbCarrierError::ImageTooLarge);
    }
    let (width, height) = match png_dimensions(png) {
        Ok(size) => size,
        Err(error) => return Err(error),
    };
    assert((width as u64) * (height as u64) <= u64::MAX) by (nonlinear_arith)
        requires
            width <= u32::MAX,
            height <= u32::MAX,
    ;
    if width == 0 || height == 0 || (width as u64) * (height as u64) > MAX_LSB_IMAGE_PIXELS {
        return Err(LsbCarrierError::ImageTooLarge);
    }
    match decode_png_rgba(png) {
        Ok(image) => Ok(image),
        Err(message) => Err(LsbCarrierError::InvalidImage(message)),
    }
}

/// The samples `old` becomes once all of `bytes` is written into its colour
/// samples.
pub open spec fn written_pixels(old: Seq<u8>, channels: u8, bytes: Seq<u8>) -> Seq<u8> {
    Seq::new(old.len(), |i: int| written_sample(old, channels, bytes, (bytes.len() * 8) as int, i))
}

/// The samples a carrier ends with are fixed by the samples it started with.
proof fn lemma_carries_written(old: Seq<u8>, new: Seq<u8>, channels: u8, bytes: Seq<u8>)
    requires
        carries(old, new, channels, bytes),
    ensures
        new == written_pixels(old, channels, bytes),
{
    assert(new =~= written_pixels(old, channels, bytes));
}

/// Two errors that agree, except for the free text of codec messages.
pub open spec fn same_error(a: LsbCarrierError, b: LsbCarrierError) -> bool {
    same_outcome::<()>(Err(a), Err(b))
}

/// What embedding into a PNG gives: the decoded image must be within the
/// limits, the payload must fit its samples, and the samples that carry it
/// are encoded again as an RGBA PNG.
pub open spec fn png_embed_outcome(
    png: Seq<u8>,
    payload_type: LsbPayloadType,
    payload: Seq<u8>,
    compress: bool,
) -> Result<Seq<u8>, LsbCarrierError> {
    match bounded_png_outcome(png) {
        Err(error) => Err(error),
        Ok((width, height, samples)) => match embed_outcome(samples.len() as int, 4, payload_type, payload, compress) {
            Err(error) => Err(error),
            Ok(_) => match png_encoding(
                width,
                height,
                written_pixels(
                    samples,
                    4,
                    carrier_bytes(
                        payload_type,
                        compress,
                        stored_for(payload, compress)->Some_0,
                        payload.len() as u32,
                        crc32_of(payload),
                    ),
                ),
            ) {
                Some(encoded) => Ok(encoded),
                None => Err(LsbCarrierError::InvalidImage(arbitrary())),
            },
        },
    }
}

/// Embeds a payload into the pixels of a PNG and re-encodes it losslessly as
/// an RGBA PNG. Container metadata and bytes after the image are dropped.
pub fn embed_lsb_png(
    png: &[u8],
    payload_type: LsbPayloadType,
    payload: &[u8],
    compress: bool,
) -> (result: Result<Vec<u8>, LsbCarrierError>)
    ensures
        match png_embed_outcome(png@, payload_type, payload@, compress) {
            Ok(encoded) => result matches Ok(out) && out@ == encoded,
            Err(expected) => result matches Err(error) && same_error(error, expected),
        },
{
    let (width, height, mut rgba) = match decode_bounded_png(png) {
        Ok(image) => image,
        Err(error) => return Err(error),
    };
    let ghost before = rgba@;
    match embed_lsb_carrier(rgba.as_mut_slice(), 4, payload_type, payload, compress) {
        Ok(_) => {},
        Err(error) => return Err(error),
    }
    let ghost carried = rgba@;
    proof {
        lemma_carries_written(
            before,
            carried,
            4,
            carrier_bytes(
                payload_type,
                compress,
                stored_for(payload@, compress)->Some_0,
                payload@.len() as u32,
                crc32_of(payload@),
            ),
        );
    }
    match encode_png_rgba(width, height, rgba) {
        Ok(encoded) => Ok(encoded),
        Err(message) => Err(LsbCarrierError::InvalidImage(message)),
    }
}

/// Decodes a PNG and extracts the carrier from its RGBA pixels.
pub fn extract_lsb_png(png: &[u8]) -> (result: Result<LsbPayload, LsbCarrierError>)
    ensures
        bounded_png_outcome(png@) matches Err(expected) ==> (result matches Err(error) && same_error(
            error,
            expected,
        )),
        bounded_png_outcome(png@) is Ok ==> extraction_matches(
            result,
            extract_outcome(bounded_png_outcome(png@)->Ok_0.2, 4),
            extracted_bytes(bounded_png_outcome(png@)->Ok_0.2, 4),
        ),
{
    let (_width, _height, rgba) = match decode_bounded_png(png) {
        Ok(image) => image,
        Err(error) => return Err(error),
    };
    extract_lsb_carrier(rgba.as_slice(), 4)
}

} // verus!
