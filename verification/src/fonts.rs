//! Font import: accepting TrueType and OpenType files as they are and
//! decoding WOFF and WOFF2 files into them, within the import limit.

use vstd::prelude::*;

use crate::lsb::from_be32;

verus! {

pub const MAX_IMPORTED_FONT_BYTES: usize = 64 * 1024 * 1024;

/// What `wuff::decompress_woff1` gives, or `None` when it fails.
pub uninterp spec fn woff1_decoded(data: Seq<u8>) -> Option<Seq<u8>>;

/// What `wuff::decompress_woff2` gives, or `None` when it fails.
pub uninterp spec fn woff2_decoded(data: Seq<u8>) -> Option<Seq<u8>>;

/// Calls `wuff::decompress_woff1`. Trusted: the bytes, or the failure, are
/// the named `woff1_decoded` of the input.
#[verifier::external_body]
fn decompress_woff1(data: &[u8]) -> (decoded: Option<Vec<u8>>)
    ensures
        match woff1_decoded(data@) {
            Some(bytes) => decoded matches Some(v) && v@ == bytes,
            None => decoded is None,
        },
{
    wuff::decompress_woff1(data).ok()
}

/// Calls `wuff::decompress_woff2`. Trusted: the bytes, or the failure, are
/// the named `woff2_decoded` of the input.
#[verifier::external_body]
fn decompress_woff2(data: &[u8]) -> (decoded: Option<Vec<u8>>)
    ensures
        match woff2_decoded(data@) {
            Some(bytes) => decoded matches Some(v) && v@ == bytes,
            None => decoded is None,
        },
{
    wuff::decompress_woff2(data).ok()
}

pub open spec fn sfnt_tag() -> Seq<u8> {
    seq![0x00u8, 0x01u8, 0x00u8, 0x00u8]
}

pub open spec fn otto_tag() -> Seq<u8> {
    seq![0x4Fu8, 0x54u8, 0x54u8, 0x4Fu8]
}

pub open spec fn woff1_tag() -> Seq<u8> {
    seq![0x77u8, 0x4Fu8, 0x46u8, 0x46u8]
}

pub open spec fn woff2_tag() -> Seq<u8> {
    seq![0x77u8, 0x4Fu8, 0x46u8, 0x32u8]
}

/// Starts as a TrueType or OpenType font does.
pub open spec fn is_opentype(bytes: Seq<u8>) -> bool {
    bytes.len() >= 4 && (bytes.subrange(0, 4) == sfnt_tag() || bytes.subrange(0, 4) == otto_tag())
}

/// What checking a WOFF header reports: the header is complete, its
/// declared length is the file's, and its decoded size is within range.
pub open spec fn web_font_header_problem(bytes: Seq<u8>) -> Option<Seq<char>> {
    let minimum = if bytes.subrange(0, 4) == woff2_tag() {
        48int
    } else {
        44int
    };
    if bytes.len() < minimum {
        Some("The WOFF header is incomplete."@)
    } else if from_be32(bytes.subrange(8, 12)) != bytes.len() {
        Some("The WOFF file length does not match its header."@)
    } else if !(12 <= from_be32(bytes.subrange(16, 20)) <= MAX_IMPORTED_FONT_BYTES) {
        Some("The decoded WOFF size is outside the supported range."@)
    } else {
        None
    }
}

/// What importing font bytes gives: the font itself, or its decoding.
pub open spec fn font_outcome(bytes: Seq<u8>) -> Result<Seq<u8>, Seq<char>> {
    if bytes.len() < 12 {
        Err("The font file is too short."@)
    } else if bytes.len() > MAX_IMPORTED_FONT_BYTES {
        Err("The font file exceeds the 64 MiB import limit."@)
    } else {
        let signature = bytes.subrange(0, 4);
        let normalized = if signature == sfnt_tag() || signature == otto_tag() {
            Ok(bytes)
        } else if signature == woff1_tag() || signature == woff2_tag() {
            match web_font_header_problem(bytes) {
                Some(message) => Err(message),
                None => match (if signature == woff1_tag() {
                    woff1_decoded(bytes)
                } else {
                    woff2_decoded(bytes)
                }) {
                    Some(decoded) => Ok(decoded),
                    None => Err("The WOFF font could not be decoded."@),
                },
            }
        } else {
            Err("Unsupported font format. Choose a TTF, OTF, WOFF, or WOFF2 file."@)
        };
        match normalized {
            Err(message) => Err(message),
            Ok(font) => if font.len() < 12 {
                Err("The decoded font is too short."@)
            } else if font.len() > MAX_IMPORTED_FONT_BYTES {
                Err("The decoded font exceeds the 64 MiB import limit."@)
            } else if !is_opentype(font) {
                Err("The decoded file is not a supported OpenType font."@)
            } else {
                Ok(font)
            },
        }
    }
}

fn prefix_is(bytes: &[u8], tag: &[u8]) -> (same: bool)
    requires
        bytes@.len() >= 4,
        tag@.len() == 4,
    ensures
        same == (bytes@.subrange(0, 4) == tag@),
{
    let same = bytes[0] == tag[0] && bytes[1] == tag[1] && bytes[2] == tag[2] && bytes[3] == tag[3];
    assert(same == (bytes@.subrange(0, 4) == tag@)) by {
        if same {
            assert(bytes@.subrange(0, 4) =~= tag@);
        } else if bytes@[0] != tag@[0] {
            assert(bytes@.subrange(0, 4)[0] != tag@[0]);
        } else if bytes@[1] != tag@[1] {
            assert(bytes@.subrange(0, 4)[1] != tag@[1]);
        } else if bytes@[2] != tag@[2] {
            assert(bytes@.subrange(0, 4)[2] != tag@[2]);
        } else {
            assert(bytes@.subrange(0, 4)[3] != tag@[3]);
        }
    }
    same
}

fn be32_at(b: &[u8], at: usize) -> (x: u32)
    requires
        at + 4 <= b@.len(),
    ensures
        x == from_be32(b@.subrange(at as int, at + 4)),
{
    let b0 = b[at] as u32;
    let b1 = b[at + 1] as u32;
    let b2 = b[at + 2] as u32;
    let b3 = b[at + 3] as u32;
    let x = (b0 << 24u32) | (b1 << 16u32) | (b2 << 8u32) | b3;
    assert(b@.subrange(at as int, at + 4)[0] == b@[at as int]);
    assert(b@.subrange(at as int, at + 4)[1] == b@[at + 1]);
    assert(b@.subrange(at as int, at + 4)[2] == b@[at + 2]);
    assert(b@.subrange(at as int, at + 4)[3] == b@[at + 3]);
    x
}

/// Checks a WOFF or WOFF2 header against the file.
pub fn validate_web_font_header(font_bytes: &[u8]) -> (result: Result<(), String>)
    requires
        font_bytes@.len() >= 4,
    ensures
        match web_font_header_problem(font_bytes@) {
            None => result is Ok,
            Some(message) => result matches Err(m) && m@ == message,
        },
{
    let woff2: [u8; 4] = [0x77u8, 0x4Fu8, 0x46u8, 0x32u8];
    assert(woff2@ =~= woff2_tag());
    let minimum: usize = if prefix_is(font_bytes, &woff2) {
        48
    } else {
        44
    };
    if font_bytes.len() < minimum {
        return Err(String::from_str("The WOFF header is incomplete."));
    }
    let declared = be32_at(font_bytes, 8) as usize;
    if declared != font_bytes.len() {
        return Err(String::from_str("The WOFF file length does not match its header."));
    }
    let decoded = be32_at(font_bytes, 16) as usize;
    if !(12 <= decoded && decoded <= MAX_IMPORTED_FONT_BYTES) {
        return Err(String::from_str("The decoded WOFF size is outside the supported range."));
    }
    Ok(())
}

/// The font to import: TrueType and OpenType bytes as they are, WOFF and
/// WOFF2 decoded; the result must itself be an OpenType font within the
/// import limit.
pub fn normalize_font_bytes_inner(font_bytes: &[u8]) -> (result: Result<Vec<u8>, String>)
    ensures
        match font_outcome(font_bytes@) {
            Ok(font) => result matches Ok(v) && v@ == font,
            Err(message) => result matches Err(m) && m@ == message,
        },
{
    if font_bytes.len() < 12 {
        return Err(String::from_str("The font file is too short."));
    }
    if font_bytes.len() > MAX_IMPORTED_FONT_BYTES {
        return Err(String::from_str("The font file exceeds the 64 MiB import limit."));
    }
    let sfnt: [u8; 4] = [0x00u8, 0x01u8, 0x00u8, 0x00u8];
    let otto: [u8; 4] = [0x4Fu8, 0x54u8, 0x54u8, 0x4Fu8];
    let woff1: [u8; 4] = [0x77u8, 0x4Fu8, 0x46u8, 0x46u8];
    let woff2: [u8; 4] = [0x77u8, 0x4Fu8, 0x46u8, 0x32u8];
    assert(sfnt@ =~= sfnt_tag());
    assert(otto@ =~= otto_tag());
    assert(woff1@ =~= woff1_tag());
    assert(woff2@ =~= woff2_tag());
    let normalized = if prefix_is(font_bytes, &sfnt) || prefix_is(font_bytes, &otto) {
        let mut copy: Vec<u8> = Vec::new();
        let mut k: usize = 0;
        while k < font_bytes.len()
            invariant
                k <= font_bytes@.len(),
                copy@ == font_bytes@.subrange(0, k as int),
            decreases font_bytes@.len() - k,
        {
            copy.push(font_bytes[k]);
            k += 1;
            assert(copy@ =~= font_bytes@.subrange(0, k as int));
        }
        assert(copy@ =~= font_bytes@);
        copy
    } else if prefix_is(font_bytes, &woff1) || prefix_is(font_bytes, &woff2) {
        match validate_web_font_header(font_bytes) {
            Err(message) => {
                return Err(message);
            },
            Ok(()) => {},
        }
        let decoded = if prefix_is(font_bytes, &woff1) {
            decompress_woff1(font_bytes)
        } else {
            decompress_woff2(font_bytes)
        };
        match decoded {
            Some(bytes) => bytes,
            None => {
                return Err(String::from_str("The WOFF font could not be decoded."));
            },
        }
    } else {
        return Err(String::from_str("Unsupported font format. Choose a TTF, OTF, WOFF, or WOFF2 file."));
    };
    if normalized.len() < 12 {
        return Err(String::from_str("The decoded font is too short."));
    }
    if normalized.len() > MAX_IMPORTED_FONT_BYTES {
        return Err(String::from_str("The decoded font exceeds the 64 MiB import limit."));
    }
    if !(prefix_is(normalized.as_slice(), &sfnt) || prefix_is(normalized.as_slice(), &otto)) {
        return Err(String::from_str("The decoded file is not a supported OpenType font."));
    }
    Ok(normalized)
}

} // verus!
