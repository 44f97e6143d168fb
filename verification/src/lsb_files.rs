//! The file-facing side of LSB image carriers and of the character and MOC
//! file requests: request shapes, and the checks made before any file is
//! read or written.

use vstd::prelude::*;

use crate::api::{RuntimeApiError, RuntimeApiErrorKind};
use crate::character_compat::{ExternalCharacterExportFormat, ExternalCharacterImportFormat};
use crate::lsb::LsbPayloadType;
use crate::paths::{extension_of, path_extension};
use crate::portable::{HostMocModule, MocExportPlan, MocProtection};
use crate::text::{debug_quoted, debug_quoted_text, decimal_text, format_decimal, push_str, str_eq, string_of};

verus! {

/// Lossless image containers a carrier can be written in.
#[derive(Debug, Clone, Copy, PartialEq, Eq, Structural)]
pub enum LsbImageFormat {
    Png,
    WebpLossless,
}

pub open spec fn format_debug(format: LsbImageFormat) -> Seq<char> {
    match format {
        LsbImageFormat::Png => "Png"@,
        LsbImageFormat::WebpLossless => "WebpLossless"@,
    }
}

pub open spec fn payload_debug(payload: LsbPayloadType) -> Seq<char> {
    match payload {
        LsbPayloadType::CharacterData => "CharacterData"@,
        LsbPayloadType::Moc => "Moc"@,
        LsbPayloadType::Charx => "Charx"@,
    }
}

fn format_name(format: LsbImageFormat) -> (name: &'static str)
    ensures
        name@ == format_debug(format),
{
    match format {
        LsbImageFormat::Png => "Png",
        LsbImageFormat::WebpLossless => "WebpLossless",
    }
}

fn payload_name(payload: LsbPayloadType) -> (name: &'static str)
    ensures
        name@ == payload_debug(payload),
{
    match payload {
        LsbPayloadType::CharacterData => "CharacterData",
        LsbPayloadType::Moc => "Moc",
        LsbPayloadType::Charx => "Charx",
    }
}

/// `to_ascii_lowercase`: ASCII capitals lowered, everything else kept.
pub open spec fn ascii_lower(s: Seq<char>) -> Seq<char> {
    s.map_values(|c: char| if 'A' <= c && c <= 'Z' {
        ((c as u32) + 32) as char
    } else {
        c
    })
}

/// The lowered extension of a path, empty where it has none.
pub open spec fn lowered_extension(path: Seq<char>) -> Seq<char> {
    match path_extension(path) {
        Some(e) => ascii_lower(e),
        None => Seq::empty(),
    }
}

pub open spec fn expected_extension(format: LsbImageFormat) -> Seq<char> {
    match format {
        LsbImageFormat::Png => "png"@,
        LsbImageFormat::WebpLossless => "webp"@,
    }
}

fn lower_ascii(v: &Vec<char>) -> (lowered: String)
    ensures
        lowered@ == ascii_lower(v@),
{
    let mut out = String::new();
    let mut i: usize = 0;
    while i < v.len()
        invariant
            i <= v@.len(),
            out@ == ascii_lower(v@.take(i as int)),
        decreases v@.len() - i,
    {
        let c = v[i];
        let d = if 'A' <= c && c <= 'Z' {
            ((c as u8) + 32) as char
        } else {
            c
        };
        crate::text::push_char(&mut out, d);
        assert(ascii_lower(v@.take(i + 1)) =~= ascii_lower(v@.take(i as int)).push(d));
        i += 1;
    }
    assert(v@.take(v@.len() as int) =~= v@);
    out
}

/// A carrier file must carry its format's extension (ASCII case aside).
pub fn validate_image_extension(path: &str, format: LsbImageFormat) -> (result: Result<(), RuntimeApiError>)
    ensures
        lowered_extension(path@) == expected_extension(format) ==> result is Ok,
        lowered_extension(path@) != expected_extension(format) ==> (result matches Err(e) && e.kind
            == RuntimeApiErrorKind::InvalidRequest && e.message@ == "image extension "@ + debug_quoted_text(
            lowered_extension(path@),
        ) + " does not match declared format "@ + format_debug(format)),
{
    let extension = match extension_of(path) {
        Some(e) => lower_ascii(&e),
        None => String::new(),
    };
    let valid = match format {
        LsbImageFormat::Png => str_eq(extension.as_str(), "png"),
        LsbImageFormat::WebpLossless => str_eq(extension.as_str(), "webp"),
    };
    if valid {
        Ok(())
    } else {
        let mut message = String::from_str("image extension ");
        push_str(&mut message, debug_quoted(extension.as_str()).as_str());
        push_str(&mut message, " does not match declared format ");
        push_str(&mut message, format_name(format));
        Err(RuntimeApiError::invalid(message.as_str()))
    }
}

/// An extracted payload must be of the type the request expects.
pub fn check_payload_type(expected: LsbPayloadType, found: LsbPayloadType) -> (result: Result<(), RuntimeApiError>)
    ensures
        expected == found ==> result is Ok,
        expected != found ==> (result matches Err(e) && e.kind == RuntimeApiErrorKind::InvalidRequest
            && e.message@ == "LSB payload type mismatch: expected "@ + payload_debug(expected) + ", found "@
            + payload_debug(found)),
{
    if expected == found {
        Ok(())
    } else {
        let mut message = String::from_str("LSB payload type mismatch: expected ");
        push_str(&mut message, payload_name(expected));
        push_str(&mut message, ", found ");
        push_str(&mut message, payload_name(found));
        Err(RuntimeApiError::invalid(message.as_str()))
    }
}

/// What is known of an input file before it is read.
#[derive(Debug, Clone, Copy, PartialEq, Eq)]
pub struct InputFileFacts {
    pub regular_file: bool,
    pub symbolic_link: bool,
    pub length: u64,
}

/// An input file may be read when it is a regular file (not a link) of 1
/// to `max_bytes` bytes.
pub fn check_input_file(facts: InputFileFacts, max_bytes: u64) -> (result: Result<(), RuntimeApiError>)
    ensures
        (!facts.regular_file || facts.symbolic_link) ==> (result matches Err(e) && e.kind
            == RuntimeApiErrorKind::InvalidRequest && e.message@ == "input must be a regular file"@),
        (facts.regular_file && !facts.symbolic_link && !(1 <= facts.length <= max_bytes)) ==> (
        result matches Err(e) && e.kind == RuntimeApiErrorKind::InvalidRequest && e.message@
            == "input size must be between 1 and "@ + decimal_text(max_bytes as nat) + " bytes"@),
        (facts.regular_file && !facts.symbolic_link && 1 <= facts.length <= max_bytes) ==> result is Ok,
{
    if !facts.regular_file || facts.symbolic_link {
        return Err(RuntimeApiError::invalid("input must be a regular file"));
    }
    if facts.length == 0 || facts.length > max_bytes {
        let mut message = String::from_str("input size must be between 1 and ");
        push_str(&mut message, format_decimal(max_bytes).as_str());
        push_str(&mut message, " bytes");
        return Err(RuntimeApiError::invalid(message.as_str()));
    }
    Ok(())
}

#[derive(Debug, Clone)]
pub struct ExtractLsbImageRequest {
    pub input_path: String,
    pub output_path: String,
    pub format: LsbImageFormat,
    pub expected_payload_type: LsbPayloadType,
}

#[derive(Debug, Clone)]
pub struct LsbFileReport {
    pub output_path: String,
    pub format: LsbImageFormat,
    pub payload_type: LsbPayloadType,
    pub bytes: usize,
    pub source_format: Option<ExternalCharacterImportFormat>,
}

/// Where an embed request takes its carrier image from, besides a file.
#[derive(Debug, Clone)]
pub enum LsbCarrierSource {
    PreservedCharacterSource { owner_space_id: String, character_id: String },
}

/// What an embed request hides in the carrier.
#[derive(Debug, Clone)]
pub enum LsbExportPayload {
    MomoCharacter { owner_space_id: String, character_id: String },
    Moc { input_path: String },
    Charx { input_path: String },
    PreservedCharacterSource { owner_space_id: String, character_id: String },
}

#[derive(Debug, Clone)]
pub struct EmbedLsbImageRequest {
    pub carrier_path: Option<String>,
    pub carrier: Option<LsbCarrierSource>,
    pub output_path: String,
    pub format: LsbImageFormat,
    pub payload: LsbExportPayload,
    pub compress: bool,
}

/// The carrier an embed request settled on.
#[derive(Debug, Clone)]
pub enum LsbCarrierPlan {
    File { path: String },
    PreservedCharacterSource { owner_space_id: String, character_id: String },
}

pub open spec fn extension_ok(path: Seq<char>, format: LsbImageFormat) -> bool {
    lowered_extension(path) == expected_extension(format)
}

pub open spec fn extension_error(path: Seq<char>, format: LsbImageFormat) -> Seq<char> {
    "image extension "@ + debug_quoted_text(lowered_extension(path)) + " does not match declared format "@
        + format_debug(format)
}

/// The carrier of an embed request: the output path must carry the format's
/// extension, and exactly one of a carrier file (with that extension too)
/// and a preserved character source must be named.
pub fn plan_lsb_carrier(request: &EmbedLsbImageRequest) -> (result: Result<LsbCarrierPlan, RuntimeApiError>)
    ensures
        !extension_ok(request.output_path@, request.format) ==> (result matches Err(e) && e.kind
            == RuntimeApiErrorKind::InvalidRequest && e.message@ == extension_error(
            request.output_path@,
            request.format,
        )),
        extension_ok(request.output_path@, request.format) ==> match (request.carrier_path, request.carrier) {
            (Some(path), None) => if extension_ok(path@, request.format) {
                result matches Ok(LsbCarrierPlan::File { path: p }) && p@ == path@
            } else {
                result matches Err(e) && e.kind == RuntimeApiErrorKind::InvalidRequest && e.message@
                    == extension_error(path@, request.format)
            },
            (None, Some(LsbCarrierSource::PreservedCharacterSource { owner_space_id, character_id })) =>
                result matches Ok(LsbCarrierPlan::PreservedCharacterSource { owner_space_id: o, character_id: c })
                && o@ == owner_space_id@ && c@ == character_id@,
            _ => result matches Err(e) && e.kind == RuntimeApiErrorKind::InvalidRequest && e.message@
                == "exactly one of carrier_path or carrier must be provided"@,
        },
{
    validate_image_extension(request.output_path.as_str(), request.format)?;
    match (&request.carrier_path, &request.carrier) {
        (Some(path), None) => {
            validate_image_extension(path.as_str(), request.format)?;
            Ok(LsbCarrierPlan::File { path: path.clone() })
        },
        (None, Some(LsbCarrierSource::PreservedCharacterSource { owner_space_id, character_id })) => {
            Ok(LsbCarrierPlan::PreservedCharacterSource {
                owner_space_id: owner_space_id.clone(),
                character_id: character_id.clone(),
            })
        },
        _ => Err(RuntimeApiError::invalid("exactly one of carrier_path or carrier must be provided")),
    }
}

pub open spec fn is_png_import(format: ExternalCharacterImportFormat) -> bool {
    ||| format == ExternalCharacterImportFormat::Ccv1Png
    ||| format == ExternalCharacterImportFormat::Ccv2Png
    ||| format == ExternalCharacterImportFormat::Ccv3Png
}

/// A preserved source may carry a payload only where it was imported as a
/// PNG card and the output is a PNG too.
pub fn check_preserved_carrier(
    source_format: ExternalCharacterImportFormat,
    format: LsbImageFormat,
) -> (result: Result<(), RuntimeApiError>)
    ensures
        is_png_import(source_format) && format == LsbImageFormat::Png ==> result is Ok,
        !(is_png_import(source_format) && format == LsbImageFormat::Png) ==> (result matches Err(e)
            && e.kind == RuntimeApiErrorKind::InvalidRequest && e.message@
            == "a preserved LSB carrier must be an imported PNG and use format png"@),
{
    let png_source = match source_format {
        ExternalCharacterImportFormat::Ccv1Png
        | ExternalCharacterImportFormat::Ccv2Png
        | ExternalCharacterImportFormat::Ccv3Png => true,
        _ => false,
    };
    let png_output = match format {
        LsbImageFormat::Png => true,
        LsbImageFormat::WebpLossless => false,
    };
    if png_source && png_output {
        Ok(())
    } else {
        Err(RuntimeApiError::invalid("a preserved LSB carrier must be an imported PNG and use format png"))
    }
}

#[derive(Debug, Clone)]
pub struct ImportExternalCharacterRequest {
    pub scope_id: String,
    pub input_path: String,
    pub format: ExternalCharacterImportFormat,
}

#[derive(Debug, Clone)]
pub struct ExportExternalCharacterRequest {
    pub scope_id: String,
    pub character_id: String,
    pub output_path: String,
    pub format: ExternalCharacterExportFormat,
}

#[derive(Debug, Clone)]
pub struct ExportPreservedCharacterSourceRequest {
    pub scope_id: String,
    pub character_id: String,
    pub output_path: String,
}

#[derive(Debug, Clone)]
pub struct ExportMocRequest {
    pub output_path: String,
    pub plan: MocExportPlan,
    pub protection: MocProtection,
    pub host_modules: Vec<HostMocModule>,
}

} // verus!
