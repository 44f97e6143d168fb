//! External character cards (CCv1, CCv2, CCv3 as JSON, PNG or CHARX):
//! recognising the format, reading the card out of a PNG, validating the
//! card and rendering its text as MOMO character markdown.

use base64::Engine;
use vstd::prelude::*;

use crate::json::{
    json_field, member, member_lookup, parse_json, parsed_json, text_field, text_member, JsonMember,
    JsonValue,
};
use crate::text::{
    all_ws, char_count, debug_quoted, debug_quoted_text, decimal_text, format_decimal, lemma_occurs_between,
    occurs_in, push_str, str_eq, trim, trimmed,
};

verus! {

pub const MAX_JSON_BYTES: u64 = 10 * 1024 * 1024;

pub const MAX_IMAGE_BYTES: u64 = 64 * 1024 * 1024;

pub const MAX_CHARX_BYTES: u64 = 256 * 1024 * 1024;

pub const MAX_CHARX_ENTRY_BYTES: u64 = 50 * 1024 * 1024;

pub const MAX_CHARX_EXPANDED_BYTES: u64 = 200 * 1024 * 1024;

pub const MAX_CHARX_ENTRIES: usize = 10_000;

/// Failures of character-card handling. Errors that an outside library
/// reports (I/O, JSON, storage, ZIP) arrive here as their message text.
#[derive(Debug, Clone, PartialEq, Eq)]
pub enum CharacterCompatError {
    Io(String),
    Json(String),
    Storage(String),
    Zip(String),
    Invalid(String),
}

#[derive(Debug, Clone, Copy, PartialEq, Eq, Structural)]
pub enum ExternalCharacterImportFormat {
    Ccv1Json,
    Ccv1Png,
    Ccv2Json,
    Ccv2Png,
    Ccv3Json,
    Ccv3Png,
    Ccv3Charx,
}

pub open spec fn format_major(format: ExternalCharacterImportFormat) -> u8 {
    match format {
        ExternalCharacterImportFormat::Ccv1Json | ExternalCharacterImportFormat::Ccv1Png
        | ExternalCharacterImportFormat::Ccv2Json | ExternalCharacterImportFormat::Ccv2Png => 2,
        _ => 3,
    }
}

impl ExternalCharacterImportFormat {
    /// The card major version a format is read as: 2 for CCv1 and CCv2,
    /// 3 for CCv3.
    pub fn major(self) -> (major: u8)
        ensures
            major == format_major(self),
    {
        match self {
            ExternalCharacterImportFormat::Ccv1Json | ExternalCharacterImportFormat::Ccv1Png
            | ExternalCharacterImportFormat::Ccv2Json | ExternalCharacterImportFormat::Ccv2Png => 2,
            ExternalCharacterImportFormat::Ccv3Json | ExternalCharacterImportFormat::Ccv3Png
            | ExternalCharacterImportFormat::Ccv3Charx => 3,
        }
    }
}

pub open spec fn source_file_name_of(format: ExternalCharacterImportFormat) -> Seq<char> {
    match format {
        ExternalCharacterImportFormat::Ccv1Json | ExternalCharacterImportFormat::Ccv2Json
        | ExternalCharacterImportFormat::Ccv3Json => "source.json"@,
        ExternalCharacterImportFormat::Ccv1Png | ExternalCharacterImportFormat::Ccv2Png
        | ExternalCharacterImportFormat::Ccv3Png => "source.png"@,
        ExternalCharacterImportFormat::Ccv3Charx => "source.charx"@,
    }
}

/// The file name a preserved source of this format is stored under.
pub fn source_file_name(format: ExternalCharacterImportFormat) -> (name: &'static str)
    ensures
        name@ == source_file_name_of(format),
{
    match format {
        ExternalCharacterImportFormat::Ccv1Json | ExternalCharacterImportFormat::Ccv2Json
        | ExternalCharacterImportFormat::Ccv3Json => "source.json",
        ExternalCharacterImportFormat::Ccv1Png | ExternalCharacterImportFormat::Ccv2Png
        | ExternalCharacterImportFormat::Ccv3Png => "source.png",
        ExternalCharacterImportFormat::Ccv3Charx => "source.charx",
    }
}

pub open spec fn source_format_text(format: ExternalCharacterImportFormat) -> Seq<char> {
    match format {
        ExternalCharacterImportFormat::Ccv1Json => "ccv1_json"@,
        ExternalCharacterImportFormat::Ccv1Png => "ccv1_png"@,
        ExternalCharacterImportFormat::Ccv2Json => "ccv2_json"@,
        ExternalCharacterImportFormat::Ccv2Png => "ccv2_png"@,
        ExternalCharacterImportFormat::Ccv3Json => "ccv3_json"@,
        ExternalCharacterImportFormat::Ccv3Png => "ccv3_png"@,
        ExternalCharacterImportFormat::Ccv3Charx => "ccv3_charx"@,
    }
}

/// The format's name as it is stored and reported.
pub fn source_format_name(format: ExternalCharacterImportFormat) -> (name: &'static str)
    ensures
        name@ == source_format_text(format),
{
    match format {
        ExternalCharacterImportFormat::Ccv1Json => "ccv1_json",
        ExternalCharacterImportFormat::Ccv1Png => "ccv1_png",
        ExternalCharacterImportFormat::Ccv2Json => "ccv2_json",
        ExternalCharacterImportFormat::Ccv2Png => "ccv2_png",
        ExternalCharacterImportFormat::Ccv3Json => "ccv3_json",
        ExternalCharacterImportFormat::Ccv3Png => "ccv3_png",
        ExternalCharacterImportFormat::Ccv3Charx => "ccv3_charx",
    }
}

#[derive(Debug, Clone, Copy, PartialEq, Eq, Structural)]
pub enum ExternalCharacterExportFormat {
    Ccv2Json,
    Ccv3Json,
    Ccv3Charx,
}

pub open spec fn unsupported_export_message(value: Seq<char>) -> Seq<char> {
    "unsupported export format "@ + debug_quoted_text(value)
        + "; expected ccv2_json, ccv3_json, or ccv3_charx"@
}

impl ExternalCharacterExportFormat {
    /// Reads an export format by its name.
    pub fn parse(value: &str) -> (result: Result<ExternalCharacterExportFormat, CharacterCompatError>)
        ensures
            value@ == "ccv2_json"@ ==> result == Ok::<ExternalCharacterExportFormat, CharacterCompatError>(
                ExternalCharacterExportFormat::Ccv2Json,
            ),
            value@ == "ccv3_json"@ ==> result == Ok::<ExternalCharacterExportFormat, CharacterCompatError>(
                ExternalCharacterExportFormat::Ccv3Json,
            ),
            value@ == "ccv3_charx"@ ==> result == Ok::<ExternalCharacterExportFormat, CharacterCompatError>(
                ExternalCharacterExportFormat::Ccv3Charx,
            ),
            value@ != "ccv2_json"@ && value@ != "ccv3_json"@ && value@ != "ccv3_charx"@ ==> (result matches Err(
                CharacterCompatError::Invalid(message),
            ) && message@ == unsupported_export_message(value@)),
    {
        proof {
            reveal_strlit("ccv2_json");
            reveal_strlit("ccv3_json");
            reveal_strlit("ccv3_charx");
            assert("ccv2_json"@[3] != "ccv3_json"@[3]);
            assert("ccv2_json"@.len() != "ccv3_charx"@.len());
            assert("ccv3_json"@.len() != "ccv3_charx"@.len());
        }
        if str_eq(value, "ccv2_json") {
            Ok(ExternalCharacterExportFormat::Ccv2Json)
        } else if str_eq(value, "ccv3_json") {
            Ok(ExternalCharacterExportFormat::Ccv3Json)
        } else if str_eq(value, "ccv3_charx") {
            Ok(ExternalCharacterExportFormat::Ccv3Charx)
        } else {
            let mut message = String::from_str("unsupported export format ");
            push_str(&mut message, debug_quoted(value).as_str());
            push_str(&mut message, "; expected ccv2_json, ccv3_json, or ccv3_charx");
            Err(CharacterCompatError::Invalid(message))
        }
    }
}

pub open spec fn size_message(label: Seq<char>, limit: u64) -> Seq<char> {
    label + " input size must be between 1 and "@ + decimal_text(limit as nat) + " bytes"@
}

/// Accepts a size of 1 to `limit` bytes.
pub fn ensure_size(actual: u64, limit: u64, label: &str) -> (result: Result<(), CharacterCompatError>)
    ensures
        1 <= actual <= limit ==> result is Ok,
        !(1 <= actual <= limit) ==> (result matches Err(CharacterCompatError::Invalid(message))
            && message@ == size_message(label@, limit)),
{
    if actual == 0 || actual > limit {
        let mut message = String::from_str(label);
        push_str(&mut message, " input size must be between 1 and ");
        push_str(&mut message, format_decimal(limit).as_str());
        push_str(&mut message, " bytes");
        return Err(CharacterCompatError::Invalid(message));
    }
    Ok(())
}

// ---------------------------------------------------------------------------
// Character markdown
// ---------------------------------------------------------------------------

/// A section appended to the markdown: nothing for a blank value, else a
/// blank line, the optional `## heading` and the trimmed value.
pub open spec fn markdown_section(heading: Option<Seq<char>>, value: Seq<char>) -> Seq<char> {
    if all_ws(value) {
        Seq::empty()
    } else {
        "\n\n"@ + match heading {
            Some(h) => "## "@ + h + "\n\n"@,
            None => Seq::empty(),
        } + trim(value)
    }
}

pub open spec fn character_markdown(
    name: Seq<char>,
    description: Seq<char>,
    personality: Seq<char>,
    scenario: Seq<char>,
    examples: Seq<char>,
) -> Seq<char> {
    "# "@ + name + markdown_section(None, description) + markdown_section(
        Some("Personality"@),
        personality,
    ) + markdown_section(Some("Scenario"@), scenario) + markdown_section(
        Some("Dialogue examples"@),
        examples,
    ) + "\n"@
}

/// The character markdown puts each field under its own heading:
/// - with every field filled, it is the title, the description, and the
///   personality, scenario and dialogue examples each under its `##`
///   heading, in that order;
/// - a filled personality, scenario or examples field shows as its own
///   heading followed by its own trimmed text;
/// - a blank field adds nothing: the markdown is the one with that field
///   empty;
/// - filling the examples adds their section at the end.
pub proof fn lemma_markdown_keeps_fields_under_their_headings(
    name: Seq<char>,
    description: Seq<char>,
    personality: Seq<char>,
    scenario: Seq<char>,
    examples: Seq<char>,
)
    ensures
        ({
            let md = character_markdown(name, description, personality, scenario, examples);
            &&& !all_ws(description) && !all_ws(personality) && !all_ws(scenario) && !all_ws(examples) ==> md
                == "# "@ + name + "\n\n"@ + trim(description) + "\n\n## Personality\n\n"@ + trim(personality)
                + "\n\n## Scenario\n\n"@ + trim(scenario) + "\n\n## Dialogue examples\n\n"@ + trim(examples)
                + "\n"@
            &&& !all_ws(personality) ==> occurs_in("## Personality\n\n"@ + trim(personality), md)
            &&& !all_ws(scenario) ==> occurs_in("## Scenario\n\n"@ + trim(scenario), md)
            &&& !all_ws(examples) ==> occurs_in("## Dialogue examples\n\n"@ + trim(examples), md)
            &&& all_ws(description) ==> md == character_markdown(name, Seq::empty(), personality, scenario, examples)
            &&& all_ws(personality) ==> md == character_markdown(name, description, Seq::empty(), scenario, examples)
            &&& all_ws(scenario) ==> md == character_markdown(name, description, personality, Seq::empty(), examples)
            &&& all_ws(examples) ==> md == character_markdown(name, description, personality, scenario, Seq::empty())
            &&& !all_ws(examples) ==> md == character_markdown(
                name,
                description,
                personality,
                scenario,
                Seq::empty(),
            ).drop_last() + "\n\n## Dialogue examples\n\n"@ + trim(examples) + "\n"@
        }),
{
    lemma_markdown_blank_fields(name, description, personality, scenario, examples);
    lemma_markdown_headed_fields(name, description, personality, scenario, examples);
    lemma_markdown_examples_last(name, description, personality, scenario, examples);
    lemma_markdown_all_fields(name, description, personality, scenario, examples);
}

proof fn lemma_markdown_blank_fields(
    name: Seq<char>,
    description: Seq<char>,
    personality: Seq<char>,
    scenario: Seq<char>,
    examples: Seq<char>,
)
    ensures
        ({
            let md = character_markdown(name, description, personality, scenario, examples);
            &&& all_ws(description) ==> md == character_markdown(name, Seq::empty(), personality, scenario, examples)
            &&& all_ws(personality) ==> md == character_markdown(name, description, Seq::empty(), scenario, examples)
            &&& all_ws(scenario) ==> md == character_markdown(name, description, personality, Seq::empty(), examples)
            &&& all_ws(examples) ==> md == character_markdown(name, description, personality, scenario, Seq::empty())
        }),
{
    let empty = Seq::<char>::empty();
    assert(all_ws(empty));
    assert(markdown_section(None, empty) == empty);
    assert(markdown_section(Some("Personality"@), empty) == empty);
    assert(markdown_section(Some("Scenario"@), empty) == empty);
    assert(markdown_section(Some("Dialogue examples"@), empty) == empty);
}

proof fn lemma_heading_text(heading: &str, value: Seq<char>)
    requires
        !all_ws(value),
    ensures
        markdown_section(Some(heading@), value) == "\n\n"@ + (("## "@ + heading@ + "\n\n"@) + trim(value)),
{
    assert(markdown_section(Some(heading@), value) =~= "\n\n"@ + (("## "@ + heading@ + "\n\n"@) + trim(value)));
}

proof fn lemma_markdown_headed_fields(
    name: Seq<char>,
    description: Seq<char>,
    personality: Seq<char>,
    scenario: Seq<char>,
    examples: Seq<char>,
)
    ensures
        ({
            let md = character_markdown(name, description, personality, scenario, examples);
            &&& !all_ws(personality) ==> occurs_in("## Personality\n\n"@ + trim(personality), md)
            &&& !all_ws(scenario) ==> occurs_in("## Scenario\n\n"@ + trim(scenario), md)
            &&& !all_ws(examples) ==> occurs_in("## Dialogue examples\n\n"@ + trim(examples), md)
        }),
{
    let title = "# "@ + name;
    let d = markdown_section(None, description);
    let p = markdown_section(Some("Personality"@), personality);
    let s = markdown_section(Some("Scenario"@), scenario);
    let e = markdown_section(Some("Dialogue examples"@), examples);
    let md = character_markdown(name, description, personality, scenario, examples);
    if !all_ws(personality) {
        lemma_heading_text("Personality", personality);
        assert("## "@ + "Personality"@ + "\n\n"@ == "## Personality\n\n"@) by {
            reveal_strlit("## ");
            reveal_strlit("Personality");
            reveal_strlit("\n\n");
            reveal_strlit("## Personality\n\n");
            assert("## "@ + "Personality"@ + "\n\n"@ =~= "## Personality\n\n"@);
        }
        let hp = "## Personality\n\n"@ + trim(personality);
        lemma_occurs_between(title + d + "\n\n"@, hp, s + e + "\n"@);
        assert(md =~= (title + d + "\n\n"@) + hp + (s + e + "\n"@));
    }
    if !all_ws(scenario) {
        lemma_heading_text("Scenario", scenario);
        assert("## "@ + "Scenario"@ + "\n\n"@ == "## Scenario\n\n"@) by {
            reveal_strlit("## ");
            reveal_strlit("Scenario");
            reveal_strlit("\n\n");
            reveal_strlit("## Scenario\n\n");
            assert("## "@ + "Scenario"@ + "\n\n"@ =~= "## Scenario\n\n"@);
        }
        let hs = "## Scenario\n\n"@ + trim(scenario);
        lemma_occurs_between(title + d + p + "\n\n"@, hs, e + "\n"@);
        assert(md =~= (title + d + p + "\n\n"@) + hs + (e + "\n"@));
    }
    if !all_ws(examples) {
        lemma_heading_text("Dialogue examples", examples);
        assert("## "@ + "Dialogue examples"@ + "\n\n"@ == "## Dialogue examples\n\n"@) by {
            reveal_strlit("## ");
            reveal_strlit("Dialogue examples");
            reveal_strlit("\n\n");
            reveal_strlit("## Dialogue examples\n\n");
            assert("## "@ + "Dialogue examples"@ + "\n\n"@ =~= "## Dialogue examples\n\n"@);
        }
        let he = "## Dialogue examples\n\n"@ + trim(examples);
        lemma_occurs_between(title + d + p + s + "\n\n"@, he, "\n"@);
        assert(md =~= (title + d + p + s + "\n\n"@) + he + "\n"@);
    }
}

proof fn lemma_markdown_examples_last(
    name: Seq<char>,
    description: Seq<char>,
    personality: Seq<char>,
    scenario: Seq<char>,
    examples: Seq<char>,
)
    ensures
        !all_ws(examples) ==> character_markdown(name, description, personality, scenario, examples)
            == character_markdown(name, description, personality, scenario, Seq::empty()).drop_last()
            + "\n\n## Dialogue examples\n\n"@ + trim(examples) + "\n"@,
{
    if !all_ws(examples) {
        let empty = Seq::<char>::empty();
        assert(all_ws(empty));
        let front = "# "@ + name + markdown_section(None, description) + markdown_section(Some("Personality"@), personality)
            + markdown_section(Some("Scenario"@), scenario);
        let without = character_markdown(name, description, personality, scenario, empty);
        assert(without =~= front + "\n"@);
        assert(without.drop_last() =~= front) by {
            reveal_strlit("\n");
        }
        lemma_heading_text("Dialogue examples", examples);
        assert("\n\n"@ + ("## "@ + "Dialogue examples"@ + "\n\n"@) =~= "\n\n## Dialogue examples\n\n"@) by {
            reveal_strlit("## ");
            reveal_strlit("Dialogue examples");
            reveal_strlit("\n\n");
            reveal_strlit("\n\n## Dialogue examples\n\n");
        }
        assert(character_markdown(name, description, personality, scenario, examples) =~= front
            + "\n\n## Dialogue examples\n\n"@ + trim(examples) + "\n"@);
    }
}

proof fn lemma_markdown_all_fields(
    name: Seq<char>,
    description: Seq<char>,
    personality: Seq<char>,
    scenario: Seq<char>,
    examples: Seq<char>,
)
    ensures
        !all_ws(description) && !all_ws(personality) && !all_ws(scenario) && !all_ws(examples) ==> character_markdown(
            name,
            description,
            personality,
            scenario,
            examples,
        ) == "# "@ + name + "\n\n"@ + trim(description) + "\n\n## Personality\n\n"@ + trim(personality)
            + "\n\n## Scenario\n\n"@ + trim(scenario) + "\n\n## Dialogue examples\n\n"@ + trim(examples)
            + "\n"@,
{
    if !all_ws(description) && !all_ws(personality) && !all_ws(scenario) && !all_ws(examples) {
        lemma_heading_text("Personality", personality);
        lemma_heading_text("Scenario", scenario);
        lemma_heading_text("Dialogue examples", examples);
        reveal_strlit("## ");
        reveal_strlit("\n\n");
        reveal_strlit("Personality");
        reveal_strlit("Scenario");
        reveal_strlit("Dialogue examples");
        reveal_strlit("\n\n## Personality\n\n");
        reveal_strlit("\n\n## Scenario\n\n");
        reveal_strlit("\n\n## Dialogue examples\n\n");
        assert("\n\n"@ + ("## "@ + "Personality"@ + "\n\n"@) =~= "\n\n## Personality\n\n"@);
        assert("\n\n"@ + ("## "@ + "Scenario"@ + "\n\n"@) =~= "\n\n## Scenario\n\n"@);
        assert("\n\n"@ + ("## "@ + "Dialogue examples"@ + "\n\n"@) =~= "\n\n## Dialogue examples\n\n"@);
        assert(character_markdown(name, description, personality, scenario, examples) =~= "# "@ + name + "\n\n"@
            + trim(description) + "\n\n## Personality\n\n"@ + trim(personality) + "\n\n## Scenario\n\n"@ + trim(
            scenario,
        ) + "\n\n## Dialogue examples\n\n"@ + trim(examples) + "\n"@);
    }
}

pub fn append_markdown_section(output: &mut String, heading: Option<&str>, value: &str)
    ensures
        final(output)@ == old(output)@ + markdown_section(
            match heading {
                Some(h) => Some(h@),
                None => None,
            },
            value@,
        ),
{
    let body = trimmed(value);
    if body.as_str().is_empty() {
        proof {
            crate::text::lemma_trim_empty(value@);
        }
        assert(old(output)@ + Seq::<char>::empty() =~= old(output)@);
        return;
    }
    proof {
        crate::text::lemma_trim_empty(value@);
    }
    let ghost start = output@;
    push_str(output, "\n\n");
    match heading {
        Some(h) => {
            push_str(output, "## ");
            push_str(output, h);
            push_str(output, "\n\n");
        },
        None => {},
    }
    push_str(output, body.as_str());
    assert(output@ =~= start + markdown_section(
        match heading {
            Some(h) => Some(h@),
            None => None,
        },
        value@,
    ));
}

/// The MOMO character markdown of an external card: the name as title, the
/// description, then personality, scenario and dialogue examples under
/// their headings, blank ones left out.
pub fn render_character_markdown(
    name: &str,
    description: &str,
    personality: &str,
    scenario: &str,
    examples: &str,
) -> (markdown: String)
    ensures
        markdown@ == character_markdown(name@, description@, personality@, scenario@, examples@),
{
    let mut output = String::from_str("# ");
    push_str(&mut output, name);
    append_markdown_section(&mut output, None, description);
    append_markdown_section(&mut output, Some("Personality"), personality);
    append_markdown_section(&mut output, Some("Scenario"), scenario);
    append_markdown_section(&mut output, Some("Dialogue examples"), examples);
    push_str(&mut output, "\n");
    assert(output@ =~= character_markdown(name@, description@, personality@, scenario@, examples@));
    output
}

// ---------------------------------------------------------------------------
// Byte signatures
// ---------------------------------------------------------------------------

pub open spec fn jpeg_start() -> Seq<u8> {
    seq![0xFFu8, 0xD8u8, 0xFFu8]
}

/// Bytes form a complete JPEG: they start with the SOI marker and the last
/// EOI marker (`FF D9`) ends them.
pub open spec fn is_complete_jpeg(prefix: Seq<u8>) -> bool {
    &&& prefix.len() >= 3
    &&& prefix.subrange(0, 3) == jpeg_start()
    &&& prefix.len() >= 2 && prefix[prefix.len() - 2] == 0xFFu8 && prefix[prefix.len() - 1] == 0xD9u8
}

pub fn valid_jpeg_prefix(prefix: &[u8]) -> (valid: bool)
    ensures
        valid == is_complete_jpeg(prefix@),
{
    let n = prefix.len();
    if n < 3 {
        return false;
    }
    let starts = prefix[0] == 0xFF && prefix[1] == 0xD8 && prefix[2] == 0xFF;
    assert(starts == (prefix@.subrange(0, 3) == jpeg_start())) by {
        if !starts {
            if prefix@[0] != 0xFF {
                assert(prefix@.subrange(0, 3)[0] != jpeg_start()[0]);
            } else if prefix@[1] != 0xD8 {
                assert(prefix@.subrange(0, 3)[1] != jpeg_start()[1]);
            } else {
                assert(prefix@.subrange(0, 3)[2] != jpeg_start()[2]);
            }
        } else {
            assert(prefix@.subrange(0, 3) =~= jpeg_start());
        }
    }
    starts && prefix[n - 2] == 0xFF && prefix[n - 1] == 0xD9
}


// ---------------------------------------------------------------------------
// Cards embedded in PNG images
// ---------------------------------------------------------------------------

/// What `base64::engine::general_purpose::STANDARD.decode(encoded)` gives:
/// the bytes, or the error's message.
pub uninterp spec fn base64_decode(encoded: Seq<u8>) -> Result<Seq<u8>, Seq<char>>;

/// Calls `STANDARD.decode` of the `base64` crate. Trusted: the bytes or the
/// error text are the named `base64_decode` of the input.
#[verifier::external_body]
fn decode_base64(encoded: &[u8]) -> (decoded: Result<Vec<u8>, String>)
    ensures
        match decoded {
            Ok(bytes) => base64_decode(encoded@) == Ok::<Seq<u8>, Seq<char>>(bytes@),
            Err(message) => base64_decode(encoded@) == Err::<Seq<u8>, Seq<char>>(message@),
        },
{
    match base64::engine::general_purpose::STANDARD.decode(encoded) {
        Ok(bytes) => Ok(bytes),
        Err(error) => Err(error.to_string()),
    }
}

/// The card JSON a `tEXt` chunk carries in base64, within the JSON limit.
pub open spec fn chunk_card_json(encoded: Seq<u8>) -> Result<Seq<u8>, Seq<char>> {
    match base64_decode(encoded) {
        Err(message) => Err("PNG character chunk is not valid base64: "@ + message),
        Ok(bytes) => if bytes.len() > MAX_JSON_BYTES {
            Err("PNG character JSON exceeds 2 MiB"@)
        } else {
            Ok(bytes)
        },
    }
}

fn decode_png_json(encoded: &[u8]) -> (result: Result<Vec<u8>, CharacterCompatError>)
    ensures
        match chunk_card_json(encoded@) {
            Ok(bytes) => result matches Ok(v) && v@ == bytes,
            Err(message) => result matches Err(CharacterCompatError::Invalid(m)) && m@ == message,
        },
{
    match decode_base64(encoded) {
        Err(error) => {
            let mut message = String::from_str("PNG character chunk is not valid base64: ");
            push_str(&mut message, error.as_str());
            Err(CharacterCompatError::Invalid(message))
        },
        Ok(bytes) => {
            if bytes.len() as u64 > MAX_JSON_BYTES {
                return Err(CharacterCompatError::Invalid(String::from_str("PNG character JSON exceeds 2 MiB")));
            }
            Ok(bytes)
        },
    }
}

#[derive(Debug, Clone, Copy, PartialEq, Eq, Structural)]
pub enum PngCardChunk {
    Chara,
    Ccv3,
}

pub open spec fn png_signature() -> Seq<u8> {
    seq![0x89u8, 0x50u8, 0x4Eu8, 0x47u8, 0x0Du8, 0x0Au8, 0x1Au8, 0x0Au8]
}

pub open spec fn actl_type() -> Seq<u8> {
    seq![0x61u8, 0x63u8, 0x54u8, 0x4Cu8]
}

pub open spec fn text_type() -> Seq<u8> {
    seq![0x74u8, 0x45u8, 0x58u8, 0x74u8]
}

pub open spec fn iend_type() -> Seq<u8> {
    seq![0x49u8, 0x45u8, 0x4Eu8, 0x44u8]
}

pub open spec fn ccv3_keyword() -> Seq<u8> {
    seq![0x63u8, 0x63u8, 0x76u8, 0x33u8]
}

pub open spec fn chara_keyword() -> Seq<u8> {
    seq![0x63u8, 0x68u8, 0x61u8, 0x72u8, 0x61u8]
}

pub open spec fn chara_keyword_capital() -> Seq<u8> {
    seq![0x43u8, 0x68u8, 0x61u8, 0x72u8, 0x61u8]
}

/// Position of the first zero byte.
pub open spec fn first_zero(data: Seq<u8>) -> Option<int> {
    if exists|i: int| 0 <= i < data.len() && data[i] == 0 {
        Some(choose|i: int| 0 <= i < data.len() && data[i] == 0 && forall|j: int| 0 <= j < i ==> data[j] != 0)
    } else {
        None
    }
}

pub type CardChunks = (Option<Seq<u8>>, Option<Seq<u8>>);

/// What a `tEXt` chunk contributes: a `ccv3` card replaces the CCv3 card
/// found so far, a `chara` (or `Chara`) card the older one.
pub open spec fn text_chunk_step(data: Seq<u8>, found: CardChunks) -> Result<CardChunks, Seq<char>> {
    match first_zero(data) {
        None => Ok(found),
        Some(separator) => {
            let keyword = data.subrange(0, separator);
            let encoded = data.subrange(separator + 1, data.len() as int);
            if keyword == ccv3_keyword() {
                match chunk_card_json(encoded) {
                    Err(message) => Err(message),
                    Ok(json) => Ok((Some(json), found.1)),
                }
            } else if keyword == chara_keyword() || keyword == chara_keyword_capital() {
                match chunk_card_json(encoded) {
                    Err(message) => Err(message),
                    Ok(json) => Ok((found.0, Some(json))),
                }
            } else {
                Ok(found)
            }
        },
    }
}

/// Walks the PNG chunks from `cursor`, checking each chunk's framing and
/// CRC, refusing animated PNGs and collecting card chunks, up to `IEND` or
/// the end of the bytes.
pub open spec fn png_walk(bytes: Seq<u8>, cursor: int, found: CardChunks) -> Result<CardChunks, Seq<char>>
    decreases bytes.len() - cursor,
{
    if cursor < 0 || cursor >= bytes.len() {
        Ok(found)
    } else if bytes.len() - cursor < 12 {
        Err("PNG chunk header is truncated"@)
    } else {
        let length = crate::lsb::from_be32(bytes.subrange(cursor, cursor + 4)) as int;
        let end = cursor + 12 + length;
        if end > usize::MAX {
            Err("PNG chunk size overflow"@)
        } else if end > bytes.len() {
            Err("PNG chunk is truncated"@)
        } else {
            let kind = bytes.subrange(cursor + 4, cursor + 8);
            let data = bytes.subrange(cursor + 8, cursor + 8 + length);
            let expected = crate::lsb::from_be32(bytes.subrange(cursor + 8 + length, end));
            if crate::checksum::crc32_of(kind + data) != expected {
                Err("PNG chunk CRC is invalid"@)
            } else if kind == actl_type() {
                Err("APNG character cards are not supported; select a static PNG frame explicitly"@)
            } else {
                let step = if kind == text_type() {
                    text_chunk_step(data, found)
                } else {
                    Ok(found)
                };
                match step {
                    Err(message) => Err(message),
                    Ok(next) => if kind == iend_type() {
                        Ok(next)
                    } else {
                        png_walk(bytes, end, next)
                    },
                }
            }
        }
    }
}

/// The card a PNG carries: its `ccv3` chunk if any, else its `chara` chunk.
pub open spec fn png_card(bytes: Seq<u8>) -> Result<(Seq<u8>, PngCardChunk), Seq<char>> {
    if bytes.len() < 8 || bytes.subrange(0, 8) != png_signature() {
        Err("PNG signature is invalid"@)
    } else {
        match png_walk(bytes, 8, (None, None)) {
            Err(message) => Err(message),
            Ok((ccv3, chara)) => match ccv3 {
                Some(json) => Ok((json, PngCardChunk::Ccv3)),
                None => match chara {
                    Some(json) => Ok((json, PngCardChunk::Chara)),
                    None => Err("PNG does not contain a ccv3 or chara tEXt chunk"@),
                },
            },
        }
    }
}


fn range_equals(bytes: &[u8], from: usize, to: usize, pattern: &[u8]) -> (same: bool)
    requires
        from <= to <= bytes@.len(),
    ensures
        same == (bytes@.subrange(from as int, to as int) == pattern@),
{
    if to - from != pattern.len() {
        return false;
    }
    let mut k: usize = 0;
    while k < pattern.len()
        invariant
            from <= to <= bytes@.len(),
            to - from == pattern@.len(),
            k <= pattern@.len(),
            forall|j: int| 0 <= j < k ==> bytes@[from + j] == pattern@[j],
        decreases pattern@.len() - k,
    {
        if bytes[from + k] != pattern[k] {
            assert(bytes@.subrange(from as int, to as int)[k as int] != pattern@[k as int]);
            return false;
        }
        k += 1;
    }
    assert(bytes@.subrange(from as int, to as int) =~= pattern@);
    true
}

fn read_be32_at(b: &[u8], at: usize) -> (x: u32)
    requires
        at + 4 <= b@.len(),
    ensures
        x == crate::lsb::from_be32(b@.subrange(at as int, at + 4)),
{
    let b0 = b[at] as u32;
    let b1 = b[at + 1] as u32;
    let b2 = b[at + 2] as u32;
    let b3 = b[at + 3] as u32;
    let x = (b0 << 24u32) | (b1 << 16u32) | (b2 << 8u32) | b3;
    assert(b@.subrange(at as int, at + 4)[0] == b@[at as int]);
    assert(b@.subrange(at as int, at + 4)[1] == b@[at + 1]);
    assert(b@.subrange(at as int, at + 4)[2] == b@[at + 2]);
    assert(b@.subrange(at as int, at + 4)[3] == b@[at + 3]);
    x
}

fn first_zero_at(data: &[u8]) -> (found: Option<usize>)
    ensures
        match first_zero(data@) {
            Some(i) => found matches Some(k) && k == i,
            None => found is None,
        },
        found matches Some(k) ==> k < data@.len() && data@[k as int] == 0,
{
    let mut i: usize = 0;
    while i < data.len()
        invariant
            i <= data@.len(),
            forall|j: int| 0 <= j < i ==> data@[j] != 0,
        decreases data@.len() - i,
    {
        if data[i] == 0 {
            proof {
                let c = choose|c: int| 0 <= c < data@.len() && data@[c] == 0 && forall|j: int| 0 <= j < c ==> data@[j] != 0;
                assert(first_zero(data@) == Some(c));
                if c < i {
                    assert(data@[c] != 0);
                }
                if c > i {
                    assert(data@[i as int] != 0);
                }
            }
            return Some(i);
        }
        i += 1;
    }
    None
}

fn copy_range(bytes: &[u8], from: usize, to: usize) -> (out: Vec<u8>)
    requires
        from <= to <= bytes@.len(),
    ensures
        out@ == bytes@.subrange(from as int, to as int),
{
    let mut out: Vec<u8> = Vec::new();
    let mut k = from;
    while k < to
        invariant
            from <= k <= to <= bytes@.len(),
            out@ == bytes@.subrange(from as int, k as int),
        decreases to - k,
    {
        out.push(bytes[k]);
        k += 1;
        assert(out@ =~= bytes@.subrange(from as int, k as int));
    }
    out
}

/// The first `end` bytes.
pub(crate) fn copy_prefix(bytes: &[u8], end: usize) -> (out: Vec<u8>)
    requires
        end <= bytes@.len(),
    ensures
        out@ == bytes@.subrange(0, end as int),
{
    copy_range(bytes, 0, end)
}

pub open spec fn bytes_view(v: Option<Vec<u8>>) -> Option<Seq<u8>> {
    match v {
        Some(b) => Some(b@),
        None => None,
    }
}

/// Reads the character card out of a PNG: checks the signature and every
/// chunk's framing and CRC, refuses animated PNGs, and takes the `ccv3`
/// text chunk, or else the `chara` one, decoded from base64.
#[verifier::rlimit(30)]
pub fn extract_png_card(bytes: &[u8]) -> (result: Result<(Vec<u8>, PngCardChunk), CharacterCompatError>)
    ensures
        match png_card(bytes@) {
            Ok((json, kind)) => result matches Ok((v, k)) && v@ == json && k == kind,
            Err(message) => result matches Err(CharacterCompatError::Invalid(m)) && m@ == message,
        },
{
    let signature: [u8; 8] = [0x89u8, 0x50u8, 0x4Eu8, 0x47u8, 0x0Du8, 0x0Au8, 0x1Au8, 0x0Au8];
    assert(signature@ =~= png_signature());
    let n = bytes.len();
    if n < 8 || !range_equals(bytes, 0, 8, &signature) {
        return Err(CharacterCompatError::Invalid(String::from_str("PNG signature is invalid")));
    }
    let actl: [u8; 4] = [0x61u8, 0x63u8, 0x54u8, 0x4Cu8];
    let text: [u8; 4] = [0x74u8, 0x45u8, 0x58u8, 0x74u8];
    let iend: [u8; 4] = [0x49u8, 0x45u8, 0x4Eu8, 0x44u8];
    let ccv3_kw: [u8; 4] = [0x63u8, 0x63u8, 0x76u8, 0x33u8];
    let chara_kw: [u8; 5] = [0x63u8, 0x68u8, 0x61u8, 0x72u8, 0x61u8];
    let chara_cap: [u8; 5] = [0x43u8, 0x68u8, 0x61u8, 0x72u8, 0x61u8];
    assert(actl@ =~= actl_type());
    assert(text@ =~= text_type());
    assert(iend@ =~= iend_type());
    assert(ccv3_kw@ =~= ccv3_keyword());
    assert(chara_kw@ =~= chara_keyword());
    assert(chara_cap@ =~= chara_keyword_capital());
    let mut cursor: usize = 8;
    let mut ccv3: Option<Vec<u8>> = None;
    let mut chara: Option<Vec<u8>> = None;
    let ghost whole = png_walk(bytes@, 8, (None, None));
    loop
        invariant_except_break
            whole == png_walk(bytes@, cursor as int, (bytes_view(ccv3), bytes_view(chara))),
        invariant
            n == bytes@.len(),
            n >= 8,
            bytes@.subrange(0, 8) == png_signature(),
            8 <= cursor,
            actl@ == actl_type(),
            text@ == text_type(),
            iend@ == iend_type(),
            ccv3_kw@ == ccv3_keyword(),
            chara_kw@ == chara_keyword(),
            chara_cap@ == chara_keyword_capital(),
            whole == png_walk(bytes@, 8, (None, None)),
        ensures
            whole == Ok::<CardChunks, Seq<char>>((bytes_view(ccv3), bytes_view(chara))),
        decreases n - cursor,
    {
        if cursor >= n {
            break;
        }
        if n - cursor < 12 {
            return Err(CharacterCompatError::Invalid(String::from_str("PNG chunk header is truncated")));
        }
        let length = read_be32_at(bytes, cursor) as usize;
        let end = match cursor.checked_add(12) {
            Some(v) => match v.checked_add(length) {
                Some(e) => e,
                None => {
                    return Err(CharacterCompatError::Invalid(String::from_str("PNG chunk size overflow")));
                },
            },
            None => {
                return Err(CharacterCompatError::Invalid(String::from_str("PNG chunk size overflow")));
            },
        };
        if end > n {
            return Err(CharacterCompatError::Invalid(String::from_str("PNG chunk is truncated")));
        }
        let covered = copy_range(bytes, cursor + 4, cursor + 8 + length);
        let data_start = cursor + 8;
        let data_end = cursor + 8 + length;
        let expected = read_be32_at(bytes, data_end);
        proof {
            assert(covered@ =~= bytes@.subrange(cursor + 4, cursor + 8) + bytes@.subrange(
                data_start as int,
                data_end as int,
            ));
        }
        if crate::checksum::crc32(covered.as_slice()) != expected {
            return Err(CharacterCompatError::Invalid(String::from_str("PNG chunk CRC is invalid")));
        }
        if range_equals(bytes, cursor + 4, cursor + 8, &actl) {
            return Err(
                CharacterCompatError::Invalid(
                    String::from_str(
                        "APNG character cards are not supported; select a static PNG frame explicitly",
                    ),
                ),
            );
        }
        if range_equals(bytes, cursor + 4, cursor + 8, &text) {
            let data = copy_range(bytes, data_start, data_end);
            match first_zero_at(data.as_slice()) {
                None => {},
                Some(separator) => {
                    let is_ccv3 = range_equals(data.as_slice(), 0, separator, &ccv3_kw);
                    let is_chara = range_equals(data.as_slice(), 0, separator, &chara_kw)
                        || range_equals(data.as_slice(), 0, separator, &chara_cap);
                    if is_ccv3 || is_chara {
                        let encoded = copy_range(data.as_slice(), separator + 1, data.len());
                        let json = match decode_png_json(encoded.as_slice()) {
                            Ok(json) => json,
                            Err(error) => {
                                return Err(error);
                            },
                        };
                        if is_ccv3 {
                            ccv3 = Some(json);
                        } else {
                            chara = Some(json);
                        }
                    }
                },
            }
        }
        let is_end = range_equals(bytes, cursor + 4, cursor + 8, &iend);
        cursor = end;
        if is_end {
            break;
        }
    }
    match ccv3 {
        Some(json) => Ok((json, PngCardChunk::Ccv3)),
        None => match chara {
            Some(json) => Ok((json, PngCardChunk::Chara)),
            None => Err(
                CharacterCompatError::Invalid(
                    String::from_str("PNG does not contain a ccv3 or chara tEXt chunk"),
                ),
            ),
        },
    }
}


// ---------------------------------------------------------------------------
// Card JSON
// ---------------------------------------------------------------------------

/// `card field {field:?} must be a string` for a plain field name.
pub open spec fn missing_field_message(field: Seq<char>) -> Seq<char> {
    "card field \""@ + field + "\" must be a string"@
}

/// The card major a root object declares: 1 without a `spec` string, 2 or 3
/// for the two known specs, 0 for any other spec.
pub open spec fn declared_major(root: Seq<JsonMember>) -> u8 {
    match text_field(root, "spec"@) {
        None => 1,
        Some(spec) => if spec == "chara_card_v2"@ {
            2
        } else if spec == "chara_card_v3"@ {
            3
        } else {
            0
        },
    }
}

/// A chunk format whose major disagrees with the card about being CCv3.
pub open spec fn hint_conflicts(hinted: Option<ExternalCharacterImportFormat>, major: u8) -> bool {
    match hinted {
        Some(h) => (format_major(h) == 3) != (major == 3),
        None => false,
    }
}

/// The first reading of a card: its major and spec version (empty for
/// CCv1), or the message of the first check that fails.
pub open spec fn card_header(card: JsonValue, hinted: Option<ExternalCharacterImportFormat>) -> Result<
    (u8, Seq<char>),
    Seq<char>,
> {
    match card {
        JsonValue::Object(root) => {
            let major = declared_major(root@);
            if major == 0 {
                Err("unsupported character-card spec "@ + debug_quoted_text(text_field(root@, "spec"@).unwrap()))
            } else if hint_conflicts(hinted, major) {
                Err("embedded chunk format does not match card spec"@)
            } else if major == 1 {
                Ok((1u8, Seq::empty()))
            } else {
                match text_field(root@, "spec_version"@) {
                    None => Err(missing_field_message("spec_version"@)),
                    Some(version) => if major == 2 && version != "2.0"@ {
                        Err("CCv2 spec_version must be \"2.0\", received "@ + debug_quoted_text(version))
                    } else {
                        Ok((major, version))
                    },
                }
            }
        },
        _ => Err("card JSON must be an object"@),
    }
}

/// A card read as far as its spec version: the parsed document, the major
/// it declares (1, 2 or 3) and its `spec_version` (empty for CCv1).
#[derive(Debug)]
pub struct ExternalCardHeader {
    pub card: JsonValue,
    pub detected: u8,
    pub spec_version: String,
}

fn invalid(message: &str) -> (error: CharacterCompatError)
    ensures
        error matches CharacterCompatError::Invalid(m) && m@ == message@,
{
    CharacterCompatError::Invalid(String::from_str(message))
}

fn missing_field(field: &str) -> (error: CharacterCompatError)
    ensures
        error matches CharacterCompatError::Invalid(m) && m@ == missing_field_message(field@),
{
    let mut message = String::from_str("card field \"");
    push_str(&mut message, field);
    push_str(&mut message, "\" must be a string");
    CharacterCompatError::Invalid(message)
}

fn required_text<'a>(members: &'a Vec<JsonMember>, field: &str) -> (result: Result<&'a String, CharacterCompatError>)
    ensures
        match text_field(members@, field@) {
            Some(text) => result matches Ok(s) && s@ == text,
            None => result matches Err(CharacterCompatError::Invalid(m)) && m@ == missing_field_message(field@),
        },
{
    match text_member(members, field) {
        Some(text) => Ok(text),
        None => Err(missing_field(field)),
    }
}

/// Reads card JSON up to its spec version: the size limit, the JSON itself,
/// the root object, the declared spec, agreement with the chunk format the
/// card came in, and for CCv2 the exact version `2.0`.
pub fn parse_external_header(bytes: &[u8], hinted_format: Option<ExternalCharacterImportFormat>) -> (result: Result<
    ExternalCardHeader,
    CharacterCompatError,
>)
    ensures
        bytes@.len() > MAX_JSON_BYTES ==> (result matches Err(CharacterCompatError::Invalid(m)) && m@
            == "embedded character JSON exceeds 2 MiB"@),
        bytes@.len() <= MAX_JSON_BYTES ==> match parsed_json(bytes@) {
            None => result matches Err(CharacterCompatError::Json(_)),
            Some(card) => match card_header(card, hinted_format) {
                Ok((major, version)) => result matches Ok(h) && h.card == card && h.detected == major
                    && h.spec_version@ == version,
                Err(message) => result matches Err(CharacterCompatError::Invalid(m)) && m@ == message,
            },
        },
{
    if bytes.len() as u64 > MAX_JSON_BYTES {
        return Err(invalid("embedded character JSON exceeds 2 MiB"));
    }
    let card = match parse_json(bytes) {
        Ok(value) => value,
        Err(error) => {
            return Err(CharacterCompatError::Json(error));
        },
    };
    let (major, version): (u8, String) = match &card {
        JsonValue::Object(root) => {
            let major: u8 = match text_member(root, "spec") {
                None => 1,
                Some(spec) => if str_eq(spec.as_str(), "chara_card_v2") {
                    2
                } else if str_eq(spec.as_str(), "chara_card_v3") {
                    3
                } else {
                    let mut message = String::from_str("unsupported character-card spec ");
                    push_str(&mut message, debug_quoted(spec.as_str()).as_str());
                    return Err(CharacterCompatError::Invalid(message));
                },
            };
            let conflict = match hinted_format {
                Some(hint) => (hint.major() == 3) != (major == 3),
                None => false,
            };
            if conflict {
                return Err(invalid("embedded chunk format does not match card spec"));
            }
            if major == 1 {
                (1, String::new())
            } else {
                let version = match text_member(root, "spec_version") {
                    None => {
                        return Err(missing_field("spec_version"));
                    },
                    Some(v) => v,
                };
                if major == 2 && !str_eq(version.as_str(), "2.0") {
                    let mut message = String::from_str("CCv2 spec_version must be \"2.0\", received ");
                    push_str(&mut message, debug_quoted(version.as_str()).as_str());
                    return Err(CharacterCompatError::Invalid(message));
                }
                (major, version.clone())
            }
        },
        _ => {
            return Err(invalid("card JSON must be an object"));
        },
    };
    Ok(ExternalCardHeader { card, detected: major, spec_version: version })
}

/// How a CCv3 `spec_version` reads as a decimal number: not one at all,
/// outside `[3.0, 4.0)`, exactly 3.0, or above 3.0.
#[derive(Debug, Clone, Copy, PartialEq, Eq, Structural)]
pub enum Ccv3SpecVersion {
    NotDecimal,
    OutOfRange,
    Implemented,
    Newer,
}

/// The message of the error `semver::Version::parse` reports for the text;
/// nothing where it reads a version.
pub uninterp spec fn semver_error(text: Seq<char>) -> Option<Seq<char>>;

/// Whether the semver crate reads the text as a version.
pub open spec fn is_semver(text: Seq<char>) -> bool {
    semver_error(text) is None
}

/// `semver::Version::parse`. Claimed: success, or the error's message,
/// depends on the text alone.
#[verifier::external_body]
pub(crate) fn parse_semver(text: &str) -> (result: Result<(), String>)
    ensures
        match result {
            Ok(()) => semver_error(text@) is None,
            Err(message) => semver_error(text@) == Some(message@),
        },
{
    match semver::Version::parse(text) {
        Ok(_) => Ok(()),
        Err(error) => Err(error.to_string()),
    }
}

/// The object the card's fields are read from: the root for CCv1, its
/// `data` object otherwise.
pub open spec fn card_data(header: ExternalCardHeader) -> Option<Seq<JsonMember>> {
    if header.detected == 1 {
        match header.card {
            JsonValue::Object(root) => Some(root@),
            _ => None,
        }
    } else {
        match json_field(header.card, "data"@) {
            Some(JsonValue::Object(data)) => Some(data@),
            _ => None,
        }
    }
}

pub open spec fn version_problem(header: ExternalCardHeader, version: Ccv3SpecVersion) -> Option<Seq<char>> {
    if header.detected == 3 {
        match version {
            Ccv3SpecVersion::NotDecimal => Some(
                "CCv3 spec_version "@ + debug_quoted_text(header.spec_version@) + " must be a decimal number"@,
            ),
            Ccv3SpecVersion::OutOfRange => Some(
                "CCv3 spec_version "@ + debug_quoted_text(header.spec_version@)
                    + " must be at least 3.0 and lower than 4.0"@,
            ),
            _ => None,
        }
    } else {
        None
    }
}

/// The first required field that is missing or wrong, in the order they
/// are read.
pub open spec fn fields_problem(data: Seq<JsonMember>, detected: u8) -> Option<Seq<char>> {
    match text_field(data, "name"@) {
        None => Some(missing_field_message("name"@)),
        Some(name) => if trim(name).len() == 0 || trim(name).len() > 120 {
            Some("card name must contain 1 to 120 characters"@)
        } else if text_field(data, "description"@) is None {
            Some(missing_field_message("description"@))
        } else if text_field(data, "personality"@) is None {
            Some(missing_field_message("personality"@))
        } else if text_field(data, "scenario"@) is None {
            Some(missing_field_message("scenario"@))
        } else if text_field(data, "first_mes"@) is None {
            Some(missing_field_message("first_mes"@))
        } else if text_field(data, "mes_example"@) is None {
            Some(missing_field_message("mes_example"@))
        } else if detected != 1 && text_field(data, "creator"@) is None {
            Some(missing_field_message("creator"@))
        } else if detected != 1 && text_field(data, "character_version"@) is None {
            Some(missing_field_message("character_version"@))
        } else {
            None
        },
    }
}

/// Why a card is refused, if it is.
pub open spec fn card_problem(header: ExternalCardHeader, version: Ccv3SpecVersion) -> Option<Seq<char>> {
    match version_problem(header, version) {
        Some(message) => Some(message),
        None => match card_data(header) {
            None => Some(
                if header.detected == 1 {
                    "card JSON must be an object"@
                } else {
                    "card data must be an object"@
                },
            ),
            Some(data) => fields_problem(data, header.detected),
        },
    }
}

pub open spec fn value_has_content(value: JsonValue) -> bool {
    match value {
        JsonValue::Null => false,
        JsonValue::Bool(b) => b,
        JsonValue::Number(_) => true,
        JsonValue::String(s) => s@.len() > 0,
        JsonValue::Array(items) => items@.len() > 0,
        JsonValue::Object(members) => members@.len() > 0,
    }
}

/// The fields that only other runtimes read, kept as source metadata.
pub open spec fn external_only_field(i: int) -> Seq<char> {
    if i == 0 {
        "system_prompt"@
    } else if i == 1 {
        "post_history_instructions"@
    } else if i == 2 {
        "alternate_greetings"@
    } else if i == 3 {
        "character_book"@
    } else if i == 4 {
        "tags"@
    } else if i == 5 {
        "creator_notes"@
    } else if i == 6 {
        "extensions"@
    } else if i == 7 {
        "assets"@
    } else if i == 8 {
        "group_only_greetings"@
    } else {
        "source"@
    }
}

pub open spec fn field_has_content(data: Seq<JsonMember>, key: Seq<char>) -> bool {
    match member_lookup(data, key) {
        Some(value) => value_has_content(value),
        None => false,
    }
}

pub open spec fn has_external_content(data: Seq<JsonMember>) -> bool {
    exists|i: int| 0 <= i < 10 && #[trigger] field_has_content(data, external_only_field(i))
}

fn external_only_field_name(i: usize) -> (name: &'static str)
    requires
        i < 10,
    ensures
        name@ == external_only_field(i as int),
{
    if i == 0 {
        "system_prompt"
    } else if i == 1 {
        "post_history_instructions"
    } else if i == 2 {
        "alternate_greetings"
    } else if i == 3 {
        "character_book"
    } else if i == 4 {
        "tags"
    } else if i == 5 {
        "creator_notes"
    } else if i == 6 {
        "extensions"
    } else if i == 7 {
        "assets"
    } else if i == 8 {
        "group_only_greetings"
    } else {
        "source"
    }
}

fn has_content(value: &JsonValue) -> (b: bool)
    ensures
        b == value_has_content(*value),
{
    match value {
        JsonValue::Null => false,
        JsonValue::Bool(b) => *b,
        JsonValue::Number(_) => true,
        JsonValue::String(s) => !s.as_str().is_empty(),
        JsonValue::Array(items) => items.len() > 0,
        JsonValue::Object(members) => members.len() > 0,
    }
}

/// Whether any runtime, catalog, lorebook, extension or asset field holds
/// something: a non-empty string, array or object, `true` or a number.
pub fn has_external_only_content(data: &Vec<JsonMember>) -> (found: bool)
    ensures
        found == has_external_content(data@),
{
    let mut i: usize = 0;
    while i < 10
        invariant
            i <= 10,
            forall|j: int| 0 <= j < i ==> !#[trigger] field_has_content(data@, external_only_field(j)),
        decreases 10 - i,
    {
        let key = external_only_field_name(i);
        match member(data, key) {
            Some(value) => {
                if has_content(value) {
                    assert(field_has_content(data@, external_only_field(i as int)));
                    return true;
                }
            },
            None => {},
        }
        i += 1;
    }
    false
}

/// The author: "Unknown" for CCv1 or a blank creator, else the trimmed
/// creator.
pub open spec fn card_author(data: Seq<JsonMember>, detected: u8) -> Seq<char> {
    if detected == 1 {
        "Unknown"@
    } else {
        let creator = trim(text_field(data, "creator"@).unwrap());
        if creator.len() == 0 {
            "Unknown"@
        } else {
            creator
        }
    }
}

/// The version the card states: `1.0.0` for CCv1.
pub open spec fn raw_card_version(data: Seq<JsonMember>, detected: u8) -> Seq<char> {
    if detected == 1 {
        "1.0.0"@
    } else {
        text_field(data, "character_version"@).unwrap()
    }
}

/// The version kept: the stated one where it is SemVer, else `1.0.0`.
pub open spec fn kept_version(raw: Seq<char>) -> Seq<char> {
    if is_semver(raw) {
        raw
    } else {
        "1.0.0"@
    }
}

pub open spec fn external_only_warning() -> Seq<char> {
    "external-only runtime, catalog, lorebook, extension, or asset fields were preserved as source metadata"@
}

/// The warnings of an accepted card, in order: a CCv3 version above 3.0, a
/// version that is not SemVer, external-only content.
pub open spec fn card_warnings(header: ExternalCardHeader, version: Ccv3SpecVersion, data: Seq<JsonMember>) -> Seq<
    Seq<char>,
> {
    let raw = raw_card_version(data, header.detected);
    (if header.detected == 3 && version == Ccv3SpecVersion::Newer {
        seq![
            "CCv3 spec_version "@ + debug_quoted_text(header.spec_version@)
                + " is newer than the implemented 3.0 profile; unknown fields will be preserved"@,
        ]
    } else {
        Seq::empty()
    }) + (if is_semver(raw) {
        Seq::empty()
    } else {
        seq![
            "external character_version "@ + debug_quoted_text(raw)
                + " is not SemVer; MOMO version was set to 1.0.0"@,
        ]
    }) + (if header.detected > 1 && has_external_content(data) {
        seq![external_only_warning()]
    } else {
        Seq::empty()
    })
}

/// The import format: the chunk format where there is one (a CCv1 card in
/// a CCv2 PNG chunk counts as CCv1 PNG), else the JSON format of the major.
pub open spec fn imported_format(hinted: Option<ExternalCharacterImportFormat>, detected: u8) -> ExternalCharacterImportFormat {
    match hinted {
        Some(ExternalCharacterImportFormat::Ccv2Png) if detected == 1 => ExternalCharacterImportFormat::Ccv1Png,
        Some(hint) => hint,
        None => if detected == 1 {
            ExternalCharacterImportFormat::Ccv1Json
        } else if detected == 2 {
            ExternalCharacterImportFormat::Ccv2Json
        } else {
            ExternalCharacterImportFormat::Ccv3Json
        },
    }
}

/// An external card read into MOMO terms.
#[derive(Debug)]
pub struct ParsedExternalCharacter {
    pub format: ExternalCharacterImportFormat,
    pub card: JsonValue,
    pub name: String,
    pub author_name: String,
    pub version: String,
    pub character_markdown: String,
    pub opening_markdown: Option<String>,
    pub warnings: Vec<String>,
}

pub open spec fn warning_texts(warnings: Seq<String>) -> Seq<Seq<char>> {
    warnings.map_values(|w: String| w@)
}

/// What finishing a card gives: the first problem, or the card with its
/// format, fields, markdown, opening and warnings.
pub open spec fn completion_matches(
    result: Result<ParsedExternalCharacter, CharacterCompatError>,
    header: ExternalCardHeader,
    hinted_format: Option<ExternalCharacterImportFormat>,
    version: Ccv3SpecVersion,
) -> bool {
    match card_problem(header, version) {
        Some(message) => result matches Err(CharacterCompatError::Invalid(m)) && m@ == message,
        None => result matches Ok(parsed) && {
            let data = card_data(header).unwrap();
            let first = text_field(data, "first_mes"@).unwrap();
            &&& parsed.format == imported_format(hinted_format, header.detected)
            &&& parsed.card == header.card
            &&& parsed.name@ == trim(text_field(data, "name"@).unwrap())
            &&& parsed.author_name@ == card_author(data, header.detected)
            &&& parsed.version@ == kept_version(raw_card_version(data, header.detected))
            &&& parsed.character_markdown@ == character_markdown(
                parsed.name@,
                text_field(data, "description"@).unwrap(),
                text_field(data, "personality"@).unwrap(),
                text_field(data, "scenario"@).unwrap(),
                text_field(data, "mes_example"@).unwrap(),
            )
            &&& if first.len() > 0 {
                parsed.opening_markdown matches Some(o) && o@ == first
            } else {
                parsed.opening_markdown is None
            }
            &&& warning_texts(parsed.warnings@) == card_warnings(header, version, data)
        },
    }
}

/// Finishes reading a card: the CCv3 version range, the data object, the
/// required text fields, author and version, and the character markdown
/// built from them.
pub fn complete_external_card(
    header: ExternalCardHeader,
    hinted_format: Option<ExternalCharacterImportFormat>,
    version: Ccv3SpecVersion,
) -> (result: Result<ParsedExternalCharacter, CharacterCompatError>)
    ensures
        completion_matches(result, header, hinted_format, version),

{
    let ghost h = header;
    let mut warnings: Vec<String> = Vec::new();
    if header.detected == 3 {
        match version {
            Ccv3SpecVersion::NotDecimal => {
                let mut message = String::from_str("CCv3 spec_version ");
                push_str(&mut message, debug_quoted(header.spec_version.as_str()).as_str());
                push_str(&mut message, " must be a decimal number");
                return Err(CharacterCompatError::Invalid(message));
            },
            Ccv3SpecVersion::OutOfRange => {
                let mut message = String::from_str("CCv3 spec_version ");
                push_str(&mut message, debug_quoted(header.spec_version.as_str()).as_str());
                push_str(&mut message, " must be at least 3.0 and lower than 4.0");
                return Err(CharacterCompatError::Invalid(message));
            },
            Ccv3SpecVersion::Newer => {
                let mut message = String::from_str("CCv3 spec_version ");
                push_str(&mut message, debug_quoted(header.spec_version.as_str()).as_str());
                push_str(
                    &mut message,
                    " is newer than the implemented 3.0 profile; unknown fields will be preserved",
                );
                warnings.push(message);
            },
            Ccv3SpecVersion::Implemented => {},
        }
    }
    let ghost first_warnings = warnings@;
    let detected = header.detected;
    let card = header.card;
    let data: &Vec<JsonMember> = if detected == 1 {
        match &card {
            JsonValue::Object(root) => root,
            _ => {
                return Err(invalid("card JSON must be an object"));
            },
        }
    } else {
        match &card {
            JsonValue::Object(root) => match member(root, "data") {
                Some(JsonValue::Object(data)) => data,
                _ => {
                    return Err(invalid("card data must be an object"));
                },
            },
            _ => {
                return Err(invalid("card data must be an object"));
            },
        }
    };
    assert(card_data(h) == Some(data@));
    let name = match required_text(data, "name") {
        Ok(text) => trimmed(text.as_str()),
        Err(error) => {
            return Err(error);
        },
    };
    let name_length = char_count(name.as_str());
    if name_length == 0 || name_length > 120 {
        return Err(invalid("card name must contain 1 to 120 characters"));
    }
    let description = match required_text(data, "description") {
        Ok(text) => text,
        Err(error) => {
            return Err(error);
        },
    };
    let personality = match required_text(data, "personality") {
        Ok(text) => text,
        Err(error) => {
            return Err(error);
        },
    };
    let scenario = match required_text(data, "scenario") {
        Ok(text) => text,
        Err(error) => {
            return Err(error);
        },
    };
    let first_message = match required_text(data, "first_mes") {
        Ok(text) => text,
        Err(error) => {
            return Err(error);
        },
    };
    let examples = match required_text(data, "mes_example") {
        Ok(text) => text,
        Err(error) => {
            return Err(error);
        },
    };
    let author_name = if detected == 1 {
        String::from_str("Unknown")
    } else {
        let creator = match required_text(data, "creator") {
            Ok(text) => trimmed(text.as_str()),
            Err(error) => {
                return Err(error);
            },
        };
        if creator.as_str().is_empty() {
            String::from_str("Unknown")
        } else {
            creator
        }
    };
    let raw_version = if detected == 1 {
        String::from_str("1.0.0")
    } else {
        match required_text(data, "character_version") {
            Ok(text) => text.clone(),
            Err(error) => {
                return Err(error);
            },
        }
    };
    assert(card_problem(h, version) is None);
    assert(raw_version@ == raw_card_version(data@, detected));
    let kept = if parse_semver(raw_version.as_str()).is_ok() {
        raw_version
    } else {
        let mut message = String::from_str("external character_version ");
        push_str(&mut message, debug_quoted(raw_version.as_str()).as_str());
        push_str(&mut message, " is not SemVer; MOMO version was set to 1.0.0");
        warnings.push(message);
        String::from_str("1.0.0")
    };
    let ghost second_warnings = warnings@;
    if detected > 1 && has_external_only_content(data) {
        warnings.push(String::from_str(
            "external-only runtime, catalog, lorebook, extension, or asset fields were preserved as source metadata",
        ));
    }
    proof {
        let expected = card_warnings(h, version, data@);
        assert(warning_texts(first_warnings) =~= (if h.detected == 3 && version == Ccv3SpecVersion::Newer {
            seq![
                "CCv3 spec_version "@ + debug_quoted_text(h.spec_version@)
                    + " is newer than the implemented 3.0 profile; unknown fields will be preserved"@,
            ]
        } else {
            Seq::empty()
        }));
        assert(warning_texts(warnings@) =~= expected);
    }
    let format = match hinted_format {
        Some(ExternalCharacterImportFormat::Ccv2Png) if detected == 1 => ExternalCharacterImportFormat::Ccv1Png,
        Some(hint) => hint,
        None => if detected == 1 {
            ExternalCharacterImportFormat::Ccv1Json
        } else if detected == 2 {
            ExternalCharacterImportFormat::Ccv2Json
        } else {
            ExternalCharacterImportFormat::Ccv3Json
        },
    };
    let character_markdown = render_character_markdown(
        name.as_str(),
        description.as_str(),
        personality.as_str(),
        scenario.as_str(),
        examples.as_str(),
    );
    let opening_markdown = if first_message.as_str().is_empty() {
        None
    } else {
        Some(first_message.clone())
    };
    Ok(ParsedExternalCharacter {
        format,
        card,
        name,
        author_name,
        version: kept,
        character_markdown,
        opening_markdown,
        warnings,
    })
}

/// Reads external card JSON and finishes the card. A CCv3 card's
/// `spec_version` is classified by `classify` (a decimal reading, which the
/// caller makes); a CCv1 or CCv2 card needs no classification.
pub fn parse_external_json<F: Fn(&str) -> Ccv3SpecVersion>(
    bytes: &[u8],
    hinted_format: Option<ExternalCharacterImportFormat>,
    classify: F,
) -> (result: Result<ParsedExternalCharacter, CharacterCompatError>)
    requires
        forall|text: &str| call_requires(classify, (text,)),
    ensures
        bytes@.len() > MAX_JSON_BYTES ==> (result matches Err(CharacterCompatError::Invalid(m)) && m@
            == "embedded character JSON exceeds 2 MiB"@),
        bytes@.len() <= MAX_JSON_BYTES ==> match parsed_json(bytes@) {
            None => result matches Err(CharacterCompatError::Json(_)),
            Some(card) => match card_header(card, hinted_format) {
                Err(message) => result matches Err(CharacterCompatError::Invalid(m)) && m@ == message,
                Ok((major, spec_version)) => exists|header: ExternalCardHeader, version: Ccv3SpecVersion|
                    {
                        &&& header.card == card
                        &&& header.detected == major
                        &&& header.spec_version@ == spec_version
                        &&& if major == 3 {
                            exists|text: &str| text@ == spec_version && call_ensures(classify, (text,), version)
                        } else {
                            version == Ccv3SpecVersion::Implemented
                        }
                        &&& completion_matches(result, header, hinted_format, version)
                    },
            },
        },
{
    let header = match parse_external_header(bytes, hinted_format) {
        Ok(header) => header,
        Err(error) => return Err(error),
    };
    let version = if header.detected == 3 {
        let text = header.spec_version.as_str();
        let version = classify(text);
        assert(text@ == header.spec_version@);
        assert(call_ensures(classify, (text,), version));
        version
    } else {
        Ccv3SpecVersion::Implemented
    };
    let ghost kept = header;
    let result = complete_external_card(header, hinted_format, version);
    assert(completion_matches(result, kept, hinted_format, version));
    result
}


// ---------------------------------------------------------------------------
// Input files
// ---------------------------------------------------------------------------

/// The containers an external card is read from, by file extension.
#[derive(Debug, Clone, Copy, PartialEq, Eq, Structural)]
pub enum ExternalInputKind {
    Json,
    Png,
    Charx,
}

/// The container a lowered extension names, or the refusal message.
pub open spec fn input_kind(extension: Seq<char>) -> Result<ExternalInputKind, Seq<char>> {
    if extension == "json"@ {
        Ok(ExternalInputKind::Json)
    } else if extension == "png"@ {
        Ok(ExternalInputKind::Png)
    } else if extension == "charx"@ {
        Ok(ExternalInputKind::Charx)
    } else {
        Err("unsupported input extension "@ + debug_quoted_text(extension) + "; expected json, png, or charx"@)
    }
}

impl ExternalInputKind {
    /// Reads a lowered file extension.
    pub fn from_extension(extension: &str) -> (result: Result<ExternalInputKind, CharacterCompatError>)
        ensures
            match input_kind(extension@) {
                Ok(kind) => result == Ok::<ExternalInputKind, CharacterCompatError>(kind),
                Err(message) => result matches Err(CharacterCompatError::Invalid(m)) && m@ == message,
            },
    {
        if str_eq(extension, "json") {
            Ok(ExternalInputKind::Json)
        } else if str_eq(extension, "png") {
            Ok(ExternalInputKind::Png)
        } else if str_eq(extension, "charx") {
            Ok(ExternalInputKind::Charx)
        } else {
            let mut message = String::from_str("unsupported input extension ");
            push_str(&mut message, debug_quoted(extension).as_str());
            push_str(&mut message, "; expected json, png, or charx");
            Err(CharacterCompatError::Invalid(message))
        }
    }

    /// The size limit of the container.
    pub fn size_limit(self) -> (limit: u64)
        ensures
            limit == match self {
                ExternalInputKind::Json => MAX_JSON_BYTES,
                ExternalInputKind::Png => MAX_IMAGE_BYTES,
                ExternalInputKind::Charx => MAX_CHARX_BYTES,
            },
    {
        match self {
            ExternalInputKind::Json => MAX_JSON_BYTES,
            ExternalInputKind::Png => MAX_IMAGE_BYTES,
            ExternalInputKind::Charx => MAX_CHARX_BYTES,
        }
    }

    /// The label size errors name.
    pub fn label(self) -> (label: &'static str)
        ensures
            label@ == match self {
                ExternalInputKind::Json => "JSON"@,
                ExternalInputKind::Png => "PNG"@,
                ExternalInputKind::Charx => "CHARX"@,
            },
    {
        match self {
            ExternalInputKind::Json => "JSON",
            ExternalInputKind::Png => "PNG",
            ExternalInputKind::Charx => "CHARX",
        }
    }
}

/// The format a PNG card chunk implies.
pub fn png_chunk_format(chunk: PngCardChunk) -> (format: ExternalCharacterImportFormat)
    ensures
        format == match chunk {
            PngCardChunk::Ccv3 => ExternalCharacterImportFormat::Ccv3Png,
            PngCardChunk::Chara => ExternalCharacterImportFormat::Ccv2Png,
        },
{
    match chunk {
        PngCardChunk::Ccv3 => ExternalCharacterImportFormat::Ccv3Png,
        PngCardChunk::Chara => ExternalCharacterImportFormat::Ccv2Png,
    }
}

pub open spec fn format_name(format: ExternalCharacterImportFormat) -> Seq<char> {
    match format {
        ExternalCharacterImportFormat::Ccv1Json => "ccv1_json"@,
        ExternalCharacterImportFormat::Ccv1Png => "ccv1_png"@,
        ExternalCharacterImportFormat::Ccv2Json => "ccv2_json"@,
        ExternalCharacterImportFormat::Ccv2Png => "ccv2_png"@,
        ExternalCharacterImportFormat::Ccv3Json => "ccv3_json"@,
        ExternalCharacterImportFormat::Ccv3Png => "ccv3_png"@,
        ExternalCharacterImportFormat::Ccv3Charx => "ccv3_charx"@,
    }
}

/// The detected format must be the declared one.
pub fn check_detected_format(
    expected: ExternalCharacterImportFormat,
    detected: ExternalCharacterImportFormat,
) -> (result: Result<(), CharacterCompatError>)
    ensures
        expected == detected ==> result is Ok,
        expected != detected ==> (result matches Err(CharacterCompatError::Invalid(m)) && m@
            == "declared import format "@ + format_name(expected) + " does not match detected format "@
            + format_name(detected)),
{
    if expected == detected {
        return Ok(());
    }
    let mut message = String::from_str("declared import format ");
    push_str(&mut message, source_format_name(expected));
    push_str(&mut message, " does not match detected format ");
    push_str(&mut message, source_format_name(detected));
    Err(CharacterCompatError::Invalid(message))
}

} // verus!
