//! The response pipeline's error type and the checks its background
//! maintenance applies to what a maintenance model hands back.

use vstd::prelude::*;
use vstd::string::StringSliceAdditionalSpecFns;

use crate::checksum::{sha256_hex, sha256_hex_of};
use crate::gateway::{ChatCompletion, ChatUsage};
use crate::governance::MomoRuntimeSettings;
use crate::json::{as_text, json_field, member, JsonValue};
use crate::memory::MemorySpaceSource;
use crate::text::{
    chars_of, debug_quoted, debug_quoted_text, decimal_text, format_decimal, is_whitespace, is_ws,
    push_str, str_eq, string_of,
};

verus! {

#[derive(Debug, Clone, Copy, PartialEq, Eq, Structural)]
pub enum MomoApiErrorKind {
    BadRequest,
    Conflict,
    Cancelled,
    Model,
    Internal,
}

#[derive(Debug, Clone)]
pub struct MomoApiError {
    pub kind: MomoApiErrorKind,
    pub message: String,
}

impl MomoApiError {
    pub fn bad_request(message: &str) -> (error: MomoApiError)
        ensures
            error.kind == MomoApiErrorKind::BadRequest,
            error.message@ == message@,
    {
        MomoApiError { kind: MomoApiErrorKind::BadRequest, message: String::from_str(message) }
    }

    pub fn model(message: &str) -> (error: MomoApiError)
        ensures
            error.kind == MomoApiErrorKind::Model,
            error.message@ == message@,
    {
        MomoApiError { kind: MomoApiErrorKind::Model, message: String::from_str(message) }
    }

    pub fn conflict(message: &str) -> (error: MomoApiError)
        ensures
            error.kind == MomoApiErrorKind::Conflict,
            error.message@ == message@,
    {
        MomoApiError { kind: MomoApiErrorKind::Conflict, message: String::from_str(message) }
    }

    pub fn cancelled() -> (error: MomoApiError)
        ensures
            error.kind == MomoApiErrorKind::Cancelled,
            error.message@ == "response request was cancelled"@,
    {
        MomoApiError {
            kind: MomoApiErrorKind::Cancelled,
            message: String::from_str("response request was cancelled"),
        }
    }

    pub fn internal(message: &str) -> (error: MomoApiError)
        ensures
            error.kind == MomoApiErrorKind::Internal,
            error.message@ == message@,
    {
        MomoApiError { kind: MomoApiErrorKind::Internal, message: String::from_str(message) }
    }

    /// The error's display text: its message.
    pub fn to_text(&self) -> (text: String)
        ensures
            text@ == self.message@,
    {
        self.message.clone()
    }
}

#[derive(Debug, Clone, Copy, PartialEq, Eq, Structural)]
pub enum MaintenanceKind {
    Memory,
    SemanticGraph,
}

impl MaintenanceKind {
    /// The name maintenance queues are stored under.
    pub fn storage_name(self) -> (name: &'static str)
        ensures
            name@ == (match self {
                MaintenanceKind::Memory => "memory"@,
                MaintenanceKind::SemanticGraph => "semantic_graph"@,
            }),
    {
        match self {
            MaintenanceKind::Memory => "memory",
            MaintenanceKind::SemanticGraph => "semantic_graph",
        }
    }
}

/// How many pending turns one maintenance-model call takes: the configured
/// interval of the maintenance kind.
pub fn maintenance_batch_limit(settings: &MomoRuntimeSettings, kind: MaintenanceKind) -> (limit: usize)
    ensures
        limit == (match kind {
            MaintenanceKind::Memory => settings.runtime.memory_distill_every_turns,
            MaintenanceKind::SemanticGraph => settings.runtime.nsg_govern_every_turns,
        }),
{
    match kind {
        MaintenanceKind::Memory => settings.runtime.memory_distill_every_turns,
        MaintenanceKind::SemanticGraph => settings.runtime.nsg_govern_every_turns,
    }
}

/// Token usage reported for a response.
#[derive(Debug, Clone, Copy, PartialEq, Eq)]
pub struct ResponseUsage {
    pub input_tokens: u64,
    pub output_tokens: u64,
    pub total_tokens: u64,
}

/// The usage of a completion; all zero where the provider reported none.
pub fn response_usage(completion: &ChatCompletion) -> (usage: ResponseUsage)
    ensures
        match completion.usage {
            Some(u) => usage.input_tokens == u.input_tokens && usage.output_tokens == u.output_tokens
                && usage.total_tokens == u.total_tokens,
            None => usage.input_tokens == 0 && usage.output_tokens == 0 && usage.total_tokens == 0,
        },
{
    match &completion.usage {
        Some(u) => ResponseUsage {
            input_tokens: u.input_tokens,
            output_tokens: u.output_tokens,
            total_tokens: u.total_tokens,
        },
        None => ResponseUsage { input_tokens: 0, output_tokens: 0, total_tokens: 0 },
    }
}

/// How image input of a response was handled.
#[derive(Debug, Clone, Copy, PartialEq, Eq, Structural)]
pub enum ImageInputHandling {
    NoImages,
    DirectMultimodal,
    DescriptionFallback,
}

/// The input of a response once images and tool results are resolved.
#[derive(Debug, Clone)]
pub struct ResolvedResponseInput {
    pub text: String,
    /// User-authored text to append to conversation history; empty for
    /// tool-only continuations, so tool JSON is never replayed as a user
    /// message.
    pub persisted_user_text: Option<String>,
    pub image_handling: ImageInputHandling,
    pub visual_input_count: usize,
    pub vision_usage: ChatUsage,
    pub vision_upstream_request_ids: Vec<String>,
}

impl ResolvedResponseInput {
    /// The user text maintenance sees: the persisted text, or nothing.
    pub fn maintenance_user_text(&self) -> (text: &str)
        ensures
            text@ == match self.persisted_user_text {
                Some(t) => t@,
                None => Seq::empty(),
            },
    {
        match &self.persisted_user_text {
            Some(t) => t.as_str(),
            None => {
                proof {
                    reveal_strlit("");
                }
                ""
            },
        }
    }
}

pub open spec fn no_usage() -> ChatUsage {
    ChatUsage { input_tokens: 0, output_tokens: 0, total_tokens: 0 }
}

/// Input without images: the whole text goes to the model. History keeps
/// the whole text, except for a continuation carrying tool results, which
/// keeps only the user's own words (nothing when there are none).
pub fn resolve_text_input(text: String, user_text: String, has_function_outputs: bool) -> (resolved:
    ResolvedResponseInput)
    ensures
        resolved.text@ == text@,
        resolved.persisted_user_text == if has_function_outputs {
            if user_text@.len() == 0 { None::<String> } else { Some(user_text) }
        } else {
            Some(text)
        },
        resolved.image_handling == ImageInputHandling::NoImages,
        resolved.visual_input_count == 0,
        resolved.vision_usage == no_usage(),
        resolved.vision_upstream_request_ids@.len() == 0,
{
    let persisted_user_text = if has_function_outputs {
        if user_text.as_str().is_empty() {
            None
        } else {
            Some(user_text)
        }
    } else {
        Some(text.clone())
    };
    ResolvedResponseInput {
        text,
        persisted_user_text,
        image_handling: ImageInputHandling::NoImages,
        visual_input_count: 0,
        vision_usage: ChatUsage { input_tokens: 0, output_tokens: 0, total_tokens: 0 },
        vision_upstream_request_ids: Vec::new(),
    }
}

/// The note that stands for the images a multimodal model receives.
pub open spec fn image_note(text: Seq<char>, count: nat) -> Seq<char> {
    let note = "[Image input: "@ + decimal_text(count) + "]"@;
    if text.len() == 0 {
        note
    } else {
        text + "\n"@ + note
    }
}

/// Input with images for a model that reads them: the text gets a note of
/// how many images came with it, and history keeps that text.
pub fn resolve_multimodal_input(text: String, image_count: usize) -> (resolved: ResolvedResponseInput)
    ensures
        resolved.text@ == image_note(text@, image_count as nat),
        resolved.persisted_user_text matches Some(t) && t@ == resolved.text@,
        resolved.image_handling == ImageInputHandling::DirectMultimodal,
        resolved.visual_input_count == image_count,
        resolved.vision_usage == no_usage(),
        resolved.vision_upstream_request_ids@.len() == 0,
{
    let mut note = String::from_str("[Image input: ");
    push_str(&mut note, format_decimal(image_count as u64).as_str());
    push_str(&mut note, "]");
    let full = if text.as_str().is_empty() {
        note
    } else {
        let mut joined = text;
        push_str(&mut joined, "\n");
        push_str(&mut joined, note.as_str());
        joined
    };
    proof {
        reveal_strlit("[Image input: ");
        reveal_strlit("]");
        reveal_strlit("\n");
    }
    ResolvedResponseInput {
        persisted_user_text: Some(full.clone()),
        text: full,
        image_handling: ImageInputHandling::DirectMultimodal,
        visual_input_count: image_count,
        vision_usage: ChatUsage { input_tokens: 0, output_tokens: 0, total_tokens: 0 },
        vision_upstream_request_ids: Vec::new(),
    }
}

/// Images for a model that cannot read them need a description prompt,
/// which the configuration sets only where vision is enabled.
pub fn require_vision_prompt(prompt: Option<String>) -> (result: Result<String, MomoApiError>)
    ensures
        match prompt {
            Some(p) => result matches Ok(q) && q@ == p@,
            None => result matches Err(e) && e.kind == MomoApiErrorKind::BadRequest && e.message@
                == "image input requires vision.enabled = true in the portable MOMO configuration"@,
        },
{
    match prompt {
        Some(p) => Ok(p),
        None => Err(
            MomoApiError::bad_request(
                "image input requires vision.enabled = true in the portable MOMO configuration",
            ),
        ),
    }
}

/// Input whose images a vision model described: the text with the
/// descriptions goes to the model and to history, with the describer's
/// usage and request ids.
pub fn resolve_described_input(
    text: String,
    description_count: usize,
    usage: ChatUsage,
    upstream_request_ids: Vec<String>,
) -> (resolved: ResolvedResponseInput)
    ensures
        resolved.text@ == text@,
        resolved.persisted_user_text == Some(text),
        resolved.image_handling == ImageInputHandling::DescriptionFallback,
        resolved.visual_input_count == description_count,
        resolved.vision_usage == usage,
        resolved.vision_upstream_request_ids == upstream_request_ids,
{
    ResolvedResponseInput {
        persisted_user_text: Some(text.clone()),
        text,
        image_handling: ImageInputHandling::DescriptionFallback,
        visual_input_count: description_count,
        vision_usage: usage,
        vision_upstream_request_ids: upstream_request_ids,
    }
}

// ---------------------------------------------------------------------------
// Batch keys
// ---------------------------------------------------------------------------

/// The eight little-endian bytes of a length.
pub open spec fn le_bytes(n: nat) -> Seq<u8> {
    Seq::new(8, |i: int| ((n / pow256(i)) % 256) as u8)
}

pub open spec fn pow256(i: int) -> nat
    decreases i,
{
    if i <= 0 {
        1
    } else {
        256 * pow256(i - 1)
    }
}

/// A part framed by its byte length, as the hasher is fed.
pub open spec fn framed(part: Seq<u8>) -> Seq<u8> {
    le_bytes(part.len()) + part
}

pub open spec fn framed_all(parts: Seq<Seq<u8>>) -> Seq<u8>
    decreases parts.len(),
{
    if parts.len() == 0 {
        Seq::empty()
    } else {
        framed_all(parts.drop_last()) + framed(parts.last())
    }
}

/// The parts of a batch key: scope, kind, then the request ids.
pub open spec fn batch_key_parts(scope_id: &str, kind: &str, request_ids: Seq<String>) -> Seq<Seq<u8>> {
    seq![scope_id.spec_bytes(), kind.spec_bytes()] + request_ids.map_values(|r: String| vstd::utf8::encode_utf8(r@))
}

fn push_length(out: &mut Vec<u8>, n: usize)
    requires
        n < pow256(8),
    ensures
        final(out)@ == old(out)@ + le_bytes(n as nat),
{
    let mut value: u64 = n as u64;
    let mut i: usize = 0;
    let ghost start = out@;
    assert(pow256(0) == 1);
    assert(out@ =~= start + le_bytes(n as nat).take(0));
    while i < 8
        invariant
            i <= 8,
            n < pow256(8),
            value == (n as nat) / pow256(i as int),
            out@ == start + le_bytes(n as nat).take(i as int),
        decreases 8 - i,
    {
        proof {
            assert(pow256(i as int + 1) == 256 * pow256(i as int));
            assert(pow256(i as int) > 0) by {
                lemma_pow256_positive(i as int);
            }
            vstd::arithmetic::div_mod::lemma_div_denominator((n as nat) as int, pow256(i as int) as int, 256);
        }
        out.push((value % 256) as u8);
        value = value / 256;
        assert(out@ =~= start + le_bytes(n as nat).take(i + 1));
        i += 1;
    }
    assert(le_bytes(n as nat).take(8) =~= le_bytes(n as nat));
}

proof fn lemma_pow256_positive(i: int)
    ensures
        pow256(i) > 0,
    decreases i,
{
    if i > 0 {
        lemma_pow256_positive(i - 1);
    }
}

fn push_part(out: &mut Vec<u8>, part: &str)
    ensures
        final(out)@ == old(out)@ + framed(part.spec_bytes()),
{
    let bytes = part.as_bytes();
    proof {
        reveal_with_fuel(pow256, 9);
        assert(pow256(8) == 18446744073709551616nat);
    }
    push_length(out, bytes.len());
    let ghost start = out@;
    let mut i: usize = 0;
    while i < bytes.len()
        invariant
            i <= bytes@.len(),
            out@ == start + bytes@.take(i as int),
        decreases bytes@.len() - i,
    {
        out.push(bytes[i]);
        assert(out@ =~= start + bytes@.take(i + 1));
        i += 1;
    }
    assert(bytes@.take(bytes@.len() as int) =~= bytes@);
}

/// The key that names one maintenance batch: `maintenance:` and the hex
/// SHA-256 of scope, kind and request ids, each preceded by its byte length
/// as eight little-endian bytes.
pub fn maintenance_batch_key(scope_id: &str, kind: &str, request_ids: &Vec<String>) -> (key: String)
    ensures
        key@ == "maintenance:"@ + sha256_hex_of(framed_all(batch_key_parts(scope_id, kind, request_ids@))),
{
    let ghost parts = batch_key_parts(scope_id, kind, request_ids@);
    let mut stream: Vec<u8> = Vec::new();
    push_part(&mut stream, scope_id);
    let ghost first = stream@;
    push_part(&mut stream, kind);
    proof {
        assert(parts[0] == scope_id.spec_bytes());
        assert(parts[1] == kind.spec_bytes());
        assert(parts.take(1).drop_last() =~= parts.take(0));
        assert(framed_all(parts.take(0)) =~= Seq::<u8>::empty());
        assert(framed_all(parts.take(1)) =~= framed(parts[0]));
        assert(first =~= framed_all(parts.take(1)));
        assert(parts.take(2).drop_last() =~= parts.take(1));
        assert(parts.take(2).last() == parts[1]);
        assert(stream@ =~= framed_all(parts.take(2)));
    }
    let mut i: usize = 0;
    while i < request_ids.len()
        invariant
            i <= request_ids@.len(),
            parts == batch_key_parts(scope_id, kind, request_ids@),
            stream@ == framed_all(parts.take(i + 2)),
        decreases request_ids@.len() - i,
    {
        push_part(&mut stream, request_ids[i].as_str());
        proof {
            assert(parts.take(i + 3).drop_last() =~= parts.take(i + 2));
            assert(parts.take(i + 3).last() == vstd::utf8::encode_utf8(request_ids@[i as int]@));
        }
        i += 1;
    }
    assert(parts.take(request_ids@.len() + 2int) =~= parts);
    let mut key = String::from_str("maintenance:");
    push_str(&mut key, sha256_hex(stream.as_slice()).as_str());
    key
}

// ---------------------------------------------------------------------------
// Opaque identifiers
// ---------------------------------------------------------------------------

pub open spec fn is_ascii_alpha(c: char) -> bool {
    ('A' <= c && c <= 'Z') || ('a' <= c && c <= 'z')
}

pub open spec fn is_ascii_digit(c: char) -> bool {
    '0' <= c && c <= '9'
}

/// Characters that can be part of an identifier token.
pub open spec fn is_token_char(c: char) -> bool {
    is_ascii_alpha(c) || is_ascii_digit(c) || c == '-' || c == '_'
}

/// The pieces of a text between separators (every other character), empty
/// pieces included, as `str::split` gives them.
pub open spec fn split_tokens(s: Seq<char>) -> Seq<Seq<char>>
    decreases s.len(),
{
    if s.len() == 0 {
        seq![Seq::<char>::empty()]
    } else {
        let rest = split_tokens(s.drop_last());
        if is_token_char(s.last()) {
            rest.update(rest.len() - 1, rest.last().push(s.last()))
        } else {
            rest.push(Seq::<char>::empty())
        }
    }
}

pub open spec fn count_char(s: Seq<char>, c: char) -> nat
    decreases s.len(),
{
    if s.len() == 0 {
        0
    } else {
        count_char(s.drop_last(), c) + if s.last() == c {
            1nat
        } else {
            0nat
        }
    }
}

/// A token that looks like an opaque identifier: at least eight characters,
/// two hyphens, a letter and a digit.
pub open spec fn is_opaque_identifier(t: Seq<char>) -> bool {
    &&& t.len() >= 8
    &&& count_char(t, '-') >= 2
    &&& exists|i: int| 0 <= i < t.len() && is_ascii_alpha(#[trigger] t[i])
    &&& exists|i: int| 0 <= i < t.len() && is_ascii_digit(#[trigger] t[i])
}

pub open spec fn keep_identifiers(tokens: Seq<Seq<char>>) -> Seq<Seq<char>>
    decreases tokens.len(),
{
    if tokens.len() == 0 {
        Seq::empty()
    } else {
        let rest = keep_identifiers(tokens.drop_last());
        if is_opaque_identifier(tokens.last()) {
            rest.push(tokens.last())
        } else {
            rest
        }
    }
}

/// The opaque identifiers of a text, in order of appearance.
pub open spec fn opaque_ids(s: Seq<char>) -> Seq<Seq<char>> {
    keep_identifiers(split_tokens(s))
}

/// The first identifier not among the allowed ones.
pub open spec fn first_invented(ids: Seq<Seq<char>>, allowed: Seq<Seq<char>>) -> Option<Seq<char>>
    decreases ids.len(),
{
    if ids.len() == 0 {
        None
    } else if !allowed.contains(ids[0]) {
        Some(ids[0])
    } else {
        first_invented(ids.drop_first(), allowed)
    }
}

pub open spec fn char_seqs(v: Seq<Vec<char>>) -> Seq<Seq<char>> {
    v.map_values(|t: Vec<char>| t@)
}

proof fn lemma_split_nonempty(s: Seq<char>)
    ensures
        split_tokens(s).len() >= 1,
    decreases s.len(),
{
    if s.len() > 0 {
        lemma_split_nonempty(s.drop_last());
    }
}

fn token_char(c: char) -> (b: bool)
    ensures
        b == is_token_char(c),
{
    ('A' <= c && c <= 'Z') || ('a' <= c && c <= 'z') || ('0' <= c && c <= '9') || c == '-' || c == '_'
}

fn identifier_token(t: &Vec<char>) -> (b: bool)
    ensures
        b == is_opaque_identifier(t@),
{
    let mut hyphens: usize = 0;
    let mut alpha = false;
    let mut digit = false;
    let mut k: usize = 0;
    while k < t.len()
        invariant
            k <= t@.len(),
            hyphens == count_char(t@.take(k as int), '-'),
            hyphens <= k,
            alpha == exists|i: int| 0 <= i < k && is_ascii_alpha(#[trigger] t@[i]),
            digit == exists|i: int| 0 <= i < k && is_ascii_digit(#[trigger] t@[i]),
        decreases t@.len() - k,
    {
        let c = t[k];
        assert(t@.take(k + 1).drop_last() =~= t@.take(k as int));
        if c == '-' {
            hyphens += 1;
        }
        if ('A' <= c && c <= 'Z') || ('a' <= c && c <= 'z') {
            alpha = true;
        }
        if '0' <= c && c <= '9' {
            digit = true;
        }
        k += 1;
    }
    assert(t@.take(t@.len() as int) =~= t@);
    t.len() >= 8 && hyphens >= 2 && alpha && digit
}

/// The opaque identifiers of a text, in order of appearance.
pub fn opaque_hyphenated_identifiers(s: &str) -> (ids: Vec<Vec<char>>)
    ensures
        char_seqs(ids@) == opaque_ids(s@),
{
    let chars = chars_of(s);
    let mut ids: Vec<Vec<char>> = Vec::new();
    let mut current: Vec<char> = Vec::new();
    let mut i: usize = 0;
    proof {
        assert(s@.take(0) =~= Seq::<char>::empty());
        assert(split_tokens(Seq::<char>::empty()).drop_last() =~= Seq::<Seq<char>>::empty());
        assert(char_seqs(ids@) =~= Seq::<Seq<char>>::empty());
    }
    while i < chars.len()
        invariant
            i <= chars@.len(),
            chars@ == s@,
            split_tokens(s@.take(i as int)).len() >= 1,
            current@ == split_tokens(s@.take(i as int)).last(),
            char_seqs(ids@) == keep_identifiers(split_tokens(s@.take(i as int)).drop_last()),
        decreases chars@.len() - i,
    {
        let c = chars[i];
        let ghost before = split_tokens(s@.take(i as int));
        proof {
            assert(s@.take(i + 1).drop_last() =~= s@.take(i as int));
            assert(s@.take(i + 1).last() == c);
        }
        if token_char(c) {
            current.push(c);
            proof {
                let after = split_tokens(s@.take(i + 1));
                assert(after == before.update(before.len() - 1, before.last().push(c)));
                assert(after.drop_last() =~= before.drop_last());
            }
        } else {
            let ghost ids_before = char_seqs(ids@);
            if identifier_token(&current) {
                ids.push(current);
                assert(char_seqs(ids@) =~= ids_before.push(before.last()));
            }
            current = Vec::new();
            proof {
                let after = split_tokens(s@.take(i + 1));
                assert(after == before.push(Seq::<char>::empty()));
                assert(after.drop_last() =~= before);
                assert(before.drop_last().push(before.last()) =~= before);
                assert(keep_identifiers(before) == (if is_opaque_identifier(before.last()) {
                    keep_identifiers(before.drop_last()).push(before.last())
                } else {
                    keep_identifiers(before.drop_last())
                }));
                lemma_split_nonempty(s@.take(i + 1));
            }
        }
        i += 1;
    }
    let ghost all = split_tokens(s@);
    assert(s@.take(chars@.len() as int) =~= s@);
    let ghost ids_before = char_seqs(ids@);
    if identifier_token(&current) {
        ids.push(current);
        assert(char_seqs(ids@) =~= ids_before.push(all.last()));
    }
    assert(all.drop_last().push(all.last()) =~= all);
    ids
}

fn same_chars(a: &Vec<char>, b: &Vec<char>) -> (same: bool)
    ensures
        same == (a@ == b@),
{
    if a.len() != b.len() {
        return false;
    }
    let mut i: usize = 0;
    while i < a.len()
        invariant
            i <= a@.len(),
            a@.len() == b@.len(),
            forall|k: int| 0 <= k < i ==> a@[k] == b@[k],
        decreases a@.len() - i,
    {
        if a[i] != b[i] {
            return false;
        }
        i += 1;
    }
    assert(a@ =~= b@);
    true
}

fn contains_chars(list: &Vec<Vec<char>>, item: &Vec<char>) -> (found: bool)
    ensures
        found == char_seqs(list@).contains(item@),
{
    let mut i: usize = 0;
    while i < list.len()
        invariant
            i <= list@.len(),
            forall|k: int| 0 <= k < i ==> list@[k]@ != item@,
        decreases list@.len() - i,
    {
        if same_chars(&list[i], item) {
            assert(char_seqs(list@)[i as int] == item@);
            return true;
        }
        i += 1;
    }
    assert forall|k: int| 0 <= k < char_seqs(list@).len() implies char_seqs(list@)[k] != item@ by {}
    false
}

/// Refuses generated text that holds an opaque identifier (a hyphenated
/// token with letters and digits) the source does not hold; the first such
/// identifier is named.
pub fn validate_generated_opaque_identifiers(source: &str, generated: &str) -> (result: Result<(), String>)
    ensures
        match first_invented(opaque_ids(generated@), opaque_ids(source@)) {
            None => result is Ok,
            Some(id) => result matches Err(m) && m@ == "generated patch altered or invented opaque identifier "@
                + debug_quoted_text(id) + "; copy identifiers from evidence character-for-character"@,
        },
{
    let allowed = opaque_hyphenated_identifiers(source);
    let produced = opaque_hyphenated_identifiers(generated);
    let ghost all = char_seqs(produced@);
    let mut i: usize = 0;
    assert(all.skip(0) =~= all);
    while i < produced.len()
        invariant
            i <= produced@.len(),
            all == char_seqs(produced@),
            all == opaque_ids(generated@),
            char_seqs(allowed@) == opaque_ids(source@),
            first_invented(all, char_seqs(allowed@)) == first_invented(all.skip(i as int), char_seqs(allowed@)),
        decreases produced@.len() - i,
    {
        proof {
            assert(all.skip(i as int)[0] == produced@[i as int]@);
            assert(all.skip(i as int).drop_first() =~= all.skip(i + 1));
        }
        if !contains_chars(&allowed, &produced[i]) {
            let id = string_of(&produced[i], 0, produced[i].len());
            assert(produced@[i as int]@.subrange(0, produced@[i as int]@.len() as int) =~= produced@[i as int]@);
            let mut message = String::from_str("generated patch altered or invented opaque identifier ");
            push_str(&mut message, debug_quoted(id.as_str()).as_str());
            push_str(&mut message, "; copy identifiers from evidence character-for-character");
            return Err(message);
        }
        i += 1;
    }
    assert(all.skip(i as int).len() == 0);
    Ok(())
}

proof fn lemma_none_invented_when_allowed(ids: Seq<Seq<char>>, allowed: Seq<Seq<char>>)
    requires
        forall|i: int| 0 <= i < ids.len() ==> allowed.contains(#[trigger] ids[i]),
    ensures
        first_invented(ids, allowed) is None,
    decreases ids.len(),
{
    if ids.len() > 0 {
        assert(allowed.contains(ids[0]));
        assert forall|i: int| 0 <= i < ids.drop_first().len() implies allowed.contains(
            #[trigger] ids.drop_first()[i],
        ) by {
            assert(ids.drop_first()[i] == ids[i + 1]);
        }
        lemma_none_invented_when_allowed(ids.drop_first(), allowed);
    }
}

/// Generated text that only repeats the source, or any part of the
/// source's identifiers, never counts as inventing an identifier: copying
/// identifiers character for character always passes.
pub proof fn lemma_copied_identifiers_pass(source: Seq<char>, generated: Seq<char>)
    requires
        forall|i: int|
            0 <= i < opaque_ids(generated).len() ==> opaque_ids(source).contains(#[trigger] opaque_ids(generated)[i]),
    ensures
        first_invented(opaque_ids(generated), opaque_ids(source)) is None,
{
    lemma_none_invented_when_allowed(opaque_ids(generated), opaque_ids(source));
}

/// A text checked against itself passes.
pub proof fn lemma_source_passes_against_itself(source: Seq<char>)
    ensures
        first_invented(opaque_ids(source), opaque_ids(source)) is None,
{
    let ids = opaque_ids(source);
    assert forall|i: int| 0 <= i < ids.len() implies ids.contains(#[trigger] ids[i]) by {}
    lemma_none_invented_when_allowed(ids, ids);
}

// ---------------------------------------------------------------------------
// Maintenance model output
// ---------------------------------------------------------------------------

/// The text with every whitespace character removed.
pub open spec fn without_whitespace(s: Seq<char>) -> Seq<char>
    decreases s.len(),
{
    if s.len() == 0 {
        Seq::empty()
    } else if is_ws(s.last()) {
        without_whitespace(s.drop_last())
    } else {
        without_whitespace(s.drop_last()).push(s.last())
    }
}

/// The conversation a response continues: the one the request names, or
/// else the one an earlier attempt of the same operation created (as
/// persisted, or as remembered in memory).
pub fn response_conversation_id(
    requested: Option<String>,
    persisted_attempt: Option<String>,
    remembered_attempt: Option<String>,
) -> (chosen: Option<String>)
    ensures
        chosen == match requested {
            Some(id) => Some(id),
            None => match persisted_attempt {
                Some(id) => Some(id),
                None => remembered_attempt,
            },
        },
{
    match requested {
        Some(id) => Some(id),
        None => match persisted_attempt {
            Some(id) => Some(id),
            None => remembered_attempt,
        },
    }
}

/// The character of a response: an existing conversation's own character,
/// which a request may repeat but not change; for a new conversation, the
/// one the request names.
pub fn response_character_id(
    existing_conversation: bool,
    stored_character_id: Option<String>,
    requested_character_id: Option<String>,
) -> (result: Result<String, MomoApiError>)
    ensures
        existing_conversation ==> match stored_character_id {
            None => result matches Err(e) && e.kind == MomoApiErrorKind::BadRequest && e.message@
                == "conversation has no character; use switch_character control first"@,
            Some(stored) => match requested_character_id {
                Some(requested) if requested@ != stored@ => result matches Err(e) && e.kind
                    == MomoApiErrorKind::BadRequest && e.message@
                    == "character_id differs from the conversation; use switch_character control"@,
                _ => result matches Ok(id) && id@ == stored@,
            },
        },
        !existing_conversation ==> match requested_character_id {
            None => result matches Err(e) && e.kind == MomoApiErrorKind::BadRequest && e.message@
                == "character_id is required for a new conversation"@,
            Some(requested) => result matches Ok(id) && id@ == requested@,
        },
{
    if existing_conversation {
        let stored = match stored_character_id {
            None => {
                return Err(
                    MomoApiError::bad_request("conversation has no character; use switch_character control first"),
                );
            },
            Some(stored) => stored,
        };
        match requested_character_id {
            Some(requested) => {
                if !str_eq(requested.as_str(), stored.as_str()) {
                    return Err(
                        MomoApiError::bad_request(
                            "character_id differs from the conversation; use switch_character control",
                        ),
                    );
                }
            },
            None => {},
        }
        Ok(stored)
    } else {
        match requested_character_id {
            None => Err(MomoApiError::bad_request("character_id is required for a new conversation")),
            Some(requested) => Ok(requested),
        }
    }
}

/// How the user's turn reaches the conversation history.
#[derive(Debug, Clone, PartialEq, Eq)]
pub enum UserMessageWrite {
    /// An earlier attempt already wrote it.
    AlreadyWritten,
    /// Append this text as the user's message.
    Append(String),
    /// Nothing to append (a tool-only continuation); mark the turn written.
    MarkWritten,
}

/// The user's turn goes into history once: the text kept for history, or
/// else the whole input unless it carries tool results.
pub fn user_message_write(already_written: bool, resolved: &ResolvedResponseInput, has_function_outputs: bool) -> (write:
    UserMessageWrite)
    ensures
        already_written ==> write == UserMessageWrite::AlreadyWritten,
        !already_written ==> match resolved.persisted_user_text {
            Some(text) => write matches UserMessageWrite::Append(t) && t@ == text@,
            None => if has_function_outputs {
                write == UserMessageWrite::MarkWritten
            } else {
                write matches UserMessageWrite::Append(t) && t@ == resolved.text@
            },
        },
{
    if already_written {
        return UserMessageWrite::AlreadyWritten;
    }
    match &resolved.persisted_user_text {
        Some(text) => UserMessageWrite::Append(text.clone()),
        None => if has_function_outputs {
            UserMessageWrite::MarkWritten
        } else {
            UserMessageWrite::Append(resolved.text.clone())
        },
    }
}

/// What the gateway can generate for a response.
#[derive(Debug, Clone, Copy, PartialEq, Eq)]
pub struct GenerationCapability {
    pub context_window: usize,
    pub max_output_tokens: usize,
    pub supports_images: bool,
}

/// The capability a response works with: the discovered one, or, when
/// discovery fails, a conservative 8192-token window with 1024 output
/// tokens and no images, noted in the warnings.
pub fn response_capability(discovered: Result<GenerationCapability, String>, warnings: &mut Vec<String>) -> (capability:
    GenerationCapability)
    ensures
        match discovered {
            Ok(found) => capability == found && final(warnings)@ == old(warnings)@,
            Err(error) => {
                &&& capability == GenerationCapability {
                    context_window: 8192,
                    max_output_tokens: 1024,
                    supports_images: false,
                }
                &&& final(warnings)@.len() == old(warnings)@.len() + 1
                &&& final(warnings)@.take(old(warnings)@.len() as int) == old(warnings)@
                &&& final(warnings)@.last()@ == "capability discovery degraded: "@ + error@
            },
        },
{
    match discovered {
        Ok(found) => found,
        Err(error) => {
            let mut message = String::from_str("capability discovery degraded: ");
            push_str(&mut message, error.as_str());
            warnings.push(message);
            assert(warnings@.take(old(warnings)@.len() as int) =~= old(warnings)@);
            GenerationCapability { context_window: 8192, max_output_tokens: 1024, supports_images: false }
        },
    }
}

/// Image input needs vision enabled in the configuration.
pub fn check_image_input(has_images: bool, vision_enabled: bool) -> (result: Result<(), MomoApiError>)
    ensures
        has_images && !vision_enabled ==> (result matches Err(e) && e.kind == MomoApiErrorKind::BadRequest
            && e.message@ == "image input requires vision.enabled = true in the portable MOMO configuration"@),
        !(has_images && !vision_enabled) ==> result is Ok,
{
    if has_images && !vision_enabled {
        Err(MomoApiError::bad_request("image input requires vision.enabled = true in the portable MOMO configuration"))
    } else {
        Ok(())
    }
}

/// A response operation recorded by an earlier attempt with the same id:
/// the fingerprint of its request, and its stored response if it finished.
#[derive(Debug, Clone)]
pub struct PersistedOperation {
    pub request_fingerprint: Option<String>,
    pub response_json: Option<String>,
}

/// How an attempt relates to what was recorded under its id.
#[derive(Debug, Clone, PartialEq, Eq)]
pub enum OperationReplay {
    /// Nothing finished yet: run the response.
    Run,
    /// The same request already finished: give back its stored response.
    Replay(String),
}

/// A request id belongs to one request: another request under it is a
/// conflict, and a finished one is answered from what was stored.
pub fn check_persisted_operation(persisted: &Option<PersistedOperation>, fingerprint: &str) -> (result: Result<
    OperationReplay,
    MomoApiError,
>)
    ensures
        match *persisted {
            None => result == Ok::<OperationReplay, MomoApiError>(OperationReplay::Run),
            Some(op) => if !(op.request_fingerprint matches Some(f) && f@ == fingerprint@) {
                result matches Err(e) && e.kind == MomoApiErrorKind::Conflict && e.message@
                    == "request_id was already used with a different response request"@
            } else {
                match op.response_json {
                    Some(stored) => result matches Ok(OperationReplay::Replay(r)) && r@ == stored@,
                    None => result == Ok::<OperationReplay, MomoApiError>(OperationReplay::Run),
                }
            },
        },
{
    match persisted {
        None => Ok(OperationReplay::Run),
        Some(op) => {
            let same = match &op.request_fingerprint {
                Some(f) => str_eq(f.as_str(), fingerprint),
                None => false,
            };
            if !same {
                return Err(MomoApiError::conflict("request_id was already used with a different response request"));
            }
            match &op.response_json {
                Some(stored) => Ok(OperationReplay::Replay(stored.clone())),
                None => Ok(OperationReplay::Run),
            }
        },
    }
}

pub open spec fn saturating_sum(a: u64, b: u64) -> u64 {
    if a + b > u64::MAX {
        u64::MAX
    } else {
        (a + b) as u64
    }
}

/// A response's usage with the vision describer's added, saturating.
pub fn add_vision_usage(response: ChatUsage, vision: ChatUsage) -> (total: ChatUsage)
    ensures
        total.input_tokens == saturating_sum(response.input_tokens, vision.input_tokens),
        total.output_tokens == saturating_sum(response.output_tokens, vision.output_tokens),
        total.total_tokens == saturating_sum(response.total_tokens, vision.total_tokens),
{
    ChatUsage {
        input_tokens: response.input_tokens.saturating_add(vision.input_tokens),
        output_tokens: response.output_tokens.saturating_add(vision.output_tokens),
        total_tokens: response.total_tokens.saturating_add(vision.total_tokens),
    }
}

/// The first memory source of the Space the response writes to, if any.
pub open spec fn write_source(write_space_id: Option<Seq<char>>, sources: Seq<MemorySpaceSource>) -> Option<
    MemorySpaceSource,
> {
    match write_space_id {
        None => None,
        Some(id) => if exists|i: int| 0 <= i < sources.len() && (#[trigger] sources[i]).space_id@ == id {
            let i = choose|i: int|
                0 <= i < sources.len() && (#[trigger] sources[i]).space_id@ == id && forall|j: int|
                    0 <= j < i ==> sources[j].space_id@ != id;
            Some(sources[i])
        } else {
            None
        },
    }
}

/// Which stores a finished response queues for maintenance: those its write
/// Space reads from, and only when the response has text.
pub fn maintenance_write_flags(
    output_empty: bool,
    write_space_id: Option<&str>,
    sources: &[MemorySpaceSource],
) -> (flags: (bool, bool))
    ensures
        ({
            let id = match write_space_id {
                Some(w) => Some(w@),
                None => None,
            };
            &&& flags.0 == (!output_empty && (write_source(id, sources@) matches Some(s) && s.memory))
            &&& flags.1 == (!output_empty && (write_source(id, sources@) matches Some(s) && s.semantic_graph))
        }),
{
    if write_space_id.is_none() {
        return (false, false);
    }
    let id = write_space_id.unwrap();
    assert(write_space_id == Some(id));
    let mut i: usize = 0;
    while i < sources.len()
        invariant
            write_space_id == Some(id),
            i <= sources@.len(),
            forall|j: int| 0 <= j < i ==> (#[trigger] sources@[j]).space_id@ != id@,
        decreases sources@.len() - i,
    {
        if str_eq(sources[i].space_id.as_str(), id) {
            proof {
                let ii = i as int;
                assert(0 <= ii < sources@.len() && sources@[ii].space_id@ == id@ && forall|j: int|
                    0 <= j < ii ==> sources@[j].space_id@ != id@);
                let k = choose|k: int|
                    0 <= k < sources@.len() && (#[trigger] sources@[k]).space_id@ == id@ && forall|j: int|
                        0 <= j < k ==> sources@[j].space_id@ != id@;
                if k < ii {
                    assert(sources@[k].space_id@ != id@);
                }
                if k > ii {
                    assert(sources@[ii].space_id@ != id@);
                }
                assert(k == ii);
                assert(write_source(Some(id@), sources@) == Some(sources@[ii]));
            }
            return (!output_empty && sources[i].memory, !output_empty && sources[i].semantic_graph);
        }
        i += 1;
    }
    (false, false)
}

/// A batch left pending by an earlier run: its key, and whether its commit
/// was already prepared.
#[derive(Debug, Clone)]
pub struct PendingMaintenance {
    pub batch_key: String,
    pub prepared_commit: bool,
}

/// How a maintenance run goes on once it knows its pending batch and turns.
#[derive(Debug, Clone)]
pub enum MaintenancePlan {
    /// Finish the prepared commit of the pending batch.
    FinishPreparedCommit,
    /// Too few queued turns: nothing to do.
    Skip,
    /// Work on the batch with this key.
    Run { batch_key: String },
}

/// Decides how a maintenance run starts. The threshold must be positive; a
/// pending batch whose commit is prepared is finished first; a pending batch
/// is resumed under its own key; otherwise the queued turns (`request_ids`,
/// at most `threshold` of them) run only once there are `threshold`, under
/// a key derived from the Space, the kind and the turns.
pub fn maintenance_plan(
    scope_id: &str,
    kind: MaintenanceKind,
    threshold: usize,
    pending: Option<PendingMaintenance>,
    request_ids: &Vec<String>,
) -> (plan: Result<MaintenancePlan, MomoApiError>)
    ensures
        threshold == 0 ==> (plan matches Err(e) && e.kind == MomoApiErrorKind::BadRequest && e.message@
            == "maintenance threshold must be positive"@),
        threshold > 0 ==> match pending {
            Some(p) => if p.prepared_commit {
                plan matches Ok(MaintenancePlan::FinishPreparedCommit)
            } else {
                plan matches Ok(MaintenancePlan::Run { batch_key }) && batch_key@ == p.batch_key@
            },
            None => if request_ids@.len() < threshold {
                plan matches Ok(MaintenancePlan::Skip)
            } else {
                plan matches Ok(MaintenancePlan::Run { batch_key }) && exists|name: &str|
                    name@ == kind_name(kind) && batch_key@ == "maintenance:"@ + sha256_hex_of(
                        framed_all(batch_key_parts(scope_id, name, request_ids@)),
                    )
            },
        },
{
    if threshold == 0 {
        return Err(MomoApiError::bad_request("maintenance threshold must be positive"));
    }
    match pending {
        Some(p) => {
            if p.prepared_commit {
                Ok(MaintenancePlan::FinishPreparedCommit)
            } else {
                Ok(MaintenancePlan::Run { batch_key: p.batch_key })
            }
        },
        None => {
            if request_ids.len() < threshold {
                Ok(MaintenancePlan::Skip)
            } else {
                let name = kind.storage_name();
                let batch_key = maintenance_batch_key(scope_id, name, request_ids);
                assert(name@ == kind_name(kind));
                Ok(MaintenancePlan::Run { batch_key })
            }
        },
    }
}

/// What one maintenance generation attempt came back with.
#[derive(Debug)]
pub enum MaintenanceAttempt {
    /// The completion stopped for a refused reason (see
    /// `maintenance_finish_error`), with that error.
    Unfinished(String),
    /// The completion carried no text.
    NoText,
    /// The patch text, and what validating it against the Space gave.
    Checked { patch: String, verdict: Result<(), String> },
}

/// What to do after an attempt.
#[derive(Debug)]
pub enum MaintenanceStep {
    /// Ask again, with the repair note now set.
    Retry,
    /// Stage this patch.
    Accept(String),
    Fail(MomoApiError),
}

pub open spec fn truncation_repair(error: Seq<char>) -> Seq<char> {
    error + ". Regenerate a smaller complete patch. Prefer fewer complete targets and concise sections; never continue or complete the truncated YAML fragment."@
}

pub open spec fn empty_patch_repair() -> Seq<char> {
    "The first pass returned an empty patch for a non-empty maintenance batch. Recheck every pending turn for explicit durable facts, corrections, commitments, boundaries, and activated outcomes. Return patches: [] again only if none are supported."@
}

pub open spec fn kind_name(kind: MaintenanceKind) -> Seq<char> {
    match kind {
        MaintenanceKind::Memory => "memory"@,
        MaintenanceKind::SemanticGraph => "semantic_graph"@,
    }
}

/// The repair note after an attempt, and whether it is retried (`0`),
/// accepted (`1`) or fails (`2`) with which message.
pub open spec fn attempt_outcome(kind: MaintenanceKind, repair: Option<Seq<char>>, attempt: MaintenanceAttempt) -> (
    Option<Seq<char>>,
    int,
    Seq<char>,
) {
    match attempt {
        MaintenanceAttempt::Unfinished(error) => if repair is None {
            (Some(truncation_repair(error@)), 0, Seq::empty())
        } else {
            (repair, 2, error@)
        },
        MaintenanceAttempt::NoText => (repair, 2, "maintenance model returned no text"@),
        MaintenanceAttempt::Checked { patch, verdict } => match verdict {
            Ok(()) => if kind == MaintenanceKind::Memory && without_whitespace(patch@) == "patches:[]"@
                && repair is None {
                (Some(empty_patch_repair()), 0, Seq::empty())
            } else {
                (repair, 1, Seq::empty())
            },
            Err(error) => if repair is None {
                (Some(error@), 0, Seq::empty())
            } else {
                (
                    repair,
                    2,
                    kind_name(kind) + " maintenance model returned an invalid patch after repair: "@ + error@,
                )
            },
        },
    }
}

/// Decides what follows one maintenance generation attempt. The first
/// truncated, invalid or (for memory) empty patch earns one repair round
/// with a note saying what to fix; a second failure ends the batch.
pub fn maintenance_attempt_step(kind: MaintenanceKind, repair: &mut Option<String>, attempt: MaintenanceAttempt) -> (step:
    MaintenanceStep)
    ensures
        ({
            let (note, decision, message) = attempt_outcome(
                kind,
                match *old(repair) {
                    Some(r) => Some(r@),
                    None => None,
                },
                attempt,
            );
            &&& (match *final(repair) {
                Some(r) => Some(r@),
                None => None,
            }) == note
            &&& decision == 0 ==> step is Retry
            &&& decision == 1 ==> (step matches MaintenanceStep::Accept(patch) && attempt matches MaintenanceAttempt::Checked {
                patch: p,
                ..
            } && patch@ == p@)
            &&& decision == 2 ==> (step matches MaintenanceStep::Fail(e) && e.kind == MomoApiErrorKind::Model
                && e.message@ == message)
        }),
{
    match attempt {
        MaintenanceAttempt::Unfinished(error) => {
            if repair.is_none() {
                let mut note = error;
                push_str(
                    &mut note,
                    ". Regenerate a smaller complete patch. Prefer fewer complete targets and concise sections; never continue or complete the truncated YAML fragment.",
                );
                *repair = Some(note);
                MaintenanceStep::Retry
            } else {
                MaintenanceStep::Fail(MomoApiError::model(error.as_str()))
            }
        },
        MaintenanceAttempt::NoText => MaintenanceStep::Fail(MomoApiError::model("maintenance model returned no text")),
        MaintenanceAttempt::Checked { patch, verdict } => match verdict {
            Ok(()) => {
                let empty = match kind {
                    MaintenanceKind::Memory => memory_patch_is_noop(patch.as_str()),
                    MaintenanceKind::SemanticGraph => false,
                };
                if empty && repair.is_none() {
                    *repair = Some(
                        String::from_str(
                            "The first pass returned an empty patch for a non-empty maintenance batch. Recheck every pending turn for explicit durable facts, corrections, commitments, boundaries, and activated outcomes. Return patches: [] again only if none are supported.",
                        ),
                    );
                    MaintenanceStep::Retry
                } else {
                    MaintenanceStep::Accept(patch)
                }
            },
            Err(error) => {
                if repair.is_none() {
                    *repair = Some(error);
                    MaintenanceStep::Retry
                } else {
                    let mut message = String::from_str(kind.storage_name());
                    push_str(&mut message, " maintenance model returned an invalid patch after repair: ");
                    push_str(&mut message, error.as_str());
                    MaintenanceStep::Fail(MomoApiError::model(message.as_str()))
                }
            },
        },
    }
}

/// A maintenance batch gets one repair round at most: an attempt is retried
/// only while no repair note is set, and a retry always sets one, so the
/// attempt after a retry is accepted or fails.
pub proof fn lemma_one_repair_round(
    kind: MaintenanceKind,
    repair: Option<Seq<char>>,
    first: MaintenanceAttempt,
    second: MaintenanceAttempt,
)
    ensures
        attempt_outcome(kind, repair, first).1 == 0 ==> repair is None && attempt_outcome(kind, repair, first).0 is Some,
        attempt_outcome(kind, repair, first).1 == 0 ==> attempt_outcome(
            kind,
            attempt_outcome(kind, repair, first).0,
            second,
        ).1 != 0,
{
}

/// A memory patch that changes nothing: `patches: []`, whitespace aside.
pub fn memory_patch_is_noop(patch: &str) -> (noop: bool)
    ensures
        noop == (without_whitespace(patch@) == "patches:[]"@),
{
    let chars = chars_of(patch);
    let mut kept = String::new();
    let mut i: usize = 0;
    while i < chars.len()
        invariant
            i <= chars@.len(),
            chars@ == patch@,
            kept@ == without_whitespace(patch@.take(i as int)),
        decreases chars@.len() - i,
    {
        assert(patch@.take(i + 1).drop_last() =~= patch@.take(i as int));
        if !is_whitespace(chars[i]) {
            crate::text::push_char(&mut kept, chars[i]);
        }
        i += 1;
    }
    assert(patch@.take(chars@.len() as int) =~= patch@);
    str_eq(kept.as_str(), "patches:[]")
}

/// Why a maintenance completion is unusable: it did not finish with
/// `stop`.
pub open spec fn finish_problem(completion: JsonValue) -> Option<Seq<char>> {
    match as_text(json_field(completion, "finish_reason"@)) {
        Some(reason) => if reason == "stop"@ {
            None
        } else {
            Some("maintenance model did not finish normally (finish_reason="@ + reason + ")"@)
        },
        None => Some("maintenance model did not finish normally (finish_reason=missing)"@),
    }
}

pub fn maintenance_finish_error(completion: &JsonValue) -> (error: Option<String>)
    ensures
        match finish_problem(*completion) {
            None => error is None,
            Some(message) => error matches Some(m) && m@ == message,
        },
{
    let reason: Option<&String> = match completion {
        JsonValue::Object(members) => match member(members, "finish_reason") {
            Some(JsonValue::String(r)) => Some(r),
            _ => None,
        },
        _ => None,
    };
    match reason {
        Some(r) => {
            if str_eq(r.as_str(), "stop") {
                None
            } else {
                let mut message = String::from_str("maintenance model did not finish normally (finish_reason=");
                push_str(&mut message, r.as_str());
                push_str(&mut message, ")");
                Some(message)
            }
        },
        None => Some(
            String::from_str("maintenance model did not finish normally (finish_reason=missing)"),
        ),
    }
}

} // verus!
