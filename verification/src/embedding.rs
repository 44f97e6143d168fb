//! Embedding profiles and batches: validating a profile and the inputs of
//! a batch, naming the vector space a profile produces, and checking the
//! shape of a provider's response before its vectors are used.

use vstd::prelude::*;

use crate::bounded::{append_truncated, append_within, declared_length_within, declared_within};
use crate::checksum::{sha256_hex, sha256_hex_of};
use crate::ids::{parse_uuid, uuid_parse};
use crate::table::{compare_keys, lemma_lex_total, lemma_lex_transitive, lex_lt, KeyOrder};
use crate::text::{
    all_ws, char_count, debug_quoted, debug_quoted_text, decimal_text, format_decimal, is_blank,
    push_str, str_eq, utf8_len, utf8_len_exceeds,
};

verus! {

pub const MAX_EMBEDDING_BATCH_SIZE: usize = 128;

pub const MAX_EMBEDDING_DIMENSION: usize = 8_192;

pub const MAX_EMBEDDING_INPUT_BYTES: usize = 1024 * 1024;

pub const MAX_EMBEDDING_BATCH_BYTES: usize = 4 * 1024 * 1024;

pub const MAX_EMBEDDING_TIMEOUT_SECONDS: u64 = 600;

pub const DEFAULT_EMBEDDING_TIMEOUT_SECONDS: u64 = 120;

/// The most of an error reply that is kept.
pub const MAX_ERROR_BODY_BYTES: usize = 2_000;

/// The largest reply body read.
pub const MAX_EMBEDDING_RESPONSE_BYTES: usize = 64 * 1024 * 1024;

/// Where embeddings are requested. Its debug text never shows the key.
#[derive(Clone, PartialEq, Eq)]
pub struct EmbeddingEndpoint {
    pub base_url: String,
    pub api_key: Option<String>,
}

/// The debug text of an endpoint: the key replaced by a marker.
pub open spec fn endpoint_debug_text(base_url: Seq<char>, has_key: bool) -> Seq<char> {
    "EmbeddingEndpoint { base_url: "@ + debug_quoted_text(base_url) + ", api_key: "@ + (if has_key {
        "Some(\"[REDACTED]\")"@
    } else {
        "None"@
    }) + " }"@
}

impl EmbeddingEndpoint {
    /// What `{:?}` shows of the endpoint.
    pub fn debug_text(&self) -> (text: String)
        ensures
            text@ == endpoint_debug_text(self.base_url@, self.api_key is Some),
    {
        let mut text = String::from_str("EmbeddingEndpoint { base_url: ");
        push_str(&mut text, debug_quoted(self.base_url.as_str()).as_str());
        push_str(&mut text, ", api_key: ");
        if self.api_key.is_some() {
            push_str(&mut text, "Some(\"[REDACTED]\")");
        } else {
            push_str(&mut text, "None");
        }
        push_str(&mut text, " }");
        text
    }
}

/// Two endpoints that differ only in their key's value show the same debug
/// text, so no key can be read from it.
pub proof fn lemma_debug_text_hides_key(a: EmbeddingEndpoint, b: EmbeddingEndpoint)
    requires
        a.base_url@ == b.base_url@,
        (a.api_key is Some) == (b.api_key is Some),
    ensures
        endpoint_debug_text(a.base_url@, a.api_key is Some) == endpoint_debug_text(
            b.base_url@,
            b.api_key is Some,
        ),
{
}

#[derive(Debug, Clone, Copy, PartialEq, Eq, Structural)]
pub enum EmbeddingNormalization {
    /// Vectors are used as the provider returns them.
    Disabled,
    L2,
}

impl Default for EmbeddingNormalization {
    fn default() -> (normalization: Self)
        ensures
            normalization == EmbeddingNormalization::L2,
    {
        EmbeddingNormalization::L2
    }
}

#[derive(Debug, Clone, PartialEq, Eq)]
pub struct EmbeddingProfile {
    pub provider_id: String,
    pub endpoint_id: String,
    pub model: String,
    pub dimension: usize,
    pub model_revision: Option<String>,
    pub normalization: EmbeddingNormalization,
    pub send_dimensions: bool,
    pub query_prefix: String,
    pub document_prefix: String,
}

#[derive(Debug, Clone, Copy, PartialEq, Eq, Structural)]
pub enum EmbeddingPurpose {
    Query,
    Document,
}

#[derive(Debug, Clone, PartialEq, Eq)]
pub struct EmbeddingInput {
    pub id: String,
    pub text: String,
    pub purpose: EmbeddingPurpose,
}

#[derive(Debug, Clone, Copy, PartialEq, Eq)]
pub struct EmbeddingUsage {
    pub prompt_tokens: u64,
    pub total_tokens: u64,
}

/// Embedding failures. Errors that an outside library reports (URL
/// parsing, transport, JSON) arrive here as their message text.
#[derive(Debug, Clone, PartialEq, Eq)]
pub enum EmbeddingError {
    InvalidProfile(String),
    InvalidInput(String),
    InvalidBaseUrl(String),
    InvalidAuthorization,
    Request(String),
    Http { status: u16, body: String },
    InvalidResponse(String),
    ResponseTooLarge,
    DecodeResponse(String),
    SerializeProfile(String),
}

pub open spec fn identifier_valid(value: Seq<char>) -> bool {
    !all_ws(value) && value.len() <= 256
}

/// What validating a profile reports: the first rule it breaks.
pub open spec fn profile_problem(profile: EmbeddingProfile) -> Option<Seq<char>> {
    if !identifier_valid(profile.provider_id@) {
        Some("provider_id must contain 1 to 256 characters"@)
    } else if !identifier_valid(profile.endpoint_id@) {
        Some("endpoint_id must contain 1 to 256 characters"@)
    } else if !identifier_valid(profile.model@) {
        Some("model must contain 1 to 256 characters"@)
    } else if profile.dimension == 0 || profile.dimension > MAX_EMBEDDING_DIMENSION {
        Some("dimension must be between 1 and 8192"@)
    } else if profile.model_revision matches Some(revision) && !identifier_valid(revision@) {
        Some("model_revision must be omitted or contain 1 to 256 characters"@)
    } else if utf8_len(profile.query_prefix@) > 4096 || utf8_len(profile.document_prefix@) > 4096 {
        Some("embedding prefixes must not exceed 4096 bytes"@)
    } else {
        None
    }
}

fn identifier_ok(value: &str) -> (ok: bool)
    ensures
        ok == identifier_valid(value@),
{
    !is_blank(value) && char_count(value) <= 256
}

impl EmbeddingProfile {
    /// Checks the identifiers, the dimension, the revision and the prefixes.
    pub fn validate(&self) -> (result: Result<(), EmbeddingError>)
        ensures
            match profile_problem(*self) {
                None => result is Ok,
                Some(message) => result matches Err(EmbeddingError::InvalidProfile(m)) && m@ == message,
            },
    {
        if !identifier_ok(self.provider_id.as_str()) {
            return Err(
                EmbeddingError::InvalidProfile(String::from_str("provider_id must contain 1 to 256 characters")),
            );
        }
        if !identifier_ok(self.endpoint_id.as_str()) {
            return Err(
                EmbeddingError::InvalidProfile(String::from_str("endpoint_id must contain 1 to 256 characters")),
            );
        }
        if !identifier_ok(self.model.as_str()) {
            return Err(EmbeddingError::InvalidProfile(String::from_str("model must contain 1 to 256 characters")));
        }
        if self.dimension == 0 || self.dimension > MAX_EMBEDDING_DIMENSION {
            return Err(EmbeddingError::InvalidProfile(String::from_str("dimension must be between 1 and 8192")));
        }
        match &self.model_revision {
            Some(revision) => {
                if !identifier_ok(revision.as_str()) {
                    return Err(
                        EmbeddingError::InvalidProfile(
                            String::from_str("model_revision must be omitted or contain 1 to 256 characters"),
                        ),
                    );
                }
            },
            None => {},
        }
        if utf8_len_exceeds(self.query_prefix.as_str(), 4096) || utf8_len_exceeds(
            self.document_prefix.as_str(),
            4096,
        ) {
            return Err(
                EmbeddingError::InvalidProfile(String::from_str("embedding prefixes must not exceed 4096 bytes")),
            );
        }
        Ok(())
    }

    /// The identity of the vector space this profile produces, from the
    /// profile's canonical JSON encoding: a versioned SHA-256 digest.
    pub fn vector_space_id(&self, canonical_json: &[u8]) -> (result: Result<String, EmbeddingError>)
        ensures
            match profile_problem(*self) {
                None => result matches Ok(id) && id@ == "momo-embedding-v1:"@ + sha256_hex_of(
                    canonical_json@,
                ),
                Some(message) => result matches Err(EmbeddingError::InvalidProfile(m)) && m@ == message,
            },
    {
        match self.validate() {
            Err(error) => Err(error),
            Ok(()) => {
                let mut id = String::from_str("momo-embedding-v1:");
                push_str(&mut id, sha256_hex(canonical_json).as_str());
                Ok(id)
            },
        }
    }

    /// The texts sent for a batch: each input behind its purpose's prefix.
    pub fn prepared_texts(&self, inputs: &[EmbeddingInput]) -> (texts: Vec<String>)
        ensures
            texts@.len() == inputs@.len(),
            forall|i: int|
                0 <= i < inputs@.len() ==> (#[trigger] texts@[i])@ == (match inputs@[i].purpose {
                    EmbeddingPurpose::Query => self.query_prefix@,
                    EmbeddingPurpose::Document => self.document_prefix@,
                }) + inputs@[i].text@,
    {
        let mut texts: Vec<String> = Vec::new();
        let mut i: usize = 0;
        while i < inputs.len()
            invariant
                i <= inputs@.len(),
                texts@.len() == i,
                forall|k: int|
                    0 <= k < i ==> (#[trigger] texts@[k])@ == (match inputs@[k].purpose {
                        EmbeddingPurpose::Query => self.query_prefix@,
                        EmbeddingPurpose::Document => self.document_prefix@,
                    }) + inputs@[k].text@,
            decreases inputs@.len() - i,
        {
            let input = &inputs[i];
            let mut text = match input.purpose {
                EmbeddingPurpose::Query => self.query_prefix.clone(),
                EmbeddingPurpose::Document => self.document_prefix.clone(),
            };
            push_str(&mut text, input.text.as_str());
            texts.push(text);
            i += 1;
        }
        texts
    }
}

/// Settings of an embedding request: where, with which profile, and how
/// long to wait.
#[derive(Clone)]
pub struct EmbeddingRequestConfig {
    pub endpoint: EmbeddingEndpoint,
    pub profile: EmbeddingProfile,
    pub timeout_seconds: u64,
}

impl EmbeddingRequestConfig {
    /// Checks the timeout (1 to 600 seconds), then the profile.
    pub fn validate(&self) -> (result: Result<(), EmbeddingError>)
        ensures
            !(1 <= self.timeout_seconds <= MAX_EMBEDDING_TIMEOUT_SECONDS) ==> (result matches Err(
                EmbeddingError::InvalidProfile(m),
            ) && m@ == "embedding timeout must be between 1 and 600 seconds"@),
            1 <= self.timeout_seconds <= MAX_EMBEDDING_TIMEOUT_SECONDS ==> match profile_problem(
                self.profile,
            ) {
                None => result is Ok,
                Some(message) => result matches Err(EmbeddingError::InvalidProfile(m)) && m@ == message,
            },
    {
        if self.timeout_seconds == 0 || self.timeout_seconds > MAX_EMBEDDING_TIMEOUT_SECONDS {
            return Err(
                EmbeddingError::InvalidProfile(
                    String::from_str("embedding timeout must be between 1 and 600 seconds"),
                ),
            );
        }
        self.profile.validate()
    }
}


// ---------------------------------------------------------------------------
// Reply bodies
// ---------------------------------------------------------------------------

/// A reply declared longer than the response limit is refused unread.
pub fn check_response_length(length: Option<u64>) -> (result: Result<(), EmbeddingError>)
    ensures
        declared_within(length, MAX_EMBEDDING_RESPONSE_BYTES) ==> result is Ok,
        !declared_within(length, MAX_EMBEDDING_RESPONSE_BYTES) ==> result matches Err(
            EmbeddingError::ResponseTooLarge,
        ),
{
    if declared_length_within(length, MAX_EMBEDDING_RESPONSE_BYTES) {
        Ok(())
    } else {
        Err(EmbeddingError::ResponseTooLarge)
    }
}

/// Adds a chunk of the reply, refusing a body past the response limit.
pub fn append_response_chunk(body: &mut Vec<u8>, chunk: &[u8]) -> (result: Result<(), EmbeddingError>)
    ensures
        old(body)@.len() + chunk@.len() <= MAX_EMBEDDING_RESPONSE_BYTES ==> result is Ok && final(body)@
            == old(body)@ + chunk@,
        old(body)@.len() + chunk@.len() > MAX_EMBEDDING_RESPONSE_BYTES ==> (result matches Err(
            EmbeddingError::ResponseTooLarge,
        ) && final(body)@ == old(body)@),
{
    if append_within(body, chunk, MAX_EMBEDDING_RESPONSE_BYTES) {
        Ok(())
    } else {
        Err(EmbeddingError::ResponseTooLarge)
    }
}

/// Keeps what fits of an error reply's chunk; `true` once the kept part is
/// full and reading can stop.
pub fn append_error_chunk(body: &mut Vec<u8>, chunk: &[u8]) -> (full: bool)
    requires
        old(body)@.len() <= MAX_ERROR_BODY_BYTES,
    ensures
        final(body)@ == old(body)@ + chunk@.take(
            if chunk@.len() <= MAX_ERROR_BODY_BYTES - old(body)@.len() {
                chunk@.len() as int
            } else {
                MAX_ERROR_BODY_BYTES - old(body)@.len()
            },
        ),
        full == (final(body)@.len() == MAX_ERROR_BODY_BYTES),
{
    append_truncated(body, chunk, MAX_ERROR_BODY_BYTES)
}

// ---------------------------------------------------------------------------
// Batches
// ---------------------------------------------------------------------------

/// What is wrong with input `i`, given the inputs before it passed.
pub open spec fn input_problem(inputs: Seq<EmbeddingInput>, i: int) -> Option<Seq<char>> {
    let input = inputs[i];
    if all_ws(input.id@) || input.id@.len() > 512 || exists|j: int|
        0 <= j < i && (#[trigger] inputs[j]).id@ == input.id@ {
        Some("input ids must be unique and contain 1 to 512 characters"@)
    } else if all_ws(input.text@) || utf8_len(input.text@) > MAX_EMBEDDING_INPUT_BYTES {
        Some("each input must contain 1 to 1048576 bytes"@)
    } else {
        None
    }
}

pub open spec fn texts_bytes(inputs: Seq<EmbeddingInput>) -> int
    decreases inputs.len(),
{
    if inputs.len() == 0 {
        0
    } else {
        texts_bytes(inputs.drop_last()) + utf8_len(inputs.last().text@)
    }
}

/// What validating a batch reports.
pub open spec fn inputs_verdict(inputs: Seq<EmbeddingInput>) -> Result<(), Seq<char>> {
    if inputs.len() == 0 || inputs.len() > MAX_EMBEDDING_BATCH_SIZE {
        Err("a batch must contain 1 to 128 inputs"@)
    } else if exists|i: int| 0 <= i < inputs.len() && #[trigger] input_problem(inputs, i) is Some {
        let i = choose|i: int|
            0 <= i < inputs.len() && #[trigger] input_problem(inputs, i) is Some && forall|j: int|
                0 <= j < i ==> input_problem(inputs, j) is None;
        Err(input_problem(inputs, i)->Some_0)
    } else if texts_bytes(inputs) > MAX_EMBEDDING_BATCH_BYTES {
        Err("batch input exceeds 4194304 bytes"@)
    } else {
        Ok(())
    }
}

fn duplicate_id(inputs: &[EmbeddingInput], i: usize) -> (found: bool)
    requires
        i < inputs@.len(),
    ensures
        found == exists|j: int| 0 <= j < i && (#[trigger] inputs@[j]).id@ == inputs@[i as int].id@,
{
    let mut j: usize = 0;
    while j < i
        invariant
            i < inputs@.len(),
            j <= i,
            forall|k: int| 0 <= k < j ==> (#[trigger] inputs@[k]).id@ != inputs@[i as int].id@,
        decreases i - j,
    {
        if str_eq(inputs[j].id.as_str(), inputs[i].id.as_str()) {
            return true;
        }
        j += 1;
    }
    false
}

/// Checks a batch: 1 to 128 inputs with unique ids of 1 to 512 characters,
/// each text of 1 byte to 1 MiB, 4 MiB in all.
pub fn validate_inputs(inputs: &[EmbeddingInput]) -> (result: Result<(), EmbeddingError>)
    ensures
        match inputs_verdict(inputs@) {
            Ok(()) => result is Ok,
            Err(message) => result matches Err(EmbeddingError::InvalidInput(m)) && m@ == message,
        },
{
    if inputs.len() == 0 || inputs.len() > MAX_EMBEDDING_BATCH_SIZE {
        return Err(EmbeddingError::InvalidInput(String::from_str("a batch must contain 1 to 128 inputs")));
    }
    let mut total: usize = 0;
    let mut i: usize = 0;
    while i < inputs.len()
        invariant
            0 < inputs@.len() <= MAX_EMBEDDING_BATCH_SIZE,
            i <= inputs@.len(),
            forall|j: int| 0 <= j < i ==> #[trigger] input_problem(inputs@, j) is None,
            total == (if texts_bytes(inputs@.subrange(0, i as int)) > usize::MAX {
                usize::MAX as int
            } else {
                texts_bytes(inputs@.subrange(0, i as int))
            }),
        decreases inputs@.len() - i,
    {
        let input = &inputs[i];
        if is_blank(input.id.as_str()) || char_count(input.id.as_str()) > 512 || duplicate_id(inputs, i) {
            proof {
                lemma_first_input_problem(inputs@, i as int);
            }
            return Err(
                EmbeddingError::InvalidInput(
                    String::from_str("input ids must be unique and contain 1 to 512 characters"),
                ),
            );
        }
        if is_blank(input.text.as_str()) || utf8_len_exceeds(input.text.as_str(), MAX_EMBEDDING_INPUT_BYTES) {
            proof {
                lemma_first_input_problem(inputs@, i as int);
            }
            return Err(
                EmbeddingError::InvalidInput(String::from_str("each input must contain 1 to 1048576 bytes")),
            );
        }
        assert(input_problem(inputs@, i as int) is None);
        assert(inputs@.subrange(0, i + 1).drop_last() =~= inputs@.subrange(0, i as int));
        let width = crate::text::text_bytes(input.text.as_str());
        total = total.saturating_add(width);
        i += 1;
    }
    assert(inputs@.subrange(0, i as int) =~= inputs@);
    proof {
        assert(!exists|k: int| 0 <= k < inputs@.len() && #[trigger] input_problem(inputs@, k) is Some);
    }
    if total > MAX_EMBEDDING_BATCH_BYTES {
        return Err(EmbeddingError::InvalidInput(String::from_str("batch input exceeds 4194304 bytes")));
    }
    Ok(())
}

proof fn lemma_first_input_problem(inputs: Seq<EmbeddingInput>, i: int)
    requires
        0 < inputs.len() <= MAX_EMBEDDING_BATCH_SIZE,
        0 <= i < inputs.len(),
        input_problem(inputs, i) is Some,
        forall|j: int| 0 <= j < i ==> #[trigger] input_problem(inputs, j) is None,
    ensures
        inputs_verdict(inputs) == Err::<(), Seq<char>>(input_problem(inputs, i)->Some_0),
{
    let c = choose|c: int|
        0 <= c < inputs.len() && #[trigger] input_problem(inputs, c) is Some && forall|j: int|
            0 <= j < c ==> input_problem(inputs, j) is None;
    assert(0 <= c < inputs.len() && input_problem(inputs, c) is Some && forall|j: int|
        0 <= j < c ==> input_problem(inputs, j) is None);
    if c < i {
        assert(input_problem(inputs, c) is None);
    }
    if c > i {
        assert(input_problem(inputs, i) is None);
    }
}


/// How one returned vector fared in the numeric checks made where its
/// values are held.
#[derive(Debug, Clone, Copy, PartialEq, Eq, Structural)]
pub enum VectorCheck {
    Valid,
    /// Wrong dimension, a value that is not finite, or all zeros.
    Invalid,
    /// Its norm is zero or not finite, so it cannot be normalised.
    NotNormalizable,
}

/// One item of a provider's response, as far as its shape goes.
#[derive(Debug, Clone)]
pub struct ResponseItemShape {
    pub index: usize,
    pub object: Option<String>,
    pub vector: VectorCheck,
}

pub open spec fn object_is(object: Option<String>, expected: Seq<char>) -> bool {
    object matches Some(text) ==> text@ == expected
}

/// What checking item `k` reports, given the input count and the indices of
/// the items before it.
pub open spec fn item_problem(items: Seq<ResponseItemShape>, count: int, dimension: usize, k: int) -> Option<Seq<char>> {
    let item = items[k];
    if item.index >= count || exists|j: int| 0 <= j < k && (#[trigger] items[j]).index == item.index {
        Some("response indexes must be unique and cover the request batch"@)
    } else if !object_is(item.object, "embedding"@) {
        Some("vector "@ + decimal_text(item.index as nat) + " object must be \"embedding\" when present"@)
    } else if item.vector == VectorCheck::Invalid {
        Some(
            "vector "@ + decimal_text(item.index as nat) + " does not match dimension "@ + decimal_text(
                dimension as nat,
            ) + " or contains invalid values"@,
        )
    } else if item.vector == VectorCheck::NotNormalizable {
        Some("vector norm is zero or non-finite"@)
    } else {
        None
    }
}

/// What checking a response reports before its vectors are used.
pub open spec fn response_problem(
    profile: EmbeddingProfile,
    count: int,
    model: Seq<char>,
    object: Option<String>,
    usage: Option<EmbeddingUsage>,
    items: Seq<ResponseItemShape>,
) -> Option<Seq<char>> {
    if model != profile.model@ {
        Some(
            "provider reported model "@ + debug_quoted_text(model) + ", expected "@ + debug_quoted_text(
                profile.model@,
            ),
        )
    } else if !object_is(object, "list"@) {
        Some("response object must be \"list\" when present"@)
    } else if usage matches Some(u) && u.total_tokens < u.prompt_tokens {
        Some("response usage total_tokens must not be lower than prompt_tokens"@)
    } else if items.len() != count {
        Some(
            "expected "@ + decimal_text(count as nat) + " vectors, received "@ + decimal_text(
                items.len() as nat,
            ),
        )
    } else if exists|k: int| 0 <= k < items.len() && #[trigger] item_problem(items, count, profile.dimension, k) is Some {
        let k = choose|k: int|
            0 <= k < items.len() && #[trigger] item_problem(items, count, profile.dimension, k) is Some
                && forall|j: int| 0 <= j < k ==> item_problem(items, count, profile.dimension, j) is None;
        item_problem(items, count, profile.dimension, k)
    } else {
        None
    }
}

fn object_matches(object: &Option<String>, expected: &str) -> (ok: bool)
    ensures
        ok == object_is(*object, expected@),
{
    match object {
        Some(text) => str_eq(text.as_str(), expected),
        None => true,
    }
}

fn response_error(message: String) -> (error: EmbeddingError)
    ensures
        error matches EmbeddingError::InvalidResponse(m) && m@ == message@,
{
    EmbeddingError::InvalidResponse(message)
}

fn item_message(item: &ResponseItemShape, dimension: usize, kind: u8) -> (message: String)
    ensures
        kind == 0 ==> message@ == "vector "@ + decimal_text(item.index as nat)
            + " object must be \"embedding\" when present"@,
        kind != 0 ==> message@ == "vector "@ + decimal_text(item.index as nat)
            + " does not match dimension "@ + decimal_text(dimension as nat)
            + " or contains invalid values"@,
{
    let mut message = String::from_str("vector ");
    push_str(&mut message, format_decimal(item.index as u64).as_str());
    if kind == 0 {
        push_str(&mut message, " object must be \"embedding\" when present");
    } else {
        push_str(&mut message, " does not match dimension ");
        push_str(&mut message, format_decimal(dimension as u64).as_str());
        push_str(&mut message, " or contains invalid values");
    }
    message
}


/// Distinct indices below `count` on `count` items cover every index.
proof fn lemma_indices_cover(items: Seq<ResponseItemShape>, count: int, c: int)
    requires
        items.len() == count,
        0 <= c < count,
        forall|j: int| 0 <= j < count ==> #[trigger] items[j].index < count,
        forall|a: int, b: int| 0 <= a < b < count ==> #[trigger] items[a].index != #[trigger] items[b].index,
    ensures
        exists|j: int| 0 <= j < count && (#[trigger] items[j]).index == c,
{
    let positions = vstd::set_lib::set_int_range(0, count);
    let f = |j: int| items[j].index as int;
    vstd::set_lib::lemma_int_range(0, count);
    assert(vstd::relations::injective_on(f, positions)) by {
        assert forall|x: int, y: int| positions.contains(x) && positions.contains(y) && #[trigger] f(x)
            == #[trigger] f(y) implies x == y by {
            if x < y {
                assert(items[x].index != items[y].index);
            } else if y < x {
                assert(items[y].index != items[x].index);
            }
        }
    }
    let image = positions.map(f);
    vstd::set_lib::lemma_map_size(positions, image, f);
    assert(image.subset_of(positions)) by {
        assert forall|v: int| #[trigger] image.contains(v) implies positions.contains(v) by {
            let j = choose|j: int| positions.contains(j) && f(j) == v;
            assert(items[j].index < count);
        }
    }
    vstd::set_lib::lemma_subset_equality(image, positions);
    assert(positions.contains(c));
    assert(image.contains(c));
    let j = choose|j: int| positions.contains(j) && f(j) == c;
    assert(items[j].index == c);
}

proof fn lemma_first_item_problem(items: Seq<ResponseItemShape>, count: int, dimension: usize, k: int)
    requires
        0 <= k < items.len(),
        item_problem(items, count, dimension, k) is Some,
        forall|j: int| 0 <= j < k ==> #[trigger] item_problem(items, count, dimension, j) is None,
    ensures
        ({
            let c = choose|c: int|
                0 <= c < items.len() && #[trigger] item_problem(items, count, dimension, c) is Some
                    && forall|j: int| 0 <= j < c ==> item_problem(items, count, dimension, j) is None;
            c == k
        }),
{
    let c = choose|c: int|
        0 <= c < items.len() && #[trigger] item_problem(items, count, dimension, c) is Some && forall|j: int|
            0 <= j < c ==> item_problem(items, count, dimension, j) is None;
    assert(0 <= c < items.len() && item_problem(items, count, dimension, c) is Some && forall|j: int|
        0 <= j < c ==> item_problem(items, count, dimension, j) is None);
    if c < k {
        assert(item_problem(items, count, dimension, c) is None);
    }
    if c > k {
        assert(item_problem(items, count, dimension, k) is None);
    }
}

impl EmbeddingProfile {
    /// Checks a provider's response against this profile and the batch of
    /// `count` inputs: the model, the response and item objects, the usage,
    /// one vector per input with each index used once, and each vector's
    /// numeric check. On success, gives for each input the position of its
    /// vector in the response.
    #[verifier::spinoff_prover]
    pub fn check_response_shape(
        &self,
        count: usize,
        model: &str,
        object: &Option<String>,
        usage: &Option<EmbeddingUsage>,
        items: &[ResponseItemShape],
    ) -> (result: Result<Vec<usize>, EmbeddingError>)
        ensures
            match response_problem(*self, count as int, model@, *object, *usage, items@) {
                Some(message) => result matches Err(EmbeddingError::InvalidResponse(m)) && m@ == message,
                None => result matches Ok(order) && order@.len() == count && forall|i: int|
                    0 <= i < count ==> #[trigger] order@[i] < items@.len() && items@[order@[i] as int].index == i,
            },
    {
        if !str_eq(model, self.model.as_str()) {
            let mut message = String::from_str("provider reported model ");
            push_str(&mut message, debug_quoted(model).as_str());
            push_str(&mut message, ", expected ");
            push_str(&mut message, debug_quoted(self.model.as_str()).as_str());
            return Err(response_error(message));
        }
        if !object_matches(object, "list") {
            return Err(response_error(String::from_str("response object must be \"list\" when present")));
        }
        match usage {
            Some(u) => {
                if u.total_tokens < u.prompt_tokens {
                    return Err(
                        response_error(
                            String::from_str("response usage total_tokens must not be lower than prompt_tokens"),
                        ),
                    );
                }
            },
            None => {},
        }
        if items.len() != count {
            let mut message = String::from_str("expected ");
            push_str(&mut message, format_decimal(count as u64).as_str());
            push_str(&mut message, " vectors, received ");
            push_str(&mut message, format_decimal(items.len() as u64).as_str());
            return Err(response_error(message));
        }
        let mut slots: Vec<Option<usize>> = Vec::new();
        let mut s: usize = 0;
        while s < count
            invariant
                s <= count,
                slots@.len() == s,
                forall|i: int| 0 <= i < s ==> #[trigger] slots@[i] is None,
            decreases count - s,
        {
            slots.push(None);
            s += 1;
        }
        let ghost dimension = self.dimension;
        let mut k: usize = 0;
        while k < items.len()
            invariant
                items@.len() == count,
                dimension == self.dimension,
                model@ == self.model@,
                object_is(*object, "list"@),
                !(*usage matches Some(u) && u.total_tokens < u.prompt_tokens),
                slots@.len() == count,
                k <= count,
                forall|j: int| 0 <= j < k ==> #[trigger] item_problem(items@, count as int, dimension, j) is None,
                forall|i: int|
                    0 <= i < count ==> match #[trigger] slots@[i] {
                        Some(p) => p < k && items@[p as int].index == i,
                        None => forall|j: int| 0 <= j < k ==> (#[trigger] items@[j]).index != i,
                    },
            decreases count - k,
        {
            let item = &items[k];
            let taken = item.index >= count || slots[item.index].is_some();
            proof {
                if item.index < count && slots@[item.index as int] is Some {
                    let p = slots@[item.index as int]->Some_0;
                    assert(items@[p as int].index == item.index);
                }
                if !taken {
                    assert forall|j: int| 0 <= j < k implies (#[trigger] items@[j]).index != item.index by {
                        assert(slots@[item.index as int] is None);
                    }
                }
            }
            if taken {
                proof {
                    lemma_first_item_problem(items@, count as int, dimension, k as int);
                }
                return Err(
                    response_error(String::from_str("response indexes must be unique and cover the request batch")),
                );
            }
            if !object_matches(&item.object, "embedding") {
                proof {
                    lemma_first_item_problem(items@, count as int, dimension, k as int);
                }
                return Err(response_error(item_message(item, self.dimension, 0)));
            }
            match item.vector {
                VectorCheck::Invalid => {
                    proof {
                        lemma_first_item_problem(items@, count as int, dimension, k as int);
                    }
                    return Err(response_error(item_message(item, self.dimension, 1)));
                },
                VectorCheck::NotNormalizable => {
                    proof {
                        lemma_first_item_problem(items@, count as int, dimension, k as int);
                    }
                    return Err(response_error(String::from_str("vector norm is zero or non-finite")));
                },
                VectorCheck::Valid => {},
            }
            assert(item_problem(items@, count as int, dimension, k as int) is None);
            let ghost before = slots@;
            slots.set(item.index, Some(k));
            proof {
                assert forall|i: int|
                    0 <= i < count implies match #[trigger] slots@[i] {
                        Some(p) => p < k + 1 && items@[p as int].index == i,
                        None => forall|j: int| 0 <= j < k + 1 ==> (#[trigger] items@[j]).index != i,
                    } by {
                    if i != item.index {
                        assert(slots@[i] == before[i]);
                    }
                }
            }
            k += 1;
        }
        proof {
            assert(!exists|j: int| 0 <= j < items@.len() && #[trigger] item_problem(items@, count as int, dimension, j) is Some);
            assert forall|j: int| 0 <= j < count implies #[trigger] items@[j].index < count by {
                assert(item_problem(items@, count as int, dimension, j) is None);
            }
            assert forall|a: int, b: int| 0 <= a < b < count implies #[trigger] items@[a].index
                != #[trigger] items@[b].index by {
                assert(item_problem(items@, count as int, dimension, b) is None);
            }
        }
        let mut order: Vec<usize> = Vec::new();
        let mut i: usize = 0;
        while i < count
            invariant
                items@.len() == count,
                slots@.len() == count,
                forall|c: int|
                    0 <= c < count ==> match #[trigger] slots@[c] {
                        Some(p) => p < count && items@[p as int].index == c,
                        None => forall|j: int| 0 <= j < count ==> (#[trigger] items@[j]).index != c,
                    },
                forall|j: int| 0 <= j < count ==> #[trigger] items@[j].index < count,
                forall|a: int, b: int| 0 <= a < b < count ==> #[trigger] items@[a].index
                    != #[trigger] items@[b].index,
                i <= count,
                order@.len() == i,
                forall|c: int| 0 <= c < i ==> #[trigger] order@[c] < items@.len() && items@[order@[c] as int].index == c,
            decreases count - i,
        {
            match slots[i] {
                Some(p) => {
                    order.push(p);
                },
                None => {
                    proof {
                        lemma_indices_cover(items@, count as int, i as int);
                        assert(false);
                    }
                    return Err(
                        response_error(String::from_str("response indexes must be unique and cover the request batch")),
                    );
                },
            }
            i += 1;
        }
        Ok(order)
    }
}


/// The timeout of an embedding request that names none.
pub fn default_embedding_timeout_seconds() -> (seconds: u64)
    ensures
        seconds == DEFAULT_EMBEDDING_TIMEOUT_SECONDS,
{
    DEFAULT_EMBEDDING_TIMEOUT_SECONDS
}

/// How many documents one index rebuild step embeds unless told otherwise.
pub fn default_index_batch_size() -> (size: usize)
    ensures
        size == 64,
{
    64
}

/// How the semantic-graph vector index is rebuilt.
#[derive(Debug, Clone, Copy, PartialEq, Eq, Structural)]
pub enum NsgIndexMode {
    Full,
    Incremental,
}

/// Rebuilds are incremental unless told otherwise.
pub fn default_index_mode() -> (mode: NsgIndexMode)
    ensures
        mode == NsgIndexMode::Incremental,
{
    NsgIndexMode::Incremental
}


// ---------------------------------------------------------------------------
// Rebuilding the semantic-graph vector index
// ---------------------------------------------------------------------------

/// A rebuild embeds documents in batches of 1 to `MAX_EMBEDDING_BATCH_SIZE`.
pub fn check_index_batch_size(batch_size: usize) -> (r: Result<(), String>)
    ensures
        r is Ok <==> 1 <= batch_size <= MAX_EMBEDDING_BATCH_SIZE,
        r matches Err(m) ==> m@ == "embedding batch_size must be between 1 and 128"@,
{
    if batch_size == 0 || batch_size > MAX_EMBEDDING_BATCH_SIZE {
        Err(String::from_str("embedding batch_size must be between 1 and 128"))
    } else {
        Ok(())
    }
}

/// A semantic-graph node to embed: its id, the hash of its source, and the
/// text sent to the provider.
#[derive(Debug, Clone)]
pub struct IndexDocument {
    pub node_id: String,
    pub source_hash: String,
    pub content: String,
}

/// A stored vector of the index (the vector itself stays with the caller).
#[derive(Debug, Clone)]
pub struct ExistingVector {
    pub node_id: String,
    pub source_hash: String,
    pub dimension: usize,
}

/// What a rebuild does: the parsed Space id; the documents whose stored
/// vector is reused, as (document, stored vector) positions; the documents
/// to embed, in order; and those split into batches.
#[derive(Debug, Clone)]
pub struct NsgReindexPlan {
    pub scope_id: u128,
    pub reused: Vec<(usize, usize)>,
    pub pending: Vec<usize>,
    pub batches: Vec<Vec<usize>>,
}

pub open spec fn record_matches(record: ExistingVector, document: IndexDocument, dimension: usize) -> bool {
    &&& record.dimension == dimension
    &&& record.node_id@ == document.node_id@
    &&& record.source_hash@ == document.source_hash@
}

/// The last of the first `n` stored vectors that fits the document.
pub open spec fn last_match(existing: Seq<ExistingVector>, document: IndexDocument, dimension: usize, n: nat) -> Option<
    int,
>
    decreases n,
{
    if n == 0 {
        None
    } else if record_matches(existing[n - 1], document, dimension) {
        Some(n - 1)
    } else {
        last_match(existing, document, dimension, (n - 1) as nat)
    }
}

/// The stored vector a document reuses: only in incremental mode, the last
/// one of the profile's dimension with the document's node and source hash.
pub open spec fn reuse_of(
    existing: Seq<ExistingVector>,
    document: IndexDocument,
    dimension: usize,
    mode: NsgIndexMode,
) -> Option<int> {
    if mode == NsgIndexMode::Incremental {
        last_match(existing, document, dimension, existing.len())
    } else {
        None
    }
}

pub open spec fn reused_plan(
    documents: Seq<IndexDocument>,
    existing: Seq<ExistingVector>,
    dimension: usize,
    mode: NsgIndexMode,
    n: nat,
) -> Seq<(usize, usize)>
    decreases n,
{
    if n == 0 {
        Seq::empty()
    } else {
        let before = reused_plan(documents, existing, dimension, mode, (n - 1) as nat);
        match reuse_of(existing, documents[n - 1], dimension, mode) {
            Some(j) => before.push(((n - 1) as usize, j as usize)),
            None => before,
        }
    }
}

pub open spec fn pending_plan(
    documents: Seq<IndexDocument>,
    existing: Seq<ExistingVector>,
    dimension: usize,
    mode: NsgIndexMode,
    n: nat,
) -> Seq<usize>
    decreases n,
{
    if n == 0 {
        Seq::empty()
    } else {
        let before = pending_plan(documents, existing, dimension, mode, (n - 1) as nat);
        match reuse_of(existing, documents[n - 1], dimension, mode) {
            Some(_) => before,
            None => before.push((n - 1) as usize),
        }
    }
}

/// The items in consecutive batches of `size`, the last one possibly shorter.
pub open spec fn chunked(items: Seq<usize>, size: nat) -> Seq<Seq<usize>>
    decreases items.len(),
{
    if items.len() == 0 || size == 0 {
        Seq::empty()
    } else if items.len() <= size {
        seq![items]
    } else {
        seq![items.take(size as int)] + chunked(items.skip(size as int), size)
    }
}

fn last_matching_vector(existing: &Vec<ExistingVector>, document: &IndexDocument, dimension: usize) -> (found: Option<
    usize,
>)
    ensures
        match last_match(existing@, *document, dimension, existing@.len()) {
            Some(j) => found == Some(j as usize),
            None => found is None,
        },
{
    let mut found: Option<usize> = None;
    let mut j: usize = 0;
    while j < existing.len()
        invariant
            j <= existing@.len(),
            match last_match(existing@, *document, dimension, j as nat) {
                Some(k) => found == Some(k as usize),
                None => found is None,
            },
        decreases existing@.len() - j,
    {
        let record = &existing[j];
        if record.dimension == dimension && str_eq(record.node_id.as_str(), document.node_id.as_str()) && str_eq(
            record.source_hash.as_str(),
            document.source_hash.as_str(),
        ) {
            found = Some(j);
        }
        j += 1;
    }
    found
}

/// Plans a rebuild of a Space's semantic-graph vectors: the Space id must
/// parse and the batch size be in range; in incremental mode a document
/// whose node and source hash still match a stored vector of the profile's
/// dimension keeps it (the last such vector); every other document is
/// embedded, in document order, in batches of `batch_size`.
pub fn plan_nsg_reindex(
    scope_id: &str,
    mode: NsgIndexMode,
    dimension: usize,
    batch_size: usize,
    documents: &Vec<IndexDocument>,
    existing: &Vec<ExistingVector>,
) -> (plan: Result<NsgReindexPlan, String>)
    ensures
        match uuid_parse(scope_id@) {
            Err(message) => plan matches Err(m) && m@ == message,
            Ok(id) => if !(1 <= batch_size <= MAX_EMBEDDING_BATCH_SIZE) {
                plan matches Err(m) && m@ == "embedding batch_size must be between 1 and 128"@
            } else {
                plan matches Ok(p) && {
                    &&& p.scope_id == id
                    &&& p.reused@ == reused_plan(documents@, existing@, dimension, mode, documents@.len())
                    &&& p.pending@ == pending_plan(documents@, existing@, dimension, mode, documents@.len())
                    &&& p.batches@.map_values(|b: Vec<usize>| b@) == chunked(p.pending@, batch_size as nat)
                }
            },
        },
{
    let id = match parse_uuid(scope_id) {
        Ok(id) => id,
        Err(message) => return Err(message),
    };
    match check_index_batch_size(batch_size) {
        Err(message) => return Err(message),
        Ok(()) => {},
    }
    let incremental = match mode {
        NsgIndexMode::Incremental => true,
        NsgIndexMode::Full => false,
    };
    let mut reused: Vec<(usize, usize)> = Vec::new();
    let mut pending: Vec<usize> = Vec::new();
    let mut i: usize = 0;
    while i < documents.len()
        invariant
            i <= documents@.len(),
            incremental == (mode == NsgIndexMode::Incremental),
            reused@ == reused_plan(documents@, existing@, dimension, mode, i as nat),
            pending@ == pending_plan(documents@, existing@, dimension, mode, i as nat),
        decreases documents@.len() - i,
    {
        let found = if incremental {
            last_matching_vector(existing, &documents[i], dimension)
        } else {
            None
        };
        match found {
            Some(j) => reused.push((i, j)),
            None => pending.push(i),
        }
        i += 1;
    }
    let mut batches: Vec<Vec<usize>> = Vec::new();
    let mut start: usize = 0;
    assert(pending@.skip(0) =~= pending@);
    assert(batches@.map_values(|b: Vec<usize>| b@) + chunked(pending@, batch_size as nat) =~= chunked(
        pending@,
        batch_size as nat,
    ));
    while start < pending.len()
        invariant
            1 <= batch_size,
            start <= pending@.len(),
            batches@.map_values(|b: Vec<usize>| b@) + chunked(pending@.skip(start as int), batch_size as nat)
                == chunked(pending@, batch_size as nat),
        decreases pending@.len() - start,
    {
        let end = if pending.len() - start <= batch_size {
            pending.len()
        } else {
            start + batch_size
        };
        let mut batch: Vec<usize> = Vec::new();
        let mut k: usize = start;
        while k < end
            invariant
                start <= k <= end <= pending@.len(),
                batch@ == pending@.subrange(start as int, k as int),
            decreases end - k,
        {
            batch.push(pending[k]);
            k += 1;
            assert(batch@ =~= pending@.subrange(start as int, k as int));
        }
        let ghost rest = pending@.skip(start as int);
        let ghost before = batches@.map_values(|b: Vec<usize>| b@);
        proof {
            if rest.len() <= batch_size {
                assert(batch@ =~= rest);
                assert(pending@.skip(end as int) =~= Seq::<usize>::empty());
            } else {
                assert(batch@ =~= rest.take(batch_size as int));
                assert(rest.skip(batch_size as int) =~= pending@.skip(end as int));
            }
        }
        batches.push(batch);
        assert(batches@.map_values(|b: Vec<usize>| b@) =~= before.push(batch@));
        proof {
            if rest.len() <= batch_size {
                assert(chunked(rest, batch_size as nat) =~= seq![batch@]);
                assert(chunked(pending@.skip(end as int), batch_size as nat) =~= Seq::<Seq<usize>>::empty());
                assert(before.push(batch@) + Seq::<Seq<usize>>::empty() =~= before + seq![batch@]);
            } else {
                assert(before.push(batch@) + chunked(pending@.skip(end as int), batch_size as nat) =~= before
                    + (seq![batch@] + chunked(pending@.skip(end as int), batch_size as nat)));
            }
        }
        start = end;
    }
    proof {
        assert(pending@.skip(start as int) =~= Seq::<usize>::empty());
        assert(batches@.map_values(|b: Vec<usize>| b@) + Seq::<Seq<usize>>::empty() =~= batches@.map_values(
            |b: Vec<usize>| b@,
        ));
    }
    Ok(NsgReindexPlan { scope_id: id, reused, pending, batches })
}

/// A batch the provider returned must be of the expected vector space,
/// and each returned id must be the id of the document it pairs with.
pub fn check_embedded_batch(
    expected_space: &str,
    returned_space: &str,
    node_ids: &Vec<String>,
    vector_ids: &Vec<String>,
) -> (r: Result<(), String>)
    ensures
        returned_space@ != expected_space@ ==> (r matches Err(m) && m@
            == "embedding provider returned an unexpected vector space"@),
        returned_space@ == expected_space@ && (exists|i: int|
            0 <= i < node_ids@.len() && i < vector_ids@.len() && #[trigger] node_ids@[i]@ != vector_ids@[i]@) ==> (
        r matches Err(m) && m@ == "embedding response id did not match the NSG document"@),
        returned_space@ == expected_space@ && (forall|i: int|
            0 <= i < node_ids@.len() && i < vector_ids@.len() ==> #[trigger] node_ids@[i]@ == vector_ids@[i]@)
            ==> r is Ok,
{
    if !str_eq(expected_space, returned_space) {
        return Err(String::from_str("embedding provider returned an unexpected vector space"));
    }
    let mut i: usize = 0;
    while i < node_ids.len() && i < vector_ids.len()
        invariant
            i <= node_ids@.len(),
            expected_space@ == returned_space@,
            forall|k: int| 0 <= k < i && k < vector_ids@.len() ==> #[trigger] node_ids@[k]@ == vector_ids@[k]@,
        decreases node_ids@.len() - i,
    {
        if !str_eq(node_ids[i].as_str(), vector_ids[i].as_str()) {
            return Err(String::from_str("embedding response id did not match the NSG document"));
        }
        i += 1;
    }
    Ok(())
}

/// A vector of the rebuilt index: its node, source hash and dimension, and
/// where the caller keeps the vector.
#[derive(Debug, Clone, PartialEq, Eq)]
pub struct IndexedVector {
    pub node_id: String,
    pub source_hash: String,
    pub dimension: usize,
    pub slot: usize,
}

/// In ascending node order (equal nodes in any order).
pub open spec fn sorted_by_node(records: Seq<IndexedVector>) -> bool {
    forall|i: int, j: int| 0 <= i < j < records.len() ==> !lex_lt(#[trigger] records[j].node_id@, #[trigger] records[i].node_id@)
}

fn copy_indexed(record: &IndexedVector) -> (copy: IndexedVector)
    ensures
        copy == *record,
{
    IndexedVector {
        node_id: record.node_id.clone(),
        source_hash: record.source_hash.clone(),
        dimension: record.dimension,
        slot: record.slot,
    }
}

/// Puts the rebuilt vectors in node order (a stable insertion sort), the
/// order the index is stored in.
pub fn finish_reindex(records: &mut Vec<IndexedVector>)
    ensures
        sorted_by_node(final(records)@),
        final(records)@.to_multiset() == old(records)@.to_multiset(),
{
    broadcast use vstd::seq_lib::group_to_multiset_ensures;

    let mut sorted: Vec<IndexedVector> = Vec::new();
    let mut i: usize = 0;
    while i < records.len()
        invariant
            i <= records@.len(),
            sorted_by_node(sorted@),
            sorted@.to_multiset() == records@.take(i as int).to_multiset(),
        decreases records@.len() - i,
    {
        let record = copy_indexed(&records[i]);
        let mut p: usize = 0;
        while p < sorted.len()
            invariant_except_break
                p <= sorted@.len(),
                forall|k: int| 0 <= k < p ==> !lex_lt(record.node_id@, #[trigger] sorted@[k].node_id@),
            ensures
                p <= sorted@.len(),
                forall|k: int| 0 <= k < p ==> !lex_lt(record.node_id@, #[trigger] sorted@[k].node_id@),
                p < sorted@.len() ==> lex_lt(record.node_id@, sorted@[p as int].node_id@),
            decreases sorted@.len() - p,
        {
            match compare_keys(record.node_id.as_str(), sorted[p].node_id.as_str()) {
                KeyOrder::Before => break,
                _ => {},
            }
            p += 1;
        }
        let ghost before = sorted@;
        proof {
            assert forall|k: int| p <= k < before.len() implies !lex_lt(#[trigger] before[k].node_id@, record.node_id@) by {
                assert(lex_lt(record.node_id@, before[p as int].node_id@));
                if k > p {
                    assert(!lex_lt(before[k].node_id@, before[p as int].node_id@));
                }
                if lex_lt(before[k].node_id@, record.node_id@) {
                    lemma_lex_transitive(before[k].node_id@, record.node_id@, before[p as int].node_id@);
                    if k == p {
                        lemma_lex_total(before[k].node_id@, record.node_id@);
                    }
                }
            }
        }
        sorted.insert(p, record);
        proof {
            let after = sorted@;
            vstd::seq_lib::to_multiset_insert(before, p as int, record);
            assert(after == before.insert(p as int, record));
            assert forall|a: int, b: int| 0 <= a < b < after.len() implies !lex_lt(
                #[trigger] after[b].node_id@,
                #[trigger] after[a].node_id@,
            ) by {
                if b < p {
                    assert(after[a] == before[a] && after[b] == before[b]);
                } else if b == p {
                    assert(after[a] == before[a]);
                } else if a < p {
                    assert(after[a] == before[a] && after[b] == before[b - 1]);
                    if lex_lt(after[b].node_id@, after[a].node_id@) {
                        lemma_lex_total(before[b - 1].node_id@, record.node_id@);
                        if lex_lt(before[b - 1].node_id@, record.node_id@) {
                        } else if before[b - 1].node_id@ == record.node_id@ {
                        } else {
                            lemma_lex_transitive(record.node_id@, before[b - 1].node_id@, before[a].node_id@);
                        }
                    }
                } else if a == p {
                    assert(after[b] == before[b - 1]);
                } else {
                    assert(after[a] == before[a - 1] && after[b] == before[b - 1]);
                }
            }
            assert(records@.take(i + 1) =~= records@.take(i as int).push(records@[i as int]));
            assert(record == records@[i as int]);
            assert(after.to_multiset() == before.to_multiset().insert(record));
            records@.take(i as int).to_multiset_ensures();
            assert(records@.take(i + 1).to_multiset() == records@.take(i as int).to_multiset().insert(record));
        }
        i += 1;
    }
    proof {
        assert(records@.take(records@.len() as int) =~= records@);
    }
    *records = sorted;
}

/// What a rebuild reports.
#[derive(Debug, Clone, Copy, PartialEq, Eq)]
pub struct ReindexCounts {
    pub node_count: usize,
    pub embedded_count: usize,
    pub reused_count: usize,
    pub batch_count: usize,
}

/// The counts of a finished rebuild: vectors stored, documents embedded,
/// vectors reused and batches sent.
pub fn reindex_counts(plan: &NsgReindexPlan, records: &Vec<IndexedVector>) -> (counts: ReindexCounts)
    ensures
        counts.node_count == records@.len(),
        counts.embedded_count == plan.pending@.len(),
        counts.reused_count == plan.reused@.len(),
        counts.batch_count == plan.batches@.len(),
{
    ReindexCounts {
        node_count: records.len(),
        embedded_count: plan.pending.len(),
        reused_count: plan.reused.len(),
        batch_count: plan.batches.len(),
    }
}

} // verus!
