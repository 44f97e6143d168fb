//! Endpoint capability profiles: exact or conservative token counting,
//! profile validation, request-parameter governance and a time-bounded cache
//! of discovered profiles with a conservative fallback.

use vstd::prelude::*;

use crate::bpe::{
    cl100k_tokens, count_cl100k, count_for_model, count_o200k, count_p50k, model_tokens, MAX_EXACT_COUNT_CHARS,
    o200k_tokens, p50k_tokens,
};
use crate::context::{estimate_text_tokens, spec_estimate_tokens};
use crate::table::StringTable;
use crate::table::{lemma_lex_irreflexive, lex_lt, seq_key_index, sorted_keys};
use crate::text::{all_ws, char_count, is_blank, str_eq, utf8_len, utf8_len_exceeds};

verus! {

pub const CAPABILITY_SCHEMA_VERSION: u32 = 1;

pub const MAX_DISCOVERY_BYTES: usize = 256 * 1024;

pub const MAX_DISCOVERY_TTL_SECONDS: u64 = 24 * 60 * 60;

pub const DEFAULT_DISCOVERY_TTL_SECONDS: u64 = 3600;

/// Tokenizer selected by an endpoint capability profile. Explicit encodings
/// are stable across model aliases; `Model` follows tiktoken's model mapping;
/// unknown tokenizers use the conservative estimate.
#[derive(Debug, Clone, PartialEq, Eq)]
pub enum TokenizerProfile {
    Conservative,
    Cl100kBase,
    O200kBase,
    P50kBase,
    Model(String),
}

#[derive(Debug, Clone, PartialEq, Eq)]
pub enum CapabilityError {
    UnsupportedSchema(u32),
    InvalidContextWindow,
    InvalidOutputLimit,
    InvalidParameterName,
    ReservedParameter(String),
    UnsupportedParameter(String),
    UnknownTokenizerModel(String),
    /// The text is too long for the exact encoders (see
    /// `MAX_EXACT_COUNT_CHARS`).
    TextTooLongForExactCount,
    InvalidIdentifier,
    EmptyDiscovery,
    InvalidDiscoveryUrl,
    DiscoveryRequest(String),
    DiscoveryTooLarge,
    InvalidDiscovery(String),
}

/// The exact count a tokenizer gives, or `None` for a model tiktoken does
/// not know.
pub open spec fn exact_token_count(tokenizer: TokenizerProfile, text: Seq<char>) -> Option<int> {
    match tokenizer {
        TokenizerProfile::Conservative => Some(spec_estimate_tokens(text)),
        _ => if text.len() >= MAX_EXACT_COUNT_CHARS {
            None
        } else {
            match tokenizer {
                TokenizerProfile::Cl100kBase => Some(cl100k_tokens(text) as int),
                TokenizerProfile::O200kBase => Some(o200k_tokens(text) as int),
                TokenizerProfile::P50kBase => Some(p50k_tokens(text) as int),
                TokenizerProfile::Model(model) => match model_tokens(model@, text) {
                    Some(n) => Some(n as int),
                    None => None,
                },
                TokenizerProfile::Conservative => Some(spec_estimate_tokens(text)),
            }
        },
    }
}

/// The count used for budgeting: exact where known, otherwise conservative.
pub open spec fn token_count(tokenizer: TokenizerProfile, text: Seq<char>) -> int {
    match exact_token_count(tokenizer, text) {
        Some(n) => n,
        None => spec_estimate_tokens(text),
    }
}

impl TokenizerProfile {
    /// Clone with its model name kept character for character.
    pub fn copy(&self) -> (c: TokenizerProfile)
        ensures
            c == *self,
    {
        match self {
            TokenizerProfile::Conservative => TokenizerProfile::Conservative,
            TokenizerProfile::Cl100kBase => TokenizerProfile::Cl100kBase,
            TokenizerProfile::O200kBase => TokenizerProfile::O200kBase,
            TokenizerProfile::P50kBase => TokenizerProfile::P50kBase,
            TokenizerProfile::Model(model) => TokenizerProfile::Model(model.clone()),
        }
    }

    pub fn count(&self, text: &str) -> (result: Result<usize, CapabilityError>)
        ensures
            match exact_token_count(*self, text@) {
                Some(n) => result matches Ok(m) && m == n,
                None => if text@.len() >= MAX_EXACT_COUNT_CHARS {
                    result == Err::<usize, CapabilityError>(CapabilityError::TextTooLongForExactCount)
                } else {
                    result matches Err(CapabilityError::UnknownTokenizerModel(model))
                        && *self == TokenizerProfile::Model(model)
                },
            },
    {
        if !matches!(self, TokenizerProfile::Conservative) && char_count(text) >= MAX_EXACT_COUNT_CHARS {
            return Err(CapabilityError::TextTooLongForExactCount);
        }
        match self {
            TokenizerProfile::Conservative => Ok(estimate_text_tokens(text)),
            TokenizerProfile::Cl100kBase => Ok(count_cl100k(text)),
            TokenizerProfile::O200kBase => Ok(count_o200k(text)),
            TokenizerProfile::P50kBase => Ok(count_p50k(text)),
            TokenizerProfile::Model(model) => match count_for_model(model.as_str(), text) {
                Some(n) => Ok(n),
                None => Err(CapabilityError::UnknownTokenizerModel(model.clone())),
            },
        }
    }

    /// Counts without claiming compatibility: an unknown model mapping falls
    /// back to the conservative estimator.
    pub fn count_or_conservative(&self, text: &str) -> (n: usize)
        ensures
            n == token_count(*self, text@),
    {
        match self.count(text) {
            Ok(n) => n,
            Err(_) => estimate_text_tokens(text),
        }
    }
}

/// Parameter names that the request protocol itself owns.
pub open spec fn is_reserved_parameter(name: Seq<char>) -> bool {
    name == "model"@ || name == "messages"@ || name == "temperature"@ || name == "stream"@
}

pub fn is_reserved_parameter_name(name: &str) -> (reserved: bool)
    ensures
        reserved == is_reserved_parameter(name@),
{
    str_eq(name, "model") || str_eq(name, "messages") || str_eq(name, "temperature") || str_eq(
        name,
        "stream",
    )
}

#[derive(Debug, Clone, PartialEq, Eq)]
pub struct CapabilityProfile {
    pub schema_version: u32,
    pub tokenizer: TokenizerProfile,
    pub context_window: usize,
    pub max_output_tokens: usize,
    pub streaming: bool,
    /// Request parameters the endpoint advertises (a set; order is not used).
    pub parameters: Vec<String>,
    pub allow_unknown_parameters: bool,
}

/// The advertised parameter names, as characters.
pub open spec fn parameter_names(profile: CapabilityProfile) -> Seq<Seq<char>> {
    profile.parameters@.map_values(|p: String| p@)
}

/// Two profiles that agree field by field, parameter names by characters.
pub open spec fn same_profile(a: CapabilityProfile, b: CapabilityProfile) -> bool {
    &&& a.schema_version == b.schema_version
    &&& a.tokenizer == b.tokenizer
    &&& a.context_window == b.context_window
    &&& a.max_output_tokens == b.max_output_tokens
    &&& a.streaming == b.streaming
    &&& parameter_names(a) == parameter_names(b)
    &&& a.allow_unknown_parameters == b.allow_unknown_parameters
}

/// What `CapabilityProfile::validate` returns.
pub open spec fn profile_check(profile: CapabilityProfile) -> Result<(), CapabilityError> {
    if profile.schema_version != CAPABILITY_SCHEMA_VERSION {
        Err(CapabilityError::UnsupportedSchema(profile.schema_version))
    } else if profile.context_window < 256 {
        Err(CapabilityError::InvalidContextWindow)
    } else if profile.max_output_tokens == 0 || profile.max_output_tokens >= profile.context_window {
        Err(CapabilityError::InvalidOutputLimit)
    } else if exists|i: int|
        0 <= i < profile.parameters@.len() && (all_ws(#[trigger] profile.parameters@[i]@)
            || is_reserved_parameter(profile.parameters@[i]@)) {
        Err(CapabilityError::InvalidParameterName)
    } else {
        Ok(())
    }
}

/// A request parameter the profile refuses: reserved, or not advertised
/// while unknown parameters are not allowed.
pub open spec fn parameter_refused(profile: CapabilityProfile, name: Seq<char>) -> bool {
    is_reserved_parameter(name) || (!profile.allow_unknown_parameters && !parameter_names(
        profile,
    ).contains(name))
}

impl CapabilityProfile {
    pub fn copy(&self) -> (c: CapabilityProfile)
        ensures
            same_profile(c, *self),
    {
        let parameters = self.parameters.clone();
        assert(parameter_names(*self) =~= parameters@.map_values(|p: String| p@));
        CapabilityProfile {
            schema_version: self.schema_version,
            tokenizer: self.tokenizer.copy(),
            context_window: self.context_window,
            max_output_tokens: self.max_output_tokens,
            streaming: self.streaming,
            parameters,
            allow_unknown_parameters: self.allow_unknown_parameters,
        }
    }

    pub fn validate(&self) -> (result: Result<(), CapabilityError>)
        ensures
            result == profile_check(*self),
    {
        if self.schema_version != CAPABILITY_SCHEMA_VERSION {
            return Err(CapabilityError::UnsupportedSchema(self.schema_version));
        }
        if self.context_window < 256 {
            return Err(CapabilityError::InvalidContextWindow);
        }
        if self.max_output_tokens == 0 || self.max_output_tokens >= self.context_window {
            return Err(CapabilityError::InvalidOutputLimit);
        }
        let mut i: usize = 0;
        while i < self.parameters.len()
            invariant
                self.schema_version == CAPABILITY_SCHEMA_VERSION,
                self.context_window >= 256,
                0 < self.max_output_tokens < self.context_window,
                i <= self.parameters@.len(),
                forall|k: int|
                    0 <= k < i ==> !(all_ws(#[trigger] self.parameters@[k]@) || is_reserved_parameter(
                        self.parameters@[k]@,
                    )),
            decreases self.parameters@.len() - i,
        {
            let name = self.parameters[i].as_str();
            if is_blank(name) || is_reserved_parameter_name(name) {
                assert(all_ws(self.parameters@[i as int]@) || is_reserved_parameter(
                    self.parameters@[i as int]@,
                ));

                return Err(CapabilityError::InvalidParameterName);
            }
            i += 1;
        }
        Ok(())
    }

    /// Whether the profile advertises a parameter name.
    pub fn advertises(&self, name: &str) -> (found: bool)
        ensures
            found == parameter_names(*self).contains(name@),
    {
        let mut i: usize = 0;
        while i < self.parameters.len()
            invariant
                i <= self.parameters@.len(),
                forall|k: int| 0 <= k < i ==> #[trigger] self.parameters@[k]@ != name@,
            decreases self.parameters@.len() - i,
        {
            if str_eq(self.parameters[i].as_str(), name) {
                assert(parameter_names(*self)[i as int] == name@);
                return true;
            }
            i += 1;
        }
        assert(!parameter_names(*self).contains(name@)) by {
            if parameter_names(*self).contains(name@) {
                let k = choose|k: int|
                    0 <= k < parameter_names(*self).len() && parameter_names(*self)[k] == name@;
                assert(self.parameters@[k]@ == name@);
            }
        }
        false
    }

    /// Validates the profile, then each requested parameter in order; the
    /// first refused parameter decides the error.
    pub fn validate_request_parameters(&self, names: &[&str]) -> (result: Result<
        (),
        CapabilityError,
    >)
        ensures
            profile_check(*self) is Err ==> result == profile_check(*self),
            profile_check(*self) is Ok ==> {
                &&& result is Ok <==> forall|i: int|
                    0 <= i < names@.len() ==> !parameter_refused(*self, #[trigger] names@[i]@)
                &&& result is Err ==> exists|i: int|
                    {
                        &&& 0 <= i < names@.len()
                        &&& parameter_refused(*self, #[trigger] names@[i]@)
                        &&& forall|j: int| 0 <= j < i ==> !parameter_refused(*self, names@[j]@)
                        &&& if is_reserved_parameter(names@[i]@) {
                            result matches Err(CapabilityError::ReservedParameter(n)) && n@
                                == names@[i]@
                        } else {
                            result matches Err(CapabilityError::UnsupportedParameter(n)) && n@
                                == names@[i]@
                        }
                    }
            },
    {
        match self.validate() {
            Err(error) => return Err(error),
            Ok(()) => {},
        }
        let mut i: usize = 0;
        while i < names.len()
            invariant
                profile_check(*self) is Ok,
                i <= names@.len(),
                forall|j: int| 0 <= j < i ==> !parameter_refused(*self, #[trigger] names@[j]@),
            decreases names@.len() - i,
        {
            let name = names[i];
            if is_reserved_parameter_name(name) {
                let owned = String::from_str(name);
                return Err(CapabilityError::ReservedParameter(owned));
            }
            if !self.allow_unknown_parameters && !self.advertises(name) {
                let owned = String::from_str(name);
                return Err(CapabilityError::UnsupportedParameter(owned));
            }
            i += 1;
        }
        Ok(())
    }
}

pub open spec fn default_parameter_names() -> Seq<Seq<char>> {
    seq!["top_p"@, "max_tokens"@, "max_completion_tokens"@, "stop"@]
}

/// The profile used when nothing better is known.
pub open spec fn is_default_profile(profile: CapabilityProfile) -> bool {
    &&& profile.schema_version == CAPABILITY_SCHEMA_VERSION
    &&& profile.tokenizer == TokenizerProfile::Conservative
    &&& profile.context_window == 8192
    &&& profile.max_output_tokens == 1024
    &&& profile.streaming
    &&& parameter_names(profile) == default_parameter_names()
    &&& !profile.allow_unknown_parameters
}

/// The parameters a profile advertises unless told otherwise.
pub fn default_parameters() -> (parameters: Vec<String>)
    ensures
        parameters@.map_values(|p: String| p@) == default_parameter_names(),
{
    let mut parameters: Vec<String> = Vec::new();
    parameters.push(String::from_str("top_p"));
    parameters.push(String::from_str("max_tokens"));
    parameters.push(String::from_str("max_completion_tokens"));
    parameters.push(String::from_str("stop"));
    assert(parameters@.map_values(|p: String| p@) =~= default_parameter_names());
    parameters
}

pub fn capability_schema_version() -> (v: u32)
    ensures
        v == CAPABILITY_SCHEMA_VERSION,
{
    CAPABILITY_SCHEMA_VERSION
}

pub fn enabled() -> (on: bool)
    ensures
        on,
{
    true
}

pub fn default_discovery_ttl() -> (ttl: u64)
    ensures
        ttl == DEFAULT_DISCOVERY_TTL_SECONDS,
{
    DEFAULT_DISCOVERY_TTL_SECONDS
}

impl Default for CapabilityProfile {
    fn default() -> (profile: Self)
        ensures
            is_default_profile(profile),
    {
        CapabilityProfile {
            schema_version: CAPABILITY_SCHEMA_VERSION,
            tokenizer: TokenizerProfile::Conservative,
            context_window: 8192,
            max_output_tokens: 1024,
            streaming: true,
            parameters: default_parameters(),
            allow_unknown_parameters: false,
        }
    }
}

/// Provider and model identifiers: not blank, at most 256 bytes of UTF-8.
pub open spec fn valid_identifier(value: Seq<char>) -> bool {
    !all_ws(value) && utf8_len(value) <= 256
}

pub fn validate_identifier(value: &str) -> (result: Result<(), CapabilityError>)
    ensures
        valid_identifier(value@) ==> result == Ok::<(), CapabilityError>(()),
        !valid_identifier(value@) ==> result == Err::<(), CapabilityError>(
            CapabilityError::InvalidIdentifier,
        ),
{
    if is_blank(value) || utf8_len_exceeds(value, 256) {
        return Err(CapabilityError::InvalidIdentifier);
    }
    Ok(())
}

/// Discovery documents are fetched over HTTP or HTTPS only.
pub fn check_discovery_scheme(scheme: &str) -> (result: Result<(), CapabilityError>)
    ensures
        (scheme@ == "http"@ || scheme@ == "https"@) ==> result == Ok::<(), CapabilityError>(()),
        !(scheme@ == "http"@ || scheme@ == "https"@) ==> result == Err::<(), CapabilityError>(
            CapabilityError::InvalidDiscoveryUrl,
        ),
{
    if str_eq(scheme, "http") || str_eq(scheme, "https") {
        Ok(())
    } else {
        Err(CapabilityError::InvalidDiscoveryUrl)
    }
}

/// A discovery document may hold at most `MAX_DISCOVERY_BYTES` bytes,
/// whether the length is declared or read.
pub fn check_discovery_size(length: u64) -> (result: Result<(), CapabilityError>)
    ensures
        length <= MAX_DISCOVERY_BYTES ==> result == Ok::<(), CapabilityError>(()),
        length > MAX_DISCOVERY_BYTES ==> result == Err::<(), CapabilityError>(
            CapabilityError::DiscoveryTooLarge,
        ),
{
    if length > MAX_DISCOVERY_BYTES as u64 {
        Err(CapabilityError::DiscoveryTooLarge)
    } else {
        Ok(())
    }
}

/// The bearer token sent with a discovery request: an empty one is not
/// sent.
pub fn discovery_bearer(token: Option<&str>) -> (sent: Option<&str>)
    ensures
        sent == match token {
            Some(t) => if t@.len() == 0 { None::<&str> } else { Some(t) },
            None => None::<&str>,
        },
{
    match token {
        Some(t) => if t.is_empty() { None } else { Some(t) },
        None => None,
    }
}

// ---------------------------------------------------------------------------
// Discovery cache
// ---------------------------------------------------------------------------

/// A discovery document: profiles by model name, in model-name order.
#[derive(Debug)]
pub struct CapabilityDiscoveryDocument {
    pub schema_version: u32,
    pub ttl_seconds: u64,
    pub models: StringTable<CapabilityProfile>,
}

#[derive(Debug, Clone, Copy, PartialEq, Eq, Structural)]
pub enum CapabilitySource {
    CachedDiscovery,
    ConservativeFallback,
}

#[derive(Debug, Clone, PartialEq, Eq)]
pub struct ResolvedCapability {
    pub profile: CapabilityProfile,
    pub source: CapabilitySource,
}

/// The profiles of one provider and the time until which they may be used.
#[derive(Debug)]
pub struct CachedProviderCapabilities {
    pub expires_at_unix: i64,
    pub models: StringTable<CapabilityProfile>,
}

/// How many of the entries have expired by `now`.
pub open spec fn expired_count(entries: Seq<(String, CachedProviderCapabilities)>, now: i64) -> nat
    decreases entries.len(),
{
    if entries.len() == 0 {
        0
    } else {
        (if entries[0].1.expires_at_unix <= now {
            1nat
        } else {
            0nat
        }) + expired_count(entries.subrange(1, entries.len() as int), now)
    }
}

/// The keys of the entries that have expired by `now`.
pub open spec fn expired_keys(entries: Seq<(String, CachedProviderCapabilities)>, now: i64) -> Set<Seq<char>> {
    Set::new(
        |p: Seq<char>|
            exists|i: int|
                0 <= i < entries.len() && #[trigger] entries[i].0@ == p && entries[i].1.expires_at_unix <= now,
    )
}

proof fn lemma_expired_keys(entries: Seq<(String, CachedProviderCapabilities)>, now: i64)
    requires
        sorted_keys(entries),
    ensures
        expired_keys(entries, now).finite(),
        expired_keys(entries, now).len() == expired_count(entries, now),
    decreases entries.len(),
{
    if entries.len() == 0 {
        assert(expired_keys(entries, now) =~= Set::<Seq<char>>::empty());
    } else {
        let rest = entries.subrange(1, entries.len() as int);
        assert forall|i: int, j: int| 0 <= i < j < rest.len() implies lex_lt(
            #[trigger] rest[i].0@,
            #[trigger] rest[j].0@,
        ) by {
            assert(rest[i] == entries[i + 1] && rest[j] == entries[j + 1]);
        }
        lemma_expired_keys(rest, now);
        let first = entries[0].0@;
        assert(!expired_keys(rest, now).contains(first)) by {
            if expired_keys(rest, now).contains(first) {
                let i = choose|i: int|
                    0 <= i < rest.len() && #[trigger] rest[i].0@ == first && rest[i].1.expires_at_unix <= now;
                assert(rest[i] == entries[i + 1]);
                assert(lex_lt(entries[0].0@, entries[i + 1].0@));
                lemma_lex_irreflexive(first);
            }
        }
        if entries[0].1.expires_at_unix <= now {
            assert forall|p: Seq<char>| #[trigger] expired_keys(entries, now).contains(p) == expired_keys(
                rest,
                now,
            ).insert(first).contains(p) by {
                if expired_keys(entries, now).contains(p) {
                    let i = choose|i: int|
                        0 <= i < entries.len() && #[trigger] entries[i].0@ == p && entries[i].1.expires_at_unix
                            <= now;
                    if i > 0 {
                        assert(rest[i - 1] == entries[i]);
                    }
                }
                if expired_keys(rest, now).contains(p) {
                    let i = choose|i: int|
                        0 <= i < rest.len() && #[trigger] rest[i].0@ == p && rest[i].1.expires_at_unix <= now;
                    assert(rest[i] == entries[i + 1]);
                }
                if p == first {
                    assert(entries[0].0@ == p);
                }
            }
            assert(expired_keys(entries, now) =~= expired_keys(rest, now).insert(first));
        } else {
            assert forall|p: Seq<char>| #[trigger] expired_keys(entries, now).contains(p) == expired_keys(
                rest,
                now,
            ).contains(p) by {
                if expired_keys(entries, now).contains(p) {
                    let i = choose|i: int|
                        0 <= i < entries.len() && #[trigger] entries[i].0@ == p && entries[i].1.expires_at_unix
                            <= now;
                    if i > 0 {
                        assert(rest[i - 1] == entries[i]);
                    }
                }
                if expired_keys(rest, now).contains(p) {
                    let i = choose|i: int|
                        0 <= i < rest.len() && #[trigger] rest[i].0@ == p && rest[i].1.expires_at_unix <= now;
                    assert(rest[i] == entries[i + 1]);
                }
            }
            assert(expired_keys(entries, now) =~= expired_keys(rest, now));
        }
    }
}

/// Discovered capability profiles by provider, each valid until its expiry.
#[derive(Debug)]
pub struct CapabilityRegistry {
    providers: StringTable<CachedProviderCapabilities>,
}

/// The error a document entry raises, checked in model-name order.
pub open spec fn model_entry_check(entry: (String, CapabilityProfile)) -> Result<(), CapabilityError> {
    if !valid_identifier(entry.0@) {
        Err(CapabilityError::InvalidIdentifier)
    } else {
        profile_check(entry.1)
    }
}

/// `now + ttl`, saturating at `i64::MAX`.
pub open spec fn expiry_after(now: i64, ttl: u64) -> i64 {
    if now + ttl > i64::MAX {
        i64::MAX
    } else {
        (now + ttl) as i64
    }
}

/// The time-to-live actually applied: at least one second, at most a day.
pub open spec fn clamped_ttl(ttl: u64) -> u64 {
    if ttl < 1 {
        1
    } else if ttl > MAX_DISCOVERY_TTL_SECONDS {
        MAX_DISCOVERY_TTL_SECONDS
    } else {
        ttl
    }
}

/// Whether a document is accepted for a provider; the first failing check
/// decides the error. Model entries are checked in model-name order.
pub open spec fn document_accepted(provider_id: Seq<char>, document: CapabilityDiscoveryDocument) -> bool {
    &&& valid_identifier(provider_id)
    &&& document.schema_version == CAPABILITY_SCHEMA_VERSION
    &&& document.models.entries_view().len() > 0
    &&& forall|i: int|
        0 <= i < document.models.entries_view().len() ==> #[trigger] model_entry_check(
            document.models.entries_view()[i],
        ) is Ok
}

impl CapabilityRegistry {
    /// The cached entry for a provider, if any (expired or not).
    pub closed spec fn cached(&self, provider: Seq<char>) -> Option<CachedProviderCapabilities> {
        self.providers.lookup(provider)
    }

    pub closed spec fn provider_count(&self) -> nat {
        self.providers.entries_view().len()
    }

    /// The providers whose cached discovery has expired by `now`.
    pub open spec fn expired_providers(&self, now: i64) -> Set<Seq<char>> {
        Set::new(|p: Seq<char>| self.cached(p) matches Some(entry) && entry.expires_at_unix <= now)
    }

    /// The cached profile a lookup at time `now` would use, if any.
    pub open spec fn cached_profile(&self, provider: Seq<char>, model: Seq<char>, now: i64) -> Option<CapabilityProfile> {
        match self.cached(provider) {
            Some(entry) => if entry.expires_at_unix > now {
                entry.models.lookup(model)
            } else {
                None
            },
            None => None,
        }
    }

    pub fn new() -> (registry: Self)
        ensures
            forall|p: Seq<char>| #[trigger] registry.cached(p) is None,
            registry.provider_count() == 0,
    {
        CapabilityRegistry { providers: StringTable::new() }
    }

    /// Validates a discovery document and caches its profiles for the
    /// provider, replacing what was cached before. A rejected document leaves
    /// the cache untouched.
    pub fn register_document(
        &mut self,
        provider_id: &str,
        document: CapabilityDiscoveryDocument,
        now_unix: i64,
    ) -> (result: Result<usize, CapabilityError>)
        ensures
            !valid_identifier(provider_id@) ==> result == Err::<usize, CapabilityError>(
                CapabilityError::InvalidIdentifier,
            ),
            valid_identifier(provider_id@) && document.schema_version != CAPABILITY_SCHEMA_VERSION
                ==> result == Err::<usize, CapabilityError>(
                CapabilityError::UnsupportedSchema(document.schema_version),
            ),
            valid_identifier(provider_id@) && document.schema_version == CAPABILITY_SCHEMA_VERSION
                && document.models.entries_view().len() == 0 ==> result == Err::<
                usize,
                CapabilityError,
            >(CapabilityError::EmptyDiscovery),
            valid_identifier(provider_id@) && document.schema_version == CAPABILITY_SCHEMA_VERSION
                && document.models.entries_view().len() > 0 && !document_accepted(
                provider_id@,
                document,
            ) ==> exists|i: int|
                0 <= i < document.models.entries_view().len() && #[trigger] model_entry_check(
                    document.models.entries_view()[i],
                ) is Err && (forall|j: int|
                    0 <= j < i ==> model_entry_check(document.models.entries_view()[j]) is Ok)
                    && result == Err::<usize, CapabilityError>(
                    model_entry_check(document.models.entries_view()[i])->Err_0,
                ),
            document_accepted(provider_id@, document) ==> result == Ok::<usize, CapabilityError>(
                document.models.entries_view().len() as usize,
            ),
            result is Err ==> *final(self) == *old(self),
            result is Ok ==> {
                &&& final(self).cached(provider_id@) == Some(
                    CachedProviderCapabilities {
                        expires_at_unix: expiry_after(now_unix, clamped_ttl(document.ttl_seconds)),
                        models: document.models,
                    },
                )
                &&& forall|p: Seq<char>|
                    p != provider_id@ ==> #[trigger] final(self).cached(p) == old(self).cached(p)
            },
    {
        match validate_identifier(provider_id) {
            Err(error) => return Err(error),
            Ok(()) => {},
        }
        if document.schema_version != CAPABILITY_SCHEMA_VERSION {
            return Err(CapabilityError::UnsupportedSchema(document.schema_version));
        }
        if document.models.is_empty() {
            return Err(CapabilityError::EmptyDiscovery);
        }
        let count = document.models.len();
        let mut i: usize = 0;
        while i < count
            invariant
                valid_identifier(provider_id@),
                document.schema_version == CAPABILITY_SCHEMA_VERSION,
                count > 0,
                count == document.models.entries_view().len(),
                i <= count,
                forall|j: int|
                    0 <= j < i ==> #[trigger] model_entry_check(document.models.entries_view()[j]) is Ok,
            decreases count - i,
        {
            let (model, profile) = document.models.entry_at(i);
            match validate_identifier(model.as_str()) {
                Err(error) => {
                    assert(model_entry_check(document.models.entries_view()[i as int]) is Err);
                    return Err(error);
                },
                Ok(()) => {},
            }
            match profile.validate() {
                Err(error) => {
                    assert(model_entry_check(document.models.entries_view()[i as int]) is Err);
                    return Err(error);
                },
                Ok(()) => {},
            }
            i += 1;
        }
        let ttl = if document.ttl_seconds < 1 {
            1
        } else if document.ttl_seconds > MAX_DISCOVERY_TTL_SECONDS {
            MAX_DISCOVERY_TTL_SECONDS
        } else {
            document.ttl_seconds
        };
        let expires_at_unix = match now_unix.checked_add(ttl as i64) {
            Some(at) => at,
            None => i64::MAX,
        };
        self.providers.insert(
            String::from_str(provider_id),
            CachedProviderCapabilities { expires_at_unix, models: document.models },
        );
        Ok(count)
    }

    /// The profile to use for a model: the cached one while its provider's
    /// entry is unexpired, otherwise the conservative default.
    pub fn resolve(&self, provider_id: &str, model: &str, now_unix: i64) -> (resolved: ResolvedCapability)
        ensures
            match self.cached_profile(provider_id@, model@, now_unix) {
                Some(profile) => resolved.source == CapabilitySource::CachedDiscovery
                    && same_profile(resolved.profile, profile),
                None => resolved.source == CapabilitySource::ConservativeFallback
                    && is_default_profile(resolved.profile),
            },
    {
        match self.providers.get(provider_id) {
            Some(provider) => {
                if provider.expires_at_unix > now_unix {
                    match provider.models.get(model) {
                        Some(profile) => {
                            return ResolvedCapability {
                                profile: profile.copy(),
                                source: CapabilitySource::CachedDiscovery,
                            };
                        },
                        None => {},
                    }
                }
            },
            None => {},
        }
        ResolvedCapability {
            profile: CapabilityProfile::default(),
            source: CapabilitySource::ConservativeFallback,
        }
    }

    /// Drops every provider entry that has expired at `now_unix` and returns
    /// how many were dropped.
    pub fn remove_expired(&mut self, now_unix: i64) -> (removed: usize)
        ensures
            forall|p: Seq<char>|
                #[trigger] final(self).cached(p) == match old(self).cached(p) {
                    Some(entry) => if entry.expires_at_unix > now_unix {
                        Some(entry)
                    } else {
                        None
                    },
                    None => None,
                },
            removed == old(self).provider_count() - final(self).provider_count(),
            old(self).expired_providers(now_unix).finite(),
            removed == old(self).expired_providers(now_unix).len(),
    {
        let mut providers: StringTable<CachedProviderCapabilities> = StringTable::new();
        std::mem::swap(&mut providers, &mut self.providers);
        let ghost original = providers;
        let mut entries = providers.into_entries();
        let ghost all = entries@;
        let total = entries.len();
        let mut kept: StringTable<CachedProviderCapabilities> = StringTable::new();
        let mut removed: usize = 0;
        while entries.len() > 0
            invariant
                sorted_keys(all),
                all.len() == total,
                all == original.entries_view(),
                entries@ == all.subrange(0, entries@.len() as int),
                removed + kept.entries_view().len() == all.len() - entries@.len(),
                removed == expired_count(all.subrange(entries@.len() as int, all.len() as int), now_unix),
                forall|p: Seq<char>|
                    #[trigger] kept.lookup(p) == match seq_key_index(all, p) {
                        Some(j) => if j >= entries@.len() && all[j].1.expires_at_unix > now_unix {
                            Some(all[j].1)
                        } else {
                            None
                        },
                        None => None,
                    },
            decreases entries@.len(),
        {
            let ghost m = entries@.len() - 1;
            let entry = entries.pop().unwrap();
            assert(entry == all[m]);
            proof {
                let tail = all.subrange(m, all.len() as int);
                assert(tail[0] == all[m]);
                assert(tail.subrange(1, tail.len() as int) =~= all.subrange(m + 1, all.len() as int));
            }
            proof {
                crate::table::lemma_seq_key_index_at(all, m);
                assert(kept.lookup(entry.0@) is None);
            }
            if entry.1.expires_at_unix > now_unix {
                kept.insert(entry.0, entry.1);
            } else {
                removed += 1;
            }
            proof {
                assert(entries@ =~= all.subrange(0, entries@.len() as int));
            }
        }
        proof {
            assert forall|p: Seq<char>|
                #[trigger] kept.lookup(p) == match original.lookup(p) {
                    Some(entry) => if entry.expires_at_unix > now_unix {
                        Some(entry)
                    } else {
                        None
                    },
                    None => None,
                } by {
                crate::table::lemma_lookup_is_seq_lookup(original, p);
            }
        }
        proof {
            assert(all.subrange(0, all.len() as int) =~= all);
            lemma_expired_keys(all, now_unix);
            let expired = Set::new(
                |p: Seq<char>| original.lookup(p) matches Some(entry) && entry.expires_at_unix <= now_unix,
            );
            assert forall|p: Seq<char>| #[trigger] expired.contains(p) == expired_keys(all, now_unix).contains(p) by {
                crate::table::lemma_lookup_is_seq_lookup(original, p);
                if expired_keys(all, now_unix).contains(p) {
                    let i = choose|i: int|
                        0 <= i < all.len() && #[trigger] all[i].0@ == p && all[i].1.expires_at_unix <= now_unix;
                    crate::table::lemma_seq_key_index_at(all, i);
                }
                if expired.contains(p) {
                    let j = seq_key_index(all, p)->Some_0;
                    assert(0 <= j < all.len() && all[j].0@ == p);
                }
            }
            assert(expired =~= expired_keys(all, now_unix));
            assert(old(self).expired_providers(now_unix) =~= expired);
        }
        self.providers = kept;
        removed
    }
}

impl Default for CapabilityRegistry {
    fn default() -> (registry: Self)
        ensures
            forall|p: Seq<char>| #[trigger] registry.cached(p) is None,
    {
        CapabilityRegistry::new()
    }
}

/// Cache then expiry: once a document is registered for a provider, each of
/// its models resolves to the registered profile strictly before the expiry
/// time and to the conservative fallback from then on; models not in the
/// document always fall back.
pub proof fn lemma_registered_profiles_expire(
    registry: CapabilityRegistry,
    provider: Seq<char>,
    models: StringTable<CapabilityProfile>,
    expires_at_unix: i64,
    model: Seq<char>,
    now: i64,
)
    requires
        registry.cached(provider) == Some(
            CachedProviderCapabilities { expires_at_unix, models },
        ),
    ensures
        now < expires_at_unix ==> registry.cached_profile(provider, model, now) == models.lookup(
            model,
        ),
        now >= expires_at_unix ==> registry.cached_profile(provider, model, now) is None,
{
}

/// Once a lookup falls back for lack of an unexpired entry, it keeps falling
/// back at every later time until something is registered again.
pub proof fn lemma_fallback_is_permanent(
    registry: CapabilityRegistry,
    provider: Seq<char>,
    model: Seq<char>,
    now: i64,
    later: i64,
)
    requires
        registry.cached_profile(provider, model, now) is None,
        now <= later,
    ensures
        registry.cached_profile(provider, model, later) is None,
{
}

} // verus!
