//! Exact token counts from the `tiktoken-rs` byte-pair encoders.

use vstd::prelude::*;

verus! {

/// Texts of this many characters or more are not handed to the encoders.
/// Their pre-tokenizer pattern runs on `fancy-regex`, whose backtracking
/// stack holds at most a million entries and grows by about one per
/// character of a whitespace run; past that, `encode_ordinary` panics. The
/// bound keeps every text a tenth of that stack away from it.
pub const MAX_EXACT_COUNT_CHARS: usize = 100_000;

/// Number of tokens `cl100k_base_singleton().encode_ordinary(text)` yields.
pub uninterp spec fn cl100k_tokens(text: Seq<char>) -> usize;

/// Number of tokens `o200k_base_singleton().encode_ordinary(text)` yields.
pub uninterp spec fn o200k_tokens(text: Seq<char>) -> usize;

/// Number of tokens `p50k_base_singleton().encode_ordinary(text)` yields.
pub uninterp spec fn p50k_tokens(text: Seq<char>) -> usize;

/// Number of tokens the encoder that `bpe_for_model(model)` selects yields
/// for `text`, or `None` when tiktoken knows no encoder for that model.
pub uninterp spec fn model_tokens(model: Seq<char>, text: Seq<char>) -> Option<usize>;

/// Calls `tiktoken_rs::cl100k_base_singleton().encode_ordinary(text)`.
/// Trusted: returns the number of tokens, named `cl100k_tokens`.
#[verifier::external_body]
pub(crate) fn count_cl100k(text: &str) -> (n: usize)
    requires
        text@.len() < MAX_EXACT_COUNT_CHARS,
    ensures
        n == cl100k_tokens(text@),
{
    tiktoken_rs::cl100k_base_singleton().encode_ordinary(text).len()
}

/// Calls `tiktoken_rs::o200k_base_singleton().encode_ordinary(text)`.
/// Trusted: returns the number of tokens, named `o200k_tokens`.
#[verifier::external_body]
pub(crate) fn count_o200k(text: &str) -> (n: usize)
    requires
        text@.len() < MAX_EXACT_COUNT_CHARS,
    ensures
        n == o200k_tokens(text@),
{
    tiktoken_rs::o200k_base_singleton().encode_ordinary(text).len()
}

/// Calls `tiktoken_rs::p50k_base_singleton().encode_ordinary(text)`.
/// Trusted: returns the number of tokens, named `p50k_tokens`.
#[verifier::external_body]
pub(crate) fn count_p50k(text: &str) -> (n: usize)
    requires
        text@.len() < MAX_EXACT_COUNT_CHARS,
    ensures
        n == p50k_tokens(text@),
{
    tiktoken_rs::p50k_base_singleton().encode_ordinary(text).len()
}

/// Calls `tiktoken_rs::bpe_for_model(model)` and, when it finds an encoder,
/// its `encode_ordinary(text)`. Trusted: the result is the named
/// `model_tokens`; `None` exactly when `bpe_for_model` fails.
#[verifier::external_body]
pub(crate) fn count_for_model(model: &str, text: &str) -> (n: Option<usize>)
    requires
        text@.len() < MAX_EXACT_COUNT_CHARS,
    ensures
        n == model_tokens(model@, text@),
{
    tiktoken_rs::bpe_for_model(model).ok().map(|bpe| bpe.encode_ordinary(text).len())
}

} // verus!
