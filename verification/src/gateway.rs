//! OpenAI-compatible chat gateway: message validation, server-sent event
//! decoding and the accumulation of streamed deltas into a completion.

use vstd::prelude::*;

use crate::context::{strings_view, ChatInput, MessageRole};
use vstd::utf8::{decode_utf8, encode_utf8, valid_utf8};
use crate::text::{
    chars_of, debug_quoted, debug_quoted_text, is_whitespace, is_ws, lemma_ws_prefix_len, push_char, push_chars, push_str, str_eq,
    text_bytes, trim, trim_start, trimmed, utf8_len, utf8_len_exceeds,
};

use crate::bounded::{append_within, declared_length_within, declared_within};

verus! {

/// Longest accepted tool call id, in bytes.
pub const MAX_TOOL_CALL_ID_BYTES: usize = 256;

/// Largest accepted arguments text of one tool call, in bytes.
pub const MAX_RESPONSE_TOOL_ARGUMENT_BYTES: usize = 1024 * 1024;

/// Largest accepted streamed content (text and tool fields), in bytes.
pub const MAX_RESPONSE_STREAM_BYTES: usize = 16 * 1024 * 1024;

/// Largest accepted single server-sent event, in bytes.
pub const MAX_RESPONSE_SSE_EVENT_BYTES: usize = 4 * 1024 * 1024;

/// A chat model endpoint. Its debug text never shows the key.
#[derive(Clone)]
pub struct ProviderEndpoint {
    pub base_url: String,
    pub api_key: Option<String>,
    pub model: String,
}

/// The debug text of a provider endpoint: the key replaced by a marker.
pub open spec fn provider_debug_text(base_url: Seq<char>, has_key: bool, model: Seq<char>) -> Seq<char> {
    "ProviderEndpoint { base_url: "@ + debug_quoted_text(base_url) + ", api_key: "@ + (if has_key {
        "Some(\"[REDACTED]\")"@
    } else {
        "None"@
    }) + ", model: "@ + debug_quoted_text(model) + " }"@
}

impl ProviderEndpoint {
    /// What `{:?}` shows of the endpoint.
    pub fn debug_text(&self) -> (text: String)
        ensures
            text@ == provider_debug_text(self.base_url@, self.api_key is Some, self.model@),
    {
        let mut text = String::from_str("ProviderEndpoint { base_url: ");
        push_str(&mut text, debug_quoted(self.base_url.as_str()).as_str());
        push_str(&mut text, ", api_key: ");
        if self.api_key.is_some() {
            push_str(&mut text, "Some(\"[REDACTED]\")");
        } else {
            push_str(&mut text, "None");
        }
        push_str(&mut text, ", model: ");
        push_str(&mut text, debug_quoted(self.model.as_str()).as_str());
        push_str(&mut text, " }");
        text
    }
}

#[derive(Debug, Clone, Copy, PartialEq, Eq, Structural)]
pub enum GatewayMessageRole {
    System,
    User,
    Assistant,
    Tool,
}

#[derive(Debug, Clone, PartialEq, Eq)]
pub struct GatewayImageUrl {
    pub url: String,
    pub detail: Option<String>,
}

#[derive(Debug, Clone, PartialEq, Eq)]
pub enum GatewayContentPart {
    Text { text: String },
    ImageUrl { image_url: GatewayImageUrl },
}

#[derive(Debug, Clone, PartialEq, Eq)]
pub enum GatewayMessageContent {
    Text(String),
    Parts(Vec<GatewayContentPart>),
}

#[derive(Debug, Clone, PartialEq, Eq)]
pub struct ChatFunctionCall {
    pub name: String,
    pub arguments: String,
}

#[derive(Debug, Clone, PartialEq, Eq)]
pub struct ChatToolCall {
    pub id: String,
    pub call_type: String,
    pub function: ChatFunctionCall,
}

#[derive(Debug, Clone, PartialEq, Eq)]
pub struct GatewayMessage {
    pub role: GatewayMessageRole,
    pub content: Option<GatewayMessageContent>,
    pub tool_call_id: Option<String>,
    pub tool_calls: Vec<ChatToolCall>,
}

#[derive(Debug, Clone, Copy, Default, PartialEq, Eq)]
pub struct ChatUsage {
    pub input_tokens: u64,
    pub output_tokens: u64,
    pub total_tokens: u64,
}

#[derive(Debug, Clone, PartialEq, Eq)]
pub struct ChatCompletion {
    pub content: String,
    pub tool_calls: Vec<ChatToolCall>,
    pub finish_reason: Option<String>,
    pub usage: Option<ChatUsage>,
    pub upstream_request_id: Option<String>,
}

#[derive(Debug, Clone, Default, PartialEq, Eq)]
pub struct ChatStreamFunctionCallDelta {
    pub name: Option<String>,
    pub arguments: Option<String>,
}

#[derive(Debug, Clone, Default, PartialEq, Eq)]
pub struct ChatStreamToolCallDelta {
    pub index: usize,
    pub id: Option<String>,
    pub call_type: Option<String>,
    pub function: Option<ChatStreamFunctionCallDelta>,
}

#[derive(Debug, Clone, PartialEq, Eq)]
pub struct ChatStreamDelta {
    pub delta: String,
    pub tool_calls: Vec<ChatStreamToolCallDelta>,
    pub finish_reason: Option<String>,
}

/// Gateway failures. Errors that an outside library reports (URL parsing,
/// transport, JSON) arrive here as their message text.
#[derive(Debug, Clone, PartialEq, Eq)]
pub enum GatewayError {
    InvalidBaseUrl(String),
    InvalidAuthorization,
    InvalidMessage(String),
    Request(String),
    Http { status: u16, body: String },
    MissingChoice,
    InvalidStream(SseDecodeError),
    InvalidStreamJson(String),
    Cancelled,
    IncompleteStream,
    ResponseTooLarge,
    StreamTooLarge,
    ToolArgumentsTooLarge,
    IncompleteToolCall { index: usize, field: String },
}

#[derive(Debug, Clone, PartialEq, Eq)]
pub enum SseDecodeError {
    /// The event text is not UTF-8: `valid_up_to` bytes of it are, then a
    /// bad sequence of `error_len` bytes (`None` when the text ends inside a
    /// character).
    InvalidUtf8 { valid_up_to: usize, error_len: Option<usize> },
    EventTooLarge,
}

// ---------------------------------------------------------------------------
// Message validation
// ---------------------------------------------------------------------------

pub open spec fn content_is_empty(content: GatewayMessageContent) -> bool {
    match content {
        GatewayMessageContent::Text(text) => text@.len() == 0,
        GatewayMessageContent::Parts(parts) => parts@.len() == 0,
    }
}

pub open spec fn content_is_text(content: GatewayMessageContent) -> bool {
    content is Text
}

impl GatewayMessageContent {
    pub fn is_empty(&self) -> (empty: bool)
        ensures
            empty == content_is_empty(*self),
    {
        match self {
            GatewayMessageContent::Text(text) => text.as_str().is_empty(),
            GatewayMessageContent::Parts(parts) => parts.len() == 0,
        }
    }

    pub fn is_text(&self) -> (text: bool)
        ensures
            text == content_is_text(*self),
    {
        match self {
            GatewayMessageContent::Text(_) => true,
            GatewayMessageContent::Parts(_) => false,
        }
    }

    pub fn from_text(value: &str) -> (content: GatewayMessageContent)
        ensures
            content matches GatewayMessageContent::Text(text) && text@ == value@,
    {
        GatewayMessageContent::Text(String::from_str(value))
    }
}

pub open spec fn has_content(message: GatewayMessage) -> bool {
    message.content matches Some(content) && !content_is_empty(content)
}

pub open spec fn has_non_text_content(message: GatewayMessage) -> bool {
    message.content matches Some(content) && !content_is_text(content)
}

pub open spec fn part_is_empty(part: GatewayContentPart) -> bool {
    match part {
        GatewayContentPart::Text { text } => text@.len() == 0,
        GatewayContentPart::ImageUrl { image_url } => image_url.url@.len() == 0,
    }
}

pub open spec fn has_empty_part(message: GatewayMessage) -> bool {
    message.content matches Some(GatewayMessageContent::Parts(parts)) && exists|i: int|
        0 <= i < parts@.len() && part_is_empty(#[trigger] parts@[i])
}

pub open spec fn tool_call_is_valid(call: ChatToolCall) -> bool {
    &&& call.call_type@ == "function"@
    &&& call.id@.len() > 0
    &&& utf8_len(call.id@) <= MAX_TOOL_CALL_ID_BYTES
    &&& call.function.name@.len() > 0
    &&& utf8_len(call.function.arguments@) <= MAX_RESPONSE_TOOL_ARGUMENT_BYTES
}

pub open spec fn tool_call_id_is_valid(id: Option<String>) -> bool {
    id matches Some(value) && value@.len() > 0 && utf8_len(value@) <= MAX_TOOL_CALL_ID_BYTES
}

/// What is wrong with a message, as the error text that reports it.
pub open spec fn message_problem(message: GatewayMessage) -> Option<Seq<char>> {
    match message.role {
        GatewayMessageRole::System => if !has_content(message) || has_non_text_content(message)
            || message.tool_call_id is Some || message.tool_calls@.len() > 0 {
            Some("system messages require text content and cannot carry tool fields"@)
        } else {
            None
        },
        GatewayMessageRole::User => if !has_content(message) || message.tool_call_id is Some
            || message.tool_calls@.len() > 0 {
            Some("user messages require content and cannot carry tool fields"@)
        } else if has_empty_part(message) {
            Some("user content parts must not be empty"@)
        } else {
            None
        },
        GatewayMessageRole::Assistant => if (!has_content(message) && message.tool_calls@.len()
            == 0) || has_non_text_content(message) || message.tool_call_id is Some {
            Some("assistant messages require content or tool_calls"@)
        } else if exists|i: int|
            0 <= i < message.tool_calls@.len() && !tool_call_is_valid(
                #[trigger] message.tool_calls@[i],
            ) {
            Some("assistant function call is invalid"@)
        } else {
            None
        },
        GatewayMessageRole::Tool => if !has_content(message) || has_non_text_content(message)
            || !tool_call_id_is_valid(message.tool_call_id) || message.tool_calls@.len() > 0 {
            Some("tool messages require content and tool_call_id"@)
        } else {
            None
        },
    }
}

/// The outcome of validating a conversation: the first problem found, in
/// message order.
/// An assistant turn carries text, tool calls or both: a turn of valid tool
/// calls with no text is accepted, as is a text turn with no calls; a turn
/// with neither is refused, and so is one that answers a tool call or
/// carries non-text content; a turn that is otherwise well formed is refused
/// exactly when one of its calls is invalid.
pub proof fn lemma_assistant_turns(message: GatewayMessage)
    requires
        message.role == GatewayMessageRole::Assistant,
    ensures
        !has_content(message) && message.tool_calls@.len() > 0 && message.tool_call_id is None
            && !has_non_text_content(message) && (forall|i: int|
            0 <= i < message.tool_calls@.len() ==> tool_call_is_valid(#[trigger] message.tool_calls@[i]))
            ==> message_problem(message) is None,
        has_content(message) && message.tool_calls@.len() == 0 && message.tool_call_id is None
            && !has_non_text_content(message) ==> message_problem(message) is None,
        !has_content(message) && message.tool_calls@.len() == 0 ==> message_problem(message) == Some(
            "assistant messages require content or tool_calls"@,
        ),
        message.tool_call_id is Some || has_non_text_content(message) ==> message_problem(message) == Some(
            "assistant messages require content or tool_calls"@,
        ),
        (has_content(message) || message.tool_calls@.len() > 0) && message.tool_call_id is None
            && !has_non_text_content(message) ==> (message_problem(message) is None <==> forall|i: int|
            0 <= i < message.tool_calls@.len() ==> tool_call_is_valid(#[trigger] message.tool_calls@[i])),
{
}

/// Tool fields stay where they belong: only an assistant turn carries tool
/// calls and only a tool turn answers one, with a usable id; a message
/// without content is refused unless it is an assistant's tool-call turn;
/// system and tool turns are text only, and a user turn has no empty part.
pub proof fn lemma_message_fields_by_role(message: GatewayMessage)
    ensures
        message.role != GatewayMessageRole::Tool && message.tool_call_id is Some ==> message_problem(message) is Some,
        message.role != GatewayMessageRole::Assistant && message.tool_calls@.len() > 0 ==> message_problem(message) is Some,
        !has_content(message) && message.tool_calls@.len() == 0 ==> message_problem(message) is Some,
        message.role != GatewayMessageRole::Assistant && !has_content(message) ==> message_problem(message) is Some,
        message.role != GatewayMessageRole::User && has_non_text_content(message) ==> message_problem(message) is Some,
        message.role == GatewayMessageRole::User && has_empty_part(message) ==> message_problem(message) is Some,
        message.role == GatewayMessageRole::Tool ==> (message_problem(message) is None <==> has_content(message)
            && !has_non_text_content(message) && tool_call_id_is_valid(message.tool_call_id)
            && message.tool_calls@.len() == 0),
        message.role == GatewayMessageRole::System ==> (message_problem(message) is None <==> has_content(message)
            && !has_non_text_content(message) && message.tool_call_id is None && message.tool_calls@.len() == 0),
        message.role == GatewayMessageRole::User ==> (message_problem(message) is None <==> has_content(message)
            && message.tool_call_id is None && message.tool_calls@.len() == 0 && !has_empty_part(message)),
{
}

pub open spec fn messages_verdict(messages: Seq<GatewayMessage>) -> Result<(), Seq<char>> {
    if messages.len() == 0 {
        Err("at least one message is required"@)
    } else {
        first_problem(messages, 0)
    }
}

pub open spec fn first_problem(messages: Seq<GatewayMessage>, from: int) -> Result<(), Seq<char>>
    decreases messages.len() - from,
{
    if from < 0 || from >= messages.len() {
        Ok(())
    } else {
        match message_problem(messages[from]) {
            Some(problem) => Err(problem),
            None => first_problem(messages, from + 1),
        }
    }
}

proof fn lemma_first_problem(messages: Seq<GatewayMessage>, from: int)
    requires
        0 <= from <= messages.len(),
    ensures
        first_problem(messages, from) is Ok <==> forall|i: int|
            from <= i < messages.len() ==> message_problem(#[trigger] messages[i]) is None,
        first_problem(messages, from) matches Err(problem) ==> exists|i: int|
            from <= i < messages.len() && message_problem(#[trigger] messages[i]) == Some(problem),
    decreases messages.len() - from,
{
    if from < messages.len() {
        lemma_first_problem(messages, from + 1);
    }
}

/// A conversation is accepted exactly when it has a message and every
/// message is well formed; a refusal reports the problem of one of its
/// messages.
pub proof fn lemma_conversation_verdict(messages: Seq<GatewayMessage>)
    ensures
        messages_verdict(messages) is Ok <==> messages.len() > 0 && forall|i: int|
            0 <= i < messages.len() ==> message_problem(#[trigger] messages[i]) is None,
        messages.len() > 0 ==> (messages_verdict(messages) matches Err(problem) ==> exists|i: int|
            0 <= i < messages.len() && message_problem(#[trigger] messages[i]) == Some(problem)),
{
    if messages.len() > 0 {
        lemma_first_problem(messages, 0);
    }
}

fn content_flags(message: &GatewayMessage) -> (flags: (bool, bool))
    ensures
        flags.0 == has_content(*message),
        flags.1 == has_non_text_content(*message),
{
    match &message.content {
        Some(content) => (!content.is_empty(), !content.is_text()),
        None => (false, false),
    }
}

fn any_empty_part(message: &GatewayMessage) -> (found: bool)
    ensures
        found == has_empty_part(*message),
{
    match &message.content {
        Some(GatewayMessageContent::Parts(parts)) => {
            let mut i: usize = 0;
            while i < parts.len()
                invariant
                    message.content == Some(GatewayMessageContent::Parts(*parts)),
                    i <= parts@.len(),
                    forall|j: int| 0 <= j < i ==> !part_is_empty(#[trigger] parts@[j]),
                decreases parts@.len() - i,
            {
                let empty = match &parts[i] {
                    GatewayContentPart::Text { text } => text.as_str().is_empty(),
                    GatewayContentPart::ImageUrl { image_url } => image_url.url.as_str().is_empty(),
                };
                if empty {
                    assert(part_is_empty(parts@[i as int]));
                    assert(exists|j: int| 0 <= j < parts@.len() && part_is_empty(#[trigger] parts@[j]));
                    assert(message.content matches Some(GatewayMessageContent::Parts(ps)) && ps == *parts);
                    return true;
                }
                i += 1;
            }
            false
        },
        _ => false,
    }
}

fn check_tool_call(call: &ChatToolCall) -> (valid: bool)
    ensures
        valid == tool_call_is_valid(*call),
{
    proof {
        reveal_strlit("function");
    }
    str_eq(call.call_type.as_str(), "function") && !call.id.as_str().is_empty()
        && !utf8_len_exceeds(call.id.as_str(), MAX_TOOL_CALL_ID_BYTES)
        && !call.function.name.as_str().is_empty() && !utf8_len_exceeds(
        call.function.arguments.as_str(),
        MAX_RESPONSE_TOOL_ARGUMENT_BYTES,
    )
}

fn all_tool_calls_valid(calls: &Vec<ChatToolCall>) -> (valid: bool)
    ensures
        valid == forall|i: int| 0 <= i < calls@.len() ==> tool_call_is_valid(#[trigger] calls@[i]),
{
    let mut i: usize = 0;
    while i < calls.len()
        invariant
            i <= calls@.len(),
            forall|j: int| 0 <= j < i ==> tool_call_is_valid(#[trigger] calls@[j]),
        decreases calls@.len() - i,
    {
        if !check_tool_call(&calls[i]) {
            return false;
        }
        i += 1;
    }
    true
}

fn check_tool_call_id(id: &Option<String>) -> (valid: bool)
    ensures
        valid == tool_call_id_is_valid(*id),
{
    match id {
        Some(value) => !value.as_str().is_empty() && !utf8_len_exceeds(
            value.as_str(),
            MAX_TOOL_CALL_ID_BYTES,
        ),
        None => false,
    }
}

/// The error text for one message, if any.
fn check_message(message: &GatewayMessage) -> (problem: Option<String>)
    ensures
        match (problem, message_problem(*message)) {
            (Some(text), Some(expected)) => text@ == expected,
            (None, None) => true,
            _ => false,
        },
{
    let (has_content, non_text) = content_flags(message);
    let has_id = message.tool_call_id.is_some();
    let has_calls = message.tool_calls.len() > 0;
    match message.role {
        GatewayMessageRole::System => {
            if !has_content || non_text || has_id || has_calls {
                return Some(
                    String::from_str(
                        "system messages require text content and cannot carry tool fields",
                    ),
                );
            }
            None
        },
        GatewayMessageRole::User => {
            if !has_content || has_id || has_calls {
                return Some(
                    String::from_str("user messages require content and cannot carry tool fields"),
                );
            }
            if any_empty_part(message) {
                return Some(String::from_str("user content parts must not be empty"));
            }
            None
        },
        GatewayMessageRole::Assistant => {
            if (!has_content && !has_calls) || non_text || has_id {
                return Some(String::from_str("assistant messages require content or tool_calls"));
            }
            if !all_tool_calls_valid(&message.tool_calls) {
                return Some(String::from_str("assistant function call is invalid"));
            }
            None
        },
        GatewayMessageRole::Tool => {
            if !has_content || non_text || !check_tool_call_id(&message.tool_call_id) || has_calls {
                return Some(String::from_str("tool messages require content and tool_call_id"));
            }
            None
        },
    }
}

/// Checks a conversation before it is sent: at least one message, and each
/// role carries only the fields that role allows.
pub fn validate_gateway_messages(messages: &[GatewayMessage]) -> (result: Result<(), GatewayError>)
    ensures
        match (result, messages_verdict(messages@)) {
            (Ok(()), Ok(())) => true,
            (Err(GatewayError::InvalidMessage(text)), Err(expected)) => text@ == expected,
            _ => false,
        },
{
    if messages.len() == 0 {
        return Err(GatewayError::InvalidMessage(String::from_str("at least one message is required")));
    }
    let mut i: usize = 0;
    while i < messages.len()
        invariant
            0 < messages@.len(),
            i <= messages@.len(),
            first_problem(messages@, 0) == first_problem(messages@, i as int),
        decreases messages@.len() - i,
    {
        match check_message(&messages[i]) {
            Some(problem) => {
                return Err(GatewayError::InvalidMessage(problem));
            },
            None => {},
        }
        i += 1;
    }
    Ok(())
}

/// The gateway form of a prepared chat message: its text as content and no
/// tool fields.
pub fn gateway_message_from_chat(message: &ChatInput) -> (gateway: GatewayMessage)
    ensures
        gateway.role == match message.role {
            MessageRole::System => GatewayMessageRole::System,
            MessageRole::User => GatewayMessageRole::User,
            MessageRole::Assistant => GatewayMessageRole::Assistant,
        },
        gateway.content matches Some(GatewayMessageContent::Text(text)) && text@
            == message.content@,
        gateway.tool_call_id is None,
        gateway.tool_calls@.len() == 0,
{
    let role = match message.role {
        MessageRole::System => GatewayMessageRole::System,
        MessageRole::User => GatewayMessageRole::User,
        MessageRole::Assistant => GatewayMessageRole::Assistant,
    };
    GatewayMessage {
        role,
        content: Some(GatewayMessageContent::Text(message.content.clone())),
        tool_call_id: None,
        tool_calls: Vec::new(),
    }
}


// ---------------------------------------------------------------------------
// Server-sent events
// ---------------------------------------------------------------------------

pub open spec fn lf_lf() -> Seq<u8> {
    seq![10u8, 10u8]
}

pub open spec fn crlf_crlf() -> Seq<u8> {
    seq![13u8, 10u8, 13u8, 10u8]
}

pub open spec fn matches_at(bytes: Seq<u8>, pattern: Seq<u8>, at: int) -> bool {
    0 <= at && at + pattern.len() <= bytes.len() && bytes.subrange(at, at + pattern.len())
        == pattern
}

/// The first position at or after `from` where `pattern` occurs.
pub open spec fn first_match(bytes: Seq<u8>, pattern: Seq<u8>, from: int) -> Option<int>
    decreases bytes.len() - from,
{
    if from < 0 || from >= bytes.len() || from + pattern.len() > bytes.len() {
        None
    } else if matches_at(bytes, pattern, from) {
        Some(from)
    } else {
        first_match(bytes, pattern, from + 1)
    }
}

/// Where the next event ends, searching from `from`: the first blank line
/// (`\n\n`), or else the first `\r\n\r\n`; with the delimiter's length.
pub open spec fn boundary_from(bytes: Seq<u8>, from: int) -> Option<(int, int)> {
    match first_match(bytes, lf_lf(), from) {
        Some(at) => Some((at, 2)),
        None => match first_match(bytes, crlf_crlf(), from) {
            Some(at) => Some((at, 4)),
            None => None,
        },
    }
}

pub proof fn lemma_first_match_bounds(bytes: Seq<u8>, pattern: Seq<u8>, from: int)
    ensures
        first_match(bytes, pattern, from) matches Some(at) ==> from <= at && matches_at(
            bytes,
            pattern,
            at,
        ),
    decreases bytes.len() - from,
{
    if !(from < 0 || from >= bytes.len() || from + pattern.len() > bytes.len()) && !matches_at(
        bytes,
        pattern,
        from,
    ) {
        lemma_first_match_bounds(bytes, pattern, from + 1);
    }
}

fn bytes_match_at(bytes: &[u8], pattern: &[u8], at: usize) -> (found: bool)
    requires
        at + pattern@.len() <= bytes@.len(),
    ensures
        found == matches_at(bytes@, pattern@, at as int),
{
    let mut k: usize = 0;
    let n = bytes.len();
    while k < pattern.len()
        invariant
            n == bytes@.len(),
            at + pattern@.len() <= bytes@.len(),
            k <= pattern@.len(),
            forall|j: int| 0 <= j < k ==> bytes@[at + j] == pattern@[j],
        decreases pattern@.len() - k,
    {
        if bytes[at + k] != pattern[k] {
            assert(bytes@.subrange(at as int, at + pattern@.len())[k as int] != pattern@[k as int]);
            return false;
        }
        k += 1;
    }
    assert(bytes@.subrange(at as int, at + pattern@.len()) =~= pattern@);
    true
}

fn find_pattern_from(bytes: &[u8], pattern: &[u8], from: usize) -> (found: Option<usize>)
    requires
        pattern@.len() > 0,
    ensures
        match first_match(bytes@, pattern@, from as int) {
            Some(at) => found matches Some(a) && a == at,
            None => found is None,
        },
{
    let mut i = from;
    while i < bytes.len() && pattern.len() <= bytes.len() - i
        invariant
            pattern@.len() > 0,
            from <= i,
            first_match(bytes@, pattern@, from as int) == first_match(bytes@, pattern@, i as int),
        decreases bytes@.len() - i,
    {
        if bytes_match_at(bytes, pattern, i) {
            return Some(i);
        }
        i += 1;
    }
    None
}

fn boundary_search(bytes: &[u8], from: usize) -> (found: Option<(usize, usize)>)
    ensures
        match boundary_from(bytes@, from as int) {
            Some((at, len)) => found matches Some((a, l)) && a == at && l == len,
            None => found is None,
        },
{
    let lf: [u8; 2] = [10u8, 10u8];
    let crlf: [u8; 4] = [13u8, 10u8, 13u8, 10u8];
    assert(lf@ =~= lf_lf());
    assert(crlf@ =~= crlf_crlf());
    match find_pattern_from(bytes, &lf, from) {
        Some(at) => Some((at, 2)),
        None => match find_pattern_from(bytes, &crlf, from) {
            Some(at) => Some((at, 4)),
            None => None,
        },
    }
}

/// Position and length of the first event delimiter: the first `\n\n`, or
/// else the first `\r\n\r\n`.
pub fn find_event_boundary(bytes: &[u8]) -> (found: Option<(usize, usize)>)
    ensures
        match boundary_from(bytes@, 0) {
            Some((at, len)) => found matches Some((a, l)) && a == at && l == len,
            None => found is None,
        },
{
    boundary_search(bytes, 0)
}


/// A line without the carriage return that preceded its line feed.
pub open spec fn strip_cr(line: Seq<char>) -> Seq<char> {
    if line.len() > 0 && line.last() == '\r' {
        line.drop_last()
    } else {
        line
    }
}

/// Lines completed so far and the unfinished last line, reading left to
/// right and splitting at each line feed.
pub open spec fn line_state(s: Seq<char>) -> (Seq<Seq<char>>, Seq<char>)
    decreases s.len(),
{
    if s.len() == 0 {
        (Seq::empty(), Seq::empty())
    } else {
        let (done, current) = line_state(s.drop_last());
        if s.last() == '\n' {
            (done.push(strip_cr(current)), Seq::empty())
        } else {
            (done, current.push(s.last()))
        }
    }
}

/// The lines of a text as `str::lines` yields them: split at `\n` or
/// `\r\n`, with no empty line after a final line ending.
pub open spec fn text_lines(s: Seq<char>) -> Seq<Seq<char>> {
    let (done, current) = line_state(s);
    if current.len() > 0 {
        done.push(current)
    } else {
        done
    }
}

pub open spec fn data_prefix() -> Seq<char> {
    seq!['d', 'a', 't', 'a', ':']
}

pub open spec fn is_data_line(line: Seq<char>) -> bool {
    line.len() >= 5 && line.subrange(0, 5) == data_prefix()
}

/// The values of the `data:` lines, each without leading whitespace.
pub open spec fn data_values(lines: Seq<Seq<char>>) -> Seq<Seq<char>>
    decreases lines.len(),
{
    if lines.len() == 0 {
        Seq::empty()
    } else {
        let rest = data_values(lines.drop_last());
        if is_data_line(lines.last()) {
            rest.push(trim_start(lines.last().skip(5)))
        } else {
            rest
        }
    }
}

/// Parts joined with a line feed between each two.
pub open spec fn join_lines(parts: Seq<Seq<char>>) -> Seq<char>
    decreases parts.len(),
{
    if parts.len() == 0 {
        Seq::empty()
    } else if parts.len() == 1 {
        parts[0]
    } else {
        join_lines(parts.drop_last()) + seq!['\n'] + parts.last()
    }
}

/// The data an event carries: its `data:` values joined by line feeds.
pub open spec fn event_data(raw: Seq<char>) -> Seq<char> {
    join_lines(data_values(text_lines(raw)))
}

/// Appends a finished line's value to the joined data when it is a data line.
fn take_line(out: &mut String, count: &mut usize, chars: &Vec<char>, start: usize, end: usize, Ghost(lines): Ghost<Seq<Seq<char>>>)
    requires
        start <= end <= chars@.len(),
        old(out)@ == join_lines(data_values(lines)),
        *old(count) == data_values(lines).len(),
        *old(count) <= lines.len(),
        lines.len() < usize::MAX,
    ensures
        final(out)@ == join_lines(data_values(lines.push(chars@.subrange(start as int, end as int)))),
        *final(count) == data_values(lines.push(chars@.subrange(start as int, end as int))).len(),
        *final(count) <= lines.len() + 1,
{
    let ghost line = chars@.subrange(start as int, end as int);
    assert(lines.push(line).drop_last() =~= lines);
    assert(lines.push(line).last() == line);
    let is_data = end - start >= 5 && chars[start] == 'd' && chars[start + 1] == 'a' && chars[start + 2]
        == 't' && chars[start + 3] == 'a' && chars[start + 4] == ':';
    assert(is_data == is_data_line(line)) by {
        if end - start >= 5 {
            assert(line.subrange(0, 5) =~= seq![
                chars@[start as int],
                chars@[start + 1],
                chars@[start + 2],
                chars@[start + 3],
                chars@[start + 4],
            ]);
        }
    }
    if !is_data {
        return;
    }
    let mut k = start + 5;
    while k < end && is_whitespace(chars[k])
        invariant
            start + 5 <= k <= end <= chars@.len(),
            forall|j: int| start + 5 <= j < k ==> is_ws(#[trigger] chars@[j]),
        decreases end - k,
    {
        k += 1;
    }
    proof {
        let rest = line.skip(5);
        assert(rest =~= chars@.subrange(start + 5, end as int));
        lemma_ws_prefix_len(rest, k - start - 5);
        assert(trim_start(rest) =~= chars@.subrange(k as int, end as int));
    }
    let ghost before = out@;
    if *count > 0 {
        push_char(out, '\n');
    }
    push_chars(out, chars, k, end);
    *count = *count + 1;
    proof {
        let values = data_values(lines);
        assert(data_values(lines.push(line)) == values.push(trim_start(line.skip(5))));
        let joined = values.push(trim_start(line.skip(5)));
        assert(joined.drop_last() =~= values);
        if values.len() == 0 {
            assert(out@ =~= join_lines(joined));
        } else {
            assert(out@ =~= join_lines(joined));
        }
    }
}

/// The data of one event text.
fn decode_event_data(raw: &str) -> (data: String)
    ensures
        data@ == event_data(raw@),
{
    let chars = chars_of(raw);
    let n = chars.len();
    let mut out = String::new();
    let mut count: usize = 0;
    let mut start: usize = 0;
    let mut i: usize = 0;
    let ghost mut lines: Seq<Seq<char>> = Seq::empty();
    while i < n
        invariant
            n == chars@.len(),
            chars@ == raw@,
            start <= i <= n,
            line_state(chars@.subrange(0, i as int)) == (lines, chars@.subrange(start as int, i as int)),
            out@ == join_lines(data_values(lines)),
            count == data_values(lines).len(),
            count <= lines.len(),
            lines.len() <= start,
        decreases n - i,
    {
        assert(chars@.subrange(0, i + 1).drop_last() =~= chars@.subrange(0, i as int));
        if chars[i] == '\n' {
            let end = if i > start && chars[i - 1] == '\r' {
                i - 1
            } else {
                i
            };
            assert(chars@.subrange(start as int, end as int) == strip_cr(
                chars@.subrange(start as int, i as int),
            )) by {
                if i > start && chars@[i - 1] == '\r' {
                    assert(chars@.subrange(start as int, i - 1) =~= chars@.subrange(
                        start as int,
                        i as int,
                    ).drop_last());
                }
            }
            take_line(&mut out, &mut count, &chars, start, end, Ghost(lines));
            proof {
                lines = lines.push(chars@.subrange(start as int, end as int));
            }
            start = i + 1;
            assert(chars@.subrange(start as int, i + 1) =~= Seq::<char>::empty());
        } else {
            assert(chars@.subrange(start as int, i + 1) =~= chars@.subrange(start as int, i as int).push(
                chars@[i as int],
            ));
        }
        i += 1;
    }
    assert(chars@.subrange(0, n as int) =~= raw@);
    if start < n {
        take_line(&mut out, &mut count, &chars, start, n, Ghost(lines));
    } else {
        assert(chars@.subrange(start as int, n as int) =~= Seq::<char>::empty());
    }
    out
}


/// Calls `std::str::from_utf8` and copies the text. Trusted: it succeeds
/// exactly on the byte sequences that vstd's `valid_utf8` accepts, giving
/// their decoding; on failure it reports `Utf8Error::valid_up_to` (the
/// longest valid prefix) and `Utf8Error::error_len`.
#[verifier::external_body]
fn utf8_text(bytes: &[u8]) -> (result: Result<String, (usize, Option<usize>)>)
    ensures
        result is Ok <==> valid_utf8(bytes@),
        result matches Ok(text) ==> text@ == decode_utf8(bytes@),
        result matches Err((valid_up_to, _)) ==> valid_up_to <= bytes@.len() && valid_utf8(
            bytes@.subrange(0, valid_up_to as int),
        ),
{
    match std::str::from_utf8(bytes) {
        Ok(text) => Ok(text.to_owned()),
        Err(error) => Err((error.valid_up_to(), error.error_len())),
    }
}

/// What decoding the buffered bytes leads to.
pub enum SseOutcome {
    Events(Seq<Seq<char>>),
    InvalidUtf8,
    TooLarge,
}

/// Decodes the complete events of `buffer` from `pos` on, adding the
/// non-empty ones to `events`; returns where the undecoded rest starts and
/// the outcome. An event longer than the limit, or a rest longer than the
/// limit with no delimiter, is refused; so is an event that is not UTF-8.
pub open spec fn drain_events(buffer: Seq<u8>, pos: int, events: Seq<Seq<char>>) -> (int, SseOutcome)
    decreases buffer.len() - pos,
{
    if pos < 0 || pos > buffer.len() {
        (pos, SseOutcome::Events(events))
    } else {
        match boundary_from(buffer, pos) {
            None => if buffer.len() - pos > MAX_RESPONSE_SSE_EVENT_BYTES {
                (pos, SseOutcome::TooLarge)
            } else {
                (pos, SseOutcome::Events(events))
            },
            Some((at, len)) => if at - pos > MAX_RESPONSE_SSE_EVENT_BYTES {
                (pos, SseOutcome::TooLarge)
            } else if !valid_utf8(buffer.subrange(pos, at)) {
                (pos, SseOutcome::InvalidUtf8)
            } else {
                proof {
                    lemma_first_match_bounds(buffer, lf_lf(), pos);
                    lemma_first_match_bounds(buffer, crlf_crlf(), pos);
                }
                let data = event_data(decode_utf8(buffer.subrange(pos, at)));
                drain_events(
                    buffer,
                    at + len,
                    if data.len() > 0 {
                        events.push(data)
                    } else {
                        events
                    },
                )
            },
        }
    }
}

/// No `\r\n\r\n` delimiter anywhere among the bytes.
pub open spec fn no_crlf_boundary(bytes: Seq<u8>) -> bool {
    forall|i: int| !#[trigger] matches_at(bytes, crlf_crlf(), i)
}

proof fn lemma_no_crlf(bytes: Seq<u8>, from: int)
    requires
        no_crlf_boundary(bytes),
    ensures
        first_match(bytes, crlf_crlf(), from) is None,
    decreases bytes.len() - from,
{
    if !(from < 0 || from >= bytes.len() || from + 4 > bytes.len()) {
        assert(!matches_at(bytes, crlf_crlf(), from));
        lemma_no_crlf(bytes, from + 1);
    }
}

/// A match found in a prefix is the first match after more bytes arrive.
proof fn lemma_first_match_prefix(a: Seq<u8>, c: Seq<u8>, pattern: Seq<u8>, from: int)
    requires
        first_match(a, pattern, from) is Some,
    ensures
        first_match(a + c, pattern, from) == first_match(a, pattern, from),
    decreases a.len() - from,
{
    let b = a + c;
    lemma_first_match_bounds(a, pattern, from);
    let at = first_match(a, pattern, from)->Some_0;
    assert(b.subrange(from, from + pattern.len()) =~= a.subrange(from, from + pattern.len()));
    if !matches_at(a, pattern, from) {
        lemma_first_match_prefix(a, c, pattern, from + 1);
    }
}

/// Searching a suffix finds the match the whole finds, shifted.
proof fn lemma_first_match_skip(b: Seq<u8>, q: int, pattern: Seq<u8>, k: int)
    requires
        0 <= q <= b.len(),
        0 <= k,
    ensures
        first_match(b, pattern, q + k) == match first_match(b.skip(q), pattern, k) {
            Some(at) => Some(at + q),
            None => None::<int>,
        },
    decreases b.len() - q - k,
{
    let r = b.skip(q);
    if !(k >= r.len() || k + pattern.len() > r.len()) {
        assert(b.subrange(q + k, q + k + pattern.len()) =~= r.subrange(k, k + pattern.len()));
        if !matches_at(r, pattern, k) {
            lemma_first_match_skip(b, q, pattern, k + 1);
        }
    }
}

proof fn lemma_drain_bounds(buffer: Seq<u8>, pos: int, events: Seq<Seq<char>>)
    requires
        0 <= pos <= buffer.len(),
    ensures
        pos <= drain_events(buffer, pos, events).0 <= buffer.len(),
    decreases buffer.len() - pos,
{
    lemma_first_match_bounds(buffer, lf_lf(), pos);
    lemma_first_match_bounds(buffer, crlf_crlf(), pos);
    match boundary_from(buffer, pos) {
        None => {},
        Some((at, len)) => {
            if !(at - pos > MAX_RESPONSE_SSE_EVENT_BYTES) && valid_utf8(buffer.subrange(pos, at)) {
                let data = event_data(decode_utf8(buffer.subrange(pos, at)));
                let next = if data.len() > 0 { events.push(data) } else { events };
                lemma_drain_bounds(buffer, at + len, next);
            }
        },
    }
}

/// The events decoded so far, put before an outcome's events.
pub open spec fn after_events(earlier: Seq<Seq<char>>, outcome: SseOutcome) -> SseOutcome {
    match outcome {
        SseOutcome::Events(later) => SseOutcome::Events(earlier + later),
        other => other,
    }
}

/// Decoding a buffer from `q + k` is decoding its suffix from `k`.
proof fn lemma_drain_skip(b: Seq<u8>, q: int, k: int, earlier: Seq<Seq<char>>, found: Seq<Seq<char>>)
    requires
        0 <= q <= b.len(),
        0 <= k <= b.len() - q,
    ensures
        ({
            let (pos, outcome) = drain_events(b.skip(q), k, found);
            drain_events(b, q + k, earlier + found) == (pos + q, after_events(earlier, outcome))
        }),
    decreases b.len() - q - k,
{
    let r = b.skip(q);
    lemma_first_match_skip(b, q, lf_lf(), k);
    lemma_first_match_skip(b, q, crlf_crlf(), k);
    match boundary_from(r, k) {
        None => {},
        Some((at, len)) => {
            lemma_first_match_bounds(r, lf_lf(), k);
            lemma_first_match_bounds(r, crlf_crlf(), k);
            assert(b.subrange(q + k, at + q) =~= r.subrange(k, at));
            if !(at - k > MAX_RESPONSE_SSE_EVENT_BYTES) && valid_utf8(r.subrange(k, at)) {
                let data = event_data(decode_utf8(r.subrange(k, at)));
                let next = if data.len() > 0 { found.push(data) } else { found };
                assert((earlier + found).push(data) =~= earlier + found.push(data));
                lemma_drain_skip(b, q, at + len, earlier, next);
            }
        },
    }
}

/// More bytes after a prefix do not change what the prefix decodes: the
/// longer buffer passes through the same events and goes on from where the
/// prefix stopped.
proof fn lemma_drain_prefix(a: Seq<u8>, c: Seq<u8>, pos: int, events: Seq<Seq<char>>)
    requires
        no_crlf_boundary(a + c),
        0 <= pos <= a.len(),
        drain_events(a, pos, events).1 is Events,
    ensures
        pos <= drain_events(a, pos, events).0 <= a.len(),
        drain_events(a + c, pos, events) == drain_events(
            a + c,
            drain_events(a, pos, events).0,
            drain_events(a, pos, events).1->Events_0,
        ),
    decreases a.len() - pos,
{
    let b = a + c;
    assert(no_crlf_boundary(a)) by {
        assert forall|i: int| !#[trigger] matches_at(a, crlf_crlf(), i) by {
            if matches_at(a, crlf_crlf(), i) {
                assert(b.subrange(i, i + 4) =~= a.subrange(i, i + 4));
                assert(matches_at(b, crlf_crlf(), i));
            }
        }
    }
    lemma_no_crlf(a, pos);
    lemma_no_crlf(b, pos);
    match first_match(a, lf_lf(), pos) {
        None => {},
        Some(at) => {
            lemma_first_match_prefix(a, c, lf_lf(), pos);
            lemma_first_match_bounds(a, lf_lf(), pos);
            assert(b.subrange(pos, at) =~= a.subrange(pos, at));
            let data = event_data(decode_utf8(a.subrange(pos, at)));
            let next = if data.len() > 0 { events.push(data) } else { events };
            lemma_drain_prefix(a, c, at + 2, next);
        },
    }
}

/// Decoded events do not depend on how a stream is cut into chunks, as long
/// as it holds no `\r\n\r\n` delimiter: decoding `first` and then `second`
/// gives the events, and leaves the rest, that decoding them together gives,
/// whenever the two steps succeed. (Where a `\r\n\r\n` closes an event in
/// the first part, a later `\n\n` can take precedence once both parts are
/// buffered together, so such streams are left out.)
pub proof fn lemma_chunking_does_not_matter(pending: Seq<u8>, first: Seq<u8>, second: Seq<u8>)
    requires
        no_crlf_boundary(pending + first + second),
        drain_events(pending + first, 0, Seq::empty()).1 is Events,
        drain_events(
            (pending + first).skip(drain_events(pending + first, 0, Seq::empty()).0) + second,
            0,
            Seq::empty(),
        ).1 is Events,
    ensures
        ({
            let (pos1, outcome1) = drain_events(pending + first, 0, Seq::empty());
            let rest = (pending + first).skip(pos1) + second;
            let (pos2, outcome2) = drain_events(rest, 0, Seq::empty());
            let (pos3, outcome3) = drain_events(pending + first + second, 0, Seq::empty());
            &&& outcome3 == SseOutcome::Events(outcome1->Events_0 + outcome2->Events_0)
            &&& (pending + first + second).skip(pos3) == rest.skip(pos2)
        }),
{
    let a = pending + first;
    let b = a + second;
    assert(pending + first + second == b);
    lemma_drain_prefix(a, second, 0, Seq::empty());
    let (pos1, outcome1) = drain_events(a, 0, Seq::empty());
    let e1 = outcome1->Events_0;
    let rest = a.skip(pos1) + second;
    assert(b.skip(pos1) =~= rest);
    assert(e1 + Seq::<Seq<char>>::empty() =~= e1);
    lemma_drain_skip(b, pos1, 0, e1, Seq::empty());
    let (pos2, outcome2) = drain_events(rest, 0, Seq::empty());
    lemma_drain_bounds(rest, 0, Seq::empty());
    assert(b.skip(pos1 + pos2) =~= rest.skip(pos2));
}

/// Incremental decoder of a server-sent event stream.
#[derive(Debug, Default)]
pub struct SseDecoder {
    buffer: Vec<u8>,
}

impl SseDecoder {
    /// Bytes received but not yet part of a complete event.
    pub closed spec fn pending(&self) -> Seq<u8> {
        self.buffer@
    }

    pub fn new() -> (decoder: SseDecoder)
        ensures
            decoder.pending() == Seq::<u8>::empty(),
    {
        SseDecoder { buffer: Vec::new() }
    }

    /// Adds a chunk and returns the data of every event it completes.
    pub fn push_bytes(&mut self, chunk: &[u8]) -> (result: Result<Vec<String>, SseDecodeError>)
        ensures
            ({
                let buffer = old(self).pending() + chunk@;
                let (pos, outcome) = drain_events(buffer, 0, Seq::empty());
                &&& final(self).pending() == buffer.skip(pos)
                &&& match outcome {
                    SseOutcome::Events(events) => result matches Ok(v) && strings_view(v@) == events,
                    SseOutcome::InvalidUtf8 => result matches Err(SseDecodeError::InvalidUtf8 { .. }),
                    SseOutcome::TooLarge => result matches Err(SseDecodeError::EventTooLarge),
                }
            }),
    {
        let ghost start = self.buffer@;
        let mut k: usize = 0;
        while k < chunk.len()
            invariant
                k <= chunk@.len(),
                self.buffer@ == start + chunk@.subrange(0, k as int),
            decreases chunk@.len() - k,
        {
            self.buffer.push(chunk[k]);
            k += 1;
            assert(self.buffer@ =~= start + chunk@.subrange(0, k as int));
        }
        assert(chunk@.subrange(0, k as int) =~= chunk@);
        let ghost buffer = self.buffer@;
        let mut events: Vec<String> = Vec::new();
        let mut pos: usize = 0;
        let mut failure: Option<SseDecodeError> = None;
        assert(strings_view(events@) =~= Seq::<Seq<char>>::empty());
        let total = self.buffer.len();
        loop
            invariant_except_break
                failure is None,
            invariant
                total == buffer.len(),
                self.buffer@ == buffer,
                pos <= buffer.len(),
                drain_events(buffer, 0, Seq::empty()) == drain_events(
                    buffer,
                    pos as int,
                    strings_view(events@),
                ),
            ensures
                pos <= buffer.len(),
                self.buffer@ == buffer,
                ({
                    let (end, outcome) = drain_events(buffer, 0, Seq::empty());
                    &&& end == pos
                    &&& match outcome {
                        SseOutcome::Events(found) => failure is None && strings_view(events@) == found,
                        SseOutcome::InvalidUtf8 => failure matches Some(SseDecodeError::InvalidUtf8 { .. }),
                        SseOutcome::TooLarge => failure matches Some(SseDecodeError::EventTooLarge),
                    }
                }),
            decreases buffer.len() - pos,
        {
            match boundary_search(self.buffer.as_slice(), pos) {
                None => {
                    if self.buffer.len() - pos > MAX_RESPONSE_SSE_EVENT_BYTES {
                        failure = Some(SseDecodeError::EventTooLarge);
                    }
                    break;
                },
                Some((at, len)) => {
                    proof {
                        lemma_first_match_bounds(buffer, lf_lf(), pos as int);
                        lemma_first_match_bounds(buffer, crlf_crlf(), pos as int);
                    }
                    if at - pos > MAX_RESPONSE_SSE_EVENT_BYTES {
                        failure = Some(SseDecodeError::EventTooLarge);
                        break;
                    }
                    let raw = &self.buffer.as_slice()[pos..at];
                    match utf8_text(raw) {
                        Err((valid_up_to, error_len)) => {
                            failure = Some(SseDecodeError::InvalidUtf8 { valid_up_to, error_len });
                            break;
                        },
                        Ok(text) => {
                            let data = decode_event_data(text.as_str());
                            let ghost before = events@;
                            if !data.as_str().is_empty() {
                                events.push(data);
                                assert(strings_view(events@) =~= strings_view(before).push(data@));
                            }
                            pos = at + len;
                        },
                    }
                },
            }
        }
        let rest = self.buffer.split_off(pos);
        self.buffer = rest;
        match failure {
            Some(error) => Err(error),
            None => Ok(events),
        }
    }

    /// Adds a text chunk; it is valid UTF-8, so only an event longer than
    /// the limit could fail, and the caller rules that out.
    pub fn push(&mut self, chunk: &str) -> (events: Vec<String>)
        requires
            drain_events(old(self).pending() + encode_utf8(chunk@), 0, Seq::empty()).1 is Events,
        ensures
            ({
                let buffer = old(self).pending() + encode_utf8(chunk@);
                let (pos, outcome) = drain_events(buffer, 0, Seq::empty());
                &&& final(self).pending() == buffer.skip(pos)
                &&& outcome matches SseOutcome::Events(found) && strings_view(events@) == found
            }),
    {
        match self.push_bytes(chunk.as_bytes()) {
            Ok(events) => events,
            Err(_) => Vec::new(),
        }
    }
}


// ---------------------------------------------------------------------------
// Streamed completion
// ---------------------------------------------------------------------------

/// A tool call being assembled from streamed deltas.
#[derive(Debug, Clone, PartialEq, Eq)]
pub struct PendingToolCall {
    pub index: usize,
    pub id: Option<String>,
    pub call_type: Option<String>,
    pub name: Option<String>,
    pub arguments: String,
}

pub open spec fn opt_text(value: Option<String>) -> Option<Seq<char>> {
    match value {
        Some(text) => Some(text@),
        None => None,
    }
}

/// What is known of a tool call: id, type, function name, arguments.
pub type PendingView = (Option<Seq<char>>, Option<Seq<char>>, Option<Seq<char>>, Seq<char>);

pub open spec fn pending_view(call: PendingToolCall) -> PendingView {
    (opt_text(call.id), opt_text(call.call_type), opt_text(call.name), call.arguments@)
}

pub open spec fn empty_pending() -> PendingView {
    (None, None, None, Seq::empty())
}

pub open spec fn first_some(kept: Option<Seq<char>>, offered: Option<Seq<char>>) -> Option<Seq<char>> {
    if kept is Some {
        kept
    } else {
        offered
    }
}

pub open spec fn delta_name(call: ChatStreamToolCallDelta) -> Option<Seq<char>> {
    match call.function {
        Some(function) => opt_text(function.name),
        None => None,
    }
}

pub open spec fn delta_arguments(call: ChatStreamToolCallDelta) -> Option<Seq<char>> {
    match call.function {
        Some(function) => opt_text(function.arguments),
        None => None,
    }
}

/// A delta merged into a pending call: the first id, type and name seen
/// stay; argument fragments are appended.
pub open spec fn merged(pending: PendingView, call: ChatStreamToolCallDelta) -> PendingView {
    (
        first_some(pending.0, opt_text(call.id)),
        first_some(pending.1, opt_text(call.call_type)),
        first_some(pending.2, delta_name(call)),
        match delta_arguments(call) {
            Some(arguments) => pending.3 + arguments,
            None => pending.3,
        },
    )
}

pub open spec fn arguments_overflow(pending: PendingView, call: ChatStreamToolCallDelta) -> bool {
    delta_arguments(call) matches Some(arguments) && utf8_len(pending.3) + utf8_len(arguments)
        > MAX_RESPONSE_TOOL_ARGUMENT_BYTES
}

pub open spec fn pending_at(calls: Map<usize, PendingView>, index: usize) -> PendingView {
    if calls.contains_key(index) {
        calls[index]
    } else {
        empty_pending()
    }
}

/// The pending calls after merging `deltas` in order, or `None` when some
/// call's arguments grow past the limit.
pub open spec fn calls_after(calls: Map<usize, PendingView>, deltas: Seq<ChatStreamToolCallDelta>) -> Option<
    Map<usize, PendingView>,
>
    decreases deltas.len(),
{
    if deltas.len() == 0 {
        Some(calls)
    } else {
        match calls_after(calls, deltas.drop_last()) {
            None => None,
            Some(before) => {
                let call = deltas.last();
                let pending = pending_at(before, call.index);
                if arguments_overflow(pending, call) {
                    None
                } else {
                    Some(before.insert(call.index, merged(pending, call)))
                }
            },
        }
    }
}

/// The argument fragments the deltas carry for the call at `index`, joined
/// in stream order.
pub open spec fn fragments_for(deltas: Seq<ChatStreamToolCallDelta>, index: usize) -> Seq<char>
    decreases deltas.len(),
{
    if deltas.len() == 0 {
        Seq::empty()
    } else {
        let earlier = fragments_for(deltas.drop_last(), index);
        let call = deltas.last();
        if call.index == index {
            match call.function {
                Some(function) => match function.arguments {
                    Some(text) => earlier + text@,
                    None => earlier,
                },
                None => earlier,
            }
        } else {
            earlier
        }
    }
}

/// The first value that `pick` finds among the deltas for the call at
/// `index`, in stream order.
pub open spec fn first_offered(
    deltas: Seq<ChatStreamToolCallDelta>,
    index: usize,
    pick: spec_fn(ChatStreamToolCallDelta) -> Option<Seq<char>>,
) -> Option<Seq<char>>
    decreases deltas.len(),
{
    if deltas.len() == 0 {
        None
    } else {
        match first_offered(deltas.drop_last(), index, pick) {
            Some(found) => Some(found),
            None => if deltas.last().index == index {
                pick(deltas.last())
            } else {
                None
            },
        }
    }
}

/// Streamed tool calls accumulate in order: after merging a run of deltas,
/// a call's arguments are the arguments it had followed by every fragment
/// the run carried for it, in stream order; its id, type and name are the
/// ones it had, or else the first the run offered.
pub proof fn lemma_tool_calls_accumulate_in_order(
    calls: Map<usize, PendingView>,
    deltas: Seq<ChatStreamToolCallDelta>,
    index: usize,
)
    requires
        calls_after(calls, deltas) is Some,
    ensures
        ({
            let before = pending_at(calls, index);
            let after = pending_at(calls_after(calls, deltas)->Some_0, index);
            &&& after.3 == before.3 + fragments_for(deltas, index)
            &&& after.0 == first_some(before.0, first_offered(deltas, index, |c: ChatStreamToolCallDelta| opt_text(c.id)))
            &&& after.1 == first_some(
                before.1,
                first_offered(deltas, index, |c: ChatStreamToolCallDelta| opt_text(c.call_type)),
            )
            &&& after.2 == first_some(before.2, first_offered(deltas, index, |c: ChatStreamToolCallDelta| delta_name(c)))
        }),
    decreases deltas.len(),
{
    let before = pending_at(calls, index);
    if deltas.len() == 0 {
        assert(before.3 + Seq::<char>::empty() =~= before.3);
    } else {
        let rest = deltas.drop_last();
        lemma_tool_calls_accumulate_in_order(calls, rest, index);
        let mid = calls_after(calls, rest)->Some_0;
        let call = deltas.last();
        if call.index == index {
            let p = pending_at(mid, index);
            assert(pending_at(calls_after(calls, deltas)->Some_0, index) == merged(p, call));
            assert(before.3 + fragments_for(deltas, index) =~= p.3 + match delta_arguments(call) {
                Some(arguments) => arguments,
                None => Seq::<char>::empty(),
            });
        } else {
            assert(pending_at(calls_after(calls, deltas)->Some_0, index) == pending_at(mid, index));
        }
    }
}

pub open spec fn opt_len(value: Option<String>) -> int {
    match value {
        Some(text) => utf8_len(text@) as int,
        None => 0,
    }
}

pub open spec fn delta_bytes(call: ChatStreamToolCallDelta) -> int {
    opt_len(call.id) + opt_len(call.call_type) + match call.function {
        Some(function) => opt_len(function.name) + opt_len(function.arguments),
        None => 0,
    }
}

/// Bytes of streamed text an event adds: its content and every tool field.
pub open spec fn deltas_bytes(deltas: Seq<ChatStreamToolCallDelta>) -> int
    decreases deltas.len(),
{
    if deltas.len() == 0 {
        0
    } else {
        deltas_bytes(deltas.drop_last()) + delta_bytes(deltas.last())
    }
}

/// The map a sorted list of pending calls stands for.
pub open spec fn calls_map(calls: Seq<PendingToolCall>) -> Map<usize, PendingView>
    decreases calls.len(),
{
    if calls.len() == 0 {
        Map::empty()
    } else {
        calls_map(calls.drop_last()).insert(calls.last().index, pending_view(calls.last()))
    }
}

/// Indices strictly increase, so the calls come out ordered by index.
pub open spec fn sorted_calls(calls: Seq<PendingToolCall>) -> bool {
    forall|i: int, j: int| 0 <= i < j < calls.len() ==> calls[i].index < calls[j].index
}

/// The first choice of one parsed stream chunk.
#[derive(Debug, Clone, PartialEq, Eq)]
pub struct StreamChoiceDelta {
    pub content: Option<String>,
    pub tool_calls: Vec<ChatStreamToolCallDelta>,
    pub finish_reason: Option<String>,
}

/// One parsed stream chunk.
#[derive(Debug, Clone, PartialEq, Eq)]
pub struct StreamEvent {
    pub id: Option<String>,
    pub usage: Option<ChatUsage>,
    pub choice: Option<StreamChoiceDelta>,
}

/// State of a streamed completion between events.
#[derive(Debug)]
pub struct StreamAccumulator {
    content: String,
    calls: Vec<PendingToolCall>,
    stream_bytes: usize,
    finish_reason: Option<String>,
    usage: Option<ChatUsage>,
    upstream_request_id: Option<String>,
}

impl StreamAccumulator {
    pub closed spec fn content_view(&self) -> Seq<char> {
        self.content@
    }

    pub closed spec fn calls_view(&self) -> Seq<PendingToolCall> {
        self.calls@
    }

    pub closed spec fn stream_bytes_view(&self) -> int {
        self.stream_bytes as int
    }

    pub closed spec fn finish_reason_view(&self) -> Option<Seq<char>> {
        opt_text(self.finish_reason)
    }

    pub closed spec fn usage_view(&self) -> Option<ChatUsage> {
        self.usage
    }

    pub closed spec fn request_id_view(&self) -> Option<Seq<char>> {
        opt_text(self.upstream_request_id)
    }

    /// Calls ordered by index, within the stream limit.
    pub open spec fn wf(&self) -> bool {
        &&& sorted_calls(self.calls_view())
        &&& self.stream_bytes_view() <= MAX_RESPONSE_STREAM_BYTES
    }

    /// An empty completion; `upstream_request_id` is what the response
    /// headers named, if anything.
    pub fn new(upstream_request_id: Option<String>) -> (state: StreamAccumulator)
        ensures
            state.wf(),
            state.content_view().len() == 0,
            state.calls_view().len() == 0,
            state.stream_bytes_view() == 0,
            state.finish_reason_view() is None,
            state.usage_view() is None,
            state.request_id_view() == opt_text(upstream_request_id),
    {
        StreamAccumulator {
            content: String::new(),
            calls: Vec::new(),
            stream_bytes: 0,
            finish_reason: None,
            usage: None,
            upstream_request_id,
        }
    }
}


proof fn lemma_calls_map(calls: Seq<PendingToolCall>)
    requires
        sorted_calls(calls),
    ensures
        forall|k: usize|
            calls_map(calls).contains_key(k) <==> exists|i: int| 0 <= i < calls.len() && #[trigger] calls[i].index == k,
        forall|i: int|
            0 <= i < calls.len() ==> calls_map(calls)[#[trigger] calls[i].index] == pending_view(calls[i]),
    decreases calls.len(),
{
    if calls.len() > 0 {
        let rest = calls.drop_last();
        assert(sorted_calls(rest));
        lemma_calls_map(rest);
        assert forall|k: usize|
            calls_map(calls).contains_key(k) <==> exists|i: int| 0 <= i < calls.len() && #[trigger] calls[i].index == k by {
            if calls_map(calls).contains_key(k) {
                if k == calls.last().index {
                    assert(calls[calls.len() - 1].index == k);
                } else {
                    assert(calls_map(rest).contains_key(k));
                    let i = choose|i: int| 0 <= i < rest.len() && #[trigger] rest[i].index == k;
                    assert(rest[i] == calls[i]);
                    assert(calls[i].index == k);
                }
            }
            if exists|i: int| 0 <= i < calls.len() && #[trigger] calls[i].index == k {
                let i = choose|i: int| 0 <= i < calls.len() && #[trigger] calls[i].index == k;
                if i < calls.len() - 1 {
                    assert(rest[i].index == k);
                }
            }
        }
        assert forall|i: int|
            0 <= i < calls.len() implies calls_map(calls)[#[trigger] calls[i].index] == pending_view(calls[i]) by {
            if i < calls.len() - 1 {
                assert(rest[i] == calls[i]);
                assert(calls[i].index < calls.last().index);
            }
        }
    }
}

proof fn lemma_update_call(before: Seq<PendingToolCall>, p: int, updated: PendingToolCall, value: PendingView)
    requires
        sorted_calls(before),
        0 <= p < before.len(),
        before[p].index == updated.index,
        pending_view(updated) == value,
    ensures
        sorted_calls(before.update(p, updated)),
        calls_map(before.update(p, updated)) == calls_map(before).insert(updated.index, value),
{
    let after = before.update(p, updated);
    lemma_calls_map(before);
    assert(sorted_calls(after)) by {
        assert forall|i: int, j: int| 0 <= i < j < after.len() implies after[i].index
            < after[j].index by {
            assert(before[i].index < before[j].index);
        }
    }
    lemma_calls_map(after);
    let target = calls_map(before).insert(updated.index, value);
    assert forall|k: usize| #[trigger] calls_map(after).contains_key(k) implies target.contains_key(k) by {
        let i = choose|i: int| 0 <= i < after.len() && #[trigger] after[i].index == k;
        assert(before[i].index == k);
    }
    assert forall|k: usize| #[trigger] target.contains_key(k) implies calls_map(after).contains_key(k) by {
        if k != updated.index {
            let i = choose|i: int| 0 <= i < before.len() && #[trigger] before[i].index == k;
            assert(after[i].index == k);
        } else {
            assert(after[p].index == k);
        }
    }
    assert forall|k: usize| #[trigger] calls_map(after).contains_key(k) implies calls_map(after)[k]
        == target[k] by {
        let i = choose|i: int| 0 <= i < after.len() && #[trigger] after[i].index == k;
        if i != p {
            assert(after[i] == before[i]);
        }
    }
    assert(calls_map(after) =~= target);
}

proof fn lemma_insert_call(before: Seq<PendingToolCall>, p: int, updated: PendingToolCall, value: PendingView)
    requires
        sorted_calls(before),
        0 <= p <= before.len(),
        forall|j: int| 0 <= j < p ==> #[trigger] before[j].index < updated.index,
        p < before.len() ==> before[p].index > updated.index,
        pending_view(updated) == value,
    ensures
        sorted_calls(before.insert(p, updated)),
        calls_map(before.insert(p, updated)) == calls_map(before).insert(updated.index, value),
{
    let after = before.insert(p, updated);
    lemma_calls_map(before);
    assert(sorted_calls(after)) by {
        assert forall|i: int, j: int| 0 <= i < j < after.len() implies after[i].index
            < after[j].index by {
            if j < p {
                assert(before[i].index < before[j].index);
            } else if j == p {
                assert(before[i].index < updated.index);
            } else if i == p {
                assert(before[p].index <= before[j - 1].index);
            } else if i < p {
                assert(before[i].index < before[j - 1].index);
            } else {
                assert(before[i - 1].index < before[j - 1].index);
            }
        }
    }
    lemma_calls_map(after);
    let target = calls_map(before).insert(updated.index, value);
    assert forall|k: usize| #[trigger] calls_map(after).contains_key(k) implies target.contains_key(k) by {
        let i = choose|i: int| 0 <= i < after.len() && #[trigger] after[i].index == k;
        if i < p {
            assert(before[i].index == k);
        } else if i > p {
            assert(before[i - 1].index == k);
        }
    }
    assert forall|k: usize| #[trigger] target.contains_key(k) implies calls_map(after).contains_key(k) by {
        if k != updated.index {
            let i = choose|i: int| 0 <= i < before.len() && #[trigger] before[i].index == k;
            if i < p {
                assert(after[i].index == k);
            } else {
                assert(after[i + 1].index == k);
            }
        } else {
            assert(after[p].index == k);
        }
    }
    assert forall|k: usize| #[trigger] calls_map(after).contains_key(k) implies calls_map(after)[k]
        == target[k] by {
        let i = choose|i: int| 0 <= i < after.len() && #[trigger] after[i].index == k;
        if i < p {
            assert(after[i] == before[i]);
        } else if i > p {
            assert(after[i] == before[i - 1]);
        }
    }
    assert(calls_map(after) =~= target);
}


fn copy_text(value: &Option<String>) -> (copy: Option<String>)
    ensures
        opt_text(copy) == opt_text(*value),
{
    match value {
        Some(text) => Some(text.clone()),
        None => None,
    }
}

fn opt_bytes(value: &Option<String>) -> (n: usize)
    ensures
        n == (if opt_len(*value) > usize::MAX {
            usize::MAX as int
        } else {
            opt_len(*value)
        }),
{
    match value {
        Some(text) => text_bytes(text.as_str()),
        None => 0,
    }
}

/// Merges one delta into the sorted pending calls; `false` when the call's
/// arguments would exceed the limit.
fn merge_delta(calls: &mut Vec<PendingToolCall>, delta: &ChatStreamToolCallDelta) -> (ok: bool)
    requires
        sorted_calls(old(calls)@),
    ensures
        sorted_calls(final(calls)@),
        ok == !arguments_overflow(pending_at(calls_map(old(calls)@), delta.index), *delta),
        ok ==> calls_map(final(calls)@) == calls_map(old(calls)@).insert(
            delta.index,
            merged(pending_at(calls_map(old(calls)@), delta.index), *delta),
        ),
{
    proof {
        lemma_calls_map(calls@);
    }
    let ghost before = calls@;
    let mut p: usize = 0;
    while p < calls.len() && calls[p].index < delta.index
        invariant
            calls@ == before,
            p <= calls@.len(),
            forall|j: int| 0 <= j < p ==> #[trigger] calls@[j].index < delta.index,
        decreases calls@.len() - p,
    {
        p += 1;
    }
    let existing = p < calls.len() && calls[p].index == delta.index;
    let (id, call_type, name, arguments) = if existing {
        let current = &calls[p];
        (
            copy_text(&current.id),
            copy_text(&current.call_type),
            copy_text(&current.name),
            current.arguments.clone(),
        )
    } else {
        (None, None, None, String::new())
    };
    proof {
        if existing {
            assert(pending_at(calls_map(before), delta.index) == pending_view(before[p as int]));
        } else {
            assert forall|i: int| 0 <= i < before.len() implies #[trigger] before[i].index != delta.index by {
                if i >= p {
                    assert(before[p as int].index <= before[i].index);
                }
            }
            assert(!calls_map(before).contains_key(delta.index));
        }
    }
    let ghost pending = pending_at(calls_map(before), delta.index);
    assert(opt_text(id) == pending.0 && opt_text(call_type) == pending.1 && opt_text(name) == pending.2
        && arguments@ == pending.3);
    let id = if id.is_some() {
        id
    } else {
        copy_text(&delta.id)
    };
    let call_type = if call_type.is_some() {
        call_type
    } else {
        copy_text(&delta.call_type)
    };
    let mut name = name;
    let mut arguments = arguments;
    match &delta.function {
        Some(function) => {
            if name.is_none() {
                name = copy_text(&function.name);
            }
            match &function.arguments {
                Some(more) => {
                    let have = text_bytes(arguments.as_str());
                    let extra = text_bytes(more.as_str());
                    if have > MAX_RESPONSE_TOOL_ARGUMENT_BYTES || extra > MAX_RESPONSE_TOOL_ARGUMENT_BYTES
                        - have {
                        return false;
                    }
                    push_str(&mut arguments, more.as_str());
                },
                None => {},
            }
        },
        None => {},
    }
    let updated = PendingToolCall { index: delta.index, id, call_type, name, arguments };
    assert(pending_view(updated) == merged(pending, *delta));
    if existing {
        calls.set(p, updated);
        proof {
            lemma_update_call(before, p as int, updated, merged(pending, *delta));
        }
    } else {
        calls.insert(p, updated);
        proof {
            lemma_insert_call(before, p as int, updated, merged(pending, *delta));
        }
    }
    true
}


pub open spec fn saturated(n: int) -> int {
    if n > usize::MAX {
        usize::MAX as int
    } else {
        n
    }
}

proof fn lemma_deltas_bytes_nonneg(deltas: Seq<ChatStreamToolCallDelta>)
    ensures
        deltas_bytes(deltas) >= 0,
    decreases deltas.len(),
{
    if deltas.len() > 0 {
        lemma_deltas_bytes_nonneg(deltas.drop_last());
    }
}

fn delta_bytes_of(call: &ChatStreamToolCallDelta) -> (n: usize)
    ensures
        n == saturated(delta_bytes(*call)),
{
    let mut n = opt_bytes(&call.id).saturating_add(opt_bytes(&call.call_type));
    match &call.function {
        Some(function) => {
            n = n.saturating_add(opt_bytes(&function.name)).saturating_add(
                opt_bytes(&function.arguments),
            );
        },
        None => {},
    }
    n
}

/// Bytes an event adds to the stream, saturating.
fn added_bytes(delta: &str, calls: &Vec<ChatStreamToolCallDelta>) -> (n: usize)
    ensures
        n == saturated(utf8_len(delta@) + deltas_bytes(calls@)),
{
    let mut total = text_bytes(delta);
    let mut i: usize = 0;
    while i < calls.len()
        invariant
            i <= calls@.len(),
            total == saturated(utf8_len(delta@) + deltas_bytes(calls@.subrange(0, i as int))),
        decreases calls@.len() - i,
    {
        assert(calls@.subrange(0, i + 1).drop_last() =~= calls@.subrange(0, i as int));
        proof {
            lemma_deltas_bytes_nonneg(calls@.subrange(0, i as int));
        }
        total = total.saturating_add(delta_bytes_of(&calls[i]));
        i += 1;
    }
    assert(calls@.subrange(0, i as int) =~= calls@);
    total
}

/// Merges all deltas of an event in order; `false` when some call's
/// arguments would exceed the limit.
fn merge_deltas(calls: &mut Vec<PendingToolCall>, deltas: &Vec<ChatStreamToolCallDelta>) -> (ok: bool)
    requires
        sorted_calls(old(calls)@),
    ensures
        sorted_calls(final(calls)@),
        ok == calls_after(calls_map(old(calls)@), deltas@) is Some,
        ok ==> calls_after(calls_map(old(calls)@), deltas@) == Some(calls_map(final(calls)@)),
{
    let ghost start = calls_map(calls@);
    let mut i: usize = 0;
    while i < deltas.len()
        invariant
            start == calls_map(old(calls)@),
            i <= deltas@.len(),
            sorted_calls(calls@),
            calls_after(start, deltas@.subrange(0, i as int)) == Some(calls_map(calls@)),
        decreases deltas@.len() - i,
    {
        assert(deltas@.subrange(0, i + 1).drop_last() =~= deltas@.subrange(0, i as int));
        assert(deltas@.subrange(0, i + 1).last() == deltas@[i as int]);
        let ghost current = calls@;
        if !merge_delta(calls, &deltas[i]) {
            proof {
                assert(calls_after(start, deltas@.subrange(0, i + 1)) is None);
                lemma_calls_after_stops(start, deltas@, i as int + 1);
            }
            return false;
        }
        i += 1;
    }
    assert(deltas@.subrange(0, i as int) =~= deltas@);
    true
}

proof fn lemma_calls_after_stops(calls: Map<usize, PendingView>, deltas: Seq<ChatStreamToolCallDelta>, n: int)
    requires
        0 <= n <= deltas.len(),
        calls_after(calls, deltas.subrange(0, n)) is None,
    ensures
        calls_after(calls, deltas) is None,
    decreases deltas.len() - n,
{
    if n < deltas.len() {
        assert(deltas.subrange(0, n + 1).drop_last() =~= deltas.subrange(0, n));
        lemma_calls_after_stops(calls, deltas, n + 1);
    } else {
        assert(deltas.subrange(0, n) =~= deltas);
    }
}

pub open spec fn opt_views_eq(a: Option<String>, b: Option<String>) -> bool {
    opt_text(a) == opt_text(b)
}

impl StreamAccumulator {
    /// Applies one parsed chunk. The request id is kept from the first
    /// source that names one, usage from the latest chunk that reports it.
    /// Only the first choice counts; its text is appended, its tool deltas
    /// merged and its finish reason kept. Fails when the streamed text
    /// passes the stream limit or a call's arguments pass theirs. Returns
    /// the delta to hand to the listener, when the chunk carried anything.
    pub fn accept(self, event: StreamEvent) -> (result: Result<(StreamAccumulator, Option<ChatStreamDelta>), GatewayError>)
        requires
            self.wf(),
        ensures
            match event.choice {
                None => result matches Ok((next, emitted)) && emitted is None && next.wf()
                    && next.content_view() == self.content_view() && next.calls_view()
                    == self.calls_view() && next.stream_bytes_view() == self.stream_bytes_view()
                    && next.finish_reason_view() == self.finish_reason_view()
                    && next.request_id_view() == first_some(self.request_id_view(), opt_text(event.id))
                    && next.usage_view() == (if event.usage is Some { event.usage } else { self.usage_view() }),
                Some(choice) => {
                    let delta = match choice.content {
                        Some(text) => text@,
                        None => Seq::empty(),
                    };
                    let total = self.stream_bytes_view() + utf8_len(delta) + deltas_bytes(choice.tool_calls@);
                    let calls = calls_after(calls_map(self.calls_view()), choice.tool_calls@);
                    if total > MAX_RESPONSE_STREAM_BYTES {
                        result matches Err(GatewayError::StreamTooLarge)
                    } else if calls is None {
                        result matches Err(GatewayError::ToolArgumentsTooLarge)
                    } else {
                        &&& result matches Ok((next, emitted))
                        &&& next.wf()
                        &&& next.content_view() == self.content_view() + delta
                        &&& Some(calls_map(next.calls_view())) == calls
                        &&& next.stream_bytes_view() == total
                        &&& next.finish_reason_view() == first_some(
                            opt_text(choice.finish_reason),
                            self.finish_reason_view(),
                        )
                        &&& next.request_id_view() == first_some(self.request_id_view(), opt_text(event.id))
                        &&& next.usage_view() == (if event.usage is Some { event.usage } else { self.usage_view() })
                        &&& if delta.len() > 0 || choice.tool_calls@.len() > 0 || choice.finish_reason is Some {
                            emitted matches Some(out) && out.delta@ == delta && out.tool_calls
                                == choice.tool_calls && opt_views_eq(out.finish_reason, choice.finish_reason)
                        } else {
                            emitted is None
                        }
                    }
                },
            },
    {
        let mut next = self;
        if next.upstream_request_id.is_none() {
            next.upstream_request_id = event.id;
        }
        if event.usage.is_some() {
            next.usage = event.usage;
        }
        let choice = match event.choice {
            None => {
                return Ok((next, None));
            },
            Some(choice) => choice,
        };
        let delta = match choice.content {
            Some(text) => text,
            None => String::new(),
        };
        let added = added_bytes(delta.as_str(), &choice.tool_calls);
        proof {
            lemma_deltas_bytes_nonneg(choice.tool_calls@);
        }
        if added > MAX_RESPONSE_STREAM_BYTES - next.stream_bytes {
            return Err(GatewayError::StreamTooLarge);
        }
        if !merge_deltas(&mut next.calls, &choice.tool_calls) {
            return Err(GatewayError::ToolArgumentsTooLarge);
        }
        next.stream_bytes = next.stream_bytes + added;
        push_str(&mut next.content, delta.as_str());
        if choice.finish_reason.is_some() {
            next.finish_reason = copy_text(&choice.finish_reason);
        }
        let carries = !delta.as_str().is_empty() || choice.tool_calls.len() > 0
            || choice.finish_reason.is_some();
        if carries {
            let emitted = ChatStreamDelta {
                delta,
                tool_calls: choice.tool_calls,
                finish_reason: choice.finish_reason,
            };
            Ok((next, Some(emitted)))
        } else {
            Ok((next, None))
        }
    }
}


/// The field a pending call still lacks, if any: its id, then its name.
pub open spec fn missing_field(call: PendingToolCall) -> Option<Seq<char>> {
    if call.id is None {
        Some("id"@)
    } else if call.name is None {
        Some("function.name"@)
    } else {
        None
    }
}

/// `error` names the call's stream index and the field it lacks.
pub open spec fn reports_missing(call: PendingToolCall, error: GatewayError) -> bool {
    match (missing_field(call), error) {
        (Some(field), GatewayError::IncompleteToolCall { index, field: name }) => index == call.index
            && name@ == field,
        _ => false,
    }
}

/// The completed form of a pending call; the type defaults to `function`.
pub open spec fn completed_call(call: PendingToolCall, done: ChatToolCall) -> bool {
    &&& opt_text(call.id) == Some(done.id@)
    &&& done.call_type@ == (match call.call_type {
        Some(kind) => kind@,
        None => "function"@,
    })
    &&& opt_text(call.name) == Some(done.function.name@)
    &&& done.function.arguments@ == call.arguments@
}

/// Completes the pending calls in order; the first one that lacks its id
/// or name is reported with its stream index.
pub fn complete_tool_calls(pending: &Vec<PendingToolCall>) -> (result: Result<Vec<ChatToolCall>, GatewayError>)
    ensures
        match result {
            Ok(calls) => {
                &&& calls@.len() == pending@.len()
                &&& forall|i: int| 0 <= i < pending@.len() ==> missing_field(#[trigger] pending@[i]) is None
                &&& forall|i: int| 0 <= i < pending@.len() ==> completed_call(pending@[i], #[trigger] calls@[i])
            },
            Err(error) => exists|i: int|
                0 <= i < pending@.len() && (forall|j: int| 0 <= j < i ==> missing_field(#[trigger] pending@[j]) is None)
                    && #[trigger] reports_missing(pending@[i], error),
        },
{
    let mut out: Vec<ChatToolCall> = Vec::new();
    let mut i: usize = 0;
    while i < pending.len()
        invariant
            i <= pending@.len(),
            out@.len() == i,
            forall|j: int| 0 <= j < i ==> missing_field(#[trigger] pending@[j]) is None,
            forall|j: int| 0 <= j < i ==> completed_call(pending@[j], #[trigger] out@[j]),
        decreases pending@.len() - i,
    {
        let call = &pending[i];
        let id = match &call.id {
            Some(id) => id.clone(),
            None => {
                let error = GatewayError::IncompleteToolCall { index: call.index, field: String::from_str("id") };
                assert(reports_missing(pending@[i as int], error));
                return Err(error);
            },
        };
        let name = match &call.name {
            Some(name) => name.clone(),
            None => {
                let error = GatewayError::IncompleteToolCall {
                    index: call.index,
                    field: String::from_str("function.name"),
                };
                assert(reports_missing(pending@[i as int], error));
                return Err(error);
            },
        };
        let call_type = match &call.call_type {
            Some(kind) => kind.clone(),
            None => String::from_str("function"),
        };
        let done = ChatToolCall {
            id,
            call_type,
            function: ChatFunctionCall { name, arguments: call.arguments.clone() },
        };
        let ghost before = out@;
        out.push(done);
        proof {
            assert forall|j: int| 0 <= j < i + 1 implies completed_call(pending@[j], #[trigger] out@[j]) by {
                if j < i {
                    assert(out@[j] == before[j]);
                }
            }
        }
        i += 1;
    }
    Ok(out)
}

impl StreamAccumulator {
    /// The completion once the stream reports `[DONE]`.
    pub fn finish(self) -> (result: Result<ChatCompletion, GatewayError>)
        ensures
            match result {
                Ok(done) => {
                    &&& done.content@ == self.content_view()
                    &&& done.tool_calls@.len() == self.calls_view().len()
                    &&& forall|i: int|
                        0 <= i < self.calls_view().len() ==> completed_call(
                            self.calls_view()[i],
                            #[trigger] done.tool_calls@[i],
                        )
                    &&& opt_text(done.finish_reason) == self.finish_reason_view()
                    &&& done.usage == self.usage_view()
                    &&& opt_text(done.upstream_request_id) == self.request_id_view()
                },
                Err(error) => exists|i: int|
                    0 <= i < self.calls_view().len() && (forall|j: int|
                        0 <= j < i ==> missing_field(#[trigger] self.calls_view()[j]) is None)
                        && #[trigger] reports_missing(self.calls_view()[i], error),
            },
    {
        match complete_tool_calls(&self.calls) {
            Ok(tool_calls) => {
                let ghost calls = self.calls_view();
                let ghost content = self.content_view();
                let ghost finish = self.finish_reason_view();
                let ghost usage = self.usage_view();
                let ghost request = self.request_id_view();
                let done = ChatCompletion {
                    content: self.content,
                    tool_calls,
                    finish_reason: self.finish_reason,
                    usage: self.usage,
                    upstream_request_id: self.upstream_request_id,
                };
                assert(done.content@ == content);
                assert(opt_text(done.finish_reason) == finish);
                assert(done.usage == usage);
                assert(opt_text(done.upstream_request_id) == request);
                assert(done.tool_calls@.len() == calls.len());
                assert(forall|i: int|
                    0 <= i < calls.len() ==> completed_call(calls[i], #[trigger] done.tool_calls@[i]));
                Ok(done)
            },
            Err(error) => {
                proof {
                    let calls = self.calls_view();
                    assert(calls == self.calls@);
                    let i = choose|i: int|
                        0 <= i < calls.len() && (forall|j: int|
                            0 <= j < i ==> missing_field(#[trigger] calls[j]) is None)
                            && #[trigger] reports_missing(calls[i], error);
                    assert(reports_missing(calls[i], error));
                }
                Err(error)
            },
        }
    }
}

/// A reply whose declared length exceeds the limit is refused before it is
/// read.
pub fn check_content_length(length: Option<u64>, limit: usize) -> (result: Result<(), GatewayError>)
    ensures
        result == if declared_within(length, limit) {
            Ok::<(), GatewayError>(())
        } else {
            Err::<(), GatewayError>(GatewayError::ResponseTooLarge)
        },
{
    if declared_length_within(length, limit) {
        Ok(())
    } else {
        Err(GatewayError::ResponseTooLarge)
    }
}

/// Appends a chunk of a reply body unless the body would then exceed the
/// limit; the body is left as it was when it would.
pub fn append_bounded(body: &mut Vec<u8>, chunk: &[u8], limit: usize) -> (result: Result<(), GatewayError>)
    ensures
        old(body)@.len() + chunk@.len() > limit ==> result == Err::<(), GatewayError>(
            GatewayError::ResponseTooLarge,
        ) && final(body)@ == old(body)@,
        old(body)@.len() + chunk@.len() <= limit ==> result is Ok && final(body)@ == old(body)@ + chunk@,
{
    if append_within(body, chunk, limit) {
        Ok(())
    } else {
        Err(GatewayError::ResponseTooLarge)
    }
}

/// The first choice of a completion that was not streamed.
#[derive(Debug, Clone)]
pub struct CompletionChoice {
    pub content: Option<String>,
    pub tool_calls: Vec<ChatToolCall>,
    pub finish_reason: Option<String>,
}

/// The completion a non-streamed reply makes: its first choice (content
/// empty when absent), its usage, and the request id from the headers, or
/// else the one in the body.
pub fn finish_completion(
    header_request_id: Option<String>,
    response_id: Option<String>,
    choices: Vec<CompletionChoice>,
    usage: Option<ChatUsage>,
) -> (result: Result<ChatCompletion, GatewayError>)
    ensures
        choices@.len() == 0 ==> result == Err::<ChatCompletion, GatewayError>(GatewayError::MissingChoice),
        choices@.len() > 0 ==> (result matches Ok(completion) && {
            &&& completion.content@ == match choices@[0].content {
                Some(text) => text@,
                None => Seq::<char>::empty(),
            }
            &&& completion.tool_calls@ == choices@[0].tool_calls@
            &&& completion.finish_reason == choices@[0].finish_reason
            &&& completion.usage == usage
            &&& completion.upstream_request_id == if header_request_id is Some {
                header_request_id
            } else {
                response_id
            }
        }),
{
    if choices.len() == 0 {
        return Err(GatewayError::MissingChoice);
    }
    let mut choices = choices;
    let first = choices.remove(0);
    let content = match first.content {
        Some(text) => text,
        None => String::new(),
    };
    let upstream_request_id = match header_request_id {
        Some(id) => Some(id),
        None => response_id,
    };
    Ok(ChatCompletion {
        content,
        tool_calls: first.tool_calls,
        finish_reason: first.finish_reason,
        usage,
        upstream_request_id,
    })
}

/// The event that ends a stream.
pub fn is_done_event(event: &str) -> (done: bool)
    ensures
        done == (event@ == "[DONE]"@),
{
    str_eq(event, "[DONE]")
}


// ---------------------------------------------------------------------------
// Request assembly
// ---------------------------------------------------------------------------

/// A header value usable as a request id: trimmed, non-empty, at most the
/// id limit in bytes.
pub open spec fn usable_request_id(value: Option<String>) -> bool {
    value matches Some(text) && trim(text@).len() > 0 && utf8_len(trim(text@))
        <= MAX_TOOL_CALL_ID_BYTES
}

/// The first usable value, trimmed. `values` holds, for the headers
/// `x-request-id`, `request-id` and `openai-request-id` in that order, each
/// header's text when present and readable.
pub fn select_request_id(values: &[Option<String>]) -> (id: Option<String>)
    ensures
        match id {
            Some(text) => exists|i: int|
                0 <= i < values@.len() && (forall|j: int| 0 <= j < i ==> !usable_request_id(#[trigger] values@[j]))
                    && #[trigger] usable_request_id(values@[i]) && text@ == trim(
                    values@[i]->Some_0@,
                ),
            None => forall|i: int| 0 <= i < values@.len() ==> !usable_request_id(#[trigger] values@[i]),
        },
{
    let mut i: usize = 0;
    while i < values.len()
        invariant
            i <= values@.len(),
            forall|j: int| 0 <= j < i ==> !usable_request_id(#[trigger] values@[j]),
        decreases values@.len() - i,
    {
        match &values[i] {
            Some(text) => {
                let trimmed_text = trimmed(text.as_str());
                if !trimmed_text.as_str().is_empty() && !utf8_len_exceeds(
                    trimmed_text.as_str(),
                    MAX_TOOL_CALL_ID_BYTES,
                ) {
                    assert(usable_request_id(values@[i as int]));
                    return Some(trimmed_text);
                }
            },
            None => {},
        }
        i += 1;
    }
    None
}

/// Request fields that define the protocol and cannot be overridden by
/// extra request parameters.
pub open spec fn is_reserved_request_field(name: Seq<char>) -> bool {
    name == "model"@ || name == "messages"@ || name == "temperature"@ || name == "stream"@
}

pub fn reserved_request_field(name: &str) -> (reserved: bool)
    ensures
        reserved == is_reserved_request_field(name@),
{
    str_eq(name, "model") || str_eq(name, "messages") || str_eq(name, "temperature") || str_eq(
        name,
        "stream",
    )
}

/// Fields a caller's extra parameters may not name: MOMO sets them.
pub open spec fn is_managed_request_field(name: Seq<char>) -> bool {
    name == "messages"@ || name == "stream"@
}

/// Extra request parameters of a chat request must leave `messages` and
/// `stream` to MOMO.
pub fn check_request_parameters(names: &Vec<String>) -> (result: Result<(), String>)
    ensures
        (exists|i: int| 0 <= i < names@.len() && #[trigger] is_managed_request_field(names@[i]@)) ==> (
        result matches Err(m) && m@ == "messages and stream are managed by MOMO"@),
        (forall|i: int| 0 <= i < names@.len() ==> !#[trigger] is_managed_request_field(names@[i]@))
            ==> result is Ok,
{
    let mut i: usize = 0;
    while i < names.len()
        invariant
            i <= names@.len(),
            forall|j: int| 0 <= j < i ==> !#[trigger] is_managed_request_field(names@[j]@),
        decreases names@.len() - i,
    {
        if str_eq(names[i].as_str(), "messages") || str_eq(names[i].as_str(), "stream") {
            assert(is_managed_request_field(names@[i as int]@));
            return Err(String::from_str("messages and stream are managed by MOMO"));
        }
        i += 1;
    }
    Ok(())
}

/// Which extra request parameters are forwarded: all but the reserved ones.
pub fn forwarded_parameters(names: &Vec<String>) -> (forwarded: Vec<bool>)
    ensures
        forwarded@.len() == names@.len(),
        forall|i: int|
            0 <= i < names@.len() ==> forwarded@[i] == !is_reserved_request_field(#[trigger] names@[i]@),
{
    let mut forwarded: Vec<bool> = Vec::new();
    let mut i: usize = 0;
    while i < names.len()
        invariant
            i <= names@.len(),
            forwarded@.len() == i,
            forall|j: int|
                0 <= j < i ==> forwarded@[j] == !is_reserved_request_field(#[trigger] names@[j]@),
        decreases names@.len() - i,
    {
        forwarded.push(!reserved_request_field(names[i].as_str()));
        i += 1;
    }
    forwarded
}

} // verus!
