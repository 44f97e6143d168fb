//! Structured control-plane operations that never pass through a model.
//! Space, conversation and character ids are UUIDs held as their 128-bit
//! values.

use vstd::prelude::*;

use crate::checksum::{sha256_hex, sha256_hex_of};
use crate::ids::{format_uuid, hyphenated};
use crate::text::{all_ws, debug_quoted, debug_quoted_text, is_blank, push_str, str_eq, utf8_len, utf8_len_exceeds};

verus! {

pub open spec fn control_schema() -> Seq<char> {
    "momo.control/1.0"@
}

#[derive(Debug, Clone, Copy, PartialEq, Eq, Structural)]
pub enum MomoControlAction {
    DeleteConversation { conversation_space_id: u128, conversation_id: u128 },
    ClearMemory { target_space_id: u128, memory: bool, semantic_graph: bool },
    SwitchCharacter { conversation_space_id: u128, conversation_id: u128, character_id: u128 },
}

#[derive(Debug, Clone, PartialEq, Eq)]
pub struct MomoControlRequest {
    pub schema: String,
    pub request_id: String,
    pub actor_space_id: u128,
    pub action: MomoControlAction,
}

/// What validating a control request reports.
pub open spec fn control_problem(request: MomoControlRequest) -> Option<Seq<char>> {
    if request.schema@ != control_schema() {
        Some("unsupported MOMO control schema "@ + debug_quoted_text(request.schema@))
    } else if all_ws(request.request_id@) || utf8_len(request.request_id@) > 256 {
        Some("control request_id must contain 1 to 256 bytes"@)
    } else if request.action matches MomoControlAction::ClearMemory { memory, semantic_graph, .. }
        && !memory && !semantic_graph {
        Some("clear_memory must select memory and/or semantic_graph"@)
    } else {
        None
    }
}

impl MomoControlRequest {
    /// Checks the schema, the request id (1 to 256 bytes, not blank) and
    /// that a memory clear names at least one store.
    pub fn validate(&self) -> (result: Result<(), String>)
        ensures
            match control_problem(*self) {
                None => result is Ok,
                Some(message) => result matches Err(m) && m@ == message,
            },
    {
        if !str_eq(self.schema.as_str(), "momo.control/1.0") {
            let mut message = String::from_str("unsupported MOMO control schema ");
            push_str(&mut message, debug_quoted(self.schema.as_str()).as_str());
            return Err(message);
        }
        if is_blank(self.request_id.as_str()) || utf8_len_exceeds(self.request_id.as_str(), 256) {
            return Err(String::from_str("control request_id must contain 1 to 256 bytes"));
        }
        match self.action {
            MomoControlAction::ClearMemory { memory, semantic_graph, .. } => {
                if !memory && !semantic_graph {
                    return Err(String::from_str("clear_memory must select memory and/or semantic_graph"));
                }
            },
            _ => {},
        }
        Ok(())
    }
}

/// The resource a control action locks: the conversation it changes, or the
/// Space whose memory it clears.
pub open spec fn resource_key(action: MomoControlAction) -> Seq<char> {
    match action {
        MomoControlAction::DeleteConversation { conversation_id, .. } => "conversation:"@ + hyphenated(
            conversation_id,
        ),
        MomoControlAction::SwitchCharacter { conversation_id, .. } => "conversation:"@ + hyphenated(
            conversation_id,
        ),
        MomoControlAction::ClearMemory { target_space_id, .. } => "memory:"@ + hyphenated(target_space_id),
    }
}

pub fn control_resource_key(action: &MomoControlAction) -> (key: String)
    ensures
        key@ == resource_key(*action),
{
    match action {
        MomoControlAction::DeleteConversation { conversation_id, .. }
        | MomoControlAction::SwitchCharacter { conversation_id, .. } => {
            let mut key = String::from_str("conversation:");
            push_str(&mut key, format_uuid(*conversation_id).as_str());
            key
        },
        MomoControlAction::ClearMemory { target_space_id, .. } => {
            let mut key = String::from_str("memory:");
            push_str(&mut key, format_uuid(*target_space_id).as_str());
            key
        },
    }
}

/// A path under a Space belongs to the semantic graph: it starts with
/// `lore` or `rules`, directly or under `archive`.
pub open spec fn semantic_graph_parts(parts: Seq<Seq<char>>) -> bool {
    ||| parts.len() >= 1 && (parts[0] == "lore"@ || parts[0] == "rules"@)
    ||| parts.len() >= 2 && parts[0] == "archive"@ && (parts[1] == "lore"@ || parts[1] == "rules"@)
}

/// `parts` are the path's plain components that are valid UTF-8, in order.
pub fn is_semantic_graph_path(parts: &[String]) -> (semantic: bool)
    ensures
        semantic == semantic_graph_parts(parts@.map_values(|p: String| p@)),
{
    let ghost view = parts@.map_values(|p: String| p@);
    if parts.len() >= 1 && (str_eq(parts[0].as_str(), "lore") || str_eq(parts[0].as_str(), "rules")) {
        assert(view[0] == parts@[0]@);
        return true;
    }
    if parts.len() >= 2 && str_eq(parts[0].as_str(), "archive") && (str_eq(parts[1].as_str(), "lore")
        || str_eq(parts[1].as_str(), "rules")) {
        assert(view[0] == parts@[0]@);
        assert(view[1] == parts@[1]@);
        return true;
    }
    proof {
        if parts@.len() >= 1 {
            assert(view[0] == parts@[0]@);
        }
        if parts@.len() >= 2 {
            assert(view[1] == parts@[1]@);
        }
    }
    false
}


/// Byte `i` of a UUID's sixteen bytes, most significant first.
pub open spec fn uuid_byte(value: u128, i: int) -> u8 {
    ((value >> ((8 * (15 - i)) as u128)) & 0xff) as u8
}

/// What the operation key of a control request hashes: the actor Space's
/// sixteen UUID bytes, a zero byte, then the request id's UTF-8 bytes.
pub open spec fn control_key_bytes(actor: u128, request_id: Seq<char>) -> Seq<u8> {
    Seq::new(16, |i: int| uuid_byte(actor, i)) + seq![0u8] + vstd::utf8::encode_utf8(request_id)
}

/// The key that makes a control request idempotent: `control_` and the hex
/// SHA-256 of actor and request id.
pub fn control_operation_key(request: &MomoControlRequest) -> (key: String)
    ensures
        key@ == "control_"@ + sha256_hex_of(control_key_bytes(request.actor_space_id, request.request_id@)),
{
    let actor = request.actor_space_id;
    let mut bytes: Vec<u8> = Vec::new();
    let mut i: u32 = 0;
    while i < 16
        invariant
            i <= 16,
            bytes@ == Seq::new(i as nat, |k: int| uuid_byte(actor, k)),
        decreases 16 - i,
    {
        let shift: u32 = 8 * (15 - i);
        let byte = ((actor >> shift) & 0xff) as u8;
        assert(byte == uuid_byte(actor, i as int));
        bytes.push(byte);
        assert(bytes@ =~= Seq::new((i + 1) as nat, |k: int| uuid_byte(actor, k)));
        i += 1;
    }
    bytes.push(0);
    let id = request.request_id.as_str().as_bytes();
    let ghost head = bytes@;
    let mut j: usize = 0;
    while j < id.len()
        invariant
            j <= id@.len(),
            bytes@ == head + id@.take(j as int),
        decreases id@.len() - j,
    {
        bytes.push(id[j]);
        assert(bytes@ =~= head + id@.take(j + 1));
        j += 1;
    }
    assert(id@.take(id@.len() as int) =~= id@);
    assert(bytes@ =~= control_key_bytes(actor, request.request_id@));
    let mut key = String::from_str("control_");
    push_str(&mut key, sha256_hex(bytes.as_slice()).as_str());
    key
}

} // verus!
