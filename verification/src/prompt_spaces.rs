//! Named runtime prompts with compiled defaults and replace/reset
//! semantics: a replacement equal to the default removes the override.

use vstd::prelude::*;

use crate::checksum::{sha256_hex, sha256_hex_of};
use crate::text::{all_ws, is_blank, str_eq, utf8_len, utf8_len_exceeds};
use vstd::utf8::encode_utf8;

verus! {

pub const MAX_PROMPT_SPACE_BYTES: usize = 256 * 1024;

#[derive(Debug, Clone, Copy, PartialEq, Eq, PartialOrd, Ord, Hash, Structural)]
pub enum PromptSpaceId {
    Assistant,
    VisionFallback,
    RoleplayDirector,
    MemoryDistillation,
    SemanticGraphGovernance,
}

pub open spec fn id_name(id: PromptSpaceId) -> Seq<char> {
    match id {
        PromptSpaceId::Assistant => "assistant"@,
        PromptSpaceId::VisionFallback => "vision_fallback"@,
        PromptSpaceId::RoleplayDirector => "roleplay_director"@,
        PromptSpaceId::MemoryDistillation => "memory_distillation"@,
        PromptSpaceId::SemanticGraphGovernance => "semantic_graph_governance"@,
    }
}

/// The compiled default prompt of each space.
pub open spec fn default_text(id: PromptSpaceId) -> Seq<char> {
    match id {
        PromptSpaceId::Assistant => "You are MOMO, a helpful and honest assistant. Answer clearly, follow the user's instructions, and say so when you are unsure."@,
        PromptSpaceId::VisionFallback => "Describe the attached image accurately and concisely for a model that cannot see it. Mention visible text, people, objects and setting, and anything relevant to the conversation. Do not speculate beyond what is visible."@,
        PromptSpaceId::RoleplayDirector => "You direct an ongoing roleplay. Stay in character, keep the scene consistent with the character card, memory and state you are given, and never speak or act for the user."@,
        PromptSpaceId::MemoryDistillation => "Distill the conversation into durable memory. Record only stable facts, preferences, relationships and commitments worth remembering later, each as a short standalone statement. Leave out small talk and anything uncertain."@,
        PromptSpaceId::SemanticGraphGovernance => "Maintain the semantic graph of entities and their relations. Merge duplicates, correct facts that the conversation contradicts, keep each node concise and grounded in the conversation, and never invent relations."@,
    }
}

pub open spec fn id_index(id: PromptSpaceId) -> int {
    match id {
        PromptSpaceId::Assistant => 0,
        PromptSpaceId::VisionFallback => 1,
        PromptSpaceId::RoleplayDirector => 2,
        PromptSpaceId::MemoryDistillation => 3,
        PromptSpaceId::SemanticGraphGovernance => 4,
    }
}

pub open spec fn id_at(i: int) -> PromptSpaceId {
    if i == 0 {
        PromptSpaceId::Assistant
    } else if i == 1 {
        PromptSpaceId::VisionFallback
    } else if i == 2 {
        PromptSpaceId::RoleplayDirector
    } else if i == 3 {
        PromptSpaceId::MemoryDistillation
    } else {
        PromptSpaceId::SemanticGraphGovernance
    }
}

#[derive(Debug, Clone, Copy, PartialEq, Eq, Structural)]
pub enum PromptSpaceSource {
    Builtin,
    Override,
}

#[derive(Debug, Clone)]
pub struct PromptSpace {
    pub id: PromptSpaceId,
    pub content: String,
    pub source: PromptSpaceSource,
    /// Lowercase hex SHA-256 of the content.
    pub revision: String,
}

#[derive(Debug, Clone, PartialEq, Eq)]
pub enum PromptSpacesError {
    Unknown(String),
    InvalidContent { id: PromptSpaceId, max_bytes: usize },
    UnsupportedSchema(String),
    Io(String),
    Json(String),
}

impl PromptSpaceId {
    /// Every space, in listing order.
    pub fn all() -> (ids: Vec<PromptSpaceId>)
        ensures
            ids@.len() == 5,
            forall|i: int| 0 <= i < 5 ==> #[trigger] ids@[i] == id_at(i),
    {
        let mut ids: Vec<PromptSpaceId> = Vec::new();
        ids.push(PromptSpaceId::Assistant);
        ids.push(PromptSpaceId::VisionFallback);
        ids.push(PromptSpaceId::RoleplayDirector);
        ids.push(PromptSpaceId::MemoryDistillation);
        ids.push(PromptSpaceId::SemanticGraphGovernance);
        ids
    }

    pub fn as_str(self) -> (name: &'static str)
        ensures
            name@ == id_name(self),
    {
        match self {
            PromptSpaceId::Assistant => "assistant",
            PromptSpaceId::VisionFallback => "vision_fallback",
            PromptSpaceId::RoleplayDirector => "roleplay_director",
            PromptSpaceId::MemoryDistillation => "memory_distillation",
            PromptSpaceId::SemanticGraphGovernance => "semantic_graph_governance",
        }
    }

    /// The compiled default prompt.
    pub fn default_content(self) -> (content: &'static str)
        ensures
            content@ == default_text(self),
    {
        match self {
            PromptSpaceId::Assistant => "You are MOMO, a helpful and honest assistant. Answer clearly, follow the user's instructions, and say so when you are unsure.",
            PromptSpaceId::VisionFallback => "Describe the attached image accurately and concisely for a model that cannot see it. Mention visible text, people, objects and setting, and anything relevant to the conversation. Do not speculate beyond what is visible.",
            PromptSpaceId::RoleplayDirector => "You direct an ongoing roleplay. Stay in character, keep the scene consistent with the character card, memory and state you are given, and never speak or act for the user.",
            PromptSpaceId::MemoryDistillation => "Distill the conversation into durable memory. Record only stable facts, preferences, relationships and commitments worth remembering later, each as a short standalone statement. Leave out small talk and anything uncertain.",
            PromptSpaceId::SemanticGraphGovernance => "Maintain the semantic graph of entities and their relations. Merge duplicates, correct facts that the conversation contradicts, keep each node concise and grounded in the conversation, and never invent relations.",
        }
    }

    /// The space with this name.
    pub fn parse(value: &str) -> (result: Result<PromptSpaceId, PromptSpacesError>)
        ensures
            match result {
                Ok(id) => id_name(id) == value@,
                Err(error) => (forall|i: int| 0 <= i < 5 ==> id_name(#[trigger] id_at(i)) != value@)
                    && (error matches PromptSpacesError::Unknown(name) && name@ == value@),
            },
    {
        let ids = PromptSpaceId::all();
        let mut i: usize = 0;
        while i < ids.len()
            invariant
                ids@.len() == 5,
                forall|k: int| 0 <= k < 5 ==> #[trigger] ids@[k] == id_at(k),
                i <= 5,
                forall|k: int| 0 <= k < i ==> id_name(#[trigger] id_at(k)) != value@,
            decreases 5 - i,
        {
            if str_eq(ids[i].as_str(), value) {
                return Ok(ids[i]);
            }
            i += 1;
        }
        Err(PromptSpacesError::Unknown(String::from_str(value)))
    }
}

/// Content an override may hold: not blank, at most the byte limit.
pub open spec fn valid_content(content: Seq<char>) -> bool {
    !all_ws(content) && utf8_len(content) <= MAX_PROMPT_SPACE_BYTES
}

pub fn validate_content(id: PromptSpaceId, content: &str) -> (result: Result<(), PromptSpacesError>)
    ensures
        valid_content(content@) ==> result is Ok,
        !valid_content(content@) ==> result == Err::<(), PromptSpacesError>(
            PromptSpacesError::InvalidContent { id, max_bytes: MAX_PROMPT_SPACE_BYTES },
        ),
{
    if is_blank(content) || utf8_len_exceeds(content, MAX_PROMPT_SPACE_BYTES) {
        return Err(PromptSpacesError::InvalidContent { id, max_bytes: MAX_PROMPT_SPACE_BYTES });
    }
    Ok(())
}


/// What a space shows: its override if any, else its default.
pub open spec fn shown(id: PromptSpaceId, override_text: Option<Seq<char>>) -> (Seq<char>, PromptSpaceSource) {
    match override_text {
        Some(text) => (text, PromptSpaceSource::Override),
        None => (default_text(id), PromptSpaceSource::Builtin),
    }
}

/// A returned space is the one shown for `id`, with its content's digest.
pub open spec fn space_matches(space: PromptSpace, id: PromptSpaceId, override_text: Option<Seq<char>>) -> bool {
    let (content, source) = shown(id, override_text);
    &&& space.id == id
    &&& space.content@ == content
    &&& space.source == source
    &&& space.revision@ == sha256_hex_of(encode_utf8(content))
}

fn prompt_space(id: PromptSpaceId, override_text: &Option<String>) -> (space: PromptSpace)
    ensures
        space_matches(
            space,
            id,
            match *override_text {
                Some(t) => Some(t@),
                None => None,
            },
        ),
{
    let (content, source) = match override_text {
        Some(text) => (text.clone(), PromptSpaceSource::Override),
        None => (String::from_str(id.default_content()), PromptSpaceSource::Builtin),
    };
    let revision = sha256_hex(content.as_str().as_bytes());
    PromptSpace { id, content, source, revision }
}

/// The prompt registry: an optional override per space.
#[derive(Debug, Clone)]
pub struct PromptSpaces {
    overrides: Vec<Option<String>>,
}

impl PromptSpaces {
    /// One slot per space.
    pub closed spec fn wf(&self) -> bool {
        self.overrides@.len() == 5
    }

    /// The override stored for a space.
    pub closed spec fn override_of(&self, id: PromptSpaceId) -> Option<Seq<char>> {
        match self.overrides@[id_index(id)] {
            Some(text) => Some(text@),
            None => None,
        }
    }

    /// A registry with every space at its default.
    pub fn in_memory() -> (spaces: PromptSpaces)
        ensures
            spaces.wf(),
            forall|id: PromptSpaceId| #[trigger] spaces.override_of(id) is None,
    {
        let mut overrides: Vec<Option<String>> = Vec::new();
        overrides.push(None);
        overrides.push(None);
        overrides.push(None);
        overrides.push(None);
        overrides.push(None);
        PromptSpaces { overrides }
    }

    fn slot(id: PromptSpaceId) -> (index: usize)
        ensures
            index == id_index(id),
            index < 5,
    {
        match id {
            PromptSpaceId::Assistant => 0,
            PromptSpaceId::VisionFallback => 1,
            PromptSpaceId::RoleplayDirector => 2,
            PromptSpaceId::MemoryDistillation => 3,
            PromptSpaceId::SemanticGraphGovernance => 4,
        }
    }

    /// The space as it currently shows.
    pub fn get(&self, id: PromptSpaceId) -> (space: PromptSpace)
        requires
            self.wf(),
        ensures
            space_matches(space, id, self.override_of(id)),
    {
        prompt_space(id, &self.overrides[PromptSpaces::slot(id)])
    }

    /// Every space as it currently shows, in listing order.
    pub fn list(&self) -> (spaces: Vec<PromptSpace>)
        requires
            self.wf(),
        ensures
            spaces@.len() == 5,
            forall|i: int| 0 <= i < 5 ==> space_matches(#[trigger] spaces@[i], id_at(i), self.override_of(id_at(i))),
    {
        let ids = PromptSpaceId::all();
        let mut spaces: Vec<PromptSpace> = Vec::new();
        let mut i: usize = 0;
        while i < 5
            invariant
                self.wf(),
                ids@.len() == 5,
                forall|k: int| 0 <= k < 5 ==> #[trigger] ids@[k] == id_at(k),
                i <= 5,
                spaces@.len() == i,
                forall|k: int| 0 <= k < i ==> space_matches(#[trigger] spaces@[k], id_at(k), self.override_of(id_at(k))),
            decreases 5 - i,
        {
            spaces.push(self.get(ids[i]));
            i += 1;
        }
        spaces
    }

    fn set_slot(&mut self, id: PromptSpaceId, value: Option<String>)
        requires
            old(self).wf(),
        ensures
            final(self).wf(),
            final(self).override_of(id) == match value {
                Some(t) => Some(t@),
                None => None::<Seq<char>>,
            },
            forall|other: PromptSpaceId| other != id ==> #[trigger] final(self).override_of(other)
                == old(self).override_of(other),
    {
        let index = PromptSpaces::slot(id);
        self.overrides.set(index, value);
        assert forall|other: PromptSpaceId| other != id implies #[trigger] self.override_of(other)
            == old(self).override_of(other) by {
            assert(id_index(other) != id_index(id));
        }
    }

    /// Replaces a space's prompt. Content equal to the default removes the
    /// override; invalid content changes nothing.
    pub fn replace(&mut self, id: PromptSpaceId, content: String) -> (result: Result<PromptSpace, PromptSpacesError>)
        requires
            old(self).wf(),
        ensures
            final(self).wf(),
            !valid_content(content@) ==> result == Err::<PromptSpace, PromptSpacesError>(
                PromptSpacesError::InvalidContent { id, max_bytes: MAX_PROMPT_SPACE_BYTES },
            ) && forall|any: PromptSpaceId| #[trigger] final(self).override_of(any) == old(self).override_of(any),
            valid_content(content@) ==> {
                &&& final(self).override_of(id) == (if content@ == default_text(id) {
                    None
                } else {
                    Some(content@)
                })
                &&& forall|other: PromptSpaceId| other != id ==> #[trigger] final(self).override_of(other)
                    == old(self).override_of(other)
                &&& result matches Ok(space) && space_matches(space, id, final(self).override_of(id))
            },
    {
        match validate_content(id, content.as_str()) {
            Err(error) => {
                return Err(error);
            },
            Ok(()) => {},
        }
        if str_eq(content.as_str(), id.default_content()) {
            self.set_slot(id, None);
        } else {
            self.set_slot(id, Some(content));
        }
        Ok(self.get(id))
    }

    /// Restores a space's default prompt.
    pub fn reset(&mut self, id: PromptSpaceId) -> (result: Result<PromptSpace, PromptSpacesError>)
        requires
            old(self).wf(),
        ensures
            final(self).wf(),
            final(self).override_of(id) is None,
            forall|other: PromptSpaceId| other != id ==> #[trigger] final(self).override_of(other)
                == old(self).override_of(other),
            result matches Ok(space) && space_matches(space, id, None),
    {
        self.set_slot(id, None);
        Ok(self.get(id))
    }

    /// Stores a loaded override as it is, after validating it.
    pub fn load_override(&mut self, id: PromptSpaceId, content: String) -> (result: Result<(), PromptSpacesError>)
        requires
            old(self).wf(),
        ensures
            final(self).wf(),
            valid_content(content@) ==> result is Ok && final(self).override_of(id) == Some(content@)
                && forall|other: PromptSpaceId| other != id ==> #[trigger] final(self).override_of(other)
                == old(self).override_of(other),
            !valid_content(content@) ==> result == Err::<(), PromptSpacesError>(
                PromptSpacesError::InvalidContent { id, max_bytes: MAX_PROMPT_SPACE_BYTES },
            ) && forall|any: PromptSpaceId| #[trigger] final(self).override_of(any) == old(self).override_of(any),
    {
        match validate_content(id, content.as_str()) {
            Err(error) => Err(error),
            Ok(()) => {
                self.set_slot(id, Some(content));
                Ok(())
            },
        }
    }

    /// The overrides in listing order, as they are persisted.
    pub fn stored_overrides(&self) -> (entries: Vec<(PromptSpaceId, String)>)
        requires
            self.wf(),
        ensures
            forall|i: int| 0 <= i < entries@.len() ==> self.override_of(#[trigger] entries@[i].0)
                == Some(entries@[i].1@),
            forall|id: PromptSpaceId| #[trigger] self.override_of(id) is Some ==> exists|i: int|
                0 <= i < entries@.len() && entries@[i].0 == id,
    {
        let ids = PromptSpaceId::all();
        let mut entries: Vec<(PromptSpaceId, String)> = Vec::new();
        let mut i: usize = 0;
        while i < 5
            invariant
                self.wf(),
                ids@.len() == 5,
                forall|k: int| 0 <= k < 5 ==> #[trigger] ids@[k] == id_at(k),
                i <= 5,
                forall|k: int| 0 <= k < entries@.len() ==> self.override_of(#[trigger] entries@[k].0)
                    == Some(entries@[k].1@),
                forall|k: int| 0 <= k < i ==> #[trigger] self.override_of(id_at(k)) is Some ==> exists|j: int|
                    0 <= j < entries@.len() && entries@[j].0 == id_at(k),
            decreases 5 - i,
        {
            let id = ids[i];
            let ghost before = entries@;
            match &self.overrides[PromptSpaces::slot(id)] {
                Some(text) => {
                    entries.push((id, text.clone()));
                    assert(entries@[entries@.len() - 1].0 == id_at(i as int));
                },
                None => {},
            }
            proof {
                assert forall|k: int| 0 <= k < i + 1 implies #[trigger] self.override_of(id_at(k)) is Some
                    ==> exists|j: int| 0 <= j < entries@.len() && entries@[j].0 == id_at(k) by {
                    if k < i && self.override_of(id_at(k)) is Some {
                        let j = choose|j: int| 0 <= j < before.len() && before[j].0 == id_at(k);
                        assert(entries@[j] == before[j]);
                    }
                    if k == i && self.override_of(id_at(k)) is Some {
                        assert(entries@[entries@.len() - 1].0 == id_at(k));
                    }
                }
            }
            i += 1;
        }
        proof {
            assert forall|id: PromptSpaceId| #[trigger] self.override_of(id) is Some implies exists|i: int|
                0 <= i < entries@.len() && entries@[i].0 == id by {
                assert(id == id_at(id_index(id)));
            }
        }
        entries
    }
}

impl Default for PromptSpaces {
    fn default() -> (spaces: Self)
        ensures
            spaces.wf(),
            forall|id: PromptSpaceId| #[trigger] spaces.override_of(id) is None,
    {
        PromptSpaces::in_memory()
    }
}

/// A replacement is what the space shows afterwards.
pub proof fn lemma_replace_then_get(id: PromptSpaceId, content: Seq<char>, after: Option<Seq<char>>)
    requires
        after == (if content == default_text(id) {
            None
        } else {
            Some(content)
        }),
    ensures
        shown(id, after).0 == content,
{
}

/// A reset shows the compiled default again.
pub proof fn lemma_reset_shows_default(id: PromptSpaceId)
    ensures
        shown(id, None) == (default_text(id), PromptSpaceSource::Builtin),
{
}

} // verus!
