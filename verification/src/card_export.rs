//! Writing a MOMO character as an external CCv2 or CCv3 card. A preserved
//! source card is updated in place: its unknown fields stay, the fields
//! MOMO owns are overwritten, and the fields other runtimes expect are
//! filled where missing.

use vstd::prelude::*;

use crate::json::{
    as_text, lemma_edits_keep, member, member_lookup, object_or_insert, object_remove, object_set,
    same_except,
    JsonMember, JsonValue,
};
use crate::character_compat::{
    card_author, card_data, card_header, card_problem, raw_card_version, Ccv3SpecVersion,
    ExternalCardHeader,
};
use crate::json::{json_field, text_field};
use crate::text::{str_eq, trim};

verus! {

/// The character fields an export writes.
#[derive(Debug, Clone)]
pub struct CardExportFields {
    pub name: String,
    pub author_name: String,
    pub version: String,
    pub opening_markdown: Option<String>,
    pub character_markdown: String,
}

pub open spec fn spec_name(v3: bool) -> Seq<char> {
    if v3 {
        "chara_card_v3"@
    } else {
        "chara_card_v2"@
    }
}

pub open spec fn version_name(v3: bool) -> Seq<char> {
    if v3 {
        "3.0"@
    } else {
        "2.0"@
    }
}

/// The members of the source card's root, where it is an object.
pub open spec fn source_root(source: Option<JsonValue>) -> Seq<JsonMember> {
    match source {
        Some(JsonValue::Object(members)) => members@,
        _ => Seq::empty(),
    }
}

/// The members of the source card's `data` object, where it is one.
pub open spec fn source_data(root: Seq<JsonMember>) -> Seq<JsonMember> {
    match member_lookup(root, "data"@) {
        Some(JsonValue::Object(members)) => members@,
        _ => Seq::empty(),
    }
}

/// The source is a card of the exported spec.
pub open spec fn had_source(root: Seq<JsonMember>, v3: bool) -> bool {
    as_text(member_lookup(root, "spec"@)) == Some(spec_name(v3))
}

pub open spec fn is_empty_text(value: Option<JsonValue>) -> bool {
    as_text(value) == Some(Seq::<char>::empty())
}

pub open spec fn is_empty_array(value: Option<JsonValue>) -> bool {
    value matches Some(JsonValue::Array(items)) && items@.len() == 0
}

pub open spec fn is_empty_object(value: Option<JsonValue>) -> bool {
    value matches Some(JsonValue::Object(members)) && members@.len() == 0
}

/// A field kept from the source, or else set to an empty text.
pub open spec fn kept_or_empty_text(data: Seq<JsonMember>, source: Seq<JsonMember>, key: Seq<char>) -> bool {
    match member_lookup(source, key) {
        Some(v) => member_lookup(data, key) == Some(v),
        None => is_empty_text(member_lookup(data, key)),
    }
}

pub open spec fn kept_or_empty_array(data: Seq<JsonMember>, source: Seq<JsonMember>, key: Seq<char>) -> bool {
    match member_lookup(source, key) {
        Some(v) => member_lookup(data, key) == Some(v),
        None => is_empty_array(member_lookup(data, key)),
    }
}

pub open spec fn kept_or_empty_object(data: Seq<JsonMember>, source: Seq<JsonMember>, key: Seq<char>) -> bool {
    match member_lookup(source, key) {
        Some(v) => member_lookup(data, key) == Some(v),
        None => is_empty_object(member_lookup(data, key)),
    }
}

/// The keys an export writes into `data`.
pub open spec fn written_data_key(k: Seq<char>, v3: bool) -> bool {
    ||| k == "name"@
    ||| k == "creator"@
    ||| k == "character_version"@
    ||| k == "first_mes"@
    ||| k == "description"@
    ||| k == "personality"@
    ||| k == "scenario"@
    ||| k == "mes_example"@
    ||| k == "creator_notes"@
    ||| k == "system_prompt"@
    ||| k == "post_history_instructions"@
    ||| k == "alternate_greetings"@
    ||| k == "tags"@
    ||| k == "extensions"@
    ||| (v3 && k == "group_only_greetings"@)
}

/// The exported `data` object: MOMO's fields overwritten, the text fields
/// replaced by the character markdown unless the source was a card of the
/// same spec, the expected fields filled where missing, the rest kept.
pub open spec fn exported_data(
    data: Seq<JsonMember>,
    source: Seq<JsonMember>,
    character: CardExportFields,
    had: bool,
    v3: bool,
) -> bool {
    &&& as_text(member_lookup(data, "name"@)) == Some(character.name@)
    &&& as_text(member_lookup(data, "creator"@)) == Some(character.author_name@)
    &&& as_text(member_lookup(data, "character_version"@)) == Some(character.version@)
    &&& as_text(member_lookup(data, "first_mes"@)) == Some(
        match character.opening_markdown {
            Some(o) => o@,
            None => Seq::empty(),
        },
    )
    &&& if had {
        &&& kept_or_empty_text(data, source, "description"@)
        &&& kept_or_empty_text(data, source, "personality"@)
        &&& kept_or_empty_text(data, source, "scenario"@)
        &&& kept_or_empty_text(data, source, "mes_example"@)
    } else {
        &&& as_text(member_lookup(data, "description"@)) == Some(character.character_markdown@)
        &&& is_empty_text(member_lookup(data, "personality"@))
        &&& is_empty_text(member_lookup(data, "scenario"@))
        &&& is_empty_text(member_lookup(data, "mes_example"@))
    }
    &&& kept_or_empty_text(data, source, "creator_notes"@)
    &&& kept_or_empty_text(data, source, "system_prompt"@)
    &&& kept_or_empty_text(data, source, "post_history_instructions"@)
    &&& kept_or_empty_array(data, source, "alternate_greetings"@)
    &&& kept_or_empty_array(data, source, "tags"@)
    &&& kept_or_empty_object(data, source, "extensions"@)
    &&& v3 ==> kept_or_empty_array(data, source, "group_only_greetings"@)
    &&& forall|k: Seq<char>| !written_data_key(k, v3) ==> #[trigger] member_lookup(data, k) == member_lookup(source, k)
}

/// The exported card: the source root with `spec`, `spec_version` and
/// `data` replaced, every other root field kept.
pub open spec fn exported_card(
    card: JsonValue,
    source: Option<JsonValue>,
    character: CardExportFields,
    v3: bool,
) -> bool {
    let root0 = source_root(source);
    &&& card matches JsonValue::Object(root)
    &&& {
        let root = card->Object_0@;
        &&& as_text(member_lookup(root, "spec"@)) == Some(spec_name(v3))
        &&& as_text(member_lookup(root, "spec_version"@)) == Some(version_name(v3))
        &&& member_lookup(root, "data"@) matches Some(JsonValue::Object(data)) && exported_data(
            data@,
            source_data(root0),
            character,
            had_source(root0, v3),
            v3,
        )
        &&& forall|k: Seq<char>|
            k != "spec"@ && k != "spec_version"@ && k != "data"@ ==> #[trigger] member_lookup(root, k)
                == member_lookup(root0, k)
    }
}

fn text_value(text: &str) -> (value: JsonValue)
    ensures
        as_text(Some(value)) == Some(text@),
{
    JsonValue::String(String::from_str(text))
}

fn empty_array() -> (value: JsonValue)
    ensures
        is_empty_array(Some(value)),
{
    JsonValue::Array(Vec::new())
}

fn empty_object() -> (value: JsonValue)
    ensures
        is_empty_object(Some(value)),
{
    JsonValue::Object(Vec::new())
}

/// Writes MOMO's fields into a card's `data`: name, creator, version and
/// first message always; the text fields from the character markdown when
/// there is no same-spec source, else only where missing.
pub fn overlay_common_fields(data: &mut Vec<JsonMember>, character: &CardExportFields, had: bool)
    ensures
        as_text(member_lookup(final(data)@, "name"@)) == Some(character.name@),
        as_text(member_lookup(final(data)@, "creator"@)) == Some(character.author_name@),
        as_text(member_lookup(final(data)@, "character_version"@)) == Some(character.version@),
        as_text(member_lookup(final(data)@, "first_mes"@)) == Some(
            match character.opening_markdown {
                Some(o) => o@,
                None => Seq::empty(),
            },
        ),
        had ==> {
            &&& kept_or_empty_text(final(data)@, old(data)@, "description"@)
            &&& kept_or_empty_text(final(data)@, old(data)@, "personality"@)
            &&& kept_or_empty_text(final(data)@, old(data)@, "scenario"@)
            &&& kept_or_empty_text(final(data)@, old(data)@, "mes_example"@)
        },
        !had ==> {
            &&& as_text(member_lookup(final(data)@, "description"@)) == Some(character.character_markdown@)
            &&& is_empty_text(member_lookup(final(data)@, "personality"@))
            &&& is_empty_text(member_lookup(final(data)@, "scenario"@))
            &&& is_empty_text(member_lookup(final(data)@, "mes_example"@))
        },
        forall|k: Seq<char>|
            k != "name"@ && k != "creator"@ && k != "character_version"@ && k != "first_mes"@ && k
                != "description"@ && k != "personality"@ && k != "scenario"@ && k != "mes_example"@
                ==> #[trigger] member_lookup(final(data)@, k) == member_lookup(old(data)@, k),
{
    proof {
        reveal_strlit("name");
        reveal_strlit("creator");
        reveal_strlit("character_version");
        reveal_strlit("first_mes");
        reveal_strlit("description");
        reveal_strlit("personality");
        reveal_strlit("scenario");
        reveal_strlit("mes_example");
        reveal_strlit("");
        assert("name"@.len() == 4);
        assert("creator"@.len() == 7);
        assert("character_version"@.len() == 17);
        assert("first_mes"@.len() == 9);
        assert("description"@.len() == 11);
        assert("personality"@.len() == 11);
        assert("scenario"@.len() == 8);
        assert("mes_example"@.len() == 11);
        assert(""@ =~= Seq::<char>::empty());
        assert("description"@[0] != "personality"@[0]);
        assert("description"@[0] != "mes_example"@[0]);
        assert("personality"@[0] != "mes_example"@[0]);
    }
    let ghost s0 = data@;
    object_set(data, "name", JsonValue::String(character.name.clone()));
    let ghost s1 = data@;
    assert(member_lookup(data@, "creator"@) == member_lookup(s0, "creator"@));
    assert(member_lookup(data@, "character_version"@) == member_lookup(s0, "character_version"@));
    assert(member_lookup(data@, "first_mes"@) == member_lookup(s0, "first_mes"@));
    assert(member_lookup(data@, "description"@) == member_lookup(s0, "description"@));
    assert(member_lookup(data@, "personality"@) == member_lookup(s0, "personality"@));
    assert(member_lookup(data@, "scenario"@) == member_lookup(s0, "scenario"@));
    assert(member_lookup(data@, "mes_example"@) == member_lookup(s0, "mes_example"@));
    object_set(data, "creator", JsonValue::String(character.author_name.clone()));
    let ghost s2 = data@;
    assert(member_lookup(data@, "name"@) == member_lookup(s1, "name"@));
    assert(member_lookup(data@, "character_version"@) == member_lookup(s0, "character_version"@));
    assert(member_lookup(data@, "first_mes"@) == member_lookup(s0, "first_mes"@));
    assert(member_lookup(data@, "description"@) == member_lookup(s0, "description"@));
    assert(member_lookup(data@, "personality"@) == member_lookup(s0, "personality"@));
    assert(member_lookup(data@, "scenario"@) == member_lookup(s0, "scenario"@));
    assert(member_lookup(data@, "mes_example"@) == member_lookup(s0, "mes_example"@));
    object_set(data, "character_version", JsonValue::String(character.version.clone()));
    let ghost s3 = data@;
    assert(member_lookup(data@, "name"@) == member_lookup(s1, "name"@));
    assert(member_lookup(data@, "creator"@) == member_lookup(s2, "creator"@));
    assert(member_lookup(data@, "first_mes"@) == member_lookup(s0, "first_mes"@));
    assert(member_lookup(data@, "description"@) == member_lookup(s0, "description"@));
    assert(member_lookup(data@, "personality"@) == member_lookup(s0, "personality"@));
    assert(member_lookup(data@, "scenario"@) == member_lookup(s0, "scenario"@));
    assert(member_lookup(data@, "mes_example"@) == member_lookup(s0, "mes_example"@));
    let opening = match &character.opening_markdown {
        Some(o) => o.clone(),
        None => String::new(),
    };
    object_set(data, "first_mes", JsonValue::String(opening));
    let ghost s4 = data@;
    assert(member_lookup(data@, "name"@) == member_lookup(s1, "name"@));
    assert(member_lookup(data@, "creator"@) == member_lookup(s2, "creator"@));
    assert(member_lookup(data@, "character_version"@) == member_lookup(s3, "character_version"@));
    assert(member_lookup(data@, "description"@) == member_lookup(s0, "description"@));
    assert(member_lookup(data@, "personality"@) == member_lookup(s0, "personality"@));
    assert(member_lookup(data@, "scenario"@) == member_lookup(s0, "scenario"@));
    assert(member_lookup(data@, "mes_example"@) == member_lookup(s0, "mes_example"@));
    if !had {
        object_set(data, "description", JsonValue::String(character.character_markdown.clone()));
    } else {
        object_or_insert(data, "description", text_value(""));
    }
    let ghost s5 = data@;
    assert(member_lookup(data@, "name"@) == member_lookup(s1, "name"@));
    assert(member_lookup(data@, "creator"@) == member_lookup(s2, "creator"@));
    assert(member_lookup(data@, "character_version"@) == member_lookup(s3, "character_version"@));
    assert(member_lookup(data@, "first_mes"@) == member_lookup(s4, "first_mes"@));
    assert(member_lookup(data@, "personality"@) == member_lookup(s0, "personality"@));
    assert(member_lookup(data@, "scenario"@) == member_lookup(s0, "scenario"@));
    assert(member_lookup(data@, "mes_example"@) == member_lookup(s0, "mes_example"@));
    if !had {
        object_set(data, "personality", text_value(""));
    } else {
        object_or_insert(data, "personality", text_value(""));
    }
    let ghost s6 = data@;
    assert(member_lookup(data@, "name"@) == member_lookup(s1, "name"@));
    assert(member_lookup(data@, "creator"@) == member_lookup(s2, "creator"@));
    assert(member_lookup(data@, "character_version"@) == member_lookup(s3, "character_version"@));
    assert(member_lookup(data@, "first_mes"@) == member_lookup(s4, "first_mes"@));
    assert(member_lookup(data@, "description"@) == member_lookup(s5, "description"@));
    assert(member_lookup(data@, "scenario"@) == member_lookup(s0, "scenario"@));
    assert(member_lookup(data@, "mes_example"@) == member_lookup(s0, "mes_example"@));
    if !had {
        object_set(data, "scenario", text_value(""));
    } else {
        object_or_insert(data, "scenario", text_value(""));
    }
    let ghost s7 = data@;
    assert(member_lookup(data@, "name"@) == member_lookup(s1, "name"@));
    assert(member_lookup(data@, "creator"@) == member_lookup(s2, "creator"@));
    assert(member_lookup(data@, "character_version"@) == member_lookup(s3, "character_version"@));
    assert(member_lookup(data@, "first_mes"@) == member_lookup(s4, "first_mes"@));
    assert(member_lookup(data@, "description"@) == member_lookup(s5, "description"@));
    assert(member_lookup(data@, "personality"@) == member_lookup(s6, "personality"@));
    assert(member_lookup(data@, "mes_example"@) == member_lookup(s0, "mes_example"@));
    if !had {
        object_set(data, "mes_example", text_value(""));
    } else {
        object_or_insert(data, "mes_example", text_value(""));
    }
    let ghost s8 = data@;
    assert(member_lookup(data@, "name"@) == member_lookup(s1, "name"@));
    assert(member_lookup(data@, "creator"@) == member_lookup(s2, "creator"@));
    assert(member_lookup(data@, "character_version"@) == member_lookup(s3, "character_version"@));
    assert(member_lookup(data@, "first_mes"@) == member_lookup(s4, "first_mes"@));
    assert(member_lookup(data@, "description"@) == member_lookup(s5, "description"@));
    assert(member_lookup(data@, "personality"@) == member_lookup(s6, "personality"@));
    assert(member_lookup(data@, "scenario"@) == member_lookup(s7, "scenario"@));
    proof {
        assert forall|k: Seq<char>| k != "name"@ && k != "creator"@ && k != "character_version"@ && k != "first_mes"@ && k != "description"@ && k != "personality"@ && k != "scenario"@ && k != "mes_example"@ implies #[trigger] member_lookup(data@, k) == member_lookup(s0, k) by {
            assert(member_lookup(s1, k) == member_lookup(s0, k));
            assert(member_lookup(s2, k) == member_lookup(s1, k));
            assert(member_lookup(s3, k) == member_lookup(s2, k));
            assert(member_lookup(s4, k) == member_lookup(s3, k));
            assert(member_lookup(s5, k) == member_lookup(s4, k));
            assert(member_lookup(s6, k) == member_lookup(s5, k));
            assert(member_lookup(s7, k) == member_lookup(s6, k));
            assert(member_lookup(s8, k) == member_lookup(s7, k));
        }
    }
}

/// Builds the exported card from the character and an optional source
/// card of any spec.
pub fn export_card(character: &CardExportFields, source: Option<JsonValue>, v3: bool) -> (card: JsonValue)
    ensures
        exported_card(card, source, *character, v3),
{
    proof {
        reveal_strlit("name");
        reveal_strlit("creator");
        reveal_strlit("character_version");
        reveal_strlit("first_mes");
        reveal_strlit("description");
        reveal_strlit("personality");
        reveal_strlit("scenario");
        reveal_strlit("mes_example");
        reveal_strlit("creator_notes");
        reveal_strlit("system_prompt");
        reveal_strlit("post_history_instructions");
        reveal_strlit("alternate_greetings");
        reveal_strlit("tags");
        reveal_strlit("extensions");
        reveal_strlit("group_only_greetings");
        reveal_strlit("spec");
        reveal_strlit("spec_version");
        reveal_strlit("data");
        reveal_strlit("chara_card_v3");
        reveal_strlit("chara_card_v2");
        reveal_strlit("3.0");
        reveal_strlit("2.0");
        reveal_strlit("");
        assert("name"@.len() == 4);
        assert("creator"@.len() == 7);
        assert("character_version"@.len() == 17);
        assert("first_mes"@.len() == 9);
        assert("description"@.len() == 11);
        assert("personality"@.len() == 11);
        assert("scenario"@.len() == 8);
        assert("mes_example"@.len() == 11);
        assert("creator_notes"@.len() == 13);
        assert("system_prompt"@.len() == 13);
        assert("post_history_instructions"@.len() == 25);
        assert("alternate_greetings"@.len() == 19);
        assert("tags"@.len() == 4);
        assert("extensions"@.len() == 10);
        assert("group_only_greetings"@.len() == 20);
        assert("spec"@.len() == 4);
        assert("spec_version"@.len() == 12);
        assert("data"@.len() == 4);
        assert(""@ =~= Seq::<char>::empty());
        assert("spec"@[0] != "data"@[0]);
        assert("tags"@[0] != "name"@[0]);
        assert("creator_notes"@[0] != "system_prompt"@[0]);
        assert("description"@[0] != "personality"@[0]);
        assert("description"@[0] != "mes_example"@[0]);
        assert("personality"@[0] != "mes_example"@[0]);
        assert("extensions"@[0] != "description"@[0]);
        assert("extensions"@[0] != "personality"@[0]);
        assert("extensions"@[0] != "mes_example"@[0]);
    }
    let ghost root0 = source_root(source);
    let mut root: Vec<JsonMember> = match source {
        Some(JsonValue::Object(members)) => members,
        _ => Vec::new(),
    };
    assert(root@ == root0);
    let spec_text = if v3 {
        "chara_card_v3"
    } else {
        "chara_card_v2"
    };
    let had = match member(&root, "spec") {
        Some(JsonValue::String(s)) => str_eq(s.as_str(), spec_text),
        _ => false,
    };
    assert(had == had_source(root0, v3));
    let ghost r0 = root@;
    let mut data: Vec<JsonMember> = match object_remove(&mut root, "data") {
        Some(JsonValue::Object(d)) => d,
        _ => Vec::new(),
    };
    let ghost r1 = root@;
    let ghost d0 = data@;
    assert(d0 == source_data(root0));
    let spec_value = text_value(spec_text);
    object_set(&mut root, "spec", spec_value);
    let ghost r2 = root@;
    let version_value = text_value(
        if v3 {
            "3.0"
        } else {
            "2.0"
        },
    );
    object_set(&mut root, "spec_version", version_value);
    let ghost r3 = root@;
    assert(member_lookup(r3, "spec"@) == member_lookup(r2, "spec"@));
    overlay_common_fields(&mut data, character, had);
    let ghost d1 = data@;
    object_or_insert(&mut data, "creator_notes", text_value(""));
    let ghost d2 = data@;
    assert(member_lookup(data@, "name"@) == member_lookup(d1, "name"@));
    assert(member_lookup(data@, "creator"@) == member_lookup(d1, "creator"@));
    assert(member_lookup(data@, "character_version"@) == member_lookup(d1, "character_version"@));
    assert(member_lookup(data@, "first_mes"@) == member_lookup(d1, "first_mes"@));
    assert(member_lookup(data@, "description"@) == member_lookup(d1, "description"@));
    assert(member_lookup(data@, "personality"@) == member_lookup(d1, "personality"@));
    assert(member_lookup(data@, "scenario"@) == member_lookup(d1, "scenario"@));
    assert(member_lookup(data@, "mes_example"@) == member_lookup(d1, "mes_example"@));
    assert(member_lookup(data@, "system_prompt"@) == member_lookup(d0, "system_prompt"@));
    assert(member_lookup(data@, "post_history_instructions"@) == member_lookup(d0, "post_history_instructions"@));
    assert(member_lookup(data@, "alternate_greetings"@) == member_lookup(d0, "alternate_greetings"@));
    assert(member_lookup(data@, "tags"@) == member_lookup(d0, "tags"@));
    assert(member_lookup(data@, "extensions"@) == member_lookup(d0, "extensions"@));
    assert(member_lookup(data@, "group_only_greetings"@) == member_lookup(d0, "group_only_greetings"@));
    object_or_insert(&mut data, "system_prompt", text_value(""));
    let ghost d3 = data@;
    assert(member_lookup(data@, "name"@) == member_lookup(d1, "name"@));
    assert(member_lookup(data@, "creator"@) == member_lookup(d1, "creator"@));
    assert(member_lookup(data@, "character_version"@) == member_lookup(d1, "character_version"@));
    assert(member_lookup(data@, "first_mes"@) == member_lookup(d1, "first_mes"@));
    assert(member_lookup(data@, "description"@) == member_lookup(d1, "description"@));
    assert(member_lookup(data@, "personality"@) == member_lookup(d1, "personality"@));
    assert(member_lookup(data@, "scenario"@) == member_lookup(d1, "scenario"@));
    assert(member_lookup(data@, "mes_example"@) == member_lookup(d1, "mes_example"@));
    assert(member_lookup(data@, "creator_notes"@) == member_lookup(d2, "creator_notes"@));
    assert(member_lookup(data@, "post_history_instructions"@) == member_lookup(d0, "post_history_instructions"@));
    assert(member_lookup(data@, "alternate_greetings"@) == member_lookup(d0, "alternate_greetings"@));
    assert(member_lookup(data@, "tags"@) == member_lookup(d0, "tags"@));
    assert(member_lookup(data@, "extensions"@) == member_lookup(d0, "extensions"@));
    assert(member_lookup(data@, "group_only_greetings"@) == member_lookup(d0, "group_only_greetings"@));
    object_or_insert(&mut data, "post_history_instructions", text_value(""));
    let ghost d4 = data@;
    assert(member_lookup(data@, "name"@) == member_lookup(d1, "name"@));
    assert(member_lookup(data@, "creator"@) == member_lookup(d1, "creator"@));
    assert(member_lookup(data@, "character_version"@) == member_lookup(d1, "character_version"@));
    assert(member_lookup(data@, "first_mes"@) == member_lookup(d1, "first_mes"@));
    assert(member_lookup(data@, "description"@) == member_lookup(d1, "description"@));
    assert(member_lookup(data@, "personality"@) == member_lookup(d1, "personality"@));
    assert(member_lookup(data@, "scenario"@) == member_lookup(d1, "scenario"@));
    assert(member_lookup(data@, "mes_example"@) == member_lookup(d1, "mes_example"@));
    assert(member_lookup(data@, "creator_notes"@) == member_lookup(d2, "creator_notes"@));
    assert(member_lookup(data@, "system_prompt"@) == member_lookup(d3, "system_prompt"@));
    assert(member_lookup(data@, "alternate_greetings"@) == member_lookup(d0, "alternate_greetings"@));
    assert(member_lookup(data@, "tags"@) == member_lookup(d0, "tags"@));
    assert(member_lookup(data@, "extensions"@) == member_lookup(d0, "extensions"@));
    assert(member_lookup(data@, "group_only_greetings"@) == member_lookup(d0, "group_only_greetings"@));
    object_or_insert(&mut data, "alternate_greetings", empty_array());
    let ghost d5 = data@;
    assert(member_lookup(data@, "name"@) == member_lookup(d1, "name"@));
    assert(member_lookup(data@, "creator"@) == member_lookup(d1, "creator"@));
    assert(member_lookup(data@, "character_version"@) == member_lookup(d1, "character_version"@));
    assert(member_lookup(data@, "first_mes"@) == member_lookup(d1, "first_mes"@));
    assert(member_lookup(data@, "description"@) == member_lookup(d1, "description"@));
    assert(member_lookup(data@, "personality"@) == member_lookup(d1, "personality"@));
    assert(member_lookup(data@, "scenario"@) == member_lookup(d1, "scenario"@));
    assert(member_lookup(data@, "mes_example"@) == member_lookup(d1, "mes_example"@));
    assert(member_lookup(data@, "creator_notes"@) == member_lookup(d2, "creator_notes"@));
    assert(member_lookup(data@, "system_prompt"@) == member_lookup(d3, "system_prompt"@));
    assert(member_lookup(data@, "post_history_instructions"@) == member_lookup(d4, "post_history_instructions"@));
    assert(member_lookup(data@, "tags"@) == member_lookup(d0, "tags"@));
    assert(member_lookup(data@, "extensions"@) == member_lookup(d0, "extensions"@));
    assert(member_lookup(data@, "group_only_greetings"@) == member_lookup(d0, "group_only_greetings"@));
    object_or_insert(&mut data, "tags", empty_array());
    let ghost d6 = data@;
    assert(member_lookup(data@, "name"@) == member_lookup(d1, "name"@));
    assert(member_lookup(data@, "creator"@) == member_lookup(d1, "creator"@));
    assert(member_lookup(data@, "character_version"@) == member_lookup(d1, "character_version"@));
    assert(member_lookup(data@, "first_mes"@) == member_lookup(d1, "first_mes"@));
    assert(member_lookup(data@, "description"@) == member_lookup(d1, "description"@));
    assert(member_lookup(data@, "personality"@) == member_lookup(d1, "personality"@));
    assert(member_lookup(data@, "scenario"@) == member_lookup(d1, "scenario"@));
    assert(member_lookup(data@, "mes_example"@) == member_lookup(d1, "mes_example"@));
    assert(member_lookup(data@, "creator_notes"@) == member_lookup(d2, "creator_notes"@));
    assert(member_lookup(data@, "system_prompt"@) == member_lookup(d3, "system_prompt"@));
    assert(member_lookup(data@, "post_history_instructions"@) == member_lookup(d4, "post_history_instructions"@));
    assert(member_lookup(data@, "alternate_greetings"@) == member_lookup(d5, "alternate_greetings"@));
    assert(member_lookup(data@, "extensions"@) == member_lookup(d0, "extensions"@));
    assert(member_lookup(data@, "group_only_greetings"@) == member_lookup(d0, "group_only_greetings"@));
    object_or_insert(&mut data, "extensions", empty_object());
    let ghost d7 = data@;
    assert(member_lookup(data@, "name"@) == member_lookup(d1, "name"@));
    assert(member_lookup(data@, "creator"@) == member_lookup(d1, "creator"@));
    assert(member_lookup(data@, "character_version"@) == member_lookup(d1, "character_version"@));
    assert(member_lookup(data@, "first_mes"@) == member_lookup(d1, "first_mes"@));
    assert(member_lookup(data@, "description"@) == member_lookup(d1, "description"@));
    assert(member_lookup(data@, "personality"@) == member_lookup(d1, "personality"@));
    assert(member_lookup(data@, "scenario"@) == member_lookup(d1, "scenario"@));
    assert(member_lookup(data@, "mes_example"@) == member_lookup(d1, "mes_example"@));
    assert(member_lookup(data@, "creator_notes"@) == member_lookup(d2, "creator_notes"@));
    assert(member_lookup(data@, "system_prompt"@) == member_lookup(d3, "system_prompt"@));
    assert(member_lookup(data@, "post_history_instructions"@) == member_lookup(d4, "post_history_instructions"@));
    assert(member_lookup(data@, "alternate_greetings"@) == member_lookup(d5, "alternate_greetings"@));
    assert(member_lookup(data@, "tags"@) == member_lookup(d6, "tags"@));
    assert(member_lookup(data@, "group_only_greetings"@) == member_lookup(d0, "group_only_greetings"@));
    if v3 {
        object_or_insert(&mut data, "group_only_greetings", empty_array());
    }
    let ghost d8 = data@;
    assert(member_lookup(data@, "name"@) == member_lookup(d1, "name"@));
    assert(member_lookup(data@, "creator"@) == member_lookup(d1, "creator"@));
    assert(member_lookup(data@, "character_version"@) == member_lookup(d1, "character_version"@));
    assert(member_lookup(data@, "first_mes"@) == member_lookup(d1, "first_mes"@));
    assert(member_lookup(data@, "description"@) == member_lookup(d1, "description"@));
    assert(member_lookup(data@, "personality"@) == member_lookup(d1, "personality"@));
    assert(member_lookup(data@, "scenario"@) == member_lookup(d1, "scenario"@));
    assert(member_lookup(data@, "mes_example"@) == member_lookup(d1, "mes_example"@));
    assert(member_lookup(data@, "creator_notes"@) == member_lookup(d2, "creator_notes"@));
    assert(member_lookup(data@, "system_prompt"@) == member_lookup(d3, "system_prompt"@));
    assert(member_lookup(data@, "post_history_instructions"@) == member_lookup(d4, "post_history_instructions"@));
    assert(member_lookup(data@, "alternate_greetings"@) == member_lookup(d5, "alternate_greetings"@));
    assert(member_lookup(data@, "tags"@) == member_lookup(d6, "tags"@));
    assert(member_lookup(data@, "extensions"@) == member_lookup(d7, "extensions"@));
    proof {
        assert forall|k: Seq<char>| !written_data_key(k, v3) implies #[trigger] member_lookup(data@, k) == member_lookup(d0, k) by {
            if k != "group_only_greetings"@ {
                assert(member_lookup(d8, k) == member_lookup(d7, k));
                assert(member_lookup(d7, k) == member_lookup(d6, k));
                assert(member_lookup(d6, k) == member_lookup(d5, k));
                assert(member_lookup(d5, k) == member_lookup(d4, k));
                assert(member_lookup(d4, k) == member_lookup(d3, k));
                assert(member_lookup(d3, k) == member_lookup(d2, k));
                assert(member_lookup(d2, k) == member_lookup(d1, k));
            } else {
                assert(!v3);
                assert(d8 == d7);
                assert(member_lookup(d7, k) == member_lookup(d6, k));
                assert(member_lookup(d6, k) == member_lookup(d5, k));
                assert(member_lookup(d5, k) == member_lookup(d4, k));
                assert(member_lookup(d4, k) == member_lookup(d3, k));
                assert(member_lookup(d3, k) == member_lookup(d2, k));
                assert(member_lookup(d2, k) == member_lookup(d1, k));
            }
        }
        if !v3 {
            assert(d8 == d7);
        }
    }
    let ghost final_data = data@;
    let data_value = JsonValue::Object(data);
    object_set(&mut root, "data", data_value);
    let ghost r4 = root@;
    assert(member_lookup(r4, "spec"@) == member_lookup(r3, "spec"@));
    assert(member_lookup(r4, "spec_version"@) == member_lookup(r3, "spec_version"@));
    proof {
        assert forall|k: Seq<char>| k != "spec"@ && k != "spec_version"@ && k != "data"@ implies #[trigger] member_lookup(r4, k) == member_lookup(root0, k) by {
            assert(member_lookup(r4, k) == member_lookup(r3, k));
            assert(member_lookup(r3, k) == member_lookup(r2, k));
            assert(member_lookup(r2, k) == member_lookup(r1, k));
            assert(member_lookup(r1, k) == member_lookup(r0, k));
        }
        assert(exported_data(final_data, source_data(root0), *character, had, v3));
    }
    JsonValue::Object(root)
}

/// The card as a CCv2 export.
pub fn export_ccv2(character: &CardExportFields, source: Option<JsonValue>) -> (card: JsonValue)
    ensures
        exported_card(card, source, *character, false),
{
    export_card(character, source, false)
}

/// The card as a CCv3 export.
pub fn export_ccv3(character: &CardExportFields, source: Option<JsonValue>) -> (card: JsonValue)
    ensures
        exported_card(card, source, *character, true),
{
    export_card(character, source, true)
}


/// What an exported card reads back as: the first reading accepts it with
/// the exported spec and version, and finishing it (with the version read
/// as the implemented one) raises no problem and gives back the
/// character's name, author (or "Unknown" for a blank one), version, first
/// message and markdown.
pub proof fn lemma_exported_card_reads_back(
    card: JsonValue,
    character: CardExportFields,
    v3: bool,
    header: ExternalCardHeader,
)
    requires
        exported_card(card, None, character, v3),
        header.card == card,
        header.detected == (if v3 {
            3u8
        } else {
            2u8
        }),
        header.spec_version@ == version_name(v3),
        0 < trim(character.name@).len() <= 120,
    ensures
        card_header(card, None) == Ok::<(u8, Seq<char>), Seq<char>>((header.detected, version_name(v3))),
        card_problem(header, Ccv3SpecVersion::Implemented) is None,
        trim(text_field(card_data(header).unwrap(), "name"@).unwrap()) == trim(character.name@),
        card_author(card_data(header).unwrap(), header.detected) == (if trim(character.author_name@).len()
            == 0 {
            "Unknown"@
        } else {
            trim(character.author_name@)
        }),
        raw_card_version(card_data(header).unwrap(), header.detected) == character.version@,
        text_field(card_data(header).unwrap(), "first_mes"@).unwrap() == match character.opening_markdown {
            Some(o) => o@,
            None => Seq::<char>::empty(),
        },
        text_field(card_data(header).unwrap(), "description"@).unwrap() == character.character_markdown@,
{
    reveal_strlit("chara_card_v2");
    reveal_strlit("chara_card_v3");
    reveal_strlit("2.0");
    reveal_strlit("3.0");
    reveal_strlit("spec");
    reveal_strlit("spec_version");
    reveal_strlit("data");
    reveal_strlit("");
    assert("chara_card_v3"@[12] != "chara_card_v2"@[12]);
    assert("chara_card_v3"@ != "chara_card_v2"@);
    let root = card->Object_0@;
    assert(text_field(root, "spec"@) == Some(spec_name(v3)));
    assert(text_field(root, "spec_version"@) == Some(version_name(v3)));
    assert(source_root(None) =~= Seq::<JsonMember>::empty());
    assert(member_lookup(Seq::<JsonMember>::empty(), "spec"@) is None);
    assert(!had_source(Seq::<JsonMember>::empty(), v3));
    let data = member_lookup(root, "data"@)->Some_0->Object_0@;
    assert(json_field(card, "data"@) == member_lookup(root, "data"@));
    assert(card_data(header) == Some(data));
}

} // verus!
