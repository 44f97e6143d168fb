//! MOC (MOMO container) plans and the checks on what a container declares:
//! module selections, host modules, character metadata and asset paths.

use vstd::prelude::*;

use crate::ids::{format_uuid, hyphenated, parse_uuid, uuid_parse};
use crate::paths::{
    extension_of, has_only_plain_components, is_absolute, only_plain_components, path_extension,
};
use crate::text::{all_ws, chars_of, is_blank, is_prefix_of, push_str, str_eq, strip_prefix};

verus! {

/// Failures of portable import and export. Errors that an outside library
/// reports arrive here as their message text.
#[derive(Debug, Clone, PartialEq, Eq)]
pub enum PortableError {
    Io(String),
    Config(String),
    Moc(String),
    Storage(String),
    Memory(String),
    Json(String),
    Toml(String),
    Uuid(String),
    CredentialInConfig(String),
    EmptySelection,
    MissingPassphrase,
    PrivateMocTooLarge,
    EncryptedMocProfile,
    Crypto(String),
    InvalidData(String),
    Walk(String),
    Persist(String),
}

#[derive(Debug, Clone, Copy, PartialEq, Eq, Structural)]
pub enum MocModule {
    MomoConfig,
    Characters,
    Conversations,
    Memory,
    SemanticGraph,
}

/// Which external character form an export adds beside the native one;
/// `Disabled` adds none.
#[derive(Debug, Clone, Copy, PartialEq, Eq, Structural)]
pub enum MocCompatibility {
    Disabled,
    PreservedSource,
    GeneratedCcv2Json,
    GeneratedCcv3Json,
    GeneratedCcv3Charx,
}

impl Default for MocCompatibility {
    fn default() -> (compatibility: Self)
        ensures
            compatibility == MocCompatibility::Disabled,
    {
        MocCompatibility::Disabled
    }
}

#[derive(Debug, Clone, PartialEq, Eq)]
pub struct MocCharacterSelection {
    pub space_id: u128,
    pub character_ids: Vec<u128>,
}

#[derive(Debug, Clone, PartialEq, Eq)]
pub struct MocExportPlan {
    pub include_config: bool,
    pub characters: Vec<MocCharacterSelection>,
    pub conversations: Vec<u128>,
    pub memory: Vec<u128>,
    pub semantic_graph: Vec<u128>,
    pub compatibility: MocCompatibility,
}

/// No value occurs twice.
pub open spec fn all_distinct(values: Seq<u128>) -> bool {
    forall|i: int, j: int| 0 <= i < j < values.len() ==> values[i] != values[j]
}

/// The modules a plan selects, in container order.
pub open spec fn selected_modules(plan: MocExportPlan) -> Seq<MocModule> {
    (if plan.include_config {
        seq![MocModule::MomoConfig]
    } else {
        Seq::empty()
    }) + (if plan.characters@.len() > 0 {
        seq![MocModule::Characters]
    } else {
        Seq::empty()
    }) + (if plan.conversations@.len() > 0 {
        seq![MocModule::Conversations]
    } else {
        Seq::empty()
    }) + (if plan.memory@.len() > 0 {
        seq![MocModule::Memory]
    } else {
        Seq::empty()
    }) + (if plan.semantic_graph@.len() > 0 {
        seq![MocModule::SemanticGraph]
    } else {
        Seq::empty()
    })
}

pub open spec fn character_spaces(plan: MocExportPlan) -> Seq<u128> {
    plan.characters@.map_values(|s: MocCharacterSelection| s.space_id)
}

/// The first selection whose character ids repeat, if any.
pub open spec fn repeated_characters(selections: Seq<MocCharacterSelection>) -> Option<u128>
    decreases selections.len(),
{
    if selections.len() == 0 {
        None
    } else if !all_distinct(selections[0].character_ids@) {
        Some(selections[0].space_id)
    } else {
        repeated_characters(selections.drop_first())
    }
}

pub open spec fn duplicate_spaces_message(module: Seq<char>) -> Seq<char> {
    module + " contains duplicate Space selections"@
}

/// What validating a plan reports: the selected modules, or the first
/// problem (no message for an empty selection) in this order: nothing selected (unless allowed), a
/// compatibility form without characters, repeated spaces or character ids.
pub open spec fn plan_check(plan: MocExportPlan, allow_empty: bool) -> Result<Seq<MocModule>, Option<Seq<char>>> {
    let modules = selected_modules(plan);
    if modules.len() == 0 && !allow_empty {
        Err(None)
    } else if plan.compatibility != MocCompatibility::Disabled && plan.characters@.len() == 0 {
        Err(Some("character compatibility requires the characters module"@))
    } else if !all_distinct(character_spaces(plan)) {
        Err(Some(duplicate_spaces_message("characters"@)))
    } else if repeated_characters(plan.characters@) is Some {
        Err(
            Some(
                "character selection for Space "@ + hyphenated(repeated_characters(plan.characters@).unwrap())
                    + " contains duplicate IDs"@,
            ),
        )
    } else if !all_distinct(plan.conversations@) {
        Err(Some(duplicate_spaces_message("conversations"@)))
    } else if !all_distinct(plan.memory@) {
        Err(Some(duplicate_spaces_message("memory"@)))
    } else if !all_distinct(plan.semantic_graph@) {
        Err(Some(duplicate_spaces_message("semantic_graph"@)))
    } else {
        Ok(modules)
    }
}

fn distinct(values: &Vec<u128>) -> (d: bool)
    ensures
        d == all_distinct(values@),
{
    let mut i: usize = 0;
    while i < values.len()
        invariant
            i <= values@.len(),
            forall|a: int, b: int| 0 <= a < b < values@.len() && a < i ==> values@[a] != values@[b],
        decreases values@.len() - i,
    {
        let mut j: usize = i + 1;
        while j < values.len()
            invariant
                i < values@.len(),
                i + 1 <= j <= values@.len(),
                forall|a: int, b: int| 0 <= a < b < values@.len() && a < i ==> values@[a] != values@[b],
                forall|b: int| i < b < j ==> values@[i as int] != values@[b],
            decreases values@.len() - j,
        {
            if values[i] == values[j] {
                return false;
            }
            j += 1;
        }
        i += 1;
    }
    true
}

fn invalid_data(message: &str) -> (error: PortableError)
    ensures
        error matches PortableError::InvalidData(m) && m@ == message@,
{
    PortableError::InvalidData(String::from_str(message))
}

fn duplicate_spaces(module: &str) -> (error: PortableError)
    ensures
        error matches PortableError::InvalidData(m) && m@ == duplicate_spaces_message(module@),
{
    let mut message = String::from_str(module);
    push_str(&mut message, " contains duplicate Space selections");
    PortableError::InvalidData(message)
}

impl MocExportPlan {
    /// The modules the plan selects, after checking the selection.
    #[verifier::loop_isolation(false)]
    pub fn validate(&self, allow_empty: bool) -> (result: Result<Vec<MocModule>, PortableError>)
        ensures
            match plan_check(*self, allow_empty) {
                Ok(modules) => result matches Ok(m) && m@ == modules,
                Err(None) => result matches Err(PortableError::EmptySelection),
                Err(Some(message)) => result matches Err(PortableError::InvalidData(m)) && m@ == message,
            },
    {
        let mut modules: Vec<MocModule> = Vec::new();
        if self.include_config {
            modules.push(MocModule::MomoConfig);
        }
        if self.characters.len() > 0 {
            modules.push(MocModule::Characters);
        }
        if self.conversations.len() > 0 {
            modules.push(MocModule::Conversations);
        }
        if self.memory.len() > 0 {
            modules.push(MocModule::Memory);
        }
        if self.semantic_graph.len() > 0 {
            modules.push(MocModule::SemanticGraph);
        }
        assert(modules@ =~= selected_modules(*self));
        if modules.len() == 0 && !allow_empty {
            return Err(PortableError::EmptySelection);
        }
        if self.compatibility != MocCompatibility::Disabled && self.characters.len() == 0 {
            return Err(invalid_data("character compatibility requires the characters module"));
        }
        let mut spaces: Vec<u128> = Vec::new();
        let mut k: usize = 0;
        while k < self.characters.len()
            invariant
                k <= self.characters@.len(),
                spaces@ == character_spaces(*self).take(k as int),
            decreases self.characters@.len() - k,
        {
            spaces.push(self.characters[k].space_id);
            assert(spaces@ =~= character_spaces(*self).take(k + 1));
            k += 1;
        }
        assert(spaces@ =~= character_spaces(*self));
        if !distinct(&spaces) {
            return Err(duplicate_spaces("characters"));
        }
        let ghost all = self.characters@;
        let mut s: usize = 0;
        assert(all.skip(0) =~= all);
        while s < self.characters.len()
            invariant
                s <= all.len(),
                all == self.characters@,
                repeated_characters(all) == repeated_characters(all.skip(s as int)),
            decreases all.len() - s,
        {
            assert(all.skip(s as int)[0] == all[s as int]);
            assert(all.skip(s as int).drop_first() =~= all.skip(s + 1));
            if !distinct(&self.characters[s].character_ids) {
                let mut message = String::from_str("character selection for Space ");
                push_str(&mut message, format_uuid(self.characters[s].space_id).as_str());
                push_str(&mut message, " contains duplicate IDs");
                return Err(PortableError::InvalidData(message));
            }
            s += 1;
        }
        assert(all.skip(s as int).len() == 0);
        if !distinct(&self.conversations) {
            return Err(duplicate_spaces("conversations"));
        }
        if !distinct(&self.memory) {
            return Err(duplicate_spaces("memory"));
        }
        if !distinct(&self.semantic_graph) {
            return Err(duplicate_spaces("semantic_graph"));
        }
        Ok(modules)
    }
}

#[derive(Debug, Clone, Copy, PartialEq, Eq, Structural)]
pub enum ConflictMode {
    KeepExisting,
    Replace,
}

/// Imports keep what already exists unless told otherwise.
pub fn default_conflict_mode() -> (mode: ConflictMode)
    ensures
        mode == ConflictMode::KeepExisting,
{
    ConflictMode::KeepExisting
}

/// How a container is protected; `Unprotected` is a plain container.
#[derive(Debug, Clone, PartialEq, Eq)]
pub enum MocProtection {
    Unprotected,
    Passphrase { value: String },
}

impl Default for MocProtection {
    fn default() -> (protection: Self)
        ensures
            protection is Unprotected,
    {
        MocProtection::Unprotected
    }
}

impl MocProtection {
    /// The passphrase, for a passphrase-protected container.
    pub fn passphrase(&self) -> (passphrase: Option<&str>)
        ensures
            match self {
                MocProtection::Unprotected => passphrase is None,
                MocProtection::Passphrase { value } => passphrase matches Some(p) && p@ == value@,
            },
    {
        match self {
            MocProtection::Unprotected => None,
            MocProtection::Passphrase { value } => Some(value.as_str()),
        }
    }
}

/// A module that a host application adds to a container.
#[derive(Debug, Clone, PartialEq, Eq)]
pub struct HostMocModule {
    pub id: String,
    pub input_path: String,
    pub dependencies: Vec<String>,
    pub import_order: u32,
}

/// A module a container holds that this runtime does not know.
#[derive(Debug, Clone, PartialEq, Eq)]
pub struct UnknownMocModule {
    pub id: String,
    pub declared_path: String,
    pub dependencies: Vec<String>,
    pub import_order: u32,
    pub claimed_path: Option<String>,
}

/// Host modules are imported after the core ones unless they say otherwise.
pub fn default_host_module_import_order() -> (order: u32)
    ensures
        order == 1000,
{
    1000
}

/// Ids of the modules the runtime itself writes.
pub open spec fn core_module_id(id: Seq<char>) -> bool {
    ||| id == "config"@
    ||| id == "characters"@
    ||| id == "conversations"@
    ||| id == "memory"@
    ||| id == "semantic_graph"@
    ||| id == "tavern_compat"@
    ||| id == "encrypted-container"@
}

pub fn is_core_moc_module(id: &str) -> (core: bool)
    ensures
        core == core_module_id(id@),
{
    str_eq(id, "config") || str_eq(id, "characters") || str_eq(id, "conversations") || str_eq(
        id,
        "memory",
    ) || str_eq(id, "semantic_graph") || str_eq(id, "tavern_compat") || str_eq(id, "encrypted-container")
}

/// A module id: non-empty, ASCII letters, digits, `_` and `-` only.
pub open spec fn valid_module_id(id: Seq<char>) -> bool {
    id.len() > 0 && forall|i: int|
        0 <= i < id.len() ==> {
            let c = #[trigger] id[i];
            ('A' <= c && c <= 'Z') || ('a' <= c && c <= 'z') || ('0' <= c && c <= '9') || c == '_' || c
                == '-'
        }
}

pub fn validate_module_id(id: &str) -> (result: Result<(), PortableError>)
    ensures
        valid_module_id(id@) ==> result is Ok,
        !valid_module_id(id@) ==> (result matches Err(PortableError::InvalidData(m)) && m@
            == "invalid host MOC module id: "@ + id@),
{
    let chars = chars_of(id);
    let mut ok = chars.len() > 0;
    let mut i: usize = 0;
    while i < chars.len()
        invariant
            i <= chars@.len(),
            chars@ == id@,
            ok == (chars@.len() > 0 && forall|k: int|
                0 <= k < i ==> {
                    let c = #[trigger] chars@[k];
                    ('A' <= c && c <= 'Z') || ('a' <= c && c <= 'z') || ('0' <= c && c <= '9') || c == '_'
                        || c == '-'
                }),
        decreases chars@.len() - i,
    {
        let c = chars[i];
        if !(('A' <= c && c <= 'Z') || ('a' <= c && c <= 'z') || ('0' <= c && c <= '9') || c == '_' || c
            == '-') {
            ok = false;
        }
        i += 1;
    }
    if !ok {
        let mut message = String::from_str("invalid host MOC module id: ");
        push_str(&mut message, id);
        return Err(PortableError::InvalidData(message));
    }
    Ok(())
}

pub open spec fn texts(v: Seq<String>) -> Seq<Seq<char>> {
    v.map_values(|s: String| s@)
}

/// The first dependency that is invalid, the module itself, or repeated.
pub open spec fn dependency_problem(id: Seq<char>, deps: Seq<Seq<char>>) -> Option<Seq<char>>
    decreases deps.len(),
{
    if deps.len() == 0 {
        None
    } else {
        match dependency_problem(id, deps.drop_last()) {
            Some(p) => Some(p),
            None => {
                let d = deps.last();
                if !valid_module_id(d) {
                    Some("invalid host MOC module id: "@ + d)
                } else if d == id || deps.drop_last().contains(d) {
                    Some("invalid dependency for host module "@ + id)
                } else {
                    None
                }
            },
        }
    }
}

/// What checking a host module against the ids seen so far reports.
pub open spec fn host_module_problem(module: HostMocModule, seen: Seq<Seq<char>>) -> Option<Seq<char>> {
    let id = module.id@;
    if !valid_module_id(id) {
        Some("invalid host MOC module id: "@ + id)
    } else if core_module_id(id) {
        Some("host module cannot replace Core module "@ + id)
    } else if seen.contains(id) {
        Some("duplicate MOC module id: "@ + id)
    } else {
        dependency_problem(id, texts(module.dependencies@))
    }
}

fn contains_text(list: &Vec<String>, text: &str, upto: usize) -> (found: bool)
    requires
        upto <= list@.len(),
    ensures
        found == texts(list@).take(upto as int).contains(text@),
{
    let mut i: usize = 0;
    while i < upto
        invariant
            i <= upto <= list@.len(),
            forall|k: int| 0 <= k < i ==> list@[k]@ != text@,
        decreases upto - i,
    {
        if str_eq(list[i].as_str(), text) {
            assert(texts(list@).take(upto as int)[i as int] == text@);
            return true;
        }
        i += 1;
    }
    assert forall|k: int| 0 <= k < texts(list@).take(upto as int).len() implies texts(list@).take(
        upto as int,
    )[k] != text@ by {}
    false
}

proof fn lemma_dependency_problem_stays(id: Seq<char>, deps: Seq<Seq<char>>, n: int)
    requires
        0 <= n <= deps.len(),
        dependency_problem(id, deps.take(n)) is Some,
    ensures
        dependency_problem(id, deps) == dependency_problem(id, deps.take(n)),
    decreases deps.len() - n,
{
    if n < deps.len() {
        assert(deps.take(n + 1).drop_last() =~= deps.take(n));
        lemma_dependency_problem_stays(id, deps, n + 1);
    } else {
        assert(deps.take(n) =~= deps);
    }
}

/// Checks a host module: its id, that it does not replace a core module
/// or repeat one, and its dependencies. An accepted id joins `module_ids`.
#[verifier::loop_isolation(false)]
pub fn validate_host_module(module: &HostMocModule, module_ids: &mut Vec<String>) -> (result: Result<
    (),
    PortableError,
>)
    ensures
        match host_module_problem(*module, texts(old(module_ids)@)) {
            None => result is Ok,
            Some(message) => result matches Err(PortableError::InvalidData(m)) && m@ == message,
        },
        host_module_problem(*module, texts(old(module_ids)@)) is None ==> texts(final(module_ids)@)
            == texts(old(module_ids)@).push(module.id@),
{
    match validate_module_id(module.id.as_str()) {
        Err(error) => {
            return Err(error);
        },
        Ok(()) => {},
    }
    if is_core_moc_module(module.id.as_str()) {
        let mut message = String::from_str("host module cannot replace Core module ");
        push_str(&mut message, module.id.as_str());
        return Err(PortableError::InvalidData(message));
    }
    let ghost seen = texts(module_ids@);
    assert(texts(module_ids@).take(module_ids@.len() as int) =~= texts(module_ids@));
    if contains_text(module_ids, module.id.as_str(), module_ids.len()) {
        let mut message = String::from_str("duplicate MOC module id: ");
        push_str(&mut message, module.id.as_str());
        return Err(PortableError::InvalidData(message));
    }
    module_ids.push(module.id.clone());
    assert(texts(module_ids@) =~= seen.push(module.id@));
    let deps = &module.dependencies;
    let ghost all = texts(deps@);
    let mut i: usize = 0;
    while i < deps.len()
        invariant
            i <= deps@.len(),
            all == texts(deps@),
            dependency_problem(module.id@, all.take(i as int)) is None,
        decreases deps@.len() - i,
    {
        proof {
            assert(all.take(i + 1).drop_last() =~= all.take(i as int));
            assert(all.take(i + 1).last() == deps@[i as int]@);
        }
        match validate_module_id(deps[i].as_str()) {
            Err(error) => {
                proof {
                    lemma_dependency_problem_stays(module.id@, all, i + 1);
                }
                return Err(error);
            },
            Ok(()) => {},
        }
        if str_eq(deps[i].as_str(), module.id.as_str()) || contains_text(deps, deps[i].as_str(), i) {
            assert(texts(deps@).take(i as int) =~= all.take(i + 1).drop_last());
            proof {
                lemma_dependency_problem_stays(module.id@, all, i + 1);
            }
            let mut message = String::from_str("invalid dependency for host module ");
            push_str(&mut message, module.id.as_str());
            return Err(PortableError::InvalidData(message));
        }
        assert(texts(deps@).take(i as int) =~= all.take(i + 1).drop_last());
        i += 1;
    }
    assert(all.take(deps@.len() as int) =~= all);
    Ok(())
}

// ---------------------------------------------------------------------------
// Character metadata
// ---------------------------------------------------------------------------

/// The character id a metadata value names, with an optional `urn:uuid:`
/// prefix.
pub open spec fn character_id_text(value: Seq<char>) -> Seq<char> {
    if is_prefix_of("urn:uuid:"@, value) {
        value.subrange(9, value.len() as int)
    } else {
        value
    }
}

pub fn parse_character_id(value: &str) -> (result: Result<u128, PortableError>)
    ensures
        match uuid_parse(character_id_text(value@)) {
            Ok(id) => result == Ok::<u128, PortableError>(id),
            Err(message) => result matches Err(PortableError::Uuid(m)) && m@ == message,
        },
{
    proof {
        reveal_strlit("urn:uuid:");
    }
    let text = match strip_prefix(value, "urn:uuid:") {
        Some(rest) => rest,
        None => String::from_str(value),
    };
    match parse_uuid(text.as_str()) {
        Ok(id) => Ok(id),
        Err(message) => Err(PortableError::Uuid(message)),
    }
}

/// ASCII case-insensitive equality with `md`.
pub open spec fn is_md(extension: Seq<char>) -> bool {
    extension.len() == 2 && (extension[0] == 'm' || extension[0] == 'M') && (extension[1] == 'd'
        || extension[1] == 'D')
}

/// A relative Markdown path made of plain components.
pub open spec fn safe_asset_path(value: Seq<char>) -> bool {
    &&& !all_ws(value)
    &&& !is_absolute(value)
    &&& only_plain_components(value)
    &&& match path_extension(value) {
        Some(e) => is_md(e),
        None => false,
    }
}

pub fn validate_asset_path(value: &str) -> (result: Result<String, PortableError>)
    ensures
        safe_asset_path(value@) ==> (result matches Ok(p) && p@ == value@),
        !safe_asset_path(value@) ==> (result matches Err(PortableError::InvalidData(m)) && m@
            == "unsafe Markdown asset path: "@ + value@),
{
    let md = match extension_of(value) {
        Some(e) => e.len() == 2 && (e[0] == 'm' || e[0] == 'M') && (e[1] == 'd' || e[1] == 'D'),
        None => false,
    };
    if is_blank(value) || !has_only_plain_components(value) || !md {
        let mut message = String::from_str("unsafe Markdown asset path: ");
        push_str(&mut message, value);
        return Err(PortableError::InvalidData(message));
    }
    Ok(String::from_str(value))
}

/// The file a character's description is read from when the metadata
/// names none.
pub fn default_character_file() -> (name: String)
    ensures
        name@ == "character.md"@,
{
    String::from_str("character.md")
}


/// The text `str::to_lowercase` gives (Unicode lowercase mapping).
pub uninterp spec fn lowercase_text(text: Seq<char>) -> Seq<char>;

/// `str::to_lowercase`. Claimed: the result depends on the text alone.
#[verifier::external_body]
fn to_lowercase(text: &str) -> (lowered: String)
    ensures
        lowered@ == lowercase_text(text@),
{
    text.to_lowercase()
}

/// Backslashes as forward slashes.
pub open spec fn forward_slashes(text: Seq<char>) -> Seq<char> {
    text.map_values(|c: char| if c == '\\' {
        '/'
    } else {
        c
    })
}

/// A path as compared across platforms: forward slashes, lowercase.
pub fn portable_case_fold(path: &str) -> (folded: String)
    ensures
        folded@ == lowercase_text(forward_slashes(path@)),
{
    let chars = chars_of(path);
    let mut slashed = String::new();
    let mut i: usize = 0;
    while i < chars.len()
        invariant
            i <= chars@.len(),
            chars@ == path@,
            slashed@ == forward_slashes(path@.take(i as int)),
        decreases chars@.len() - i,
    {
        let c = if chars[i] == '\\' {
            '/'
        } else {
            chars[i]
        };
        crate::text::push_char(&mut slashed, c);
        assert(forward_slashes(path@.take(i + 1)) =~= forward_slashes(path@.take(i as int)).push(c));
        i += 1;
    }
    assert(path@.take(chars@.len() as int) =~= path@);
    to_lowercase(slashed.as_str())
}


pub open spec fn id_views(ids: Seq<String>) -> Seq<Seq<char>> {
    ids.map_values(|id: String| id@)
}

/// How many different ids the sequence holds.
pub open spec fn distinct_count(ids: Seq<Seq<char>>) -> nat
    decreases ids.len(),
{
    if ids.len() == 0 {
        0
    } else {
        distinct_count(ids.drop_last()) + (if ids.drop_last().contains(ids.last()) {
            0nat
        } else {
            1nat
        })
    }
}

/// The positions of the available characters that are selected, in order.
pub open spec fn selected_positions(available: Seq<Seq<char>>, selected: Seq<Seq<char>>) -> Seq<usize>
    decreases available.len(),
{
    if available.len() == 0 {
        Seq::empty()
    } else {
        let before = selected_positions(available.drop_last(), selected);
        if selected.contains(available.last()) {
            before.push((available.len() - 1) as usize)
        } else {
            before
        }
    }
}

/// Which of a Space's characters an export takes: all of them when none
/// is selected; otherwise the selected ones in the Space's order, and every
/// selected id must name one of them.
pub fn select_export_characters(available: &Vec<String>, selected: &Vec<String>) -> (result: Result<
    Vec<usize>,
    PortableError,
>)
    ensures
        selected@.len() == 0 ==> (result matches Ok(kept) && kept@ == Seq::new(
            available@.len(),
            |i: int| i as usize,
        )),
        selected@.len() > 0 ==> ({
            let kept = selected_positions(id_views(available@), id_views(selected@));
            if kept.len() != distinct_count(id_views(selected@)) {
                result matches Err(PortableError::InvalidData(m)) && m@
                    == "a selected character does not exist in its declared owner Space"@
            } else {
                result matches Ok(k) && k@ == kept
            }
        }),
{
    let mut kept: Vec<usize> = Vec::new();
    let mut i: usize = 0;
    if selected.len() == 0 {
        while i < available.len()
            invariant
                i <= available@.len(),
                kept@ == Seq::new(i as nat, |k: int| k as usize),
            decreases available@.len() - i,
        {
            kept.push(i);
            i += 1;
            assert(kept@ =~= Seq::new(i as nat, |k: int| k as usize));
        }
        return Ok(kept);
    }
    let ghost sel = id_views(selected@);
    while i < available.len()
        invariant
            i <= available@.len(),
            sel == id_views(selected@),
            kept@ == selected_positions(id_views(available@).take(i as int), sel),
        decreases available@.len() - i,
    {
        let mut found = false;
        let mut j: usize = 0;
        while j < selected.len()
            invariant
                i < available@.len(),
                j <= selected@.len(),
                sel == id_views(selected@),
                found == exists|k: int| 0 <= k < j && sel[k] == available@[i as int]@,
            decreases selected@.len() - j,
        {
            assert(sel[j as int] == selected@[j as int]@);
            if str_eq(selected[j].as_str(), available[i].as_str()) {
                found = true;
            }
            j += 1;
        }
        let ghost prefix = id_views(available@).take(i + 1);
        assert(prefix.drop_last() =~= id_views(available@).take(i as int));
        assert(prefix.last() == available@[i as int]@);
        assert(found == sel.contains(available@[i as int]@)) by {
            if sel.contains(available@[i as int]@) {
                let k = choose|k: int| 0 <= k < sel.len() && sel[k] == available@[i as int]@;
                assert(0 <= k < j);
            }
        }
        if found {
            kept.push(i);
        }
        i += 1;
    }
    assert(id_views(available@).take(available@.len() as int) =~= id_views(available@));
    let mut distinct: usize = 0;
    let mut j: usize = 0;
    while j < selected.len()
        invariant
            j <= selected@.len(),
            sel == id_views(selected@),
            distinct == distinct_count(sel.take(j as int)),
            distinct <= j,
        decreases selected@.len() - j,
    {
        let mut seen = false;
        let mut k: usize = 0;
        while k < j
            invariant
                k <= j < selected@.len(),
                sel == id_views(selected@),
                seen == exists|m: int| 0 <= m < k && sel[m] == sel[j as int],
            decreases j - k,
        {
            assert(sel[k as int] == selected@[k as int]@ && sel[j as int] == selected@[j as int]@);
            if str_eq(selected[k].as_str(), selected[j].as_str()) {
                seen = true;
            }
            k += 1;
        }
        let ghost prefix = sel.take(j + 1);
        assert(prefix.drop_last() =~= sel.take(j as int));
        assert(prefix.last() == sel[j as int]);
        assert(seen == sel.take(j as int).contains(sel[j as int])) by {
            if sel.take(j as int).contains(sel[j as int]) {
                let m = choose|m: int| 0 <= m < j && sel.take(j as int)[m] == sel[j as int];
                assert(sel[m] == sel[j as int]);
            }
            if seen {
                let m = choose|m: int| 0 <= m < k && sel[m] == sel[j as int];
                assert(sel.take(j as int)[m] == sel[j as int]);
            }
        }
        if !seen {
            distinct += 1;
        }
        j += 1;
    }
    assert(sel.take(selected@.len() as int) =~= sel);
    if kept.len() != distinct {
        return Err(
            PortableError::InvalidData(
                String::from_str("a selected character does not exist in its declared owner Space"),
            ),
        );
    }
    Ok(kept)
}


pub const PRIVATE_MOC_PAYLOAD: &'static str = "private/payload.enc";

pub const PRIVATE_MOC_AAD: &'static str = "momo-private-moc-v1";

pub const PRIVATE_MOC_MAX_BYTES: u64 = 512 * 1024 * 1024;

/// An encrypted MOC must use the one envelope profile MOMO writes (its
/// profile, payload path and associated data), and opening it needs a
/// non-empty passphrase.
pub fn check_moc_encryption(
    profile: &str,
    payload_path: &str,
    associated_data: &str,
    passphrase: Option<&str>,
) -> (result: Result<(), PortableError>)
    ensures
        !(profile@ == "momo-envelope-v1"@ && payload_path@ == PRIVATE_MOC_PAYLOAD@ && associated_data@
            == PRIVATE_MOC_AAD@) ==> result == Err::<(), PortableError>(PortableError::EncryptedMocProfile),
        (profile@ == "momo-envelope-v1"@ && payload_path@ == PRIVATE_MOC_PAYLOAD@ && associated_data@
            == PRIVATE_MOC_AAD@) ==> result == if passphrase matches Some(p) && p@.len() > 0 {
            Ok::<(), PortableError>(())
        } else {
            Err::<(), PortableError>(PortableError::MissingPassphrase)
        },
{
    if !(str_eq(profile, "momo-envelope-v1") && str_eq(payload_path, PRIVATE_MOC_PAYLOAD) && str_eq(
        associated_data,
        PRIVATE_MOC_AAD,
    )) {
        return Err(PortableError::EncryptedMocProfile);
    }
    match passphrase {
        Some(p) => if p.is_empty() {
            Err(PortableError::MissingPassphrase)
        } else {
            Ok(())
        },
        None => Err(PortableError::MissingPassphrase),
    }
}

/// A decrypted MOC may hold at most `PRIVATE_MOC_MAX_BYTES`.
pub fn check_private_moc_size(length: usize) -> (result: Result<(), PortableError>)
    ensures
        length <= PRIVATE_MOC_MAX_BYTES ==> result == Ok::<(), PortableError>(()),
        length > PRIVATE_MOC_MAX_BYTES ==> result == Err::<(), PortableError>(PortableError::PrivateMocTooLarge),
{
    if length as u64 > PRIVATE_MOC_MAX_BYTES {
        Err(PortableError::PrivateMocTooLarge)
    } else {
        Ok(())
    }
}

/// A Space map of an import: each source Space must be in the MOC, and no
/// two may land in one target Space. `mapping` holds (source, target) pairs
/// with distinct sources.
pub fn check_space_map(source_spaces: &Vec<String>, mapping: &Vec<(String, String)>) -> (result: Result<
    (),
    PortableError,
>)
    ensures
        (exists|i: int| 0 <= i < mapping@.len() && !id_views(source_spaces@).contains(#[trigger] mapping@[i].0@))
            ==> (result matches Err(PortableError::InvalidData(m)) && m@
            == "space_map contains a source Space absent from the MOC"@),
        (forall|i: int| 0 <= i < mapping@.len() ==> id_views(source_spaces@).contains(#[trigger] mapping@[i].0@))
            ==> if distinct_count(mapping@.map_values(|pair: (String, String)| pair.1@)) != mapping@.len() {
            result matches Err(PortableError::InvalidData(m)) && m@
                == "space_map cannot collapse multiple source Spaces into one target Space"@
        } else {
            result == Ok::<(), PortableError>(())
        },
{
    let ghost sources = id_views(source_spaces@);
    let mut i: usize = 0;
    while i < mapping.len()
        invariant
            i <= mapping@.len(),
            sources == id_views(source_spaces@),
            forall|k: int| 0 <= k < i ==> sources.contains(#[trigger] mapping@[k].0@),
        decreases mapping@.len() - i,
    {
        let mut found = false;
        let mut j: usize = 0;
        while j < source_spaces.len()
            invariant
                i < mapping@.len(),
                j <= source_spaces@.len(),
                sources == id_views(source_spaces@),
                found == exists|k: int| 0 <= k < j && sources[k] == mapping@[i as int].0@,
            decreases source_spaces@.len() - j,
        {
            assert(sources[j as int] == source_spaces@[j as int]@);
            if str_eq(source_spaces[j].as_str(), mapping[i].0.as_str()) {
                found = true;
            }
            j += 1;
        }
        if !found {
            proof {
                assert(!sources.contains(mapping@[i as int].0@));
            }
            return Err(
                PortableError::InvalidData(String::from_str("space_map contains a source Space absent from the MOC")),
            );
        }
        i += 1;
    }
    let ghost targets = mapping@.map_values(|pair: (String, String)| pair.1@);
    let mut distinct: usize = 0;
    let mut j: usize = 0;
    while j < mapping.len()
        invariant
            j <= mapping@.len(),
            targets == mapping@.map_values(|pair: (String, String)| pair.1@),
            distinct == distinct_count(targets.take(j as int)),
            distinct <= j,
        decreases mapping@.len() - j,
    {
        let mut seen = false;
        let mut k: usize = 0;
        while k < j
            invariant
                k <= j < mapping@.len(),
                targets == mapping@.map_values(|pair: (String, String)| pair.1@),
                seen == exists|m: int| 0 <= m < k && targets[m] == targets[j as int],
            decreases j - k,
        {
            assert(targets[k as int] == mapping@[k as int].1@ && targets[j as int] == mapping@[j as int].1@);
            if str_eq(mapping[k].1.as_str(), mapping[j].1.as_str()) {
                seen = true;
            }
            k += 1;
        }
        let ghost prefix = targets.take(j + 1);
        assert(prefix.drop_last() =~= targets.take(j as int));
        assert(prefix.last() == targets[j as int]);
        assert(seen == targets.take(j as int).contains(targets[j as int])) by {
            if targets.take(j as int).contains(targets[j as int]) {
                let m = choose|m: int| 0 <= m < j && targets.take(j as int)[m] == targets[j as int];
                assert(targets[m] == targets[j as int]);
            }
            if seen {
                let m = choose|m: int| 0 <= m < k && targets[m] == targets[j as int];
                assert(targets.take(j as int)[m] == targets[j as int]);
            }
        }
        if !seen {
            distinct += 1;
        }
        j += 1;
    }
    assert(targets.take(mapping@.len() as int) =~= targets);
    if distinct != mapping.len() {
        return Err(
            PortableError::InvalidData(
                String::from_str("space_map cannot collapse multiple source Spaces into one target Space"),
            ),
        );
    }
    Ok(())
}

} // verus!
