//! Process-wide runtime settings and the governance of per-request
//! overrides: which a request may change, within which bounds, and an audit
//! of what was applied or ignored.

use vstd::prelude::*;

use crate::context::strings_view;
use crate::table::StringTable;
use crate::text::{all_ws, debug_quoted, debug_quoted_text, is_blank, str_eq};

verus! {

pub const RUNTIME_SETTINGS_SCHEMA_VERSION: u32 = 1;

/// How a per-request override of a setting is treated.
#[derive(Debug, Clone, Copy, PartialEq, Eq, Structural)]
pub enum OverrideMode {
    Allow,
    Ignore,
    Reject,
}

impl Default for OverrideMode {
    fn default() -> (mode: Self)
        ensures
            mode == OverrideMode::Ignore,
    {
        OverrideMode::Ignore
    }
}

#[derive(Debug)]
pub struct RequestOverridePolicy {
    pub context_window: OverrideMode,
    pub max_output_tokens: OverrideMode,
    pub sampling: OverrideMode,
    pub instructions: OverrideMode,
    pub visual_description_prompt: OverrideMode,
    pub tools: OverrideMode,
    /// Extra request parameters a request may pass through, in key order.
    pub allowed_parameters: StringTable<()>,
}

impl Default for RequestOverridePolicy {
    fn default() -> (policy: Self)
        ensures
            policy.context_window == OverrideMode::Ignore,
            policy.max_output_tokens == OverrideMode::Allow,
            policy.sampling == OverrideMode::Ignore,
            policy.instructions == OverrideMode::Allow,
            policy.visual_description_prompt == OverrideMode::Ignore,
            policy.tools == OverrideMode::Allow,
            policy.allowed_parameters.entries_view().len() == 0,
    {
        RequestOverridePolicy {
            context_window: OverrideMode::Ignore,
            max_output_tokens: OverrideMode::Allow,
            sampling: OverrideMode::Ignore,
            instructions: OverrideMode::Allow,
            visual_description_prompt: OverrideMode::Ignore,
            tools: OverrideMode::Allow,
            allowed_parameters: StringTable::new(),
        }
    }
}

#[derive(Debug, Clone, Copy, Default, PartialEq, Eq)]
pub struct VisionDescriptionConfig {
    pub enabled: bool,
}

#[derive(Debug, Clone, Copy, PartialEq, Eq)]
pub struct RoleplayRuntimeConfig {
    pub enabled: bool,
}

impl Default for RoleplayRuntimeConfig {
    fn default() -> (config: Self)
        ensures
            config.enabled,
    {
        RoleplayRuntimeConfig { enabled: true }
    }
}

pub const DEFAULT_MAINTENANCE_TURNS: usize = 12;

#[derive(Debug, Clone, Copy, PartialEq, Eq)]
pub struct MaintenanceRuntimeSettings {
    pub memory_distillation_enabled: bool,
    pub memory_distill_every_turns: usize,
    pub semantic_graph_enabled: bool,
    pub nsg_govern_every_turns: usize,
}

impl Default for MaintenanceRuntimeSettings {
    fn default() -> (settings: Self)
        ensures
            settings.memory_distillation_enabled,
            settings.memory_distill_every_turns == DEFAULT_MAINTENANCE_TURNS,
            settings.semantic_graph_enabled,
            settings.nsg_govern_every_turns == DEFAULT_MAINTENANCE_TURNS,
    {
        MaintenanceRuntimeSettings {
            memory_distillation_enabled: true,
            memory_distill_every_turns: DEFAULT_MAINTENANCE_TURNS,
            semantic_graph_enabled: true,
            nsg_govern_every_turns: DEFAULT_MAINTENANCE_TURNS,
        }
    }
}

#[derive(Debug, Clone, Copy, PartialEq, Eq, Structural)]
pub enum MoStateProfile {
    ClosedAutonomous,
    V1Projection,
}

impl Default for MoStateProfile {
    fn default() -> (profile: Self)
        ensures
            profile == MoStateProfile::ClosedAutonomous,
    {
        MoStateProfile::ClosedAutonomous
    }
}

#[derive(Debug, Clone, Copy, PartialEq, Eq, Structural)]
pub enum MoStateInjectionMode {
    Active,
    Shadow,
}

impl Default for MoStateInjectionMode {
    fn default() -> (mode: Self)
        ensures
            mode == MoStateInjectionMode::Active,
    {
        MoStateInjectionMode::Active
    }
}

impl MoStateInjectionMode {
    pub fn as_str(self) -> (name: &'static str)
        ensures
            name@ == (match self {
                MoStateInjectionMode::Active => "active"@,
                MoStateInjectionMode::Shadow => "shadow"@,
            }),
    {
        match self {
            MoStateInjectionMode::Active => "active",
            MoStateInjectionMode::Shadow => "shadow",
        }
    }
}

impl MoStateProfile {
    pub fn as_str(self) -> (name: &'static str)
        ensures
            name@ == (match self {
                MoStateProfile::ClosedAutonomous => "closed_autonomous"@,
                MoStateProfile::V1Projection => "v1_projection"@,
            }),
    {
        match self {
            MoStateProfile::ClosedAutonomous => "closed_autonomous",
            MoStateProfile::V1Projection => "v1_projection",
        }
    }
}

/// Rollout gate for character-owned DDM profiles.
#[derive(Debug, Clone, Copy, Default, PartialEq, Eq)]
pub struct DdmRuntimeConfig {
    pub enabled: bool,
}

pub const DEFAULT_MAX_RECONCILE_STEPS: usize = 4;

pub const DEFAULT_MAX_AGENT_STEPS: usize = 8;

pub const DEFAULT_MO_STATE_OPERATION_TIMEOUT_MS: u64 = 30_000;

#[derive(Debug, Clone, Copy, PartialEq, Eq)]
pub struct MoStateRuntimeConfig {
    pub profile: MoStateProfile,
    pub scene_management: bool,
    pub max_reconcile_steps: usize,
    pub max_agent_steps: usize,
    pub operation_timeout_ms: u64,
    pub injection_mode: MoStateInjectionMode,
    pub ddm: DdmRuntimeConfig,
}

impl Default for MoStateRuntimeConfig {
    fn default() -> (config: Self)
        ensures
            config.profile == MoStateProfile::ClosedAutonomous,
            config.scene_management,
            config.max_reconcile_steps == DEFAULT_MAX_RECONCILE_STEPS,
            config.max_agent_steps == DEFAULT_MAX_AGENT_STEPS,
            config.operation_timeout_ms == DEFAULT_MO_STATE_OPERATION_TIMEOUT_MS,
            config.injection_mode == MoStateInjectionMode::Active,
            !config.ddm.enabled,
    {
        MoStateRuntimeConfig {
            profile: MoStateProfile::ClosedAutonomous,
            scene_management: true,
            max_reconcile_steps: DEFAULT_MAX_RECONCILE_STEPS,
            max_agent_steps: DEFAULT_MAX_AGENT_STEPS,
            operation_timeout_ms: DEFAULT_MO_STATE_OPERATION_TIMEOUT_MS,
            injection_mode: MoStateInjectionMode::Active,
            ddm: DdmRuntimeConfig { enabled: false },
        }
    }
}

#[derive(Debug)]
pub struct MomoRuntimeSettings {
    pub schema_version: u32,
    pub request_overrides: RequestOverridePolicy,
    pub runtime: MaintenanceRuntimeSettings,
    pub mo_state: MoStateRuntimeConfig,
    pub roleplay: RoleplayRuntimeConfig,
    pub vision: VisionDescriptionConfig,
}

impl Default for MomoRuntimeSettings {
    fn default() -> (settings: Self)
        ensures
            settings.schema_version == RUNTIME_SETTINGS_SCHEMA_VERSION,
            settings.request_overrides.context_window == OverrideMode::Ignore,
            settings.request_overrides.max_output_tokens == OverrideMode::Allow,
            settings.request_overrides.sampling == OverrideMode::Ignore,
            settings.request_overrides.instructions == OverrideMode::Allow,
            settings.request_overrides.visual_description_prompt == OverrideMode::Ignore,
            settings.request_overrides.tools == OverrideMode::Allow,
            settings.request_overrides.allowed_parameters.entries_view().len() == 0,
            settings.runtime.memory_distill_every_turns == DEFAULT_MAINTENANCE_TURNS,
            settings.runtime.nsg_govern_every_turns == DEFAULT_MAINTENANCE_TURNS,
            settings.mo_state.max_reconcile_steps == DEFAULT_MAX_RECONCILE_STEPS,
            settings.mo_state.max_agent_steps == DEFAULT_MAX_AGENT_STEPS,
            settings.mo_state.operation_timeout_ms == DEFAULT_MO_STATE_OPERATION_TIMEOUT_MS,
            settings.roleplay.enabled,
            !settings.vision.enabled,
    {
        MomoRuntimeSettings {
            schema_version: RUNTIME_SETTINGS_SCHEMA_VERSION,
            request_overrides: RequestOverridePolicy::default(),
            runtime: MaintenanceRuntimeSettings::default(),
            mo_state: MoStateRuntimeConfig::default(),
            roleplay: RoleplayRuntimeConfig::default(),
            vision: VisionDescriptionConfig { enabled: false },
        }
    }
}

#[derive(Debug, Clone, PartialEq, Eq)]
pub enum GovernanceError {
    UnsupportedSchema(u32),
    /// The named override is rejected by policy.
    Rejected(String),
    ParameterNotAllowed(String),
    OutOfRange { field: String, value: usize, min: usize, max: usize },
    Invalid(String),
}

/// A governance error by its content.
pub enum GovernanceFailure {
    UnsupportedSchema(u32),
    Rejected(Seq<char>),
    ParameterNotAllowed(Seq<char>),
    OutOfRange(Seq<char>, usize, usize, usize),
    Invalid(Seq<char>),
}

pub open spec fn failure_of(error: GovernanceError) -> GovernanceFailure {
    match error {
        GovernanceError::UnsupportedSchema(v) => GovernanceFailure::UnsupportedSchema(v),
        GovernanceError::Rejected(field) => GovernanceFailure::Rejected(field@),
        GovernanceError::ParameterNotAllowed(name) => GovernanceFailure::ParameterNotAllowed(name@),
        GovernanceError::OutOfRange { field, value, min, max } => GovernanceFailure::OutOfRange(
            field@,
            value,
            min,
            max,
        ),
        GovernanceError::Invalid(message) => GovernanceFailure::Invalid(message@),
    }
}

// ---------------------------------------------------------------------------
// Settings validation
// ---------------------------------------------------------------------------

/// Fields that define the protocol and may never be passed through as an
/// extra request parameter.
pub open spec fn is_reserved_parameter_field(name: Seq<char>) -> bool {
    ||| name == "model"@
    ||| name == "messages"@
    ||| name == "input"@
    ||| name == "stream"@
    ||| name == "context_window"@
    ||| name == "max_tokens"@
    ||| name == "max_output_tokens"@
    ||| name == "temperature"@
}

fn reserved_parameter_field(name: &str) -> (reserved: bool)
    ensures
        reserved == is_reserved_parameter_field(name@),
{
    str_eq(name, "model") || str_eq(name, "messages") || str_eq(name, "input") || str_eq(name, "stream")
        || str_eq(name, "context_window") || str_eq(name, "max_tokens") || str_eq(
        name,
        "max_output_tokens",
    ) || str_eq(name, "temperature")
}

pub open spec fn maintenance_intervals_valid(runtime: MaintenanceRuntimeSettings) -> bool {
    1 <= runtime.memory_distill_every_turns <= 200 && 1 <= runtime.nsg_govern_every_turns <= 200
}

pub open spec fn mo_state_limits_valid(config: MoStateRuntimeConfig) -> bool {
    &&& 1 <= config.max_reconcile_steps <= 16
    &&& 1 <= config.max_agent_steps <= 32
    &&& 1_000 <= config.operation_timeout_ms <= 300_000
}

/// The first allowed parameter, in key order, that is a reserved field.
pub open spec fn first_reserved_parameter(keys: Seq<Seq<char>>) -> Option<int> {
    if exists|i: int| 0 <= i < keys.len() && is_reserved_parameter_field(#[trigger] keys[i]) {
        Some(
            choose|i: int|
                0 <= i < keys.len() && is_reserved_parameter_field(#[trigger] keys[i]) && forall|j: int|
                    0 <= j < i ==> !is_reserved_parameter_field(#[trigger] keys[j]),
        )
    } else {
        None
    }
}

/// The message that names a reserved field, quoted as `{:?}` shows it.
pub open spec fn reserved_field_message(quoted: Seq<char>) -> Seq<char> {
    "allowed_parameters contains reserved field "@ + quoted
}

/// What validating the settings reports, given the quoted form of each
/// allowed parameter name.
pub open spec fn settings_verdict(settings: MomoRuntimeSettings) -> Result<(), GovernanceFailure> {
    if settings.schema_version != RUNTIME_SETTINGS_SCHEMA_VERSION {
        Err(GovernanceFailure::UnsupportedSchema(settings.schema_version))
    } else if !maintenance_intervals_valid(settings.runtime) {
        Err(
            GovernanceFailure::Invalid(
                "runtime maintenance intervals must be between 1 and 200 turns"@,
            ),
        )
    } else if !mo_state_limits_valid(settings.mo_state) {
        Err(
            GovernanceFailure::Invalid(
                "MO State limits must use 1..=16 reconcile steps, 1..=32 agent steps, and a 1000..=300000 ms timeout"@,
            ),
        )
    } else {
        match first_reserved_parameter(settings.request_overrides.allowed_parameters.keys_view()) {
            Some(i) => Err(
                GovernanceFailure::Invalid(
                    reserved_field_message(
                        debug_quoted_text(settings.request_overrides.allowed_parameters.keys_view()[i]),
                    ),
                ),
            ),
            None => Ok(()),
        }
    }
}

impl MomoRuntimeSettings {
    /// Checks the schema version, the maintenance intervals, the MO State
    /// limits and that no reserved field is an allowed parameter.
    pub fn validate(&self) -> (result: Result<(), GovernanceError>)
        ensures
            match (result, settings_verdict(*self)) {
                (Ok(()), Ok(())) => true,
                (Err(error), Err(expected)) => failure_of(error) == expected,
                _ => false,
            },
    {
        self.validate_portable_fields()
    }

    fn validate_portable_fields(&self) -> (result: Result<(), GovernanceError>)
        ensures
            match (result, settings_verdict(*self)) {
                (Ok(()), Ok(())) => true,
                (Err(error), Err(expected)) => failure_of(error) == expected,
                _ => false,
            },
    {
        if self.schema_version != RUNTIME_SETTINGS_SCHEMA_VERSION {
            return Err(GovernanceError::UnsupportedSchema(self.schema_version));
        }
        if !(1 <= self.runtime.memory_distill_every_turns && self.runtime.memory_distill_every_turns
            <= 200) || !(1 <= self.runtime.nsg_govern_every_turns && self.runtime.nsg_govern_every_turns
            <= 200) {
            return Err(
                GovernanceError::Invalid(
                    String::from_str("runtime maintenance intervals must be between 1 and 200 turns"),
                ),
            );
        }
        if !(1 <= self.mo_state.max_reconcile_steps && self.mo_state.max_reconcile_steps <= 16)
            || !(1 <= self.mo_state.max_agent_steps && self.mo_state.max_agent_steps <= 32) || !(1_000
            <= self.mo_state.operation_timeout_ms && self.mo_state.operation_timeout_ms <= 300_000) {
            return Err(
                GovernanceError::Invalid(
                    String::from_str(
                        "MO State limits must use 1..=16 reconcile steps, 1..=32 agent steps, and a 1000..=300000 ms timeout",
                    ),
                ),
            );
        }
        let allowed = &self.request_overrides.allowed_parameters;
        let ghost keys = allowed.keys_view();
        let mut i: usize = 0;
        while i < allowed.len()
            invariant
                keys == allowed.keys_view(),
                keys == self.request_overrides.allowed_parameters.keys_view(),
                self.schema_version == RUNTIME_SETTINGS_SCHEMA_VERSION,
                maintenance_intervals_valid(self.runtime),
                mo_state_limits_valid(self.mo_state),
                i <= keys.len(),
                forall|j: int| 0 <= j < i ==> !is_reserved_parameter_field(#[trigger] keys[j]),
            decreases keys.len() - i,
        {
            let (name, _) = allowed.entry_at(i);
            assert(name@ == keys[i as int]);
            if reserved_parameter_field(name.as_str()) {
                let quoted = debug_quoted(name.as_str());
                let mut message = String::from_str("allowed_parameters contains reserved field ");
                crate::text::push_str(&mut message, quoted.as_str());
                proof {
                    let first = first_reserved_parameter(keys);
                    assert(is_reserved_parameter_field(keys[i as int]));
                    assert(first == Some(i as int)) by {
                        let c = first->Some_0;
                        if c < i {
                            assert(!is_reserved_parameter_field(keys[c]));
                        }
                        if c > i {
                            assert(is_reserved_parameter_field(keys[i as int]));
                        }
                    }
                }
                assert(message@ == reserved_field_message(debug_quoted_text(keys[i as int])));
                assert(settings_verdict(*self) == Err::<(), GovernanceFailure>(
                    GovernanceFailure::Invalid(reserved_field_message(debug_quoted_text(keys[i as int]))),
                ));
                return Err(GovernanceError::Invalid(message));
            }
            i += 1;
        }
        Ok(())
    }
}


// ---------------------------------------------------------------------------
// Request overrides
// ---------------------------------------------------------------------------

/// What a request asks to change. The temperature is given only by whether
/// it lies in `0..=2`: that is all the policy decides on.
#[derive(Debug, Clone, Copy)]
pub struct RequestedOverrides<'a> {
    pub context_window: Option<usize>,
    pub max_output_tokens: Option<usize>,
    pub temperature_in_range: Option<bool>,
    pub instructions: Option<&'a str>,
    pub visual_description_prompt: Option<&'a str>,
    /// Names of the extra request parameters, in key order.
    pub parameter_names: &'a [String],
    pub tool_configuration_requested: bool,
}

/// Where each effective value came from, and the overrides applied or
/// ignored, in the order they were decided.
#[derive(Debug, Clone, PartialEq, Eq)]
pub struct GovernanceAudit {
    pub capability_context_window: usize,
    pub route_max_output_tokens: usize,
    pub effective_context_window: usize,
    pub effective_max_output_tokens: usize,
    pub context_window_source: String,
    pub max_output_tokens_source: String,
    pub temperature_source: String,
    pub instructions_source: String,
    pub parameter_names: Vec<String>,
    pub applied: Vec<String>,
    pub ignored: Vec<String>,
    pub visual_description_prompt_source: Option<String>,
}

#[derive(Debug, Clone, PartialEq, Eq)]
pub struct GovernedOverrides {
    pub context_window: usize,
    pub max_output_tokens: usize,
    /// The requested temperature is used.
    pub temperature_applied: bool,
    pub instructions: Option<String>,
    pub visual_description_prompt: Option<String>,
    /// Extra request parameters passed through, in key order.
    pub parameter_names: Vec<String>,
    pub allow_tools: bool,
    pub audit: GovernanceAudit,
}

/// What deciding one override did to the audit lists.
pub enum Mark {
    Unchanged,
    Applied,
    Ignored,
}

pub open spec fn marked(lists: (Seq<Seq<char>>, Seq<Seq<char>>), field: Seq<char>, mark: Mark) -> (
    Seq<Seq<char>>,
    Seq<Seq<char>>,
) {
    match mark {
        Mark::Unchanged => lists,
        Mark::Applied => (lists.0.push(field), lists.1),
        Mark::Ignored => (lists.0, lists.1.push(field)),
    }
}

/// A numeric override: the default when none is asked; the asked value when
/// allowed and within `min..=max`.
pub open spec fn number_decision(
    field: Seq<char>,
    mode: OverrideMode,
    requested: Option<usize>,
    default: usize,
    min: usize,
    max: usize,
) -> Result<(usize, Mark), GovernanceFailure> {
    match requested {
        None => Ok((default, Mark::Unchanged)),
        Some(value) => match mode {
            OverrideMode::Allow => if min <= value <= max {
                Ok((value, Mark::Applied))
            } else {
                Err(GovernanceFailure::OutOfRange(field, value, min, max))
            },
            OverrideMode::Ignore => Ok((default, Mark::Ignored)),
            OverrideMode::Reject => Err(GovernanceFailure::Rejected(field)),
        },
    }
}

/// A text override; a blank text counts as not asked.
pub open spec fn text_decision(field: Seq<char>, mode: OverrideMode, requested: Option<Seq<char>>) -> Result<
    (Option<Seq<char>>, Mark),
    GovernanceFailure,
> {
    match requested {
        Some(text) if !all_ws(text) => match mode {
            OverrideMode::Allow => Ok((Some(text), Mark::Applied)),
            OverrideMode::Ignore => Ok((None, Mark::Ignored)),
            OverrideMode::Reject => Err(GovernanceFailure::Rejected(field)),
        },
        _ => Ok((None, Mark::Unchanged)),
    }
}

pub open spec fn temperature_decision(mode: OverrideMode, in_range: Option<bool>) -> Result<
    (bool, Mark),
    GovernanceFailure,
> {
    match in_range {
        None => Ok((false, Mark::Unchanged)),
        Some(valid) => match mode {
            OverrideMode::Allow => if valid {
                Ok((true, Mark::Applied))
            } else {
                Err(GovernanceFailure::Invalid("temperature must be between 0 and 2"@))
            },
            OverrideMode::Ignore => Ok((false, Mark::Ignored)),
            OverrideMode::Reject => Err(GovernanceFailure::Rejected("temperature"@)),
        },
    }
}

pub open spec fn tools_decision(mode: OverrideMode, requested: bool) -> Result<(bool, Mark), GovernanceFailure> {
    if !requested {
        Ok((true, Mark::Unchanged))
    } else {
        match mode {
            OverrideMode::Allow => Ok((true, Mark::Applied)),
            OverrideMode::Ignore => Ok((false, Mark::Ignored)),
            OverrideMode::Reject => Err(GovernanceFailure::Rejected("tools"@)),
        }
    }
}

pub open spec fn opt_str(value: Option<&str>) -> Option<Seq<char>> {
    match value {
        Some(text) => Some(text@),
        None => None,
    }
}

pub open spec fn opt_string(value: Option<String>) -> Option<Seq<char>> {
    match value {
        Some(text) => Some(text@),
        None => None,
    }
}

pub open spec fn min_usize(a: usize, b: usize) -> usize {
    if a < b {
        a
    } else {
        b
    }
}

/// Every requested parameter is allowed.
pub open spec fn all_parameters_allowed(policy: RequestOverridePolicy, names: Seq<String>) -> bool {
    forall|i: int| 0 <= i < names.len() ==> policy.allowed_parameters.contains_key(#[trigger] names[i]@)
}

/// The first requested parameter the policy does not allow.
pub open spec fn first_disallowed(policy: RequestOverridePolicy, names: Seq<String>, i: int) -> bool {
    &&& 0 <= i < names.len()
    &&& !policy.allowed_parameters.contains_key(names[i]@)
    &&& forall|j: int| 0 <= j < i ==> policy.allowed_parameters.contains_key(#[trigger] names[j]@)
}

/// The audit lists after every decision, in decision order.
pub open spec fn audit_lists(
    number_marks: (Mark, Mark),
    temperature: Mark,
    instructions: Mark,
    visual: Mark,
    tools: Mark,
    parameters: nat,
) -> (Seq<Seq<char>>, Seq<Seq<char>>) {
    let start = (Seq::<Seq<char>>::empty(), Seq::<Seq<char>>::empty());
    let a = marked(start, "context_window"@, number_marks.0);
    let b = marked(a, "max_output_tokens"@, number_marks.1);
    let c = marked(b, "temperature"@, temperature);
    let d = marked(c, "instructions"@, instructions);
    let e = marked(d, "visual_description_prompt"@, visual);
    let f = marked(e, "tools"@, tools);
    (f.0 + Seq::new(parameters, |i: int| "parameter"@), f.1)
}


fn push_field(list: &mut Vec<String>, field: &str)
    ensures
        strings_view(final(list)@) == strings_view(old(list)@).push(field@),
{
    let ghost before = list@;
    list.push(String::from_str(field));
    assert(strings_view(list@) =~= strings_view(before).push(field@));
}

/// Decides a numeric override and records it in the audit lists.
pub fn governed_usize(
    field: &str,
    mode: OverrideMode,
    requested: Option<usize>,
    default: usize,
    min: usize,
    max: usize,
    applied: &mut Vec<String>,
    ignored: &mut Vec<String>,
) -> (result: Result<usize, GovernanceError>)
    ensures
        match number_decision(field@, mode, requested, default, min, max) {
            Ok((value, mark)) => result == Ok::<usize, GovernanceError>(value) && (
                strings_view(final(applied)@),
                strings_view(final(ignored)@),
            ) == marked((strings_view(old(applied)@), strings_view(old(ignored)@)), field@, mark),
            Err(failure) => result matches Err(error) && failure_of(error) == failure,
        },
{
    match requested {
        None => Ok(default),
        Some(value) => match mode {
            OverrideMode::Allow => {
                if min <= value && value <= max {
                    push_field(applied, field);
                    Ok(value)
                } else {
                    Err(GovernanceError::OutOfRange { field: String::from_str(field), value, min, max })
                }
            },
            OverrideMode::Ignore => {
                push_field(ignored, field);
                Ok(default)
            },
            OverrideMode::Reject => Err(GovernanceError::Rejected(String::from_str(field))),
        },
    }
}

/// Decides a text override and records it in the audit lists.
pub fn governed_text(
    field: &str,
    mode: OverrideMode,
    requested: Option<&str>,
    applied: &mut Vec<String>,
    ignored: &mut Vec<String>,
) -> (result: Result<Option<String>, GovernanceError>)
    ensures
        match text_decision(field@, mode, opt_str(requested)) {
            Ok((value, mark)) => result matches Ok(text) && opt_string(text) == value && (
                strings_view(final(applied)@),
                strings_view(final(ignored)@),
            ) == marked((strings_view(old(applied)@), strings_view(old(ignored)@)), field@, mark),
            Err(failure) => result matches Err(error) && failure_of(error) == failure,
        },
{
    match requested {
        Some(text) => {
            if is_blank(text) {
                return Ok(None);
            }
            match mode {
                OverrideMode::Allow => {
                    push_field(applied, field);
                    Ok(Some(String::from_str(text)))
                },
                OverrideMode::Ignore => {
                    push_field(ignored, field);
                    Ok(None)
                },
                OverrideMode::Reject => Err(GovernanceError::Rejected(String::from_str(field))),
            }
        },
        None => Ok(None),
    }
}


pub open spec fn source_text(from_request: bool, otherwise: Seq<char>) -> Seq<char> {
    if from_request {
        "request"@
    } else {
        otherwise
    }
}

/// The governed overrides when every decision succeeded.
pub open spec fn governed_result(
    policy: RequestOverridePolicy,
    capability_context_window: usize,
    route_max_output_tokens: usize,
    requested: RequestedOverrides,
    decided: (usize, usize, bool, Option<Seq<char>>, Option<Seq<char>>, bool),
    lists: (Seq<Seq<char>>, Seq<Seq<char>>),
    governed: GovernedOverrides,
) -> bool {
    let audit = governed.audit;
    &&& governed.context_window == decided.0
    &&& governed.max_output_tokens == decided.1
    &&& governed.temperature_applied == decided.2
    &&& opt_string(governed.instructions) == decided.3
    &&& opt_string(governed.visual_description_prompt) == decided.4
    &&& governed.allow_tools == decided.5
    &&& strings_view(governed.parameter_names@) == strings_view(requested.parameter_names@)
    &&& audit.capability_context_window == capability_context_window
    &&& audit.route_max_output_tokens == route_max_output_tokens
    &&& audit.effective_context_window == decided.0
    &&& audit.effective_max_output_tokens == decided.1
    &&& audit.context_window_source@ == source_text(
        requested.context_window is Some && policy.context_window == OverrideMode::Allow,
        "capability"@,
    )
    &&& audit.max_output_tokens_source@ == source_text(
        requested.max_output_tokens is Some && policy.max_output_tokens == OverrideMode::Allow,
        "route"@,
    )
    &&& audit.temperature_source@ == source_text(decided.2, "omitted"@)
    &&& audit.instructions_source@ == source_text(decided.3 is Some, "omitted"@)
    &&& strings_view(audit.parameter_names@) == strings_view(requested.parameter_names@)
    &&& strings_view(audit.applied@) == lists.0
    &&& strings_view(audit.ignored@) == lists.1
    &&& audit.visual_description_prompt_source is None
}

/// What `apply` returns: each override decided in turn (context window,
/// output limit within the route and the window, temperature, instructions,
/// visual prompt, tools, parameters), the first refusal ending it.
pub open spec fn override_outcome(
    policy: RequestOverridePolicy,
    capability_context_window: usize,
    route_max_output_tokens: usize,
    requested: RequestedOverrides,
    result: Result<GovernedOverrides, GovernanceError>,
) -> bool {
    let fails = |f: GovernanceFailure| result matches Err(error) && failure_of(error) == f;
    match number_decision(
        "context_window"@,
        policy.context_window,
        requested.context_window,
        capability_context_window,
        256,
        capability_context_window,
    ) {
        Err(f) => fails(f),
        Ok((context_window, m1)) => {
            let max_allowed = min_usize(route_max_output_tokens, context_window.saturating_sub(1));
            match number_decision(
                "max_output_tokens"@,
                policy.max_output_tokens,
                requested.max_output_tokens,
                max_allowed,
                1,
                max_allowed,
            ) {
                Err(f) => fails(f),
                Ok((max_output_tokens, m2)) => match temperature_decision(
                    policy.sampling,
                    requested.temperature_in_range,
                ) {
                    Err(f) => fails(f),
                    Ok((temperature, m3)) => match text_decision(
                        "instructions"@,
                        policy.instructions,
                        opt_str(requested.instructions),
                    ) {
                        Err(f) => fails(f),
                        Ok((instructions, m4)) => match text_decision(
                            "visual_description_prompt"@,
                            policy.visual_description_prompt,
                            opt_str(requested.visual_description_prompt),
                        ) {
                            Err(f) => fails(f),
                            Ok((visual, m5)) => match tools_decision(
                                policy.tools,
                                requested.tool_configuration_requested,
                            ) {
                                Err(f) => fails(f),
                                Ok((allow_tools, m6)) => {
                                    let names = requested.parameter_names@;
                                    if all_parameters_allowed(policy, names) {
                                        result matches Ok(governed) && governed_result(
                                            policy,
                                            capability_context_window,
                                            route_max_output_tokens,
                                            requested,
                                            (
                                                context_window,
                                                max_output_tokens,
                                                temperature,
                                                instructions,
                                                visual,
                                                allow_tools,
                                            ),
                                            audit_lists((m1, m2), m3, m4, m5, m6, names.len()),
                                            governed,
                                        )
                                    } else {
                                        exists|i: int|
                                            #[trigger] first_disallowed(policy, names, i) && fails(
                                                GovernanceFailure::ParameterNotAllowed(names[i]@),
                                            )
                                    }
                                },
                            },
                        },
                    },
                },
            }
        },
    }
}


fn copy_names(names: &[String]) -> (copy: Vec<String>)
    ensures
        strings_view(copy@) == strings_view(names@),
{
    let mut copy: Vec<String> = Vec::new();
    let mut i: usize = 0;
    while i < names.len()
        invariant
            i <= names@.len(),
            copy@.len() == i,
            forall|j: int| 0 <= j < i ==> #[trigger] copy@[j]@ == names@[j]@,
        decreases names@.len() - i,
    {
        copy.push(names[i].clone());
        i += 1;
    }
    assert(strings_view(copy@) =~= strings_view(names@));
    copy
}

fn source_of(from_request: bool, otherwise: &str) -> (source: String)
    ensures
        source@ == source_text(from_request, otherwise@),
{
    if from_request {
        String::from_str("request")
    } else {
        String::from_str(otherwise)
    }
}

fn push_parameter_marks(applied: &mut Vec<String>, count: usize)
    ensures
        strings_view(final(applied)@) == strings_view(old(applied)@) + Seq::new(
            count as nat,
            |i: int| "parameter"@,
        ),
{
    let ghost start = strings_view(applied@);
    let mut k: usize = 0;
    while k < count
        invariant
            k <= count,
            strings_view(applied@) == start + Seq::new(k as nat, |i: int| "parameter"@),
        decreases count - k,
    {
        push_field(applied, "parameter");
        assert(strings_view(applied@) =~= start + Seq::new((k + 1) as nat, |i: int| "parameter"@));
        k += 1;
    }
}

impl RequestOverridePolicy {
    /// Position of the first requested parameter this policy does not allow.
    fn first_disallowed_parameter(&self, names: &[String]) -> (found: Option<usize>)
        ensures
            match found {
                Some(i) => first_disallowed(*self, names@, i as int),
                None => all_parameters_allowed(*self, names@),
            },
    {
        let mut k: usize = 0;
        while k < names.len()
            invariant
                k <= names@.len(),
                forall|j: int| 0 <= j < k ==> self.allowed_parameters.contains_key(#[trigger] names@[j]@),
            decreases names@.len() - k,
        {
            if self.allowed_parameters.find(names[k].as_str()).is_none() {
                return Some(k);
            }
            k += 1;
        }
        None
    }
}

impl RequestOverridePolicy {
    /// Decides every requested override under this policy.
    pub fn apply(
        &self,
        capability_context_window: usize,
        route_max_output_tokens: usize,
        requested: RequestedOverrides,
    ) -> (result: Result<GovernedOverrides, GovernanceError>)
        ensures
            override_outcome(*self, capability_context_window, route_max_output_tokens, requested, result),
    {
        let mut applied: Vec<String> = Vec::new();
        let mut ignored: Vec<String> = Vec::new();
        proof {
            assert(strings_view(applied@) =~= Seq::<Seq<char>>::empty());
            assert(strings_view(ignored@) =~= Seq::<Seq<char>>::empty());
        }
        let context_window = match governed_usize(
            "context_window",
            self.context_window,
            requested.context_window,
            capability_context_window,
            256,
            capability_context_window,
            &mut applied,
            &mut ignored,
        ) {
            Ok(v) => v,
            Err(e) => {
                return Err(e);
            },
        };
        let max_allowed = if route_max_output_tokens < context_window.saturating_sub(1) {
            route_max_output_tokens
        } else {
            context_window.saturating_sub(1)
        };
        let max_output_tokens = match governed_usize(
            "max_output_tokens",
            self.max_output_tokens,
            requested.max_output_tokens,
            max_allowed,
            1,
            max_allowed,
            &mut applied,
            &mut ignored,
        ) {
            Ok(v) => v,
            Err(e) => {
                return Err(e);
            },
        };
        let temperature_applied = match requested.temperature_in_range {
            None => false,
            Some(valid) => match self.sampling {
                OverrideMode::Allow => {
                    if !valid {
                        return Err(
                            GovernanceError::Invalid(String::from_str("temperature must be between 0 and 2")),
                        );
                    }
                    push_field(&mut applied, "temperature");
                    true
                },
                OverrideMode::Ignore => {
                    push_field(&mut ignored, "temperature");
                    false
                },
                OverrideMode::Reject => {
                    return Err(GovernanceError::Rejected(String::from_str("temperature")));
                },
            },
        };
        let instructions = match governed_text(
            "instructions",
            self.instructions,
            requested.instructions,
            &mut applied,
            &mut ignored,
        ) {
            Ok(v) => v,
            Err(e) => {
                return Err(e);
            },
        };
        let visual_description_prompt = match governed_text(
            "visual_description_prompt",
            self.visual_description_prompt,
            requested.visual_description_prompt,
            &mut applied,
            &mut ignored,
        ) {
            Ok(v) => v,
            Err(e) => {
                return Err(e);
            },
        };
        let allow_tools = if !requested.tool_configuration_requested {
            true
        } else {
            match self.tools {
                OverrideMode::Allow => {
                    push_field(&mut applied, "tools");
                    true
                },
                OverrideMode::Ignore => {
                    push_field(&mut ignored, "tools");
                    false
                },
                OverrideMode::Reject => {
                    return Err(GovernanceError::Rejected(String::from_str("tools")));
                },
            }
        };
        let names = requested.parameter_names;
        match self.first_disallowed_parameter(names) {
            Some(k) => {
                return Err(GovernanceError::ParameterNotAllowed(names[k].clone()));
            },
            None => {},
        }
        push_parameter_marks(&mut applied, names.len());
        let instructions_source = source_of(instructions.is_some(), "omitted");
        let audit = GovernanceAudit {
            capability_context_window,
            route_max_output_tokens,
            effective_context_window: context_window,
            effective_max_output_tokens: max_output_tokens,
            context_window_source: source_of(
                requested.context_window.is_some() && self.context_window == OverrideMode::Allow,
                "capability",
            ),
            max_output_tokens_source: source_of(
                requested.max_output_tokens.is_some() && self.max_output_tokens == OverrideMode::Allow,
                "route",
            ),
            temperature_source: source_of(temperature_applied, "omitted"),
            instructions_source,
            parameter_names: copy_names(names),
            applied,
            ignored,
            visual_description_prompt_source: None,
        };
        Ok(
            GovernedOverrides {
                context_window,
                max_output_tokens,
                temperature_applied,
                instructions,
                visual_description_prompt,
                parameter_names: copy_names(names),
                allow_tools,
                audit,
            },
        )
    }
}


/// Where the visual description prompt comes from once vision is considered.
pub open spec fn visual_source(enabled: bool, requested_visual: bool, from_request: bool) -> Seq<char> {
    if !enabled {
        if requested_visual {
            "disabled_request_ignored"@
        } else {
            "disabled"@
        }
    } else if from_request {
        "request"@
    } else {
        "prompt_space"@
    }
}

/// `result` is `applied` with the visual prompt dropped when vision is off
/// and the visual prompt's source recorded in the audit.
pub open spec fn vision_adjusted(
    enabled: bool,
    requested_visual: bool,
    applied: Result<GovernedOverrides, GovernanceError>,
    result: Result<GovernedOverrides, GovernanceError>,
) -> bool {
    match applied {
        Err(error) => result matches Err(e) && failure_of(e) == failure_of(error),
        Ok(governed) => result matches Ok(out) && {
            &&& out.visual_description_prompt == (if enabled {
                governed.visual_description_prompt
            } else {
                None
            })
            &&& out.audit.visual_description_prompt_source matches Some(source) && source@
                == visual_source(enabled, requested_visual, governed.visual_description_prompt is Some)
            &&& out == (GovernedOverrides {
                visual_description_prompt: out.visual_description_prompt,
                audit: GovernanceAudit {
                    visual_description_prompt_source: out.audit.visual_description_prompt_source,
                    ..governed.audit
                },
                ..governed
            })
        },
    }
}

impl MomoRuntimeSettings {
    /// Governs a request's overrides under these settings; a visual prompt
    /// override only counts while vision descriptions are enabled.
    pub fn govern(
        &self,
        capability_context_window: usize,
        route_max_output_tokens: usize,
        requested: RequestedOverrides,
    ) -> (result: Result<GovernedOverrides, GovernanceError>)
        ensures
            exists|applied: Result<GovernedOverrides, GovernanceError>|
                #[trigger] override_outcome(
                    self.request_overrides,
                    capability_context_window,
                    route_max_output_tokens,
                    requested,
                    applied,
                ) && vision_adjusted(
                    self.vision.enabled,
                    requested.visual_description_prompt matches Some(text) && !all_ws(text@),
                    applied,
                    result,
                ),
    {
        let visual_override_requested = match requested.visual_description_prompt {
            Some(text) => !is_blank(text),
            None => false,
        };
        let applied = self.request_overrides.apply(
            capability_context_window,
            route_max_output_tokens,
            requested,
        );
        let ghost applied_view = applied;
        let mut governed = match applied {
            Ok(governed) => governed,
            Err(error) => {
                return Err(error);
            },
        };
        let from_request = governed.visual_description_prompt.is_some();
        let source = if !self.vision.enabled {
            governed.visual_description_prompt = None;
            if visual_override_requested {
                "disabled_request_ignored"
            } else {
                "disabled"
            }
        } else if from_request {
            "request"
        } else {
            "prompt_space"
        };
        proof {
            reveal_strlit("disabled_request_ignored");
            reveal_strlit("disabled");
            reveal_strlit("request");
            reveal_strlit("prompt_space");
        }
        governed.audit.visual_description_prompt_source = Some(String::from_str(source));
        let result = Ok(governed);
        assert(vision_adjusted(self.vision.enabled, visual_override_requested, applied_view, result));
        result
    }
}


/// A governed request never exceeds what the endpoint and route allow: the
/// context window stays within the capability's, the output limit within
/// the route's and below the window.
pub proof fn lemma_governed_within_limits(
    policy: RequestOverridePolicy,
    capability_context_window: usize,
    route_max_output_tokens: usize,
    requested: RequestedOverrides,
    governed: GovernedOverrides,
)
    requires
        override_outcome(
            policy,
            capability_context_window,
            route_max_output_tokens,
            requested,
            Ok(governed),
        ),
    ensures
        governed.context_window <= capability_context_window,
        governed.max_output_tokens <= route_max_output_tokens,
        governed.max_output_tokens <= governed.context_window.saturating_sub(1),
{
}

/// An override the policy rejects is never silently dropped: asking for it
/// fails the whole request.
pub proof fn lemma_rejected_override_fails(
    policy: RequestOverridePolicy,
    capability_context_window: usize,
    route_max_output_tokens: usize,
    requested: RequestedOverrides,
    result: Result<GovernedOverrides, GovernanceError>,
)
    requires
        override_outcome(policy, capability_context_window, route_max_output_tokens, requested, result),
        policy.tools == OverrideMode::Reject && requested.tool_configuration_requested
            || policy.sampling == OverrideMode::Reject && requested.temperature_in_range is Some
            || policy.context_window == OverrideMode::Reject && requested.context_window is Some
            || policy.max_output_tokens == OverrideMode::Reject && requested.max_output_tokens is Some,
    ensures
        result is Err,
{
}


/// An ignored override never takes effect: when the policy ignores a field
/// the request asks to change, a governed request keeps what it would have
/// had without the override (the capability's window, the output limit the
/// route and window allow, no temperature, no extra instructions or visual
/// prompt), tools asked to be configured stay off, and the field is listed
/// as ignored, not applied.
pub proof fn lemma_ignored_override_has_no_effect(
    policy: RequestOverridePolicy,
    capability_context_window: usize,
    route_max_output_tokens: usize,
    requested: RequestedOverrides,
    governed: GovernedOverrides,
)
    requires
        override_outcome(
            policy,
            capability_context_window,
            route_max_output_tokens,
            requested,
            Ok(governed),
        ),
    ensures
        policy.tools == OverrideMode::Ignore && requested.tool_configuration_requested ==> {
            &&& !governed.allow_tools
            &&& strings_view(governed.audit.ignored@).contains("tools"@)
            &&& !strings_view(governed.audit.applied@).contains("tools"@)
        },
        !requested.tool_configuration_requested ==> governed.allow_tools,
        policy.sampling == OverrideMode::Ignore ==> !governed.temperature_applied,
        policy.instructions == OverrideMode::Ignore ==> governed.instructions is None,
        policy.visual_description_prompt == OverrideMode::Ignore ==> governed.visual_description_prompt is None,
        policy.context_window == OverrideMode::Ignore ==> governed.context_window == capability_context_window,
        policy.max_output_tokens == OverrideMode::Ignore ==> governed.max_output_tokens == min_usize(
            route_max_output_tokens,
            governed.context_window.saturating_sub(1),
        ),
{
    if policy.tools == OverrideMode::Ignore && requested.tool_configuration_requested {
        reveal_strlit("tools");
        reveal_strlit("context_window");
        reveal_strlit("max_output_tokens");
        reveal_strlit("temperature");
        reveal_strlit("instructions");
        reveal_strlit("visual_description_prompt");
        reveal_strlit("parameter");
        let lists = strings_view(governed.audit.ignored@);
        assert(lists.last() == "tools"@);
        assert(lists[lists.len() - 1] == "tools"@);
        let applied = strings_view(governed.audit.applied@);
        assert forall|i: int| 0 <= i < applied.len() implies applied[i] != "tools"@ by {
            assert(applied[i].len() != "tools"@.len() || applied[i] != "tools"@);
        }
    }
}

/// An allowed override takes effect: a governed request uses the asked
/// window, output limit, temperature, instructions and tools, and an
/// override that is not asked leaves the default in place.
pub proof fn lemma_allowed_override_takes_effect(
    policy: RequestOverridePolicy,
    capability_context_window: usize,
    route_max_output_tokens: usize,
    requested: RequestedOverrides,
    governed: GovernedOverrides,
)
    requires
        override_outcome(
            policy,
            capability_context_window,
            route_max_output_tokens,
            requested,
            Ok(governed),
        ),
    ensures
        policy.context_window == OverrideMode::Allow && requested.context_window is Some
            ==> governed.context_window == requested.context_window->Some_0,
        requested.context_window is None ==> governed.context_window == capability_context_window,
        policy.max_output_tokens == OverrideMode::Allow && requested.max_output_tokens is Some
            ==> governed.max_output_tokens == requested.max_output_tokens->Some_0,
        requested.max_output_tokens is None ==> governed.max_output_tokens == min_usize(
            route_max_output_tokens,
            governed.context_window.saturating_sub(1),
        ),
        policy.sampling == OverrideMode::Allow && requested.temperature_in_range is Some ==> governed.temperature_applied,
        requested.temperature_in_range is None ==> !governed.temperature_applied,
        policy.instructions == OverrideMode::Allow && requested.instructions is Some && !all_ws(
            requested.instructions->Some_0@,
        ) ==> opt_string(governed.instructions) == Some(requested.instructions->Some_0@),
        policy.tools == OverrideMode::Allow ==> governed.allow_tools,
{
}

/// Settings fields that default to on.
pub fn default_true() -> (on: bool)
    ensures
        on,
{
    true
}

/// Turns between two maintenance runs unless configured.
pub fn default_maintenance_turns() -> (turns: usize)
    ensures
        turns == DEFAULT_MAINTENANCE_TURNS,
{
    DEFAULT_MAINTENANCE_TURNS
}

pub fn default_max_reconcile_steps() -> (steps: usize)
    ensures
        steps == DEFAULT_MAX_RECONCILE_STEPS,
{
    DEFAULT_MAX_RECONCILE_STEPS
}

pub fn default_max_agent_steps() -> (steps: usize)
    ensures
        steps == DEFAULT_MAX_AGENT_STEPS,
{
    DEFAULT_MAX_AGENT_STEPS
}

pub fn default_mo_state_operation_timeout_ms() -> (timeout: u64)
    ensures
        timeout == DEFAULT_MO_STATE_OPERATION_TIMEOUT_MS,
{
    DEFAULT_MO_STATE_OPERATION_TIMEOUT_MS
}

/// Override fields that default to allowed.
pub fn allow() -> (mode: OverrideMode)
    ensures
        mode == OverrideMode::Allow,
{
    OverrideMode::Allow
}

/// The settings schema a document without one is read as.
pub fn schema_version() -> (version: u32)
    ensures
        version == RUNTIME_SETTINGS_SCHEMA_VERSION,
{
    RUNTIME_SETTINGS_SCHEMA_VERSION
}

} // verus!
