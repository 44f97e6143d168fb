//! Prompt assembly under a token budget: system sections, newest-first
//! history retention and head-and-tail truncation.

use vstd::prelude::*;

use crate::capability::{token_count, TokenizerProfile};
use crate::text::{
    all_ws, chars_of, is_blank, is_prefix_of, pop_char, push_chars, push_str, str_eq, string_of, trim,
    trimmed,
};

verus! {

pub open spec fn is_ascii_char(c: char) -> bool {
    (c as u32) < 128
}

/// Number of ASCII characters.
pub open spec fn ascii_count(s: Seq<char>) -> nat
    decreases s.len(),
{
    if s.len() == 0 {
        0
    } else {
        ascii_count(s.drop_last()) + if is_ascii_char(s.last()) {
            1nat
        } else {
            0nat
        }
    }
}

/// The conservative estimate: a token per four ASCII characters (rounded
/// up) plus a token per other character, so CJK text is over-counted.
pub open spec fn spec_estimate_tokens(s: Seq<char>) -> int {
    let ascii = ascii_count(s) as int;
    (ascii + 3) / 4 + (s.len() - ascii)
}

proof fn lemma_ascii_count_bound(s: Seq<char>)
    ensures
        ascii_count(s) <= s.len(),
    decreases s.len(),
{
    if s.len() > 0 {
        lemma_ascii_count_bound(s.drop_last());
    }
}

/// Estimates the token count of a text without a tokenizer.
pub fn estimate_text_tokens(value: &str) -> (n: usize)
    ensures
        n == spec_estimate_tokens(value@),
{
    let chars = chars_of(value);
    let mut ascii_units: usize = 0;
    let mut non_ascii: usize = 0;
    let mut i: usize = 0;
    while i < chars.len()
        invariant
            chars@ == value@,
            i <= chars@.len(),
            ascii_units == ascii_count(chars@.subrange(0, i as int)),
            ascii_units + non_ascii == i,
        decreases chars@.len() - i,
    {
        let c = chars[i];
        proof {
            assert(chars@.subrange(0, i + 1).drop_last() =~= chars@.subrange(0, i as int));
        }
        if (c as u32) < 128 {
            ascii_units += 1;
        } else {
            non_ascii += 1;
        }
        i += 1;
    }
    assert(chars@.subrange(0, i as int) =~= value@);
    let quarter = ascii_units / 4 + if ascii_units % 4 == 0 {
        0
    } else {
        1
    };
    quarter + non_ascii
}

// ---------------------------------------------------------------------------
// Messages and budgets
// ---------------------------------------------------------------------------

pub const CONTEXT_SAFETY_MARGIN: usize = 128;

/// Fixed wire overhead counted for every message.
pub const MESSAGE_OVERHEAD: usize = 6;

#[derive(Debug, Clone, Copy, PartialEq, Eq, Structural)]
pub enum MessageRole {
    System,
    User,
    Assistant,
}

#[derive(Debug, Clone, PartialEq, Eq)]
pub struct ChatInput {
    pub role: MessageRole,
    pub content: String,
}

impl ChatInput {
    pub fn copy(&self) -> (c: ChatInput)
        ensures
            c == *self,
    {
        ChatInput { role: self.role, content: self.content.clone() }
    }
}

#[derive(Debug, Clone, Copy, PartialEq, Eq)]
pub struct ContextBudget {
    pub context_window: usize,
    pub reserve_output_tokens: usize,
}

impl Default for ContextBudget {
    fn default() -> (budget: Self)
        ensures
            budget.context_window == 8192,
            budget.reserve_output_tokens == 1024,
    {
        ContextBudget { context_window: 8192, reserve_output_tokens: 1024 }
    }
}

#[derive(Debug, Clone, PartialEq, Eq)]
pub struct ContextSectionAudit {
    pub section: String,
    /// Includes the section heading, excludes shared message overhead.
    pub original_tokens: usize,
    /// Includes any truncation marker.
    pub injected_tokens: usize,
    pub truncated: bool,
    pub omitted: bool,
}

#[derive(Debug, Clone, PartialEq, Eq)]
pub struct PreparedContext {
    pub messages: Vec<ChatInput>,
    pub estimated_input_tokens: usize,
    pub omitted_messages: usize,
    /// Retained messages whose content had to be shortened.
    pub truncated_messages: usize,
    /// Per-section losses, measured with the same counter as the prompt.
    pub section_audit: Vec<ContextSectionAudit>,
}

/// Tokens a message costs: its content plus the fixed overhead, saturating.
pub open spec fn message_cost(tokenizer: TokenizerProfile, content: Seq<char>) -> int {
    let n = token_count(tokenizer, content) + MESSAGE_OVERHEAD;
    if n > usize::MAX {
        usize::MAX as int
    } else {
        n
    }
}

fn message_tokens(content: &str, tokenizer: &TokenizerProfile) -> (n: usize)
    ensures
        n == message_cost(*tokenizer, content@),
{
    tokenizer.count_or_conservative(content).saturating_add(MESSAGE_OVERHEAD)
}

/// The marker that replaces the middle of a shortened text.
pub open spec fn ellipsis() -> Seq<char> {
    seq!['\u{2026}']
}

/// The first `ceil(keep / 2)` and last `floor(keep / 2)` characters around
/// the marker.
pub open spec fn truncation_candidate(chars: Seq<char>, keep: int) -> Seq<char> {
    chars.subrange(0, (keep + 1) / 2) + ellipsis() + chars.subrange(
        chars.len() - keep / 2,
        chars.len() as int,
    )
}

/// The shortened text keeps `keep` characters, fits, and keeping one more
/// would not fit (or none is left to keep).
pub open spec fn is_best_truncation(
    tokenizer: TokenizerProfile,
    chars: Seq<char>,
    content_budget: int,
    keep: int,
) -> bool {
    &&& 0 <= keep <= chars.len()
    &&& token_count(tokenizer, truncation_candidate(chars, keep)) <= content_budget
    &&& (keep == chars.len() || token_count(tokenizer, truncation_candidate(chars, keep + 1))
        > content_budget)
}

/// What `truncate_message_content` returns, apart from which candidate the
/// binary search settles on (see `is_best_truncation`).
pub open spec fn truncation_result(
    tokenizer: TokenizerProfile,
    value: Seq<char>,
    message_budget: int,
    result: (Seq<char>, bool),
) -> bool {
    if value.len() == 0 || message_budget <= MESSAGE_OVERHEAD {
        result == (Seq::<char>::empty(), value.len() != 0)
    } else if token_count(tokenizer, value) <= message_budget - MESSAGE_OVERHEAD {
        result == (value, false)
    } else if token_count(tokenizer, ellipsis()) > message_budget - MESSAGE_OVERHEAD {
        result == (Seq::<char>::empty(), true)
    } else {
        &&& result.1
        &&& exists|keep: int|
            is_best_truncation(tokenizer, value, message_budget - MESSAGE_OVERHEAD, keep)
                && result.0 == #[trigger] truncation_candidate(value, keep)
    }
}

fn build_candidate(chars: &Vec<char>, keep: usize) -> (candidate: String)
    requires
        keep <= chars@.len(),
    ensures
        candidate@ == truncation_candidate(chars@, keep as int),
{
    let head = keep / 2 + keep % 2;
    let tail = keep / 2;
    let mut candidate = string_of(chars, 0, head);
    proof {
        reveal_strlit("\u{2026}");
        assert("\u{2026}"@ =~= ellipsis());
    }
    push_str(&mut candidate, "\u{2026}");
    push_chars(&mut candidate, chars, chars.len() - tail, chars.len());
    assert(candidate@ =~= truncation_candidate(chars@, keep as int));
    candidate
}

/// Fits a text into a message budget (including the fixed overhead) while
/// keeping both its beginning and its end; the flag tells whether anything
/// was cut.
pub fn truncate_message_content(value: &str, message_budget: usize, tokenizer: &TokenizerProfile) -> (result: (String, bool))
    ensures
        truncation_result(*tokenizer, value@, message_budget as int, (result.0@, result.1)),
{
    if value.is_empty() || message_budget <= MESSAGE_OVERHEAD {
        return (String::new(), !value.is_empty());
    }
    let content_budget = message_budget - MESSAGE_OVERHEAD;
    if tokenizer.count_or_conservative(value) <= content_budget {
        return (String::from_str(value), false);
    }
    proof {
        reveal_strlit("\u{2026}");
        assert("\u{2026}"@ =~= ellipsis());
    }
    if tokenizer.count_or_conservative("\u{2026}") > content_budget {
        return (String::new(), true);
    }
    let chars = chars_of(value);
    let n = chars.len();
    let mut low: usize = 0;
    let mut high: usize = n;
    let mut best = String::from_str("\u{2026}");
    let ghost mut best_keep: int = 0;
    proof {
        assert(truncation_candidate(chars@, 0) =~= ellipsis());
    }
    while low <= high
        invariant_except_break
            low == 0 ==> best_keep == 0,
            low > 0 ==> best_keep == low - 1,
        invariant
            chars@ == value@,
            n == chars@.len(),
            high <= n,
            low <= high + 1,
            content_budget == message_budget - MESSAGE_OVERHEAD,
            token_count(*tokenizer, ellipsis()) <= content_budget,
            truncation_candidate(chars@, 0) == ellipsis(),
            0 <= best_keep <= n,
            best@ == truncation_candidate(chars@, best_keep),
            token_count(*tokenizer, best@) <= content_budget,
            high < n ==> token_count(*tokenizer, truncation_candidate(chars@, high + 1))
                > content_budget,
        ensures
            0 <= best_keep <= n,
            best@ == truncation_candidate(chars@, best_keep),
            token_count(*tokenizer, best@) <= content_budget,
            best_keep == n || token_count(*tokenizer, truncation_candidate(chars@, best_keep + 1))
                > content_budget,
        decreases high + 1 - low,
    {
        let keep = low + (high - low) / 2;
        let candidate = build_candidate(&chars, keep);
        if tokenizer.count_or_conservative(candidate.as_str()) <= content_budget {
            best = candidate;
            proof {
                best_keep = keep as int;
            }
            if keep == high {
                break;
            }
            low = keep + 1;
        } else {
            assert(keep > 0);
            high = keep - 1;
        }
    }
    (best, true)
}

// ---------------------------------------------------------------------------
// System sections
// ---------------------------------------------------------------------------

/// Text sources for the system message. Governed runtime instructions stay
/// in the system section so history trimming cannot silently drop them.
#[derive(Debug, Clone, Copy)]
pub struct ContextSections<'a> {
    pub runtime_instructions: &'a str,
    pub character: &'a str,
    pub user: &'a str,
    pub memory: &'a str,
    pub state: &'a str,
    pub semantic_graph: &'a str,
}

impl<'a> ContextSections<'a> {
    pub fn empty() -> (sections: ContextSections<'static>)
        ensures
            sections.runtime_instructions@.len() == 0,
            sections.character@.len() == 0,
            sections.user@.len() == 0,
            sections.memory@.len() == 0,
            sections.state@.len() == 0,
            sections.semantic_graph@.len() == 0,
    {
        proof {
            reveal_strlit("");
        }
        ContextSections {
            runtime_instructions: "",
            character: "",
            user: "",
            memory: "",
            state: "",
            semantic_graph: "",
        }
    }
}

impl<'a> Default for ContextSections<'a> {
    fn default() -> (sections: Self)
        ensures
            sections.runtime_instructions@.len() == 0,
            sections.character@.len() == 0,
            sections.user@.len() == 0,
            sections.memory@.len() == 0,
            sections.state@.len() == 0,
            sections.semantic_graph@.len() == 0,
    {
        ContextSections::empty()
    }
}

#[derive(Debug, Clone, Copy)]
pub struct ContextRequest<'a> {
    pub sections: ContextSections<'a>,
    pub messages: &'a [ChatInput],
    pub budget: ContextBudget,
}

/// One non-blank system section: its name, its text (with heading) and its
/// share weight when the system budget is scarce.
#[derive(Debug, Clone)]
pub struct SystemSection {
    pub name: String,
    pub text: String,
    pub weight: usize,
}

pub open spec fn section_view(s: SystemSection) -> (Seq<char>, Seq<char>, usize) {
    (s.name@, s.text@, s.weight)
}

/// The section a field contributes: none when blank, otherwise the heading
/// followed by the trimmed field.
pub open spec fn section_entry(field: Seq<char>, name: Seq<char>, heading: Seq<char>, weight: usize) -> Seq<(Seq<char>, Seq<char>, usize)> {
    if all_ws(field) {
        Seq::empty()
    } else {
        seq![(name, heading + trim(field), weight)]
    }
}

/// The system sections in prompt order.
pub open spec fn planned_sections(sections: ContextSections) -> Seq<(Seq<char>, Seq<char>, usize)> {
    section_entry(
        sections.runtime_instructions@,
        "runtime_instructions"@,
        "# Runtime Instructions\n"@,
        4,
    ) + section_entry(sections.character@, "character"@, "# Character\n"@, 4) + section_entry(
        sections.user@,
        "user"@,
        "# User\n"@,
        2,
    ) + section_entry(sections.memory@, "memory"@, "# Relevant Memory\n"@, 3) + section_entry(
        sections.state@,
        "state"@,
        ""@,
        3,
    ) + section_entry(sections.semantic_graph@, "semantic_graph"@, "# Active Lore Context\n"@, 2)
}

fn push_section(out: &mut Vec<SystemSection>, field: &str, name: &str, heading: &str, weight: usize)
    ensures
        final(out)@.map_values(|s: SystemSection| section_view(s)) == old(out)@.map_values(
            |s: SystemSection| section_view(s),
        ) + section_entry(field@, name@, heading@, weight),
{
    if is_blank(field) {
        assert(final(out)@.map_values(|s: SystemSection| section_view(s)) =~= old(out)@.map_values(
            |s: SystemSection| section_view(s),
        ) + section_entry(field@, name@, heading@, weight));
        return;
    }
    let mut text = String::from_str(heading);
    let body = trimmed(field);
    push_str(&mut text, body.as_str());
    out.push(SystemSection { name: String::from_str(name), text, weight });
    assert(final(out)@.map_values(|s: SystemSection| section_view(s)) =~= old(out)@.map_values(
        |s: SystemSection| section_view(s),
    ) + section_entry(field@, name@, heading@, weight));
}

/// The non-blank sections, each with its heading, in prompt order.
pub fn system_sections(sections: ContextSections) -> (out: Vec<SystemSection>)
    ensures
        section_plan(out@) == planned_sections(sections),
{
    let mut out: Vec<SystemSection> = Vec::new();
    push_section(
        &mut out,
        sections.runtime_instructions,
        "runtime_instructions",
        "# Runtime Instructions\n",
        4,
    );
    push_section(&mut out, sections.character, "character", "# Character\n", 4);
    push_section(&mut out, sections.user, "user", "# User\n", 2);
    push_section(&mut out, sections.memory, "memory", "# Relevant Memory\n", 3);
    push_section(&mut out, sections.state, "state", "", 3);
    push_section(&mut out, sections.semantic_graph, "semantic_graph", "# Active Lore Context\n", 2);
    assert(section_plan(out@) =~= planned_sections(sections));
    out
}

/// No section of the plan goes by `name`.
pub open spec fn avoids_name(plan: Seq<(Seq<char>, Seq<char>, usize)>, name: Seq<char>) -> bool {
    forall|i: int| 0 <= i < plan.len() ==> (#[trigger] plan[i]).0 != name
}

/// How a field shows in the plan: the plan has a section named `name`
/// exactly when the field is not blank, and every section of that name is
/// `heading` followed by the trimmed field, with the field's weight.
pub open spec fn shows_field(
    plan: Seq<(Seq<char>, Seq<char>, usize)>,
    name: Seq<char>,
    heading: Seq<char>,
    field: Seq<char>,
    weight: usize,
) -> bool {
    &&& forall|i: int| 0 <= i < plan.len() && (#[trigger] plan[i]).0 == name ==> plan[i] == (name, heading + trim(field), weight)
    &&& (exists|i: int| 0 <= i < plan.len() && (#[trigger] plan[i]).0 == name) <==> !all_ws(field)
}

proof fn lemma_shows_between(
    before: Seq<(Seq<char>, Seq<char>, usize)>,
    after: Seq<(Seq<char>, Seq<char>, usize)>,
    name: Seq<char>,
    heading: Seq<char>,
    field: Seq<char>,
    weight: usize,
)
    requires
        avoids_name(before, name),
        avoids_name(after, name),
    ensures
        shows_field(before + section_entry(field, name, heading, weight) + after, name, heading, field, weight),
{
    let mid = section_entry(field, name, heading, weight);
    let plan = before + mid + after;
    assert forall|i: int| 0 <= i < plan.len() && (#[trigger] plan[i]).0 == name implies plan[i] == (
        name,
        heading + trim(field),
        weight,
    ) by {
        if i < before.len() {
            assert(plan[i] == before[i]);
        } else if i < before.len() + mid.len() {
            assert(plan[i] == mid[i - before.len()]);
        } else {
            assert(plan[i] == after[i - before.len() - mid.len()]);
        }
    }
    if !all_ws(field) {
        assert(plan[before.len() as int] == mid[0]);
    } else {
        assert forall|i: int| 0 <= i < plan.len() implies (#[trigger] plan[i]).0 != name by {
            if i < before.len() {
                assert(plan[i] == before[i]);
            } else {
                assert(plan[i] == after[i - before.len()]);
            }
        }
    }
}

proof fn lemma_avoids_concat(a: Seq<(Seq<char>, Seq<char>, usize)>, b: Seq<(Seq<char>, Seq<char>, usize)>, name: Seq<char>)
    requires
        avoids_name(a, name),
        avoids_name(b, name),
    ensures
        avoids_name(a + b, name),
{
    assert forall|i: int| 0 <= i < (a + b).len() implies (#[trigger] (a + b)[i]).0 != name by {
        if i < a.len() {
            assert((a + b)[i] == a[i]);
        } else {
            assert((a + b)[i] == b[i - a.len()]);
        }
    }
}

/// With the other five entries avoiding its name, the plan shows the field
/// of the `k`-th entry.
proof fn lemma_shows_kth(
    e: Seq<Seq<(Seq<char>, Seq<char>, usize)>>,
    k: int,
    name: Seq<char>,
    heading: Seq<char>,
    field: Seq<char>,
    weight: usize,
)
    requires
        e.len() == 6,
        0 <= k < 6,
        e[k] == section_entry(field, name, heading, weight),
        forall|j: int| 0 <= j < 6 && j != k ==> avoids_name(#[trigger] e[j], name),
    ensures
        shows_field(e[0] + e[1] + e[2] + e[3] + e[4] + e[5], name, heading, field, weight),
{
    let empty = Seq::<(Seq<char>, Seq<char>, usize)>::empty();
    assert(avoids_name(e[0], name) || k == 0);
    assert(avoids_name(e[1], name) || k == 1);
    assert(avoids_name(e[2], name) || k == 2);
    assert(avoids_name(e[3], name) || k == 3);
    assert(avoids_name(e[4], name) || k == 4);
    assert(avoids_name(e[5], name) || k == 5);
    let whole = e[0] + e[1] + e[2] + e[3] + e[4] + e[5];
    if k == 0 {
        lemma_avoids_concat(e[1], e[2], name);
        lemma_avoids_concat(e[1] + e[2], e[3], name);
        lemma_avoids_concat(e[1] + e[2] + e[3], e[4], name);
        lemma_avoids_concat(e[1] + e[2] + e[3] + e[4], e[5], name);
        lemma_shows_between(empty, e[1] + e[2] + e[3] + e[4] + e[5], name, heading, field, weight);
        assert(whole =~= empty + e[0] + (e[1] + e[2] + e[3] + e[4] + e[5]));
    } else if k == 1 {
        lemma_avoids_concat(e[2], e[3], name);
        lemma_avoids_concat(e[2] + e[3], e[4], name);
        lemma_avoids_concat(e[2] + e[3] + e[4], e[5], name);
        lemma_shows_between(e[0], e[2] + e[3] + e[4] + e[5], name, heading, field, weight);
        assert(whole =~= e[0] + e[1] + (e[2] + e[3] + e[4] + e[5]));
    } else if k == 2 {
        lemma_avoids_concat(e[0], e[1], name);
        lemma_avoids_concat(e[3], e[4], name);
        lemma_avoids_concat(e[3] + e[4], e[5], name);
        lemma_shows_between(e[0] + e[1], e[3] + e[4] + e[5], name, heading, field, weight);
        assert(whole =~= (e[0] + e[1]) + e[2] + (e[3] + e[4] + e[5]));
    } else if k == 3 {
        lemma_avoids_concat(e[0], e[1], name);
        lemma_avoids_concat(e[0] + e[1], e[2], name);
        lemma_avoids_concat(e[4], e[5], name);
        lemma_shows_between(e[0] + e[1] + e[2], e[4] + e[5], name, heading, field, weight);
        assert(whole =~= (e[0] + e[1] + e[2]) + e[3] + (e[4] + e[5]));
    } else if k == 4 {
        lemma_avoids_concat(e[0], e[1], name);
        lemma_avoids_concat(e[0] + e[1], e[2], name);
        lemma_avoids_concat(e[0] + e[1] + e[2], e[3], name);
        lemma_shows_between(e[0] + e[1] + e[2] + e[3], e[5], name, heading, field, weight);
    } else {
        lemma_avoids_concat(e[0], e[1], name);
        lemma_avoids_concat(e[0] + e[1], e[2], name);
        lemma_avoids_concat(e[0] + e[1] + e[2], e[3], name);
        lemma_avoids_concat(e[0] + e[1] + e[2] + e[3], e[4], name);
        lemma_shows_between(e[0] + e[1] + e[2] + e[3] + e[4], empty, name, heading, field, weight);
        assert(whole =~= e[0] + e[1] + e[2] + e[3] + e[4] + e[5] + empty);
    }
}

/// The entries of the plan, one per field, in prompt order.
spec fn plan_entries(sections: ContextSections) -> Seq<Seq<(Seq<char>, Seq<char>, usize)>> {
    seq![
        section_entry(sections.runtime_instructions@, "runtime_instructions"@, "# Runtime Instructions\n"@, 4),
        section_entry(sections.character@, "character"@, "# Character\n"@, 4),
        section_entry(sections.user@, "user"@, "# User\n"@, 2),
        section_entry(sections.memory@, "memory"@, "# Relevant Memory\n"@, 3),
        section_entry(sections.state@, "state"@, ""@, 3),
        section_entry(sections.semantic_graph@, "semantic_graph"@, "# Active Lore Context\n"@, 2),
    ]
}

/// Each system section carries the field it is named after: a non-blank
/// field gives sections under its own name only, made of its own heading
/// and its own trimmed text; a blank field gives none.
pub proof fn lemma_sections_carry_their_own_fields(sections: ContextSections)
    ensures
        shows_field(
            planned_sections(sections),
            "runtime_instructions"@,
            "# Runtime Instructions\n"@,
            sections.runtime_instructions@,
            4,
        ),
        shows_field(planned_sections(sections), "character"@, "# Character\n"@, sections.character@, 4),
        shows_field(planned_sections(sections), "user"@, "# User\n"@, sections.user@, 2),
        shows_field(planned_sections(sections), "memory"@, "# Relevant Memory\n"@, sections.memory@, 3),
        shows_field(planned_sections(sections), "state"@, ""@, sections.state@, 3),
        shows_field(
            planned_sections(sections),
            "semantic_graph"@,
            "# Active Lore Context\n"@,
            sections.semantic_graph@,
            2,
        ),
{
    reveal_strlit("runtime_instructions");
    reveal_strlit("character");
    reveal_strlit("user");
    reveal_strlit("memory");
    reveal_strlit("state");
    reveal_strlit("semantic_graph");
    let e = plan_entries(sections);
    assert(planned_sections(sections) == e[0] + e[1] + e[2] + e[3] + e[4] + e[5]);
    let names = seq!["runtime_instructions"@, "character"@, "user"@, "memory"@, "state"@, "semantic_graph"@];
    assert forall|j: int, k: int| 0 <= j < 6 && 0 <= k < 6 && j != k implies #[trigger] avoids_name(e[j], names[k]) by {
        assert(names[j].len() != names[k].len());
        assert forall|i: int| 0 <= i < e[j].len() implies (#[trigger] e[j][i]).0 != names[k] by {
            assert(e[j][i].0 == names[j]);
        }
    }
    assert forall|j: int| 0 <= j < 6 && j != 0 implies avoids_name(#[trigger] e[j], "runtime_instructions"@) by {
        assert(avoids_name(e[j], names[0]));
    }
    lemma_shows_kth(e, 0, "runtime_instructions"@, "# Runtime Instructions\n"@, sections.runtime_instructions@, 4);
    assert forall|j: int| 0 <= j < 6 && j != 1 implies avoids_name(#[trigger] e[j], "character"@) by {
        assert(avoids_name(e[j], names[1]));
    }
    lemma_shows_kth(e, 1, "character"@, "# Character\n"@, sections.character@, 4);
    assert forall|j: int| 0 <= j < 6 && j != 2 implies avoids_name(#[trigger] e[j], "user"@) by {
        assert(avoids_name(e[j], names[2]));
    }
    lemma_shows_kth(e, 2, "user"@, "# User\n"@, sections.user@, 2);
    assert forall|j: int| 0 <= j < 6 && j != 3 implies avoids_name(#[trigger] e[j], "memory"@) by {
        assert(avoids_name(e[j], names[3]));
    }
    lemma_shows_kth(e, 3, "memory"@, "# Relevant Memory\n"@, sections.memory@, 3);
    assert forall|j: int| 0 <= j < 6 && j != 4 implies avoids_name(#[trigger] e[j], "state"@) by {
        assert(avoids_name(e[j], names[4]));
    }
    lemma_shows_kth(e, 4, "state"@, ""@, sections.state@, 3);
    assert forall|j: int| 0 <= j < 6 && j != 5 implies avoids_name(#[trigger] e[j], "semantic_graph"@) by {
        assert(avoids_name(e[j], names[5]));
    }
    lemma_shows_kth(e, 5, "semantic_graph"@, "# Active Lore Context\n"@, sections.semantic_graph@, 2);
}

/// The place of a section in the prompt, by its name.
pub open spec fn section_rank(name: Seq<char>) -> int {
    if name == "runtime_instructions"@ {
        0
    } else if name == "character"@ {
        1
    } else if name == "user"@ {
        2
    } else if name == "memory"@ {
        3
    } else if name == "state"@ {
        4
    } else if name == "semantic_graph"@ {
        5
    } else {
        6
    }
}

/// Each section comes after those of lower rank, so no name repeats.
pub open spec fn in_prompt_order(plan: Seq<(Seq<char>, Seq<char>, usize)>) -> bool {
    forall|i: int, j: int| 0 <= i < j < plan.len() ==> section_rank(#[trigger] plan[i].0) < section_rank(#[trigger] plan[j].0)
}

proof fn lemma_order_step(plan: Seq<(Seq<char>, Seq<char>, usize)>, entry: Seq<(Seq<char>, Seq<char>, usize)>, k: int)
    requires
        in_prompt_order(plan),
        forall|i: int| 0 <= i < plan.len() ==> section_rank(#[trigger] plan[i].0) < k,
        entry.len() <= 1,
        forall|i: int| 0 <= i < entry.len() ==> section_rank(#[trigger] entry[i].0) == k,
    ensures
        in_prompt_order(plan + entry),
        forall|i: int| 0 <= i < (plan + entry).len() ==> section_rank(#[trigger] (plan + entry)[i].0) < k + 1,
{
    let whole = plan + entry;
    assert forall|i: int, j: int| 0 <= i < j < whole.len() implies section_rank(#[trigger] whole[i].0) < section_rank(
        #[trigger] whole[j].0,
    ) by {
        if j < plan.len() {
            assert(whole[i] == plan[i] && whole[j] == plan[j]);
        } else {
            assert(whole[j] == entry[j - plan.len()]);
            assert(whole[i] == plan[i]);
        }
    }
    assert forall|i: int| 0 <= i < whole.len() implies section_rank(#[trigger] whole[i].0) < k + 1 by {
        if i < plan.len() {
            assert(whole[i] == plan[i]);
        } else {
            assert(whole[i] == entry[i - plan.len()]);
        }
    }
}

/// The system sections come in prompt order: runtime instructions,
/// character, user, memory, state, then active lore, each at most once.
pub proof fn lemma_sections_in_prompt_order(sections: ContextSections)
    ensures
        in_prompt_order(planned_sections(sections)),
{
    reveal_strlit("runtime_instructions");
    reveal_strlit("character");
    reveal_strlit("user");
    reveal_strlit("memory");
    reveal_strlit("state");
    reveal_strlit("semantic_graph");
    let e = plan_entries(sections);
    assert(section_rank("runtime_instructions"@) == 0);
    assert("character"@.len() != "runtime_instructions"@.len());
    assert("user"@.len() != "runtime_instructions"@.len() && "user"@.len() != "character"@.len());
    assert("memory"@.len() != "runtime_instructions"@.len() && "memory"@.len() != "character"@.len()
        && "memory"@.len() != "user"@.len());
    assert("state"@.len() != "runtime_instructions"@.len() && "state"@.len() != "character"@.len()
        && "state"@.len() != "user"@.len() && "state"@.len() != "memory"@.len());
    assert("semantic_graph"@.len() != "runtime_instructions"@.len() && "semantic_graph"@.len() != "character"@.len()
        && "semantic_graph"@.len() != "user"@.len() && "semantic_graph"@.len() != "memory"@.len()
        && "semantic_graph"@.len() != "state"@.len());
    assert(section_rank("character"@) == 1);
    assert(section_rank("user"@) == 2);
    assert(section_rank("memory"@) == 3);
    assert(section_rank("state"@) == 4);
    assert(section_rank("semantic_graph"@) == 5);
    let empty = Seq::<(Seq<char>, Seq<char>, usize)>::empty();
    lemma_order_step(empty, e[0], 0);
    assert(empty + e[0] =~= e[0]);
    lemma_order_step(e[0], e[1], 1);
    lemma_order_step(e[0] + e[1], e[2], 2);
    lemma_order_step(e[0] + e[1] + e[2], e[3], 3);
    lemma_order_step(e[0] + e[1] + e[2] + e[3], e[4], 4);
    lemma_order_step(e[0] + e[1] + e[2] + e[3] + e[4], e[5], 5);
    assert(planned_sections(sections) == e[0] + e[1] + e[2] + e[3] + e[4] + e[5]);
}

pub open spec fn section_separator() -> Seq<char> {
    seq!['\n', '\n']
}

/// Non-empty parts joined by a blank line.
pub open spec fn join_parts(parts: Seq<Seq<char>>) -> Seq<char>
    decreases parts.len(),
{
    if parts.len() == 0 {
        Seq::empty()
    } else {
        let rest = join_parts(parts.drop_last());
        let last = parts.last();
        if last.len() == 0 {
            rest
        } else if rest.len() == 0 {
            last
        } else {
            rest + section_separator() + last
        }
    }
}

pub open spec fn strings_view(v: Seq<String>) -> Seq<Seq<char>> {
    v.map_values(|s: String| s@)
}

proof fn lemma_join_empty(parts: Seq<Seq<char>>)
    ensures
        (join_parts(parts).len() == 0) == (forall|i: int| 0 <= i < parts.len() ==> #[trigger] parts[i].len() == 0),
    decreases parts.len(),
{
    if parts.len() > 0 {
        lemma_join_empty(parts.drop_last());
        if join_parts(parts).len() == 0 {
            assert forall|i: int| 0 <= i < parts.len() implies #[trigger] parts[i].len() == 0 by {
                if i < parts.len() - 1 {
                    assert(parts.drop_last()[i] == parts[i]);
                }
            }
        } else {
            if forall|i: int| 0 <= i < parts.len() ==> #[trigger] parts[i].len() == 0 {
                assert(parts.last().len() == 0);
                assert forall|i: int| 0 <= i < parts.drop_last().len() implies #[trigger] parts.drop_last()[i].len() == 0 by {
                    assert(parts.drop_last()[i] == parts[i]);
                }
            }
        }
    }
}

/// Joins the non-empty parts with a blank line between them.
pub fn join_sections(parts: &Vec<String>) -> (joined: String)
    ensures
        joined@ == join_parts(strings_view(parts@)),
{
    let mut joined = String::new();
    let mut i: usize = 0;
    while i < parts.len()
        invariant
            i <= parts@.len(),
            joined@ == join_parts(strings_view(parts@).subrange(0, i as int)),
        decreases parts@.len() - i,
    {
        let ghost before = strings_view(parts@).subrange(0, i as int);
        assert(strings_view(parts@).subrange(0, i + 1).drop_last() =~= before);
        let part = parts[i].as_str();
        if !part.is_empty() {
            if !joined.as_str().is_empty() {
                proof {
                    reveal_strlit("\n\n");
                    assert("\n\n"@ =~= section_separator());
                }
                push_str(&mut joined, "\n\n");
            }
            push_str(&mut joined, part);
        }
        i += 1;
    }
    assert(strings_view(parts@).subrange(0, i as int) =~= strings_view(parts@));
    joined
}

/// `kept` is what remains of `original` after shortening: a prefix of the
/// original, or a prefix of one of its head-and-tail truncations.
pub open spec fn is_shortened_form(original: Seq<char>, kept: Seq<char>) -> bool {
    is_prefix_of(kept, original) || exists|keep: int|
        0 <= keep <= original.len() && is_prefix_of(kept, #[trigger] truncation_candidate(original, keep))
}

proof fn lemma_prefix_drop_last(a: Seq<char>, b: Seq<char>)
    requires
        is_prefix_of(a, b),
        a.len() > 0,
    ensures
        is_prefix_of(a.drop_last(), b),
{
    assert(b.subrange(0, a.len() - 1) =~= a.drop_last()) by {
        assert forall|i: int| 0 <= i < a.len() - 1 implies b.subrange(0, a.len() - 1)[i] == a.drop_last()[i] by {
            assert(b.subrange(0, a.len() as int)[i] == a[i]);
        }
    }
}

proof fn lemma_shortened_drop_last(original: Seq<char>, kept: Seq<char>)
    requires
        is_shortened_form(original, kept),
        kept.len() > 0,
    ensures
        is_shortened_form(original, kept.drop_last()),
{
    if is_prefix_of(kept, original) {
        lemma_prefix_drop_last(kept, original);
    } else {
        let keep = choose|keep: int|
            0 <= keep <= original.len() && is_prefix_of(kept, #[trigger] truncation_candidate(original, keep));
        lemma_prefix_drop_last(kept, truncation_candidate(original, keep));
    }
}

/// One audit entry describes how a section's text was reduced.
pub open spec fn audit_entry_matches(
    entry: ContextSectionAudit,
    tokenizer: TokenizerProfile,
    name: Seq<char>,
    original: Seq<char>,
    kept: Seq<char>,
) -> bool {
    &&& entry.section@ == name
    &&& entry.original_tokens == token_count(tokenizer, original)
    &&& entry.injected_tokens == token_count(tokenizer, kept)
    &&& entry.truncated == (original != kept)
    &&& entry.omitted == (kept.len() == 0)
}

/// The views of the sections, as `planned_sections` describes them.
pub open spec fn section_plan(sections: Seq<SystemSection>) -> Seq<(Seq<char>, Seq<char>, usize)> {
    sections.map_values(|s: SystemSection| section_view(s))
}

pub open spec fn section_texts(plan: Seq<(Seq<char>, Seq<char>, usize)>) -> Seq<Seq<char>> {
    plan.map_values(|t: (Seq<char>, Seq<char>, usize)| t.1)
}

/// The system content and audit that fitting `sections` into a message
/// budget produced, given what was kept of each section: every section
/// shortened at most, the whole kept unchanged when it fits, and the joined
/// content within the content budget unless nothing at all could be kept.
pub open spec fn fitted_sections(
    tokenizer: TokenizerProfile,
    plan: Seq<(Seq<char>, Seq<char>, usize)>,
    message_budget: usize,
    kept: Seq<Seq<char>>,
    content: Seq<char>,
    audit: Seq<ContextSectionAudit>,
) -> bool {
    let originals = section_texts(plan);
    let content_budget = message_budget.saturating_sub(MESSAGE_OVERHEAD);
    &&& kept.len() == plan.len()
    &&& audit.len() == plan.len()
    &&& content == join_parts(kept)
    &&& forall|i: int|
        0 <= i < plan.len() ==> audit_entry_matches(
            #[trigger] audit[i],
            tokenizer,
            plan[i].0,
            originals[i],
            kept[i],
        )
    &&& forall|i: int| 0 <= i < plan.len() ==> is_shortened_form(originals[i], #[trigger] kept[i])
    &&& (message_budget > MESSAGE_OVERHEAD && token_count(tokenizer, join_parts(originals))
        <= content_budget) ==> kept == originals
    &&& token_count(tokenizer, content) <= content_budget || content.len() == 0
}

/// Total number of characters over all parts.
pub open spec fn total_chars(parts: Seq<Seq<char>>) -> nat
    decreases parts.len(),
{
    if parts.len() == 0 {
        0
    } else {
        total_chars(parts.drop_last()) + parts.last().len()
    }
}

proof fn lemma_total_chars_update(parts: Seq<Seq<char>>, i: int, shorter: Seq<char>)
    requires
        0 <= i < parts.len(),
        shorter.len() < parts[i].len(),
    ensures
        total_chars(parts.update(i, shorter)) < total_chars(parts),
    decreases parts.len(),
{
    let q = parts.update(i, shorter);
    if i == parts.len() - 1 {
        assert(q.drop_last() =~= parts.drop_last());
    } else {
        lemma_total_chars_update(parts.drop_last(), i, shorter);
        assert(q.drop_last() =~= parts.drop_last().update(i, shorter));
    }
}

/// Splits the system budget between sections and shortens them to fit.
/// Sections get capped weighted shares in rounds, so small sections finish
/// early and give their unused tokens to larger ones; then the joined text
/// is checked as a whole and, while it is too long, the last non-empty
/// section loses its last character.
fn fit_system_sections(
    sections: &Vec<SystemSection>,
    message_budget: usize,
    tokenizer: &TokenizerProfile,
) -> (result: (String, Vec<ContextSectionAudit>))
    ensures
        exists|kept: Seq<Seq<char>>|
            fitted_sections(*tokenizer, section_plan(sections@), message_budget, kept, result.0@, result.1@),
{
    let n = sections.len();
    let ghost plan = section_plan(sections@);
    let ghost texts = section_texts(plan);
    let mut originals: Vec<String> = Vec::new();
    let mut i: usize = 0;
    while i < n
        invariant
            n == sections@.len(),
            texts == section_texts(plan),
            plan == section_plan(sections@),
            i <= n,
            originals@.len() == i,
            forall|z: int| 0 <= z < i ==> #[trigger] originals@[z]@ == texts[z],
        decreases n - i,
    {
        originals.push(sections[i].text.clone());
        i += 1;
    }
    assert(strings_view(originals@) =~= texts);
    assert(texts.len() == n);
    let full = join_sections(&originals);
    let content_budget = message_budget.saturating_sub(MESSAGE_OVERHEAD);
    let mut kept: Vec<String> = Vec::new();
    if message_budget > MESSAGE_OVERHEAD && tokenizer.count_or_conservative(full.as_str())
        <= content_budget {
        let mut k: usize = 0;
        while k < n
            invariant
                n == originals@.len(),
                k <= n,
                texts.len() == n,
                strings_view(originals@) == texts,
                kept@.len() == k,
                forall|z: int| 0 <= z < k ==> #[trigger] kept@[z]@ == texts[z],
            decreases n - k,
        {
            assert(originals@[k as int]@ == strings_view(originals@)[k as int]);
            kept.push(originals[k].clone());
            k += 1;
        }
        assert(strings_view(kept@) =~= texts);
        assert forall|z: int| 0 <= z < n implies is_shortened_form(texts[z], #[trigger] kept@[z]@) by {
            assert(texts[z].subrange(0, texts[z].len() as int) =~= texts[z]);
        }
    } else {
        let separator_cost = tokenizer.count_or_conservative("\n\n");
        let gaps = n.saturating_sub(1);
        let separator_reserve = match gaps.checked_mul(separator_cost) {
            Some(v) => v,
            None => usize::MAX,
        };
        let mut remaining = content_budget.saturating_sub(separator_reserve);
        let mut costs: Vec<usize> = Vec::new();
        let mut quotas: Vec<usize> = Vec::new();
        let mut c: usize = 0;
        while c < n
            invariant
                n == originals@.len(),
                c <= n,
                costs@.len() == c,
                quotas@.len() == c,
                forall|x: int| 0 <= x < c ==> #[trigger] quotas@[x] == 0,
            decreases n - c,
        {
            costs.push(tokenizer.count_or_conservative(originals[c].as_str()));
            quotas.push(0);
            c += 1;
        }
        while remaining > 0
            invariant
                n == sections@.len(),
                costs@.len() == n,
                quotas@.len() == n,
                forall|x: int| 0 <= x < n ==> #[trigger] quotas@[x] <= costs@[x],
            decreases remaining,
        {
            let ghost start = remaining;
            let mut advanced = false;
            let mut x: usize = 0;
            while x < n
                invariant
                    n == sections@.len(),
                    costs@.len() == n,
                    quotas@.len() == n,
                    forall|y: int| 0 <= y < n ==> #[trigger] quotas@[y] <= costs@[y],
                    x <= n,
                    remaining <= start,
                    advanced ==> remaining < start,
                    !advanced ==> remaining == start,
                decreases n - x,
            {
                let room = costs[x] - quotas[x];
                let weight = sections[x].weight;
                let mut grant = if weight < room {
                    weight
                } else {
                    room
                };
                if remaining < grant {
                    grant = remaining;
                }
                let q = quotas[x] + grant;
                quotas.set(x, q);
                remaining -= grant;
                if grant > 0 {
                    advanced = true;
                }
                x += 1;
            }
            if !advanced {
                break;
            }
        }
        let mut k: usize = 0;
        while k < n
            invariant
                n == sections@.len(),
                n == originals@.len(),
                quotas@.len() == n,
                k <= n,
                texts.len() == n,
                strings_view(originals@) == texts,
                kept@.len() == k,
                forall|y: int| 0 <= y < k ==> is_shortened_form(texts[y], #[trigger] kept@[y]@),
            decreases n - k,
        {
            let original = originals[k].as_str();
            let piece = if quotas[k] == 0 {
                proof {
                    assert(texts[k as int].subrange(0, 0) =~= Seq::<char>::empty());
                    assert(is_prefix_of(Seq::<char>::empty(), texts[k as int]));
                }
                String::new()
            } else {
                let budget = quotas[k].saturating_add(MESSAGE_OVERHEAD);
                let (shortened, _) = truncate_message_content(original, budget, tokenizer);
                proof {
                    let t = texts[k as int];
                    assert(t.subrange(0, t.len() as int) =~= t);
                    assert(t.subrange(0, 0) =~= Seq::<char>::empty());
                    if exists|keep: int|
                        is_best_truncation(*tokenizer, t, budget - MESSAGE_OVERHEAD, keep)
                            && shortened@ == #[trigger] truncation_candidate(t, keep) {
                        let keep = choose|keep: int|
                            is_best_truncation(*tokenizer, t, budget - MESSAGE_OVERHEAD, keep)
                                && shortened@ == #[trigger] truncation_candidate(t, keep);
                        let cand = truncation_candidate(t, keep);
                        assert(cand.subrange(0, cand.len() as int) =~= cand);
                        assert(is_prefix_of(shortened@, truncation_candidate(t, keep)));
                    }
                    assert(is_shortened_form(t, shortened@));
                }
                shortened
            };
            assert(original@ == texts[k as int]);
            assert(is_shortened_form(texts[k as int], piece@));
            let ghost prev = kept@;
            kept.push(piece);
            proof {
                assert forall|y: int| 0 <= y < k + 1 implies is_shortened_form(texts[y], #[trigger] kept@[y]@) by {
                    if y < k {
                        assert(kept@[y] == prev[y]);
                    } else {
                        assert(kept@[y] == piece);
                    }
                }
            }
            k += 1;
        }
        loop
            invariant
                n == sections@.len(),
                texts.len() == n,
                kept@.len() == n,
                forall|y: int| 0 <= y < n ==> is_shortened_form(texts[y], #[trigger] kept@[y]@),
            ensures
                kept@.len() == n,
                forall|y: int| 0 <= y < n ==> is_shortened_form(texts[y], #[trigger] kept@[y]@),
                token_count(*tokenizer, join_parts(strings_view(kept@))) <= content_budget
                    || join_parts(strings_view(kept@)).len() == 0,
            decreases total_chars(strings_view(kept@)),
        {
            let joined = join_sections(&kept);
            if tokenizer.count_or_conservative(joined.as_str()) <= content_budget {
                break;
            }
            let mut idx = n;
            let mut y = n;
            while y > 0
                invariant
                    y <= n,
                    kept@.len() == n,
                    idx == n || idx < n,
                    idx == n || (idx < n && kept@[idx as int]@.len() > 0),
                    idx == n ==> forall|z: int| y <= z < n ==> #[trigger] kept@[z]@.len() == 0,
                ensures
                    idx < n ==> kept@[idx as int]@.len() > 0,
                    idx == n ==> forall|z: int| 0 <= z < n ==> #[trigger] kept@[z]@.len() == 0,
                decreases y,
            {
                if !kept[y - 1].as_str().is_empty() {
                    idx = y - 1;
                    assert(kept@[idx as int]@.len() > 0);
                    break;
                }
                y -= 1;
            }
            if idx == n {
                proof {
                    lemma_join_empty(strings_view(kept@));
                    assert forall|z: int| 0 <= z < n implies #[trigger] strings_view(kept@)[z].len() == 0 by {
                        assert(kept@[z]@.len() == 0);
                    }
                }
                break;
            }
            let ghost before = kept@;
            let mut part = String::new();
            std::mem::swap(&mut part, &mut kept[idx]);
            let ghost old_part = part@;
            let _ = pop_char(&mut part);
            kept.set(idx, part);
            proof {
                lemma_shortened_drop_last(texts[idx as int], old_part);
                assert(strings_view(kept@) =~= strings_view(before).update(idx as int, old_part.drop_last()));
                lemma_total_chars_update(strings_view(before), idx as int, old_part.drop_last());
                assert forall|z: int| 0 <= z < n implies is_shortened_form(texts[z], #[trigger] kept@[z]@) by {
                    if z != idx {
                        assert(kept@[z] == before[z]);
                    }
                }
            }
        }
    }
    proof {
        let kv = strings_view(kept@);
        assert(kept@.len() == n);
        assert forall|z: int| 0 <= z < n implies is_shortened_form(texts[z], #[trigger] kv[z]) by {
            assert(kv[z] == kept@[z]@);
        }
        if message_budget > MESSAGE_OVERHEAD && token_count(*tokenizer, join_parts(texts)) <= content_budget {
            assert(kv == texts);
        }
    }
    let mut audit: Vec<ContextSectionAudit> = Vec::new();
    let mut a: usize = 0;
    while a < n
        invariant
            n == sections@.len(),
            n == originals@.len(),
            n == kept@.len(),
            a <= n,
            texts.len() == n,
            strings_view(originals@) == texts,
            plan == section_plan(sections@),
            audit@.len() == a,
            forall|z: int|
                0 <= z < a ==> audit_entry_matches(
                    #[trigger] audit@[z],
                    *tokenizer,
                    plan[z].0,
                    texts[z],
                    kept@[z]@,
                ),
        decreases n - a,
    {
        let original = originals[a].as_str();
        let injected = kept[a].as_str();
        assert(original@ == texts[a as int]);
        let ghost prev = audit@;
        assert(sections@[a as int].name@ == plan[a as int].0);
        audit.push(
            ContextSectionAudit {
                section: sections[a].name.clone(),
                original_tokens: tokenizer.count_or_conservative(original),
                injected_tokens: tokenizer.count_or_conservative(injected),
                truncated: !str_eq(original, injected),
                omitted: injected.is_empty(),
            },
        );
        proof {
            assert forall|z: int|
                0 <= z < a + 1 implies audit_entry_matches(
                #[trigger] audit@[z],
                *tokenizer,
                plan[z].0,
                texts[z],
                kept@[z]@,
            ) by {
                if z < a {
                    assert(audit@[z] == prev[z]);
                }
            }
        }
        a += 1;
    }
    let content = join_sections(&kept);
    proof {
        let kv = strings_view(kept@);
        assert(kv.len() == n);
        assert(audit@.len() == n);
        assert(content@ == join_parts(kv));
        assert forall|z: int| 0 <= z < n implies audit_entry_matches(
            #[trigger] audit@[z],
            *tokenizer,
            plan[z].0,
            texts[z],
            kv[z],
        ) by {
            assert(kv[z] == kept@[z]@);
        }
        assert forall|z: int| 0 <= z < n implies is_shortened_form(texts[z], #[trigger] kv[z]) by {
            assert(kv[z] == kept@[z]@);
        }
        assert(token_count(*tokenizer, content@) <= content_budget || content@.len() == 0);
        assert(fitted_sections(*tokenizer, section_plan(sections@), message_budget, kv, content@, audit@));
    }
    let result = (content, audit);
    assert(fitted_sections(*tokenizer, section_plan(sections@), message_budget, strings_view(kept@), result.0@, result.1@));
    result
}


// ---------------------------------------------------------------------------
// Whole prompt
// ---------------------------------------------------------------------------

/// Tokens available for input: the window less the output reserve and the
/// safety margin (saturating), at least one.
pub open spec fn input_limit(budget: ContextBudget) -> int {
    let after_reserve = budget.context_window.saturating_sub(budget.reserve_output_tokens);
    let limit = after_reserve.saturating_sub(CONTEXT_SAFETY_MARGIN);
    if limit < 1 {
        1
    } else {
        limit as int
    }
}

/// The budget left to the system message: the input limit less what the
/// newest turn reserves, its own cost but at most half the limit (rounded up).
pub open spec fn system_budget(tokenizer: TokenizerProfile, messages: Seq<ChatInput>, limit: int) -> int {
    let reserve = if messages.len() == 0 {
        0
    } else {
        let cost = message_cost(tokenizer, messages.last().content@);
        if cost < (limit + 1) / 2 {
            cost
        } else {
            (limit + 1) / 2
        }
    };
    limit - reserve
}

/// Cost of the newest `count` messages.
pub open spec fn suffix_cost(tokenizer: TokenizerProfile, messages: Seq<ChatInput>, count: int) -> int
    decreases count,
{
    if count <= 0 {
        0
    } else {
        suffix_cost(tokenizer, messages, count - 1) + message_cost(
            tokenizer,
            messages[messages.len() - count].content@,
        )
    }
}

/// `count` newest messages fit in `available` and one more would not.
pub open spec fn retained_count(
    tokenizer: TokenizerProfile,
    messages: Seq<ChatInput>,
    available: int,
    count: int,
) -> bool {
    &&& 0 <= count <= messages.len()
    &&& suffix_cost(tokenizer, messages, count) <= available
    &&& (count == messages.len() || suffix_cost(tokenizer, messages, count + 1) > available)
}

pub open spec fn chat_view(message: ChatInput) -> (MessageRole, Seq<char>) {
    (message.role, message.content@)
}

pub open spec fn chat_views(messages: Seq<ChatInput>) -> Seq<(MessageRole, Seq<char>)> {
    messages.map_values(|m: ChatInput| chat_view(m))
}

/// What history retention yields: the newest messages that fit, whole and
/// in order; when not even the newest fits, a shortened newest message (or
/// nothing if none of it fits). `tokens` is what the kept history costs and
/// `shortened` counts the newest message when it had to be cut.
pub open spec fn history_outcome(
    tokenizer: TokenizerProfile,
    messages: Seq<ChatInput>,
    available: int,
    history: Seq<(MessageRole, Seq<char>)>,
    tokens: int,
    shortened: int,
) -> bool {
    let n = messages.len();
    exists|count: int|
        #![trigger retained_count(tokenizer, messages, available, count)]
        retained_count(tokenizer, messages, available, count) && if count > 0 || n == 0 {
            &&& history == chat_views(messages.subrange(n - count, n as int))
            &&& tokens == suffix_cost(tokenizer, messages, count)
            &&& shortened == 0
        } else {
            let newest = messages[n - 1];
            exists|cut: (Seq<char>, bool)|
                #![trigger truncation_result(tokenizer, newest.content@, available, cut)]
                truncation_result(tokenizer, newest.content@, available, cut) && if cut.0.len() > 0 {
                    &&& history == seq![(newest.role, cut.0)]
                    &&& tokens == message_cost(tokenizer, cut.0)
                    &&& shortened == (if cut.1 {
                        1int
                    } else {
                        0int
                    })
                } else {
                    &&& history.len() == 0
                    &&& tokens == 0
                    &&& shortened == 0
                }
        }
}

pub open spec fn any_truncated(audit: Seq<ContextSectionAudit>) -> bool {
    exists|i: int| 0 <= i < audit.len() && (#[trigger] audit[i]).truncated
}

/// The prepared prompt, given the system text that survived fitting, the
/// cost of the kept history and whether the newest turn was shortened.
pub open spec fn prepared_with(
    tokenizer: TokenizerProfile,
    request: ContextRequest,
    result: PreparedContext,
    system: Seq<char>,
    tokens: int,
    shortened: int,
) -> bool {
    let limit = input_limit(request.budget);
    let plan = planned_sections(request.sections);
    let messages = request.messages@;
    let audit = result.section_audit@;
    let out = chat_views(result.messages@);
    let used = if system.len() > 0 {
        message_cost(tokenizer, system)
    } else {
        0
    };
    let available = if used < limit {
        limit - used
    } else {
        0
    };
    let history = if system.len() > 0 {
        out.skip(1)
    } else {
        out
    };
    &&& plan.len() == 0 ==> system.len() == 0 && audit.len() == 0
    &&& plan.len() > 0 ==> exists|kept: Seq<Seq<char>>|
        #[trigger] fitted_sections(
            tokenizer,
            plan,
            system_budget(tokenizer, messages, limit) as usize,
            kept,
            system,
            audit,
        )
    &&& system.len() > 0 ==> out.len() > 0 && out[0] == (MessageRole::System, system)
    &&& history_outcome(tokenizer, messages, available, history, tokens, shortened)
    &&& result.omitted_messages == messages.len() - history.len()
    &&& result.estimated_input_tokens == (if used + tokens > usize::MAX {
        usize::MAX as int
    } else {
        used + tokens
    })
    &&& result.truncated_messages == (if any_truncated(audit) {
        1int
    } else {
        0int
    }) + shortened
}

/// The prepared prompt: a system message with the fitted sections when any
/// text survives, then the retained history; the counters and the audit
/// describe exactly what was kept.
pub open spec fn prepared(tokenizer: TokenizerProfile, request: ContextRequest, result: PreparedContext) -> bool {
    exists|system: Seq<char>, tokens: int, shortened: int|
        #[trigger] prepared_with(tokenizer, request, result, system, tokens, shortened)
}


fn audit_has_truncation(audit: &Vec<ContextSectionAudit>) -> (found: bool)
    ensures
        found == any_truncated(audit@),
{
    let mut i: usize = 0;
    while i < audit.len()
        invariant
            i <= audit@.len(),
            forall|j: int| 0 <= j < i ==> !(#[trigger] audit@[j]).truncated,
        decreases audit@.len() - i,
    {
        if audit[i].truncated {
            return true;
        }
        i += 1;
    }
    false
}

proof fn lemma_suffix_cost_step(tokenizer: TokenizerProfile, messages: Seq<ChatInput>, count: int)
    requires
        0 <= count < messages.len(),
    ensures
        suffix_cost(tokenizer, messages, count + 1) == suffix_cost(tokenizer, messages, count)
            + message_cost(tokenizer, messages[messages.len() - 1 - count].content@),
        suffix_cost(tokenizer, messages, count) >= 0,
        message_cost(tokenizer, messages[messages.len() - 1 - count].content@) >= MESSAGE_OVERHEAD,
    decreases count,
{
    lemma_message_cost_positive(tokenizer, messages[messages.len() - 1 - count].content@);
    if count > 0 {
        lemma_message_cost_positive(tokenizer, messages[messages.len() - count].content@);
        lemma_suffix_cost_step(tokenizer, messages, count - 1);
    }
}

proof fn lemma_token_count_nonneg(tokenizer: TokenizerProfile, text: Seq<char>)
    ensures
        token_count(tokenizer, text) >= 0,
{
    lemma_ascii_count_bound(text);
}

proof fn lemma_message_cost_positive(tokenizer: TokenizerProfile, text: Seq<char>)
    ensures
        message_cost(tokenizer, text) >= MESSAGE_OVERHEAD,
{
    lemma_token_count_nonneg(tokenizer, text);
}

/// The system text and section audit for the prompt: the planned sections
/// fitted into what the newest turn leaves of the input limit.
fn fit_system_message(
    sections: ContextSections,
    messages: &[ChatInput],
    limit: usize,
    tokenizer: &TokenizerProfile,
) -> (result: (String, Vec<ContextSectionAudit>))
    requires
        limit >= 1,
    ensures
        planned_sections(sections).len() == 0 ==> result.0@.len() == 0 && result.1@.len() == 0,
        planned_sections(sections).len() > 0 ==> exists|kept: Seq<Seq<char>>|
            #[trigger] fitted_sections(
                *tokenizer,
                planned_sections(sections),
                system_budget(*tokenizer, messages@, limit as int) as usize,
                kept,
                result.0@,
                result.1@,
            ),
{
    let raw = system_sections(sections);
    if raw.len() == 0 {
        return (String::new(), Vec::new());
    }
    let n = messages.len();
    let half = limit / 2 + limit % 2;
    let newest_reserve = if n == 0 {
        0
    } else {
        let cost = message_tokens(messages[n - 1].content.as_str(), tokenizer);
        if cost < half {
            cost
        } else {
            half
        }
    };
    let budget = limit - newest_reserve;
    assert(budget == system_budget(*tokenizer, messages@, limit as int));
    fit_system_sections(&raw, budget, tokenizer)
}

/// The newest messages that fit `available`, in chronological order; when
/// not even the newest fits, its shortened form (if anything of it fits).
/// Returns them with their cost and whether the newest turn was cut.
fn retain_history(messages: &[ChatInput], available: usize, tokenizer: &TokenizerProfile) -> (result: (
    Vec<ChatInput>,
    usize,
    usize,
))
    ensures
        history_outcome(
            *tokenizer,
            messages@,
            available as int,
            chat_views(result.0@),
            result.1 as int,
            result.2 as int,
        ),
        result.0@.len() <= messages@.len(),
{
    let n = messages.len();
    let mut count: usize = 0;
    let mut history_tokens: usize = 0;
    while count < n
        invariant_except_break
            count <= n,
        invariant
            n == messages@.len(),
            count <= n,
            history_tokens == suffix_cost(*tokenizer, messages@, count as int),
            history_tokens <= available,
        ensures
            retained_count(*tokenizer, messages@, available as int, count as int),
            history_tokens == suffix_cost(*tokenizer, messages@, count as int),
        decreases n - count,
    {
        let tokens = message_tokens(messages[n - 1 - count].content.as_str(), tokenizer);
        proof {
            lemma_suffix_cost_step(*tokenizer, messages@, count as int);
        }
        if tokens > available - history_tokens {
            break;
        }
        history_tokens = history_tokens + tokens;
        count += 1;
    }
    let mut kept: Vec<ChatInput> = Vec::new();
    if count == 0 && n > 0 {
        let newest = &messages[n - 1];
        let (content, was_truncated) = truncate_message_content(newest.content.as_str(), available, tokenizer);
        let ghost cut = (content@, was_truncated);
        proof {
            assert(retained_count(*tokenizer, messages@, available as int, 0));
        }
        if content.as_str().is_empty() {
            assert(chat_views(kept@) =~= Seq::empty());
            return (kept, 0, 0);
        }
        let tokens = message_tokens(content.as_str(), tokenizer);
        let shortened: usize = if was_truncated {
            1
        } else {
            0
        };
        kept.push(ChatInput { role: newest.role, content });
        assert(chat_views(kept@) =~= seq![(newest.role, cut.0)]);
        return (kept, tokens, shortened);
    }
    let mut j: usize = n - count;
    while j < n
        invariant
            n == messages@.len(),
            count <= n,
            n - count <= j <= n,
            chat_views(kept@) == chat_views(messages@.subrange(n - count, j as int)),
        decreases n - j,
    {
        let ghost before = kept@;
        kept.push(messages[j].copy());
        proof {
            assert(chat_views(messages@.subrange(n - count, j + 1)) =~= chat_views(
                messages@.subrange(n - count, j as int),
            ).push(chat_view(messages@[j as int])));
            assert(chat_views(kept@) =~= chat_views(before).push(chat_view(messages@[j as int])));
        }
        j += 1;
    }
    proof {
        assert(retained_count(*tokenizer, messages@, available as int, count as int));
    }
    (kept, history_tokens, 0)
}

/// Builds the prompt: the fitted system sections, then the newest complete
/// messages that fit the input budget, counted with `tokenizer` (an unknown
/// model mapping falls back to the conservative estimate).
pub fn prepare_context_with_tokenizer(request: ContextRequest, tokenizer: &TokenizerProfile) -> (result: PreparedContext)
    ensures
        prepared(*tokenizer, request, result),
{
    let after_reserve = request.budget.context_window.saturating_sub(request.budget.reserve_output_tokens);
    let mut limit = after_reserve.saturating_sub(CONTEXT_SAFETY_MARGIN);
    if limit < 1 {
        limit = 1;
    }
    assert(limit == input_limit(request.budget));
    let messages = request.messages;
    let (system_content, section_audit) = fit_system_message(request.sections, messages, limit, tokenizer);
    let ghost system = system_content@;
    let ghost audit_g = section_audit@;
    let truncated_sections: usize = if audit_has_truncation(&section_audit) {
        1
    } else {
        0
    };
    let mut selected: Vec<ChatInput> = Vec::new();
    let mut used: usize = 0;
    if !system_content.as_str().is_empty() {
        used = message_tokens(system_content.as_str(), tokenizer);
        selected.push(ChatInput { role: MessageRole::System, content: system_content });
    }
    let ghost prefix = chat_views(selected@);
    let available = limit.saturating_sub(used);
    let (mut history, history_tokens, shortened) = retain_history(messages, available, tokenizer);
    let ghost hist = chat_views(history@);
    let retained = history.len();
    selected.append(&mut history);
    proof {
        assert(chat_views(selected@) =~= prefix + hist);
        assert((prefix + hist).skip(prefix.len() as int) =~= hist);
        assert(prefix.len() == 0 ==> prefix + hist =~= hist);
    }
    let result = PreparedContext {
        messages: selected,
        estimated_input_tokens: used.saturating_add(history_tokens),
        omitted_messages: messages.len() - retained,
        truncated_messages: truncated_sections + shortened,
        section_audit,
    };
    proof {
        let limit_i = input_limit(request.budget);
        let out = chat_views(result.messages@);
        let used_i = if system.len() > 0 { message_cost(*tokenizer, system) } else { 0 };
        let available_i = if used_i < limit_i { limit_i - used_i } else { 0 };
        let history_i = if system.len() > 0 { out.skip(1) } else { out };
        assert(used == used_i);
        assert(available == available_i);
        assert(history_i == hist);
        assert(system.len() > 0 ==> out.len() > 0 && out[0] == (MessageRole::System, system));
        assert(history_outcome(*tokenizer, request.messages@, available_i, history_i, history_tokens as int, shortened as int));
        assert(result.omitted_messages == request.messages@.len() - history_i.len());
        let plan = planned_sections(request.sections);
        assert(plan.len() == 0 ==> system.len() == 0 && result.section_audit@.len() == 0);
        if plan.len() > 0 {
            let budget_i = system_budget(*tokenizer, messages@, limit as int) as usize;
            let kept = choose|kept: Seq<Seq<char>>|
                #[trigger] fitted_sections(*tokenizer, plan, budget_i, kept, system, audit_g);
            assert(fitted_sections(*tokenizer, plan, budget_i, kept, system, audit_g));
            assert(result.section_audit@ == audit_g);
            assert(budget_i == system_budget(*tokenizer, request.messages@, limit_i) as usize);
        }
        assert(plan.len() > 0 ==> exists|kept: Seq<Seq<char>>|
            #[trigger] fitted_sections(
                *tokenizer,
                plan,
                system_budget(*tokenizer, request.messages@, limit_i) as usize,
                kept,
                system,
                result.section_audit@,
            ));
        assert(result.estimated_input_tokens == (if used_i + history_tokens > usize::MAX {
            usize::MAX as int
        } else {
            used_i + history_tokens
        }));
        assert(result.truncated_messages == (if any_truncated(result.section_audit@) {
            1int
        } else {
            0int
        }) + shortened);
    }
    assert(prepared_with(*tokenizer, request, result, system, history_tokens as int, shortened as int));
    result
}

/// Builds the prompt with the conservative estimator, which over-counts CJK
/// text so an unknown tokenizer is less likely to overflow the provider limit.
pub fn prepare_context(request: ContextRequest) -> (result: PreparedContext)
    ensures
        prepared(TokenizerProfile::Conservative, request, result),
{
    prepare_context_with_tokenizer(request, &TokenizerProfile::Conservative)
}


// ---------------------------------------------------------------------------
// Laws
// ---------------------------------------------------------------------------

/// Every non-empty text counts at least one token.
pub open spec fn counts_nonempty(tokenizer: TokenizerProfile) -> bool {
    forall|s: Seq<char>| s.len() > 0 ==> #[trigger] token_count(tokenizer, s) >= 1
}

proof fn lemma_estimate_nonempty(s: Seq<char>)
    requires
        s.len() > 0,
    ensures
        spec_estimate_tokens(s) >= 1,
{
    lemma_ascii_count_bound(s);
}

/// The conservative estimator never counts a non-empty text as free.
pub proof fn lemma_conservative_counts_nonempty()
    ensures
        counts_nonempty(TokenizerProfile::Conservative),
{
    assert forall|s: Seq<char>| s.len() > 0 implies #[trigger] token_count(
        TokenizerProfile::Conservative,
        s,
    ) >= 1 by {
        lemma_estimate_nonempty(s);
    }
}

proof fn lemma_history_within(
    tokenizer: TokenizerProfile,
    messages: Seq<ChatInput>,
    available: int,
    history: Seq<(MessageRole, Seq<char>)>,
    tokens: int,
    shortened: int,
)
    requires
        history_outcome(tokenizer, messages, available, history, tokens, shortened),
        available <= usize::MAX,
    ensures
        0 <= tokens <= available,
{
    let n = messages.len();
    let count = choose|count: int|
        #![trigger retained_count(tokenizer, messages, available, count)]
        retained_count(tokenizer, messages, available, count) && if count > 0 || n == 0 {
            &&& history == chat_views(messages.subrange(n - count, n as int))
            &&& tokens == suffix_cost(tokenizer, messages, count)
            &&& shortened == 0
        } else {
            let newest = messages[n - 1];
            exists|cut: (Seq<char>, bool)|
                #![trigger truncation_result(tokenizer, newest.content@, available, cut)]
                truncation_result(tokenizer, newest.content@, available, cut) && if cut.0.len() > 0 {
                    &&& history == seq![(newest.role, cut.0)]
                    &&& tokens == message_cost(tokenizer, cut.0)
                    &&& shortened == (if cut.1 {
                        1int
                    } else {
                        0int
                    })
                } else {
                    &&& history.len() == 0
                    &&& tokens == 0
                    &&& shortened == 0
                }
        };
    if count > 0 || n == 0 {
        if count > 0 {
            lemma_suffix_cost_step(tokenizer, messages, count - 1);
        }
    } else {
        let newest = messages[n - 1];
        let cut = choose|cut: (Seq<char>, bool)|
            #![trigger truncation_result(tokenizer, newest.content@, available, cut)]
            truncation_result(tokenizer, newest.content@, available, cut) && if cut.0.len() > 0 {
                &&& history == seq![(newest.role, cut.0)]
                &&& tokens == message_cost(tokenizer, cut.0)
                &&& shortened == (if cut.1 {
                    1int
                } else {
                    0int
                })
            } else {
                &&& history.len() == 0
                &&& tokens == 0
                &&& shortened == 0
            };
        if cut.0.len() > 0 {
            lemma_message_cost_positive(tokenizer, cut.0);
            let value = newest.content@;
            if !(value.len() == 0 || available <= MESSAGE_OVERHEAD) && token_count(tokenizer, value)
                > available - MESSAGE_OVERHEAD && token_count(tokenizer, ellipsis()) <= available
                - MESSAGE_OVERHEAD {
                let keep = choose|keep: int|
                    is_best_truncation(tokenizer, value, available - MESSAGE_OVERHEAD, keep)
                        && cut.0 == #[trigger] truncation_candidate(value, keep);
                assert(token_count(tokenizer, cut.0) <= available - MESSAGE_OVERHEAD);
            }
        }
    }
}

proof fn lemma_system_within(
    tokenizer: TokenizerProfile,
    plan: Seq<(Seq<char>, Seq<char>, usize)>,
    budget: usize,
    kept: Seq<Seq<char>>,
    system: Seq<char>,
    audit: Seq<ContextSectionAudit>,
)
    requires
        fitted_sections(tokenizer, plan, budget, kept, system, audit),
        counts_nonempty(tokenizer),
        system.len() > 0,
    ensures
        message_cost(tokenizer, system) <= budget,
{
    assert(token_count(tokenizer, system) >= 1);
}

/// A prepared prompt never exceeds the input limit, for a tokenizer that
/// counts every non-empty text as at least one token.
pub proof fn lemma_prepared_within_limit(
    tokenizer: TokenizerProfile,
    request: ContextRequest,
    result: PreparedContext,
)
    requires
        prepared(tokenizer, request, result),
        counts_nonempty(tokenizer),
    ensures
        result.estimated_input_tokens <= input_limit(request.budget),
{
    let (system, tokens, shortened) = choose|system: Seq<char>, tokens: int, shortened: int|
        #[trigger] prepared_with(tokenizer, request, result, system, tokens, shortened);
    let limit = input_limit(request.budget);
    let messages = request.messages@;
    let plan = planned_sections(request.sections);
    let out = chat_views(result.messages@);
    let used = if system.len() > 0 {
        message_cost(tokenizer, system)
    } else {
        0
    };
    let available = if used < limit {
        limit - used
    } else {
        0
    };
    let history = if system.len() > 0 {
        out.skip(1)
    } else {
        out
    };
    lemma_history_within(tokenizer, messages, available, history, tokens, shortened);
    if system.len() > 0 {
        let kept = choose|kept: Seq<Seq<char>>|
            #[trigger] fitted_sections(
                tokenizer,
                plan,
                system_budget(tokenizer, messages, limit) as usize,
                kept,
                system,
                result.section_audit@,
            );
        lemma_system_within(
            tokenizer,
            plan,
            system_budget(tokenizer, messages, limit) as usize,
            kept,
            system,
            result.section_audit@,
        );
        if messages.len() > 0 {
            lemma_message_cost_positive(tokenizer, messages.last().content@);
        }
    }
}

/// The newest turn is never crowded out by the system sections: when it
/// costs at most half the input limit (rounded up) it ends the prompt whole,
/// for a tokenizer that counts every non-empty text as at least one token.
pub proof fn lemma_newest_turn_kept(
    tokenizer: TokenizerProfile,
    request: ContextRequest,
    result: PreparedContext,
)
    requires
        prepared(tokenizer, request, result),
        counts_nonempty(tokenizer),
        request.messages@.len() > 0,
        message_cost(tokenizer, request.messages@.last().content@) <= (input_limit(request.budget) + 1) / 2,
    ensures
        result.messages@.len() > 0,
        chat_view(result.messages@.last()) == chat_view(request.messages@.last()),
{
    let (system, tokens, shortened) = choose|system: Seq<char>, tokens: int, shortened: int|
        #[trigger] prepared_with(tokenizer, request, result, system, tokens, shortened);
    let limit = input_limit(request.budget);
    let messages = request.messages@;
    let n = messages.len();
    let plan = planned_sections(request.sections);
    let out = chat_views(result.messages@);
    let used = if system.len() > 0 {
        message_cost(tokenizer, system)
    } else {
        0
    };
    let available = if used < limit {
        limit - used
    } else {
        0
    };
    let history = if system.len() > 0 {
        out.skip(1)
    } else {
        out
    };
    let newest_cost = message_cost(tokenizer, messages.last().content@);
    if system.len() > 0 {
        let kept = choose|kept: Seq<Seq<char>>|
            #[trigger] fitted_sections(
                tokenizer,
                plan,
                system_budget(tokenizer, messages, limit) as usize,
                kept,
                system,
                result.section_audit@,
            );
        lemma_system_within(
            tokenizer,
            plan,
            system_budget(tokenizer, messages, limit) as usize,
            kept,
            system,
            result.section_audit@,
        );
        lemma_message_cost_positive(tokenizer, messages.last().content@);
    }
    assert(available >= newest_cost);
    lemma_suffix_cost_step(tokenizer, messages, 0);
    assert(suffix_cost(tokenizer, messages, 1) == newest_cost);
    let count = choose|count: int|
        #![trigger retained_count(tokenizer, messages, available, count)]
        retained_count(tokenizer, messages, available, count) && if count > 0 || n == 0 {
            &&& history == chat_views(messages.subrange(n - count, n as int))
            &&& tokens == suffix_cost(tokenizer, messages, count)
            &&& shortened == 0
        } else {
            let newest = messages[n - 1];
            exists|cut: (Seq<char>, bool)|
                #![trigger truncation_result(tokenizer, newest.content@, available, cut)]
                truncation_result(tokenizer, newest.content@, available, cut) && if cut.0.len() > 0 {
                    &&& history == seq![(newest.role, cut.0)]
                    &&& tokens == message_cost(tokenizer, cut.0)
                    &&& shortened == (if cut.1 {
                        1int
                    } else {
                        0int
                    })
                } else {
                    &&& history.len() == 0
                    &&& tokens == 0
                    &&& shortened == 0
                }
        };
    assert(count > 0);
    let tail = messages.subrange(n - count, n as int);
    assert(history.len() == count);
    assert(history.last() == chat_view(tail.last()));
    assert(tail.last() == messages.last());
    if system.len() > 0 {
        assert(out.last() == history.last());
    }
    assert(out.last() == chat_view(result.messages@.last()));
}

} // verus!
