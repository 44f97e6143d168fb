//! Memory retrieval planning: validating the scopes and Spaces a retrieval
//! reads from, and dividing the token budget among them by weight.

use vstd::prelude::*;

use crate::api::{RuntimeApiError, RuntimeApiErrorKind};
use crate::ids::{parse_uuid, uuid_parse};
use crate::text::{all_ws, char_count, is_blank};

verus! {

pub const MAX_MEMORY_SCOPES: usize = 8;

pub const MAX_MEMORY_SPACES: usize = 16;

/// Share of a hybrid retrieval budget that current memory documents may use
/// before the semantic graph runs, in percent.
pub const HYBRID_DMW_BUDGET_PERCENT: usize = 60;

// ---------------------------------------------------------------------------
// Arithmetic of weighted shares
// ---------------------------------------------------------------------------

pub open spec fn seq_sum(s: Seq<int>) -> int
    decreases s.len(),
{
    if s.len() == 0 {
        0
    } else {
        seq_sum(s.drop_last()) + s.last()
    }
}

/// The extra tokens slot `i` of `len` slots gets when `count` tokens are
/// dealt out one by one in turn.
pub open spec fn round_robin(count: int, len: int, i: int) -> int {
    count / len + if i < count % len {
        1int
    } else {
        0int
    }
}

proof fn lemma_sum_pointwise(a: Seq<int>, b: Seq<int>)
    requires
        a.len() == b.len(),
    ensures
        seq_sum(Seq::new(a.len(), |i: int| a[i] + b[i])) == seq_sum(a) + seq_sum(b),
    decreases a.len(),
{
    let c = Seq::new(a.len(), |i: int| a[i] + b[i]);
    if a.len() > 0 {
        let a2 = a.drop_last();
        let b2 = b.drop_last();
        lemma_sum_pointwise(a2, b2);
        assert(c.drop_last() =~= Seq::new(a2.len(), |i: int| a2[i] + b2[i]));
    }
}

proof fn lemma_round_robin_prefix(count: int, len: int, k: int)
    requires
        count >= 0,
        len > 0,
        0 <= k <= len,
    ensures
        seq_sum(Seq::new(k as nat, |i: int| round_robin(count, len, i))) == k * (count / len) + if k
            < count % len {
            k
        } else {
            count % len
        },
    decreases k,
{
    let s = Seq::new(k as nat, |i: int| round_robin(count, len, i));
    if k > 0 {
        lemma_round_robin_prefix(count, len, k - 1);
        assert(s.drop_last() =~= Seq::new((k - 1) as nat, |i: int| round_robin(count, len, i)));
        assert(s.last() == round_robin(count, len, k - 1));
        assert(seq_sum(s) == seq_sum(s.drop_last()) + s.last());
        assert(k * (count / len) == (k - 1) * (count / len) + count / len) by (nonlinear_arith);
        let prev = Seq::new((k - 1) as nat, |i: int| round_robin(count, len, i));
        assert(seq_sum(prev) == (k - 1) * (count / len) + if k - 1 < count % len {
            k - 1
        } else {
            count % len
        });
        assert(seq_sum(s) == seq_sum(prev) + round_robin(count, len, k - 1));
    } else {
        assert(k * (count / len) == 0) by (nonlinear_arith)
            requires
                k == 0,
        ;
        assert(count % len >= 0) by (nonlinear_arith)
            requires
                len > 0,
        ;
    }
}

/// Dealing out `count` tokens in turn hands out all of them.
proof fn lemma_round_robin_total(count: int, len: int)
    requires
        count >= 0,
        len > 0,
    ensures
        seq_sum(Seq::new(len as nat, |i: int| round_robin(count, len, i))) == count,
{
    lemma_round_robin_prefix(count, len, len);
    assert(count % len < len) by (nonlinear_arith)
        requires
            len > 0,
    ;
    assert(len * (count / len) + count % len == count) by (nonlinear_arith)
        requires
            len > 0,
    ;
}

/// Shares whose each part is at most its weighted portion add up to at most
/// the whole.
proof fn lemma_shares_bounded(shares: Seq<int>, weights: Seq<int>, total: int, whole: int)
    requires
        shares.len() == weights.len(),
        total > 0,
        whole >= 0,
        forall|i: int| 0 <= i < shares.len() ==> #[trigger] shares[i] * total <= whole * weights[i],
    ensures
        seq_sum(shares) * total <= whole * seq_sum(weights),
    decreases shares.len(),
{
    if shares.len() > 0 {
        let s2 = shares.drop_last();
        let w2 = weights.drop_last();
        assert forall|i: int| 0 <= i < s2.len() implies #[trigger] s2[i] * total <= whole * w2[i] by {
            assert(shares[i] * total <= whole * weights[i]);
        }
        lemma_shares_bounded(s2, w2, total, whole);
        let a = seq_sum(s2);
        let b = seq_sum(w2);
        let x = shares.last();
        let y = weights.last();
        assert(x * total <= whole * y);
        assert((a + x) * total == a * total + x * total) by (nonlinear_arith);
        assert(whole * (b + y) == whole * b + whole * y) by (nonlinear_arith);
    }
}

/// Shares whose each part is more than its weighted portion less one add
/// up to more than the whole less the number of parts.
proof fn lemma_shares_nearly_whole(shares: Seq<int>, weights: Seq<int>, total: int, whole: int)
    requires
        shares.len() == weights.len(),
        total > 0,
        forall|i: int| 0 <= i < shares.len() ==> #[trigger] shares[i] * total > whole * weights[i] - total,
    ensures
        shares.len() > 0 ==> seq_sum(shares) * total > whole * seq_sum(weights) - shares.len() * total,
    decreases shares.len(),
{
    if shares.len() > 0 {
        let s2 = shares.drop_last();
        let w2 = weights.drop_last();
        assert forall|i: int| 0 <= i < s2.len() implies #[trigger] s2[i] * total > whole * w2[i] - total by {
            assert(shares[i] * total > whole * weights[i] - total);
        }
        lemma_shares_nearly_whole(s2, w2, total, whole);
        let a = seq_sum(s2);
        let b = seq_sum(w2);
        let x = shares.last();
        let y = weights.last();
        let n = s2.len() as int;
        assert((a + x) * total == a * total + x * total) by (nonlinear_arith);
        assert(whole * (b + y) == whole * b + whole * y) by (nonlinear_arith);
        assert((n + 1) * total == n * total + total) by (nonlinear_arith);
        if n == 0 {
            assert(a == 0);
            assert(b == 0);
            assert(a * total == 0) by (nonlinear_arith)
                requires
                    a == 0,
            ;
            assert(whole * b == 0) by (nonlinear_arith)
                requires
                    b == 0,
            ;
        }
    }
}

// ---------------------------------------------------------------------------
// Scopes
// ---------------------------------------------------------------------------

/// A client-defined memory namespace taking part in one retrieval.
#[derive(Debug, Clone)]
pub struct MemoryScopeSource {
    pub scope_id: String,
    pub label: String,
    pub weight: usize,
}

pub const DEFAULT_SCOPE_WEIGHT: usize = 1;

pub open spec fn label_valid(label: Seq<char>) -> bool {
    !all_ws(label) && label.len() <= 64
}

/// The id of an earlier source parses to the same UUID.
pub open spec fn uuid_seen_before(ids: Seq<Seq<char>>, i: int, value: u128) -> bool {
    exists|j: int| 0 <= j < i && uuid_parse(#[trigger] ids[j]) == Ok::<u128, Seq<char>>(value)
}

pub open spec fn scope_ids(sources: Seq<MemoryScopeSource>) -> Seq<Seq<char>> {
    sources.map_values(|s: MemoryScopeSource| s.scope_id@)
}

/// What is wrong with scope `i`, given the scopes before it passed.
pub open spec fn scope_problem(sources: Seq<MemoryScopeSource>, i: int) -> Option<Seq<char>> {
    let source = sources[i];
    match uuid_parse(source.scope_id@) {
        Err(message) => Some(message),
        Ok(value) => if uuid_seen_before(scope_ids(sources), i, value) {
            Some("memory retrieval scopes must be unique"@)
        } else if !label_valid(source.label@) {
            Some("memory scope labels must contain 1 to 64 characters"@)
        } else if source.weight == 0 || source.weight > 1000 {
            Some("memory scope weights must be between 1 and 1000"@)
        } else {
            None
        },
    }
}

/// The first scope with a problem reports it.
pub open spec fn first_scope_problem(sources: Seq<MemoryScopeSource>, i: int, message: Seq<char>) -> bool {
    &&& 0 <= i < sources.len()
    &&& scope_problem(sources, i) == Some(message)
    &&& forall|j: int| 0 <= j < i ==> #[trigger] scope_problem(sources, j) is None
}

fn seen_uuid(seen: &Vec<u128>, value: u128) -> (found: bool)
    ensures
        found == seen@.contains(value),
{
    let mut k: usize = 0;
    while k < seen.len()
        invariant
            k <= seen@.len(),
            forall|j: int| 0 <= j < k ==> seen@[j] != value,
        decreases seen@.len() - k,
    {
        if seen[k] == value {
            assert(seen@[k as int] == value);
            return true;
        }
        k += 1;
    }
    false
}

fn reject_scope(message: String, Ghost(sources): Ghost<Seq<MemoryScopeSource>>, Ghost(i): Ghost<int>) -> (result: Result<(), String>)
    requires
        first_scope_problem(sources, i, message@),
    ensures
        result is Err,
        exists|k: int| #[trigger] first_scope_problem(sources, k, result->Err_0@),
{
    let result: Result<(), String> = Err(message);
    assert(first_scope_problem(sources, i, result->Err_0@));
    result
}

/// Checks the scopes of a retrieval: one to eight, each with a UUID used
/// once, a label of 1 to 64 characters and a weight of 1 to 1000.
pub fn validate_memory_scopes(sources: &[MemoryScopeSource]) -> (result: Result<(), String>)
    ensures
        sources@.len() == 0 || sources@.len() > MAX_MEMORY_SCOPES ==> (result matches Err(message)
            && message@ == "memory retrieval requires between 1 and 8 scopes"@),
        0 < sources@.len() <= MAX_MEMORY_SCOPES && result is Ok ==> forall|i: int|
            0 <= i < sources@.len() ==> #[trigger] scope_problem(sources@, i) is None,
        0 < sources@.len() <= MAX_MEMORY_SCOPES && result is Err ==> exists|i: int|
            #[trigger] first_scope_problem(sources@, i, result->Err_0@),
{
    if sources.len() == 0 || sources.len() > MAX_MEMORY_SCOPES {
        return Err(String::from_str("memory retrieval requires between 1 and 8 scopes"));
    }
    let ghost ids = scope_ids(sources@);
    let mut seen: Vec<u128> = Vec::new();
    let mut i: usize = 0;
    while i < sources.len()
        invariant
            0 < sources@.len() <= MAX_MEMORY_SCOPES,
            ids == scope_ids(sources@),
            i <= sources@.len(),
            seen@.len() == i,
            forall|j: int| 0 <= j < i ==> #[trigger] scope_problem(sources@, j) is None,
            forall|j: int| 0 <= j < i ==> uuid_parse(#[trigger] ids[j]) == Ok::<u128, Seq<char>>(seen@[j]),
        decreases sources@.len() - i,
    {
        let source = &sources[i];
        assert(ids[i as int] == source.scope_id@);
        let value = match parse_uuid(source.scope_id.as_str()) {
            Ok(value) => value,
            Err(message) => {
                return reject_scope(message, Ghost(sources@), Ghost(i as int));
            },
        };
        let duplicate = seen_uuid(&seen, value);
        proof {
            if duplicate {
                let j = choose|j: int| 0 <= j < seen@.len() && seen@[j] == value;
                assert(uuid_parse(ids[j]) == Ok::<u128, Seq<char>>(value));
                assert(uuid_seen_before(ids, i as int, value));
            } else {
                assert forall|j: int| 0 <= j < i implies uuid_parse(#[trigger] ids[j])
                    != Ok::<u128, Seq<char>>(value) by {
                    assert(seen@[j] != value);
                }
            }
        }
        if duplicate {
            let message = String::from_str("memory retrieval scopes must be unique");
            return reject_scope(message, Ghost(sources@), Ghost(i as int));
        }
        if is_blank(source.label.as_str()) || char_count(source.label.as_str()) > 64 {
            let message = String::from_str("memory scope labels must contain 1 to 64 characters");
            return reject_scope(message, Ghost(sources@), Ghost(i as int));
        }
        if source.weight == 0 || source.weight > 1000 {
            let message = String::from_str("memory scope weights must be between 1 and 1000");
            return reject_scope(message, Ghost(sources@), Ghost(i as int));
        }
        assert(scope_problem(sources@, i as int) is None);
        seen.push(value);
        i += 1;
    }
    Ok(())
}

pub open spec fn scope_weights(sources: Seq<MemoryScopeSource>) -> Seq<int> {
    sources.map_values(|s: MemoryScopeSource| s.weight as int)
}

pub open spec fn saturating_product(a: usize, b: usize) -> int {
    if a * b > usize::MAX {
        usize::MAX as int
    } else {
        a * b
    }
}

/// Each scope's floor share of the budget by weight (the product saturating).
pub open spec fn scope_shares(sources: Seq<MemoryScopeSource>, max_tokens: usize) -> Seq<int> {
    Seq::new(
        sources.len(),
        |i: int| saturating_product(max_tokens, sources[i].weight) / seq_sum(scope_weights(sources)),
    )
}

/// The budget of each scope: its floor share, then the tokens left dealt out
/// one by one from the first scope on.
pub open spec fn scope_budgets(sources: Seq<MemoryScopeSource>, max_tokens: usize) -> Seq<int> {
    let shares = scope_shares(sources, max_tokens);
    let left = max_tokens - seq_sum(shares);
    Seq::new(sources.len(), |i: int| shares[i] + round_robin(left, sources.len() as int, i))
}

proof fn lemma_weights_nonneg(weights: Seq<int>)
    requires
        forall|i: int| 0 <= i < weights.len() ==> #[trigger] weights[i] >= 0,
    ensures
        seq_sum(weights) >= 0,
    decreases weights.len(),
{
    if weights.len() > 0 {
        lemma_weights_nonneg(weights.drop_last());
    }
}

proof fn lemma_scope_shares_within(sources: Seq<MemoryScopeSource>, max_tokens: usize)
    requires
        seq_sum(scope_weights(sources)) > 0,
    ensures
        0 <= seq_sum(scope_shares(sources, max_tokens)) <= max_tokens,
        forall|i: int| 0 <= i < sources.len() ==> #[trigger] scope_shares(sources, max_tokens)[i] >= 0,
{
    let shares = scope_shares(sources, max_tokens);
    let weights = scope_weights(sources);
    let total = seq_sum(weights);
    assert forall|i: int| 0 <= i < shares.len() implies #[trigger] shares[i] * total <= max_tokens
        * weights[i] by {
        let p = saturating_product(max_tokens, sources[i].weight);
        assert(weights[i] == sources[i].weight);
        assert(p <= max_tokens * weights[i]) by (nonlinear_arith)
            requires
                p == (if max_tokens * sources[i].weight > usize::MAX {
                    usize::MAX as int
                } else {
                    max_tokens * sources[i].weight
                }),
                weights[i] == sources[i].weight,
        ;
        assert((p / total) * total <= p) by (nonlinear_arith)
            requires
                total > 0,
                p >= 0,
        ;
    }
    assert forall|i: int| 0 <= i < sources.len() implies #[trigger] shares[i] >= 0 by {
        let p = saturating_product(max_tokens, sources[i].weight);
        assert(p / total >= 0) by (nonlinear_arith)
            requires
                total > 0,
                p >= 0,
        ;
    }
    lemma_shares_bounded(shares, weights, total, max_tokens as int);
    lemma_weights_nonneg(shares);
    assert(seq_sum(shares) <= max_tokens) by (nonlinear_arith)
        requires
            seq_sum(shares) * total <= max_tokens * total,
            total > 0,
    ;
}

/// The scope budgets give out exactly the whole budget.
pub proof fn lemma_scope_budgets_conserve(sources: Seq<MemoryScopeSource>, max_tokens: usize)
    requires
        sources.len() > 0,
        seq_sum(scope_weights(sources)) > 0,
    ensures
        seq_sum(scope_budgets(sources, max_tokens)) == max_tokens,
{
    let shares = scope_shares(sources, max_tokens);
    let left = max_tokens - seq_sum(shares);
    let n = sources.len() as int;
    lemma_scope_shares_within(sources, max_tokens);
    let extra = Seq::new(sources.len(), |i: int| round_robin(left, n, i));
    lemma_sum_pointwise(shares, extra);
    assert(scope_budgets(sources, max_tokens) =~= Seq::new(shares.len(), |i: int| shares[i] + extra[i]));
    lemma_round_robin_total(left, n);
}


proof fn lemma_prefix_sum_step(s: Seq<int>, i: int)
    requires
        0 <= i < s.len(),
    ensures
        seq_sum(s.subrange(0, i + 1)) == seq_sum(s.subrange(0, i)) + s[i],
{
    assert(s.subrange(0, i + 1).drop_last() =~= s.subrange(0, i));
}

proof fn lemma_prefix_sum_bounded(s: Seq<int>, i: int)
    requires
        0 <= i <= s.len(),
        forall|j: int| 0 <= j < s.len() ==> #[trigger] s[j] >= 0,
    ensures
        0 <= seq_sum(s.subrange(0, i)) <= seq_sum(s),
        i < s.len() ==> seq_sum(s.subrange(0, i)) + s[i] <= seq_sum(s),
    decreases s.len() - i,
{
    if i == s.len() {
        assert(s.subrange(0, i) =~= s);
        lemma_weights_nonneg(s);
    } else {
        lemma_prefix_sum_bounded(s, i + 1);
        lemma_prefix_sum_step(s, i);
        lemma_weights_nonneg(s.subrange(0, i));
    }
}

fn total_scope_weight(sources: &[MemoryScopeSource]) -> (total: usize)
    requires
        seq_sum(scope_weights(sources@)) <= usize::MAX,
    ensures
        total == seq_sum(scope_weights(sources@)),
{
    let ghost weights = scope_weights(sources@);
    let mut total: usize = 0;
    let mut i: usize = 0;
    while i < sources.len()
        invariant
            weights == scope_weights(sources@),
            seq_sum(weights) <= usize::MAX,
            i <= sources@.len(),
            total == seq_sum(weights.subrange(0, i as int)),
        decreases sources@.len() - i,
    {
        proof {
            lemma_prefix_sum_step(weights, i as int);
            lemma_prefix_sum_bounded(weights, i as int);
        }
        total = total + sources[i].weight;
        i += 1;
    }
    assert(weights.subrange(0, i as int) =~= weights);
    total
}

/// Divides `max_tokens` among the scopes by weight: each gets its floor
/// share, then the tokens left are dealt out one by one from the first.
pub fn weighted_scope_budgets(sources: &[MemoryScopeSource], max_tokens: usize) -> (budgets: Vec<usize>)
    requires
        sources@.len() > 0,
        0 < seq_sum(scope_weights(sources@)) <= usize::MAX,
    ensures
        budgets@.len() == sources@.len(),
        forall|i: int| 0 <= i < sources@.len() ==> budgets@[i] == #[trigger] scope_budgets(sources@, max_tokens)[i],
{
    let n = sources.len();
    let total = total_scope_weight(sources);
    let ghost shares = scope_shares(sources@, max_tokens);
    proof {
        lemma_scope_shares_within(sources@, max_tokens);
    }
    let mut parts: Vec<usize> = Vec::new();
    let mut assigned: usize = 0;
    let mut i: usize = 0;
    while i < n
        invariant
            n == sources@.len(),
            total == seq_sum(scope_weights(sources@)),
            total > 0,
            shares == scope_shares(sources@, max_tokens),
            seq_sum(shares) <= max_tokens,
            forall|j: int| 0 <= j < n ==> #[trigger] shares[j] >= 0,
            i <= n,
            parts@.len() == i,
            forall|j: int| 0 <= j < i ==> parts@[j] == #[trigger] shares[j],
            assigned == seq_sum(shares.subrange(0, i as int)),
        decreases n - i,
    {
        let product = match max_tokens.checked_mul(sources[i].weight) {
            Some(v) => v,
            None => usize::MAX,
        };
        let share = product / total;
        proof {
            lemma_prefix_sum_step(shares, i as int);
            lemma_prefix_sum_bounded(shares, i as int);
        }
        parts.push(share);
        assigned = assigned + share;
        i += 1;
    }
    assert(shares.subrange(0, n as int) =~= shares);
    let left = max_tokens - assigned;
    let each = left / n;
    let extra = left % n;
    let ghost budgets_spec = scope_budgets(sources@, max_tokens);
    proof {
        lemma_scope_budgets_conserve(sources@, max_tokens);
        assert forall|j: int| 0 <= j < n implies #[trigger] budgets_spec[j] >= 0 by {
            assert((left as int) / (n as int) >= 0) by (nonlinear_arith)
                requires
                    left >= 0,
                    n > 0,
            ;
        }
    }
    let mut budgets: Vec<usize> = Vec::new();
    let mut k: usize = 0;
    while k < n
        invariant
            n == sources@.len(),
            n > 0,
            parts@.len() == n,
            forall|j: int| 0 <= j < n ==> parts@[j] == #[trigger] shares[j],
            budgets_spec == scope_budgets(sources@, max_tokens),
            shares == scope_shares(sources@, max_tokens),
            left == max_tokens - seq_sum(shares),
            each == (left as int) / (n as int),
            extra == (left as int) % (n as int),
            seq_sum(budgets_spec) == max_tokens,
            forall|j: int| 0 <= j < n ==> #[trigger] budgets_spec[j] >= 0,
            k <= n,
            budgets@.len() == k,
            forall|j: int| 0 <= j < k ==> budgets@[j] == #[trigger] budgets_spec[j],
        decreases n - k,
    {
        proof {
            lemma_prefix_sum_bounded(budgets_spec, k as int);
        }
        let bonus: usize = if k < extra {
            1
        } else {
            0
        };
        budgets.push(parts[k] + each + bonus);
        k += 1;
    }
    budgets
}


// ---------------------------------------------------------------------------
// Spaces
// ---------------------------------------------------------------------------

/// A memory Space taking part in one retrieval, with the stores to read.
#[derive(Debug, Clone)]
pub struct MemorySpaceSource {
    pub space_id: String,
    pub label: String,
    pub weight: u8,
    pub memory: bool,
    pub semantic_graph: bool,
}

pub open spec fn space_ids(sources: Seq<MemorySpaceSource>) -> Seq<Seq<char>> {
    sources.map_values(|s: MemorySpaceSource| s.space_id@)
}

/// What is wrong with Space `i`, given the Spaces before it passed.
pub open spec fn space_problem(sources: Seq<MemorySpaceSource>, i: int) -> Option<Seq<char>> {
    let source = sources[i];
    match uuid_parse(source.space_id@) {
        Err(message) => Some(message),
        Ok(value) => if uuid_seen_before(space_ids(sources), i, value) {
            Some("memory retrieval Spaces must be unique"@)
        } else if !label_valid(source.label@) {
            Some("memory Space labels must contain 1 to 64 characters"@)
        } else if !(1 <= source.weight <= 100) || (!source.memory && !source.semantic_graph) {
            Some("memory Space weights must be between 1 and 100 and enable DMW or NSG"@)
        } else {
            None
        },
    }
}

pub open spec fn first_space_problem(sources: Seq<MemorySpaceSource>, i: int, message: Seq<char>) -> bool {
    &&& 0 <= i < sources.len()
    &&& space_problem(sources, i) == Some(message)
    &&& forall|j: int| 0 <= j < i ==> #[trigger] space_problem(sources, j) is None
}

fn reject_space(message: &str, Ghost(sources): Ghost<Seq<MemorySpaceSource>>, Ghost(i): Ghost<int>) -> (result: Result<(), RuntimeApiError>)
    requires
        first_space_problem(sources, i, message@),
    ensures
        result matches Err(error) && error.kind == RuntimeApiErrorKind::InvalidRequest,
        exists|k: int| #[trigger] first_space_problem(sources, k, result->Err_0.message@),
{
    let result: Result<(), RuntimeApiError> = Err(RuntimeApiError::invalid(message));
    assert(first_space_problem(sources, i, result->Err_0.message@));
    result
}

/// Checks the Spaces of a retrieval: one to sixteen, each with a UUID used
/// once, a label of 1 to 64 characters, a weight of 1 to 100 and at least
/// one store enabled. Every failure is an invalid request.
pub fn validate_memory_spaces(sources: &[MemorySpaceSource]) -> (result: Result<(), RuntimeApiError>)
    ensures
        result matches Err(error) ==> error.kind == RuntimeApiErrorKind::InvalidRequest,
        sources@.len() == 0 || sources@.len() > MAX_MEMORY_SPACES ==> (result matches Err(error)
            && error.message@ == "memory retrieval requires between 1 and 16 Spaces"@),
        0 < sources@.len() <= MAX_MEMORY_SPACES && result is Ok ==> forall|i: int|
            0 <= i < sources@.len() ==> #[trigger] space_problem(sources@, i) is None,
        0 < sources@.len() <= MAX_MEMORY_SPACES && result is Err ==> exists|i: int|
            #[trigger] first_space_problem(sources@, i, result->Err_0.message@),
{
    if sources.len() == 0 || sources.len() > MAX_MEMORY_SPACES {
        return Err(RuntimeApiError::invalid("memory retrieval requires between 1 and 16 Spaces"));
    }
    let ghost ids = space_ids(sources@);
    let mut seen: Vec<u128> = Vec::new();
    let mut i: usize = 0;
    while i < sources.len()
        invariant
            0 < sources@.len() <= MAX_MEMORY_SPACES,
            ids == space_ids(sources@),
            i <= sources@.len(),
            seen@.len() == i,
            forall|j: int| 0 <= j < i ==> #[trigger] space_problem(sources@, j) is None,
            forall|j: int| 0 <= j < i ==> uuid_parse(#[trigger] ids[j]) == Ok::<u128, Seq<char>>(seen@[j]),
        decreases sources@.len() - i,
    {
        let source = &sources[i];
        assert(ids[i as int] == source.space_id@);
        let value = match parse_uuid(source.space_id.as_str()) {
            Ok(value) => value,
            Err(message) => {
                return reject_space(message.as_str(), Ghost(sources@), Ghost(i as int));
            },
        };
        let duplicate = seen_uuid(&seen, value);
        proof {
            if duplicate {
                let j = choose|j: int| 0 <= j < seen@.len() && seen@[j] == value;
                assert(uuid_parse(ids[j]) == Ok::<u128, Seq<char>>(value));
                assert(uuid_seen_before(ids, i as int, value));
            } else {
                assert forall|j: int| 0 <= j < i implies uuid_parse(#[trigger] ids[j])
                    != Ok::<u128, Seq<char>>(value) by {
                    assert(seen@[j] != value);
                }
            }
        }
        if duplicate {
            return reject_space("memory retrieval Spaces must be unique", Ghost(sources@), Ghost(i as int));
        }
        if is_blank(source.label.as_str()) || char_count(source.label.as_str()) > 64 {
            return reject_space(
                "memory Space labels must contain 1 to 64 characters",
                Ghost(sources@),
                Ghost(i as int),
            );
        }
        if !(1 <= source.weight && source.weight <= 100) || (!source.memory && !source.semantic_graph) {
            return reject_space(
                "memory Space weights must be between 1 and 100 and enable DMW or NSG",
                Ghost(sources@),
                Ghost(i as int),
            );
        }
        assert(space_problem(sources@, i as int) is None);
        seen.push(value);
        i += 1;
    }
    Ok(())
}

pub open spec fn space_weights(sources: Seq<MemorySpaceSource>) -> Seq<int> {
    sources.map_values(|s: MemorySpaceSource| s.weight as int)
}

/// A Space's floor share, divided first so no product can overflow.
pub open spec fn space_share(max_tokens: int, total: int, weight: int) -> int {
    (max_tokens / total) * weight + (max_tokens % total) * weight / total
}

pub open spec fn space_shares(sources: Seq<MemorySpaceSource>, max_tokens: usize) -> Seq<int> {
    Seq::new(
        sources.len(),
        |i: int| space_share(max_tokens as int, seq_sum(space_weights(sources)), sources[i].weight as int),
    )
}

/// The budget of each Space: its floor share, plus one token for each of
/// the first Spaces while tokens are left.
pub open spec fn space_budgets(sources: Seq<MemorySpaceSource>, max_tokens: usize) -> Seq<int> {
    let shares = space_shares(sources, max_tokens);
    let left = max_tokens - seq_sum(shares);
    Seq::new(sources.len(), |i: int| shares[i] + if i < left { 1int } else { 0int })
}

proof fn lemma_space_share_bounds(max_tokens: int, total: int, weight: int)
    requires
        max_tokens >= 0,
        total > 0,
        0 <= weight,
    ensures
        space_share(max_tokens, total, weight) >= 0,
        space_share(max_tokens, total, weight) * total <= max_tokens * weight,
        space_share(max_tokens, total, weight) * total > max_tokens * weight - total,
{
    let q = max_tokens / total;
    let r = max_tokens % total;
    let t = (r * weight) / total;
    assert(max_tokens == q * total + r && 0 <= r < total && q >= 0) by (nonlinear_arith)
        requires
            max_tokens >= 0,
            total > 0,
            q == max_tokens / total,
            r == max_tokens % total,
    ;
    assert(t * total <= r * weight && t * total > r * weight - total && t >= 0) by (nonlinear_arith)
        requires
            total > 0,
            r >= 0,
            weight >= 0,
            t == (r * weight) / total,
    ;
    assert((q * weight + t) * total == q * weight * total + t * total) by (nonlinear_arith);
    assert(max_tokens * weight == q * total * weight + r * weight) by (nonlinear_arith)
        requires
            max_tokens == q * total + r,
    ;
    assert(q * weight * total == q * total * weight) by (nonlinear_arith);
    assert(q * weight >= 0) by (nonlinear_arith)
        requires
            q >= 0,
            weight >= 0,
    ;
}

/// The Space budgets give out exactly the whole budget: rounding the floor
/// shares leaves fewer tokens than there are Spaces.
pub proof fn lemma_space_budgets_conserve(sources: Seq<MemorySpaceSource>, max_tokens: usize)
    requires
        sources.len() > 0,
        seq_sum(space_weights(sources)) > 0,
    ensures
        seq_sum(space_budgets(sources, max_tokens)) == max_tokens,
        0 <= max_tokens - seq_sum(space_shares(sources, max_tokens)) < sources.len(),
{
    let shares = space_shares(sources, max_tokens);
    let weights = space_weights(sources);
    let total = seq_sum(weights);
    let n = sources.len() as int;
    assert forall|i: int| 0 <= i < n implies #[trigger] shares[i] * total <= max_tokens * weights[i] && shares[i]
        * total > max_tokens * weights[i] - total && shares[i] >= 0 by {
        lemma_space_share_bounds(max_tokens as int, total, sources[i].weight as int);
    }
    lemma_shares_bounded(shares, weights, total, max_tokens as int);
    lemma_shares_nearly_whole(shares, weights, total, max_tokens as int);
    let s = seq_sum(shares);
    assert(s <= max_tokens) by (nonlinear_arith)
        requires
            s * total <= max_tokens * total,
            total > 0,
    ;
    assert(s > max_tokens - n) by (nonlinear_arith)
        requires
            s * total > max_tokens * total - n * total,
            total > 0,
    ;
    let left = max_tokens - s;
    let extra = Seq::new(sources.len(), |i: int| round_robin(left, n, i));
    assert forall|i: int| 0 <= i < n implies #[trigger] extra[i] == (if i < left { 1int } else { 0int }) by {
        assert(left / n == 0 && left % n == left) by (nonlinear_arith)
            requires
                0 <= left < n,
        ;
    }
    lemma_sum_pointwise(shares, extra);
    assert(space_budgets(sources, max_tokens) =~= Seq::new(shares.len(), |i: int| shares[i] + extra[i]));
    lemma_round_robin_total(left, n);
}


fn total_space_weight(sources: &[MemorySpaceSource]) -> (total: usize)
    requires
        seq_sum(space_weights(sources@)) <= usize::MAX,
    ensures
        total == seq_sum(space_weights(sources@)),
{
    let ghost weights = space_weights(sources@);
    let mut total: usize = 0;
    let mut i: usize = 0;
    while i < sources.len()
        invariant
            weights == space_weights(sources@),
            seq_sum(weights) <= usize::MAX,
            i <= sources@.len(),
            total == seq_sum(weights.subrange(0, i as int)),
        decreases sources@.len() - i,
    {
        proof {
            lemma_prefix_sum_step(weights, i as int);
            lemma_prefix_sum_bounded(weights, i as int);
        }
        total = total + sources[i].weight as usize;
        i += 1;
    }
    assert(weights.subrange(0, i as int) =~= weights);
    total
}

/// Divides `max_tokens` among the Spaces by weight: each gets its floor
/// share, and the few tokens left go one each to the first Spaces.
pub fn weighted_space_budgets(sources: &[MemorySpaceSource], max_tokens: usize) -> (budgets: Vec<usize>)
    requires
        sources@.len() > 0 ==> seq_sum(space_weights(sources@)) > 0,
        seq_sum(space_weights(sources@)) <= usize::MAX,
        forall|i: int|
            0 <= i < sources@.len() ==> seq_sum(space_weights(sources@)) * (#[trigger] sources@[i]).weight
                <= usize::MAX,
    ensures
        budgets@.len() == sources@.len(),
        forall|i: int| 0 <= i < sources@.len() ==> budgets@[i] == #[trigger] space_budgets(sources@, max_tokens)[i],
{
    let n = sources.len();
    if n == 0 {
        return Vec::new();
    }
    let total = total_space_weight(sources);
    let ghost shares = space_shares(sources@, max_tokens);
    let ghost weights = space_weights(sources@);
    proof {
        lemma_space_budgets_conserve(sources@, max_tokens);
    }
    let quotient = max_tokens / total;
    let rest = max_tokens % total;
    let mut parts: Vec<usize> = Vec::new();
    let mut assigned: usize = 0;
    let mut i: usize = 0;
    while i < n
        invariant
            n == sources@.len(),
            weights == space_weights(sources@),
            total == seq_sum(weights),
            0 < total,
            forall|j: int| 0 <= j < n ==> total * (#[trigger] sources@[j]).weight <= usize::MAX,
            quotient == max_tokens / total,
            rest == max_tokens % total,
            shares == space_shares(sources@, max_tokens),
            seq_sum(shares) <= max_tokens,
            i <= n,
            parts@.len() == i,
            forall|j: int| 0 <= j < i ==> parts@[j] == #[trigger] shares[j],
            assigned == seq_sum(shares.subrange(0, i as int)),
        decreases n - i,
    {
        let weight = sources[i].weight as usize;
        proof {
            lemma_space_share_bounds(max_tokens as int, total as int, weight as int);
            assert forall|j: int| 0 <= j < n implies #[trigger] shares[j] >= 0 by {
                lemma_space_share_bounds(max_tokens as int, total as int, sources@[j].weight as int);
            }
            lemma_prefix_sum_step(shares, i as int);
            lemma_prefix_sum_bounded(shares, i as int);
            assert(quotient * weight <= max_tokens) by (nonlinear_arith)
                requires
                    quotient == max_tokens / total,
                    weight <= 255,
                    total > 0,
                    quotient * weight <= shares[i as int],
                    shares[i as int] <= max_tokens,
            ;
            assert(total * sources@[i as int].weight <= usize::MAX);
            assert(rest * weight <= total * weight) by (nonlinear_arith)
                requires
                    rest < total,
                    weight >= 0,
            ;
        }
        let share = quotient * weight + rest * weight / total;
        parts.push(share);
        assigned = assigned + share;
        i += 1;
    }
    assert(shares.subrange(0, n as int) =~= shares);
    let left = max_tokens - assigned;
    let ghost budgets_spec = space_budgets(sources@, max_tokens);
    let mut budgets: Vec<usize> = Vec::new();
    let mut k: usize = 0;
    while k < n
        invariant
            n == sources@.len(),
            parts@.len() == n,
            forall|j: int| 0 <= j < n ==> parts@[j] == #[trigger] shares[j],
            budgets_spec == space_budgets(sources@, max_tokens),
            shares == space_shares(sources@, max_tokens),
            left == max_tokens - seq_sum(shares),
            left < n,
            seq_sum(space_weights(sources@)) > 0,
            seq_sum(shares) <= max_tokens,
            k <= n,
            budgets@.len() == k,
            forall|j: int| 0 <= j < k ==> budgets@[j] == #[trigger] budgets_spec[j],
        decreases n - k,
    {
        proof {
            assert forall|j: int| 0 <= j < n implies #[trigger] shares[j] >= 0 by {
                lemma_space_share_bounds(max_tokens as int, seq_sum(space_weights(sources@)), sources@[j].weight as int);
            }
            lemma_prefix_sum_bounded(shares, k as int);
        }
        let bonus: usize = if k < left {
            1
        } else {
            0
        };
        budgets.push(parts[k] + bonus);
        k += 1;
    }
    budgets
}

/// The part of a retrieval budget that memory documents may use before the
/// semantic graph runs.
pub fn dmw_retrieval_budget(max_tokens: usize, include_memory: bool, include_semantic_graph: bool) -> (budget: usize)
    ensures
        budget == (if include_memory && include_semantic_graph {
            saturating_product(max_tokens, HYBRID_DMW_BUDGET_PERCENT) / 100
        } else if include_memory {
            max_tokens as int
        } else {
            0
        }),
{
    if include_memory && include_semantic_graph {
        let product = match max_tokens.checked_mul(HYBRID_DMW_BUDGET_PERCENT) {
            Some(v) => v,
            None => usize::MAX,
        };
        product / 100
    } else if include_memory {
        max_tokens
    } else {
        0
    }
}

/// The memory-document budget once the semantic graph has used
/// `nsg_tokens`: in a hybrid retrieval every unused token returns to the
/// documents.
pub fn effective_dmw_retrieval_budget(
    max_tokens: usize,
    include_memory: bool,
    include_semantic_graph: bool,
    nsg_tokens: usize,
) -> (budget: usize)
    ensures
        include_memory && include_semantic_graph ==> budget == (if nsg_tokens < max_tokens {
            max_tokens - nsg_tokens
        } else {
            0
        }),
        !(include_memory && include_semantic_graph) ==> budget == (if include_memory {
            max_tokens
        } else {
            0
        }),
{
    if include_memory && include_semantic_graph {
        max_tokens.saturating_sub(nsg_tokens)
    } else {
        dmw_retrieval_budget(max_tokens, include_memory, include_semantic_graph)
    }
}


/// The weight of a scope that names none.
pub fn default_scope_weight() -> (weight: usize)
    ensures
        weight == 1,
{
    1
}


/// Spaces that `validate_memory_spaces` accepts: 1 to 16 of them, none with
/// a problem.
pub open spec fn spaces_accepted(sources: Seq<MemorySpaceSource>) -> bool {
    &&& 0 < sources.len() <= MAX_MEMORY_SPACES
    &&& forall|i: int| 0 <= i < sources.len() ==> #[trigger] space_problem(sources, i) is None
}

/// What a scoped retrieval request may combine: Spaces to retrieve from (or,
/// with none, Spaces only to observe), a caller's vector only together with
/// its vector space, no caller vector beside an embedding configuration,
/// and vectors only where some Space retrieves from its semantic graph.
pub fn check_scoped_memory_request(
    spaces: &[MemorySpaceSource],
    observed: usize,
    has_vector_space_id: bool,
    has_query_vector: bool,
    has_embedding: bool,
) -> (result: Result<(), RuntimeApiError>)
    ensures
        spaces@.len() == 0 && observed == 0 ==> (result matches Err(e) && e.kind
            == RuntimeApiErrorKind::InvalidRequest && e.message@ == "memory retrieval requires at least one Space"@),
        spaces@.len() > 0 && !spaces_accepted(spaces@) ==> result is Err,
        result is Ok <==> {
            &&& (spaces@.len() > 0 || observed > 0)
            &&& (spaces@.len() > 0 ==> spaces_accepted(spaces@))
            &&& has_vector_space_id == has_query_vector
            &&& !(has_embedding && (has_vector_space_id || has_query_vector))
            &&& (has_vector_space_id || has_embedding) ==> exists|i: int|
                0 <= i < spaces@.len() && (#[trigger] spaces@[i]).semantic_graph
        },
        (spaces@.len() > 0 || observed > 0) && (spaces@.len() > 0 ==> spaces_accepted(spaces@)) ==> {
            &&& has_vector_space_id != has_query_vector ==> (result matches Err(e) && e.message@
                == "vector_space_id and query_vector must be provided together"@)
            &&& has_vector_space_id == has_query_vector && has_embedding && (has_vector_space_id
                || has_query_vector) ==> (result matches Err(e) && e.message@
                == "embedding configuration cannot be combined with a caller-supplied raw vector"@)
            &&& has_vector_space_id == has_query_vector && !(has_embedding && (has_vector_space_id
                || has_query_vector)) && (has_vector_space_id || has_embedding) && !(exists|i: int|
                0 <= i < spaces@.len() && (#[trigger] spaces@[i]).semantic_graph) ==> (result matches Err(e)
                && e.message@ == "vector retrieval requires semantic graph retrieval"@)
        },
{
    if spaces.len() == 0 {
        if observed == 0 {
            return Err(RuntimeApiError::invalid("memory retrieval requires at least one Space"));
        }
    } else {
        match validate_memory_spaces(spaces) {
            Err(error) => {
                proof {
                    if 0 < spaces@.len() <= MAX_MEMORY_SPACES {
                        let i = choose|i: int| #[trigger] first_space_problem(spaces@, i, error.message@);
                        assert(space_problem(spaces@, i) is Some);
                    }
                }
                return Err(error);
            },
            Ok(()) => {},
        }
    }
    let mut has_semantic_graph = false;
    let mut i: usize = 0;
    while i < spaces.len()
        invariant
            i <= spaces@.len(),
            has_semantic_graph == exists|j: int| 0 <= j < i && (#[trigger] spaces@[j]).semantic_graph,
        decreases spaces@.len() - i,
    {
        if spaces[i].semantic_graph {
            has_semantic_graph = true;
        }
        i += 1;
    }
    if has_vector_space_id != has_query_vector {
        return Err(RuntimeApiError::invalid("vector_space_id and query_vector must be provided together"));
    }
    if has_embedding && (has_vector_space_id || has_query_vector) {
        return Err(
            RuntimeApiError::invalid("embedding configuration cannot be combined with a caller-supplied raw vector"),
        );
    }
    if !has_semantic_graph && (has_vector_space_id || has_embedding) {
        return Err(RuntimeApiError::invalid("vector retrieval requires semantic graph retrieval"));
    }
    Ok(())
}

} // verus!
