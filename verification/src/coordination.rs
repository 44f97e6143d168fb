//! The table of response operations in flight: how many tasks work on each
//! request, whether it was cancelled, and the scope it belongs to. Locking
//! around the table is the caller's; the bookkeeping is here.

use vstd::prelude::*;

use crate::orchestration::{MomoApiError, MomoApiErrorKind};
use crate::text::str_eq;

verus! {

#[derive(Debug, Clone)]
pub struct OperationState {
    pub active: usize,
    pub cancelled: bool,
    pub scope_id: String,
}

#[derive(Debug, Clone)]
pub struct OperationEntry {
    pub request_id: String,
    pub state: OperationState,
}

/// A request's operation as the contracts see it: active tasks, the cancel
/// flag, and the scope.
pub open spec fn state_view(state: OperationState) -> (nat, bool, Seq<char>) {
    (state.active as nat, state.cancelled, state.scope_id@)
}

#[derive(Debug)]
pub struct OperationTable {
    entries: Vec<OperationEntry>,
}

/// Each request appears once and has at least one active task: an entry
/// goes when its last task leaves.
pub open spec fn entries_wf(entries: Seq<OperationEntry>) -> bool {
    &&& forall|i: int, j: int|
        0 <= i < entries.len() && 0 <= j < entries.len() && i != j ==> #[trigger] entries[i].request_id@
            != #[trigger] entries[j].request_id@
    &&& forall|i: int| 0 <= i < entries.len() ==> #[trigger] entries[i].state.active >= 1
}

pub open spec fn has_key(entries: Seq<OperationEntry>, key: Seq<char>) -> bool {
    exists|i: int| 0 <= i < entries.len() && #[trigger] entries[i].request_id@ == key
}

pub open spec fn key_index(entries: Seq<OperationEntry>, key: Seq<char>) -> int {
    choose|i: int| 0 <= i < entries.len() && #[trigger] entries[i].request_id@ == key
}

pub open spec fn entries_view(entries: Seq<OperationEntry>) -> Map<Seq<char>, (nat, bool, Seq<char>)> {
    Map::new(
        |key: Seq<char>| has_key(entries, key),
        |key: Seq<char>| state_view(entries[key_index(entries, key)].state),
    )
}

proof fn lemma_key_index(entries: Seq<OperationEntry>, i: int)
    requires
        entries_wf(entries),
        0 <= i < entries.len(),
    ensures
        has_key(entries, entries[i].request_id@),
        key_index(entries, entries[i].request_id@) == i,
{
    let key = entries[i].request_id@;
    assert(entries[i].request_id@ == key);
    let j = key_index(entries, key);
    assert(0 <= j < entries.len() && entries[j].request_id@ == key);
}

proof fn lemma_view_at(entries: Seq<OperationEntry>, i: int)
    requires
        entries_wf(entries),
        0 <= i < entries.len(),
    ensures
        entries_view(entries).contains_key(entries[i].request_id@),
        entries_view(entries)[entries[i].request_id@] == state_view(entries[i].state),
{
    lemma_key_index(entries, i);
}

/// Replacing one entry's state keeps the others and changes that key alone.
proof fn lemma_view_update(entries: Seq<OperationEntry>, i: int, entry: OperationEntry)
    requires
        entries_wf(entries),
        0 <= i < entries.len(),
        entry.request_id@ == entries[i].request_id@,
        entry.state.active >= 1,
    ensures
        entries_wf(entries.update(i, entry)),
        entries_view(entries.update(i, entry)) == entries_view(entries).insert(
            entry.request_id@,
            state_view(entry.state),
        ),
{
    let after = entries.update(i, entry);
    assert(entries_wf(after)) by {
        assert forall|a: int, b: int|
            0 <= a < after.len() && 0 <= b < after.len() && a != b implies #[trigger] after[a].request_id@
            != #[trigger] after[b].request_id@ by {
            assert(after[a].request_id@ == entries[a].request_id@);
            assert(after[b].request_id@ == entries[b].request_id@);
        }
    }
    let expected = entries_view(entries).insert(entry.request_id@, state_view(entry.state));
    assert forall|key: Seq<char>| entries_view(after).contains_key(key) == expected.contains_key(key) by {
        if has_key(after, key) {
            let j = choose|j: int| 0 <= j < after.len() && #[trigger] after[j].request_id@ == key;
            if j != i {
                assert(entries[j].request_id@ == key);
            }
        }
        if has_key(entries, key) {
            let j = choose|j: int| 0 <= j < entries.len() && #[trigger] entries[j].request_id@ == key;
            assert(after[j].request_id@ == key);
        }
        if key == entry.request_id@ {
            assert(after[i].request_id@ == key);
        }
    }
    assert forall|key: Seq<char>| #[trigger] entries_view(after).contains_key(key) implies entries_view(
        after,
    )[key] == expected[key] by {
        let j = choose|j: int| 0 <= j < after.len() && #[trigger] after[j].request_id@ == key;
        lemma_key_index(after, j);
        if j == i {
            assert(key == entry.request_id@);
        } else {
            assert(entries[j].request_id@ == key);
            lemma_key_index(entries, j);
            assert(key != entry.request_id@);
        }
    }
    assert(entries_view(after) =~= expected);
}

/// Removing one entry drops that key alone.
proof fn lemma_view_remove(entries: Seq<OperationEntry>, i: int)
    requires
        entries_wf(entries),
        0 <= i < entries.len(),
    ensures
        entries_wf(entries.remove(i)),
        entries_view(entries.remove(i)) == entries_view(entries).remove(entries[i].request_id@),
{
    let after = entries.remove(i);
    let gone = entries[i].request_id@;
    assert forall|a: int| 0 <= a < after.len() implies after[a] == entries[if a < i {
        a
    } else {
        a + 1
    }] by {}
    assert(entries_wf(after)) by {
        assert forall|a: int, b: int|
            0 <= a < after.len() && 0 <= b < after.len() && a != b implies #[trigger] after[a].request_id@
            != #[trigger] after[b].request_id@ by {
            let sa = if a < i { a } else { a + 1 };
            let sb = if b < i { b } else { b + 1 };
            assert(after[a] == entries[sa]);
            assert(after[b] == entries[sb]);
        }
        assert forall|a: int| 0 <= a < after.len() implies #[trigger] after[a].state.active >= 1 by {
            let sa = if a < i { a } else { a + 1 };
            assert(after[a] == entries[sa]);
        }
    }
    let expected = entries_view(entries).remove(gone);
    assert forall|key: Seq<char>| entries_view(after).contains_key(key) == expected.contains_key(key) by {
        if has_key(after, key) {
            let j = choose|j: int| 0 <= j < after.len() && #[trigger] after[j].request_id@ == key;
            let sj = if j < i { j } else { j + 1 };
            assert(after[j] == entries[sj]);
            assert(entries[sj].request_id@ == key);
            assert(sj != i);
        }
        if has_key(entries, key) && key != gone {
            let j = choose|j: int| 0 <= j < entries.len() && #[trigger] entries[j].request_id@ == key;
            assert(j != i);
            let aj = if j < i { j } else { j - 1 };
            assert(after[aj] == entries[j]);
            assert(after[aj].request_id@ == key);
        }
    }
    assert forall|key: Seq<char>| #[trigger] entries_view(after).contains_key(key) implies entries_view(
        after,
    )[key] == expected[key] by {
        let j = choose|j: int| 0 <= j < after.len() && #[trigger] after[j].request_id@ == key;
        lemma_key_index(after, j);
        let sj = if j < i { j } else { j + 1 };
        assert(after[j] == entries[sj]);
        lemma_key_index(entries, sj);
    }
    assert(entries_view(after) =~= expected);
}

/// Appending an entry for a new key adds that key alone.
proof fn lemma_view_push(entries: Seq<OperationEntry>, entry: OperationEntry)
    requires
        entries_wf(entries),
        !has_key(entries, entry.request_id@),
        entry.state.active >= 1,
    ensures
        entries_wf(entries.push(entry)),
        entries_view(entries.push(entry)) == entries_view(entries).insert(
            entry.request_id@,
            state_view(entry.state),
        ),
{
    let after = entries.push(entry);
    let n = entries.len() as int;
    assert(entries_wf(after)) by {
        assert forall|a: int, b: int|
            0 <= a < after.len() && 0 <= b < after.len() && a != b implies #[trigger] after[a].request_id@
            != #[trigger] after[b].request_id@ by {
            if a < n && b < n {
                assert(after[a] == entries[a] && after[b] == entries[b]);
            } else if a == n {
                assert(after[b] == entries[b]);
                assert(entries[b].request_id@ != entry.request_id@);
            } else {
                assert(after[a] == entries[a]);
                assert(entries[a].request_id@ != entry.request_id@);
            }
        }
        assert forall|a: int| 0 <= a < after.len() implies #[trigger] after[a].state.active >= 1 by {
            if a < n {
                assert(after[a] == entries[a]);
            }
        }
    }
    let expected = entries_view(entries).insert(entry.request_id@, state_view(entry.state));
    assert forall|key: Seq<char>| entries_view(after).contains_key(key) == expected.contains_key(key) by {
        if has_key(after, key) {
            let j = choose|j: int| 0 <= j < after.len() && #[trigger] after[j].request_id@ == key;
            if j < n {
                assert(after[j] == entries[j]);
                assert(entries[j].request_id@ == key);
            }
        }
        if has_key(entries, key) {
            let j = choose|j: int| 0 <= j < entries.len() && #[trigger] entries[j].request_id@ == key;
            assert(after[j] == entries[j]);
            assert(after[j].request_id@ == key);
        }
        if key == entry.request_id@ {
            assert(after[n].request_id@ == key);
        }
    }
    assert forall|key: Seq<char>| #[trigger] entries_view(after).contains_key(key) implies entries_view(
        after,
    )[key] == expected[key] by {
        let j = choose|j: int| 0 <= j < after.len() && #[trigger] after[j].request_id@ == key;
        lemma_key_index(after, j);
        if j < n {
            assert(after[j] == entries[j]);
            assert(entries[j].request_id@ == key);
            lemma_key_index(entries, j);
        }
    }
    assert(entries_view(after) =~= expected);
}

/// The table after one more task enters `request` under `scope`: the count
/// goes up, the cancel flag stays, the scope is the new one.
pub open spec fn after_enter(table: Map<Seq<char>, (nat, bool, Seq<char>)>, request: Seq<char>, scope: Seq<char>) -> Map<
    Seq<char>,
    (nat, bool, Seq<char>),
> {
    if table.contains_key(request) {
        table.insert(request, (table[request].0 + 1, table[request].1, scope))
    } else {
        table.insert(request, (1nat, false, scope))
    }
}

/// The table after a task of `request` leaves: the count goes down and the
/// request goes with its last task.
pub open spec fn after_leave(table: Map<Seq<char>, (nat, bool, Seq<char>)>, request: Seq<char>) -> Map<
    Seq<char>,
    (nat, bool, Seq<char>),
> {
    if !table.contains_key(request) {
        table
    } else if table[request].0 <= 1 {
        table.remove(request)
    } else {
        table.insert(request, ((table[request].0 - 1) as nat, table[request].1, table[request].2))
    }
}

/// The table after `request` is cancelled.
pub open spec fn after_cancel(table: Map<Seq<char>, (nat, bool, Seq<char>)>, request: Seq<char>) -> Map<
    Seq<char>,
    (nat, bool, Seq<char>),
> {
    if table.contains_key(request) {
        table.insert(request, (table[request].0, true, table[request].2))
    } else {
        table
    }
}

pub open spec fn is_cancelled(table: Map<Seq<char>, (nat, bool, Seq<char>)>, request: Seq<char>) -> bool {
    table.contains_key(request) && table[request].1
}

pub open spec fn scope_busy(table: Map<Seq<char>, (nat, bool, Seq<char>)>, scope: Seq<char>) -> bool {
    exists|key: Seq<char>| #[trigger] table.contains_key(key) && table[key].0 > 0 && table[key].2 == scope
}

/// Counts of a table the type keeps: every request has a task.
pub open spec fn counts_positive(table: Map<Seq<char>, (nat, bool, Seq<char>)>) -> bool {
    forall|key: Seq<char>| #[trigger] table.contains_key(key) ==> table[key].0 >= 1
}

impl OperationTable {
    pub closed spec fn wf(&self) -> bool {
        entries_wf(self.entries@)
    }

    pub closed spec fn view(&self) -> Map<Seq<char>, (nat, bool, Seq<char>)> {
        entries_view(self.entries@)
    }

    /// A table of the type has a task behind every request it lists.
    pub proof fn lemma_counts_positive(&self)
        requires
            self.wf(),
        ensures
            counts_positive(self.view()),
    {
        assert forall|key: Seq<char>| #[trigger] self.view().contains_key(key) implies self.view()[key].0 >= 1 by {
            let j = choose|j: int| 0 <= j < self.entries@.len() && #[trigger] self.entries@[j].request_id@ == key;
            lemma_key_index(self.entries@, j);
        }
    }

    pub fn new() -> (table: OperationTable)
        ensures
            table.wf(),
            table.view() == Map::<Seq<char>, (nat, bool, Seq<char>)>::empty(),
    {
        let table = OperationTable { entries: Vec::new() };
        assert(table.view() =~= Map::<Seq<char>, (nat, bool, Seq<char>)>::empty());
        table
    }

    fn find(&self, request_id: &str) -> (found: Option<usize>)
        requires
            self.wf(),
        ensures
            match found {
                Some(i) => i < self.entries@.len() && self.entries@[i as int].request_id@ == request_id@,
                None => !has_key(self.entries@, request_id@),
            },
    {
        let mut i: usize = 0;
        while i < self.entries.len()
            invariant
                i <= self.entries@.len(),
                forall|j: int| 0 <= j < i ==> #[trigger] self.entries@[j].request_id@ != request_id@,
            decreases self.entries@.len() - i,
        {
            if str_eq(self.entries[i].request_id.as_str(), request_id) {
                return Some(i);
            }
            i += 1;
        }
        None
    }

    /// One more task works on the request, which now belongs to `scope_id`.
    pub fn enter_operation(&mut self, request_id: &str, scope_id: &str)
        requires
            old(self).wf(),
            old(self).view().contains_key(request_id@) ==> old(self).view()[request_id@].0 < usize::MAX,
        ensures
            final(self).wf(),
            final(self).view() == after_enter(old(self).view(), request_id@, scope_id@),
    {
        match self.find(request_id) {
            Some(i) => {
                proof {
                    lemma_view_at(self.entries@, i as int);
                }
                let current = &self.entries[i];
                let entry = OperationEntry {
                    request_id: current.request_id.clone(),
                    state: OperationState {
                        active: current.state.active + 1,
                        cancelled: current.state.cancelled,
                        scope_id: String::from_str(scope_id),
                    },
                };
                proof {
                    lemma_view_update(self.entries@, i as int, entry);
                }
                self.entries.set(i, entry);
            },
            None => {
                let entry = OperationEntry {
                    request_id: String::from_str(request_id),
                    state: OperationState { active: 1, cancelled: false, scope_id: String::from_str(scope_id) },
                };
                proof {
                    lemma_view_push(self.entries@, entry);
                }
                self.entries.push(entry);
            },
        }
    }

    /// A task leaves the request; the request goes with its last task.
    pub fn leave_operation(&mut self, request_id: &str)
        requires
            old(self).wf(),
        ensures
            final(self).wf(),
            final(self).view() == after_leave(old(self).view(), request_id@),
    {
        match self.find(request_id) {
            Some(i) => {
                proof {
                    lemma_view_at(self.entries@, i as int);
                }
                if self.entries[i].state.active == 1 {
                    proof {
                        lemma_view_remove(self.entries@, i as int);
                    }
                    self.entries.remove(i);
                } else {
                    let current = &self.entries[i];
                    let entry = OperationEntry {
                        request_id: current.request_id.clone(),
                        state: OperationState {
                            active: current.state.active - 1,
                            cancelled: current.state.cancelled,
                            scope_id: current.state.scope_id.clone(),
                        },
                    };
                    proof {
                        lemma_view_update(self.entries@, i as int, entry);
                    }
                    self.entries.set(i, entry);
                }
            },
            None => {},
        }
    }

    /// Marks the request cancelled; `true` when it has tasks in flight.
    pub fn cancel_operation(&mut self, request_id: &str) -> (running: bool)
        requires
            old(self).wf(),
        ensures
            final(self).wf(),
            running == old(self).view().contains_key(request_id@),
            final(self).view() == after_cancel(old(self).view(), request_id@),
    {
        match self.find(request_id) {
            Some(i) => {
                proof {
                    lemma_view_at(self.entries@, i as int);
                }
                let current = &self.entries[i];
                let entry = OperationEntry {
                    request_id: current.request_id.clone(),
                    state: OperationState {
                        active: current.state.active,
                        cancelled: true,
                        scope_id: current.state.scope_id.clone(),
                    },
                };
                proof {
                    lemma_view_update(self.entries@, i as int, entry);
                }
                self.entries.set(i, entry);
                true
            },
            None => false,
        }
    }

    /// A cancelled request stops at its next check.
    pub fn ensure_active(&self, request_id: &str) -> (result: Result<(), MomoApiError>)
        requires
            self.wf(),
        ensures
            is_cancelled(self.view(), request_id@) ==> (result matches Err(e) && e.kind
                == MomoApiErrorKind::Cancelled && e.message@ == "response request was cancelled"@),
            !is_cancelled(self.view(), request_id@) ==> result is Ok,
    {
        match self.find(request_id) {
            Some(i) => {
                proof {
                    lemma_view_at(self.entries@, i as int);
                }
                if self.entries[i].state.cancelled {
                    Err(MomoApiError::cancelled())
                } else {
                    Ok(())
                }
            },
            None => Ok(()),
        }
    }

    /// Whether some request of the scope has tasks in flight.
    pub fn has_active_responses(&self, scope_id: &str) -> (busy: bool)
        requires
            self.wf(),
        ensures
            busy == scope_busy(self.view(), scope_id@),
    {
        let mut i: usize = 0;
        while i < self.entries.len()
            invariant
                i <= self.entries@.len(),
                entries_wf(self.entries@),
                forall|j: int| 0 <= j < i ==> #[trigger] self.entries@[j].state.scope_id@ != scope_id@,
            decreases self.entries@.len() - i,
        {
            if str_eq(self.entries[i].state.scope_id.as_str(), scope_id) {
                proof {
                    lemma_view_at(self.entries@, i as int);
                    let key = self.entries@[i as int].request_id@;
                    assert(self.view().contains_key(key));
                }
                return true;
            }
            i += 1;
        }
        proof {
            assert forall|key: Seq<char>| #[trigger] self.view().contains_key(key) implies !(self.view()[key].0
                > 0 && self.view()[key].2 == scope_id@) by {
                let j = choose|j: int| 0 <= j < self.entries@.len() && #[trigger] self.entries@[j].request_id@ == key;
                lemma_key_index(self.entries@, j);
            }
        }
        false
    }
}

/// Leaving undoes entering: the counts and cancel flags come back; only the
/// scope of a request that was already there is the one last entered.
pub proof fn lemma_leave_undoes_enter(
    table: Map<Seq<char>, (nat, bool, Seq<char>)>,
    request: Seq<char>,
    scope: Seq<char>,
)
    requires
        counts_positive(table),
    ensures
        after_leave(after_enter(table, request, scope), request) == if table.contains_key(request) {
            table.insert(request, (table[request].0, table[request].1, scope))
        } else {
            table
        },
{
    if table.contains_key(request) {
        assert(after_leave(after_enter(table, request, scope), request) =~= table.insert(
            request,
            (table[request].0, table[request].1, scope),
        ));
    } else {
        assert(after_leave(after_enter(table, request, scope), request) =~= table);
    }
}

/// A cancellation sticks: more tasks entering, or tasks leaving while one
/// remains, leave the request cancelled.
pub proof fn lemma_cancel_is_sticky(
    table: Map<Seq<char>, (nat, bool, Seq<char>)>,
    request: Seq<char>,
    scope: Seq<char>,
)
    requires
        table.contains_key(request),
    ensures
        is_cancelled(after_cancel(table, request), request),
        is_cancelled(after_enter(after_cancel(table, request), request, scope), request),
        table[request].0 > 1 ==> is_cancelled(after_leave(after_cancel(table, request), request), request),
{
}

/// Cancelling one request leaves every other request as it was.
pub proof fn lemma_cancel_touches_one(
    table: Map<Seq<char>, (nat, bool, Seq<char>)>,
    request: Seq<char>,
    other: Seq<char>,
)
    requires
        other != request,
    ensures
        after_cancel(table, request).contains_key(other) == table.contains_key(other),
        table.contains_key(other) ==> after_cancel(table, request)[other] == table[other],
{
}

/// A scope is busy while a task of one of its requests runs.
pub proof fn lemma_entered_scope_is_busy(
    table: Map<Seq<char>, (nat, bool, Seq<char>)>,
    request: Seq<char>,
    scope: Seq<char>,
)
    ensures
        scope_busy(after_enter(table, request, scope), scope),
{
    let after = after_enter(table, request, scope);
    assert(after.contains_key(request) && after[request].0 > 0 && after[request].2 == scope);
}

} // verus!
