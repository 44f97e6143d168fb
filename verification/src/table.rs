//! A map keyed by strings that keeps its entries in ascending key order,
//! comparing keys by Unicode scalar value (the order `str` uses for its
//! UTF-8 bytes). Used wherever entries must be visited in key order.

use vstd::prelude::*;

use crate::text::chars_of;

verus! {

/// Strict lexicographic order on character sequences.
pub open spec fn lex_lt(a: Seq<char>, b: Seq<char>) -> bool
    decreases a.len(),
{
    if a.len() == 0 {
        b.len() > 0
    } else if b.len() == 0 {
        false
    } else if a[0] != b[0] {
        a[0] < b[0]
    } else {
        lex_lt(a.drop_first(), b.drop_first())
    }
}

pub proof fn lemma_lex_irreflexive(a: Seq<char>)
    ensures
        !lex_lt(a, a),
    decreases a.len(),
{
    if a.len() > 0 {
        lemma_lex_irreflexive(a.drop_first());
    }
}

pub proof fn lemma_lex_total(a: Seq<char>, b: Seq<char>)
    ensures
        a == b || lex_lt(a, b) || lex_lt(b, a),
        !(lex_lt(a, b) && lex_lt(b, a)),
    decreases a.len(),
{
    if a.len() > 0 && b.len() > 0 {
        if a[0] == b[0] {
            lemma_lex_total(a.drop_first(), b.drop_first());
            if a.drop_first() == b.drop_first() {
                assert(a =~= seq![a[0]] + a.drop_first());
                assert(b =~= seq![b[0]] + b.drop_first());
            }
        }
    } else if a.len() == 0 && b.len() == 0 {
        assert(a =~= b);
    }
}

pub proof fn lemma_lex_transitive(a: Seq<char>, b: Seq<char>, c: Seq<char>)
    requires
        lex_lt(a, b),
        lex_lt(b, c),
    ensures
        lex_lt(a, c),
    decreases a.len(),
{
    if a.len() > 0 && b.len() > 0 && c.len() > 0 {
        if a[0] == b[0] && b[0] == c[0] {
            lemma_lex_transitive(a.drop_first(), b.drop_first(), c.drop_first());
        }
    }
}

/// How two keys compare.
#[derive(Debug, Clone, Copy, PartialEq, Eq, Structural)]
pub enum KeyOrder {
    Before,
    Same,
    After,
}

proof fn lemma_lex_common_prefix(a: Seq<char>, b: Seq<char>, i: int)
    requires
        0 <= i <= a.len(),
        i <= b.len(),
        a.subrange(0, i) == b.subrange(0, i),
    ensures
        lex_lt(a, b) == lex_lt(a.subrange(i, a.len() as int), b.subrange(i, b.len() as int)),
    decreases i,
{
    if i > 0 {
        assert(a[0] == a.subrange(0, i)[0]);
        assert(b[0] == b.subrange(0, i)[0]);
        let a1 = a.drop_first();
        let b1 = b.drop_first();
        assert(a1.subrange(0, i - 1) =~= a.subrange(0, i).drop_first());
        assert(b1.subrange(0, i - 1) =~= b.subrange(0, i).drop_first());
        lemma_lex_common_prefix(a1, b1, i - 1);
        assert(a1.subrange(i - 1, a1.len() as int) =~= a.subrange(i, a.len() as int));
        assert(b1.subrange(i - 1, b1.len() as int) =~= b.subrange(i, b.len() as int));
    } else {
        assert(a.subrange(0, a.len() as int) =~= a);
        assert(b.subrange(0, b.len() as int) =~= b);
    }
}

/// Compares two keys in the table's order.
pub fn compare_keys(a: &str, b: &str) -> (order: KeyOrder)
    ensures
        order == KeyOrder::Before <==> lex_lt(a@, b@),
        order == KeyOrder::Same <==> a@ == b@,
        order == KeyOrder::After <==> lex_lt(b@, a@),
{
    let x = chars_of(a);
    let y = chars_of(b);
    proof {
        lemma_lex_total(a@, b@);
        lemma_lex_irreflexive(a@);
    }
    let mut i: usize = 0;
    while i < x.len() && i < y.len()
        invariant
            x@ == a@,
            y@ == b@,
            i <= x@.len(),
            i <= y@.len(),
            x@.subrange(0, i as int) == y@.subrange(0, i as int),
        decreases x@.len() - i,
    {
        if x[i] != y[i] {
            proof {
                lemma_lex_common_prefix(a@, b@, i as int);
                lemma_lex_common_prefix(b@, a@, i as int);
                let ra = a@.subrange(i as int, a@.len() as int);
                let rb = b@.subrange(i as int, b@.len() as int);
                assert(ra[0] == x@[i as int]);
                assert(rb[0] == y@[i as int]);
                assert(a@ != b@) by {
                    if a@ == b@ {
                        assert(x@[i as int] == y@[i as int]);
                    }
                }
            }
            if x[i] < y[i] {
                return KeyOrder::Before;
            } else {
                return KeyOrder::After;
            }
        }
        i += 1;
        assert(x@.subrange(0, i as int) =~= y@.subrange(0, i as int)) by {
            assert forall|k: int| 0 <= k < i implies x@.subrange(0, i as int)[k] == y@.subrange(
                0,
                i as int,
            )[k] by {
                if k < i - 1 {
                    assert(x@.subrange(0, i - 1)[k] == y@.subrange(0, i - 1)[k]);
                }
            }
        }
    }
    proof {
        lemma_lex_common_prefix(a@, b@, i as int);
        lemma_lex_common_prefix(b@, a@, i as int);
    }
    if x.len() == y.len() {
        assert(x@ =~= y@) by {
            assert(x@.subrange(0, i as int) =~= x@);
            assert(y@.subrange(0, i as int) =~= y@);
        }
        KeyOrder::Same
    } else if x.len() < y.len() {
        proof {
            assert(a@.subrange(i as int, a@.len() as int).len() == 0);
        }
        KeyOrder::Before
    } else {
        proof {
            assert(b@.subrange(i as int, b@.len() as int).len() == 0);
        }
        KeyOrder::After
    }
}

/// Index of the entry with this key in a sequence of entries, if any.
pub open spec fn seq_key_index<V>(entries: Seq<(String, V)>, key: Seq<char>) -> Option<int> {
    if exists|i: int| 0 <= i < entries.len() && #[trigger] entries[i].0@ == key {
        Some(choose|i: int| 0 <= i < entries.len() && #[trigger] entries[i].0@ == key)
    } else {
        None
    }
}

/// In sorted entries the index found for an entry's own key is its index.
pub proof fn lemma_seq_key_index_at<V>(entries: Seq<(String, V)>, i: int)
    requires
        sorted_keys(entries),
        0 <= i < entries.len(),
    ensures
        seq_key_index(entries, entries[i].0@) == Some(i),
{
    let key = entries[i].0@;
    assert(entries[i].0@ == key);
    assert(seq_key_index(entries, key) is Some);
    let k = seq_key_index(entries, key)->Some_0;
    assert(0 <= k < entries.len() && entries[k].0@ == key);
    if k < i {
        assert(lex_lt(entries[k].0@, entries[i].0@));
        lemma_lex_irreflexive(key);
    } else if i < k {
        assert(lex_lt(entries[i].0@, entries[k].0@));
        lemma_lex_irreflexive(key);
    }
}

/// Lookup in a table is lookup in its entry sequence.
pub proof fn lemma_lookup_is_seq_lookup<V>(table: StringTable<V>, key: Seq<char>)
    ensures
        table.lookup(key) == match seq_key_index(table.entries_view(), key) {
            Some(j) => Some(table.entries_view()[j].1),
            None => None,
        },
{
}

/// Entries in strictly ascending key order.
pub open spec fn sorted_keys<V>(entries: Seq<(String, V)>) -> bool {
    forall|i: int, j: int|
        0 <= i < j < entries.len() ==> lex_lt(#[trigger] entries[i].0@, #[trigger] entries[j].0@)
}

/// A string-keyed map whose entries are kept sorted by key.
#[derive(Debug)]
pub struct StringTable<V> {
    entries: Vec<(String, V)>,
}

impl<V> StringTable<V> {
    /// Keys are strictly ascending, so each key occurs once.
    #[verifier::type_invariant]
    pub closed spec fn wf(&self) -> bool {
        sorted_keys(self.entries@)
    }

    /// Entries in ascending key order.
    pub closed spec fn entries_view(&self) -> Seq<(String, V)> {
        self.entries@
    }

    /// Keys in ascending order, as character sequences.
    pub open spec fn keys_view(&self) -> Seq<Seq<char>> {
        self.entries_view().map_values(|e: (String, V)| e.0@)
    }

    /// Key of the entry at a position, as characters.
    pub open spec fn key_at(&self, i: int) -> Seq<char> {
        self.entries_view()[i].0@
    }

    /// Index of the entry with this key, if any.
    pub open spec fn index_of(&self, key: Seq<char>) -> Option<int> {
        seq_key_index(self.entries_view(), key)
    }

    pub open spec fn contains_key(&self, key: Seq<char>) -> bool {
        self.index_of(key) is Some
    }

    /// The value stored under a key, if any.
    pub open spec fn lookup(&self, key: Seq<char>) -> Option<V> {
        match self.index_of(key) {
            Some(i) => Some(self.entries_view()[i].1),
            None => None,
        }
    }

    pub proof fn lemma_unique(&self, i: int, j: int)
        requires
            self.wf(),
            0 <= i < self.entries_view().len(),
            0 <= j < self.entries_view().len(),
            self.entries_view()[i].0@ == self.entries_view()[j].0@,
        ensures
            i == j,
    {
        if i < j {
            lemma_lex_irreflexive(self.entries_view()[i].0@);
        } else if j < i {
            lemma_lex_irreflexive(self.entries_view()[i].0@);
        }
    }

    pub proof fn lemma_lookup_at(&self, i: int)
        requires
            self.wf(),
            0 <= i < self.entries_view().len(),
        ensures
            self.index_of(self.entries_view()[i].0@) == Some(i),
            self.lookup(self.entries_view()[i].0@) == Some(self.entries_view()[i].1),
    {
        lemma_seq_key_index_at(self.entries_view(), i);
    }

    pub fn new() -> (table: Self)
        ensures
            table.entries_view().len() == 0,
    {
        StringTable { entries: Vec::new() }
    }

    pub fn len(&self) -> (n: usize)
        ensures
            n == self.entries_view().len(),
    {
        self.entries.len()
    }

    pub fn is_empty(&self) -> (empty: bool)
        ensures
            empty == (self.entries_view().len() == 0),
    {
        self.entries.len() == 0
    }

    /// Key and value of the entry at a position in key order.
    pub fn entry_at(&self, i: usize) -> (entry: (&String, &V))
        requires
            i < self.entries_view().len(),
        ensures
            *entry.0 == self.entries_view()[i as int].0,
            *entry.1 == self.entries_view()[i as int].1,
    {
        let e = &self.entries[i];
        (&e.0, &e.1)
    }

    /// Position of a key, found by scanning in key order.
    pub fn find(&self, key: &str) -> (found: Option<usize>)
        ensures
            match found {
                Some(i) => self.index_of(key@) == Some(i as int),
                None => self.index_of(key@) is None,
            },
    {
        proof {
            use_type_invariant(self);
        }
        let mut i: usize = 0;
        while i < self.entries.len()
            invariant
                self.wf(),
                i <= self.entries@.len(),
                forall|k: int| 0 <= k < i ==> #[trigger] self.entries@[k].0@ != key@,
            decreases self.entries@.len() - i,
        {
            if compare_keys(self.entries[i].0.as_str(), key) == KeyOrder::Same {
                proof {
                    self.lemma_lookup_at(i as int);
                }
                return Some(i);
            }
            i += 1;
        }
        None
    }

    pub fn get(&self, key: &str) -> (value: Option<&V>)
        ensures
            match value {
                Some(v) => self.lookup(key@) == Some(*v),
                None => self.lookup(key@) is None,
            },
    {
        match self.find(key) {
            Some(i) => Some(&self.entries[i].1),
            None => None,
        }
    }

    /// Inserts or replaces the value for a key, keeping key order. Returns
    /// the replaced value.
    pub fn insert(&mut self, key: String, value: V) -> (previous: Option<V>)
        ensures
            final(self).lookup(key@) == Some(value),
            forall|k: Seq<char>| k != key@ ==> #[trigger] final(self).lookup(k) == old(self).lookup(k),
            previous == old(self).lookup(key@),
            final(self).entries_view().len() == old(self).entries_view().len() + if old(self).contains_key(key@) { 0int } else { 1int },
    {
        proof {
            use_type_invariant(&*self);
        }
        let ghost before = self.entries@;
        let mut entries: Vec<(String, V)> = Vec::new();
        std::mem::swap(&mut entries, &mut self.entries);
        let mut i: usize = 0;
        while i < entries.len()
            invariant
                entries@ == before,
                sorted_keys(before),
                i <= before.len(),
                forall|k: int| 0 <= k < i ==> lex_lt(#[trigger] before[k].0@, key@),
            ensures
                entries@ == before,
                i <= before.len(),
                forall|k: int| 0 <= k < i ==> lex_lt(#[trigger] before[k].0@, key@),
                i == before.len() || !lex_lt(before[i as int].0@, key@),
            decreases before.len() - i,
        {
            let order = compare_keys(entries[i].0.as_str(), key.as_str());
            if order == KeyOrder::Before {
                i += 1;
            } else {
                break;
            }
        }
        if i < entries.len() && compare_keys(entries[i].0.as_str(), key.as_str()) == KeyOrder::Same {
            let ghost pos = i as int;
            let old_entry = entries.remove(i);
            entries.insert(i, (key, value));
            proof {
                assert(entries@ =~= before.update(pos, (key, value)));
                assert forall|a: int, b: int|
                    0 <= a < b < entries@.len() implies lex_lt(
                    #[trigger] entries@[a].0@,
                    #[trigger] entries@[b].0@,
                ) by {
                    assert(lex_lt(before[a].0@, before[b].0@));
                }
            }
            self.entries = entries;
            proof {
                assert(self.entries@ =~= before.update(pos, (key, value)));
                assert forall|a: int, b: int|
                    0 <= a < b < self.entries@.len() implies lex_lt(
                    #[trigger] self.entries@[a].0@,
                    #[trigger] self.entries@[b].0@,
                ) by {
                    assert(lex_lt(before[a].0@, before[b].0@));
                }
                let t = *old(self);
                t.lemma_lookup_at(pos);
                assert(self.entries@[pos].0@ == key@);
                self.lemma_lookup_at(pos);
                assert forall|k: Seq<char>| k != key@ implies #[trigger] self.lookup(k) == old(self).lookup(k) by {
                    let t = *old(self);
                    if t.contains_key(k) {
                        let x = t.index_of(k)->Some_0;
                        assert(t.key_at(x) == k);
                        t.lemma_lookup_at(x);
                        assert(x != pos);
                        assert(self.entries@[x] == before[x]);
                        self.lemma_lookup_at(x);
                    } else if self.contains_key(k) {
                        let x = self.index_of(k)->Some_0;
                        assert(self.key_at(x) == k);
                        assert(x != pos);
                        assert(t.key_at(x) == k);
                    }
                }
            }
            Some(old_entry.1)
        } else {
            let ghost pos = i as int;
            proof {
                lemma_lex_total(key@, key@);
                assert forall|k: int| pos <= k < before.len() implies lex_lt(key@, #[trigger] before[k].0@) by {
                    lemma_lex_total(before[pos].0@, key@);
                    if k > pos {
                        lemma_lex_total(before[pos].0@, key@);
                        assert(lex_lt(before[pos].0@, before[k].0@));
                        if before[pos].0@ == key@ {
                        } else {
                            lemma_lex_transitive(key@, before[pos].0@, before[k].0@);
                        }
                    }
                }
                assert(!old(self).contains_key(key@)) by {
                    if old(self).contains_key(key@) {
                        let x = old(self).index_of(key@)->Some_0;
                        if x < pos {
                            lemma_lex_irreflexive(key@);
                        } else {
                            lemma_lex_irreflexive(key@);
                        }
                    }
                }
            }
            entries.insert(i, (key, value));
            proof {
                assert(entries@ =~= before.insert(pos, (key, value)));
                assert forall|a: int, b: int|
                    0 <= a < b < entries@.len() implies lex_lt(
                    #[trigger] entries@[a].0@,
                    #[trigger] entries@[b].0@,
                ) by {
                    if a < pos && b < pos {
                        assert(lex_lt(before[a].0@, before[b].0@));
                    } else if a < pos && b == pos {
                    } else if a < pos && b > pos {
                        assert(lex_lt(before[a].0@, key@));
                        lemma_lex_transitive(before[a].0@, key@, before[b - 1].0@);
                    } else if a == pos {
                    } else {
                        assert(lex_lt(before[a - 1].0@, before[b - 1].0@));
                    }
                }
            }
            self.entries = entries;
            proof {
                assert(self.entries@ =~= before.insert(pos, (key, value)));
                self.lemma_lookup_at(pos);
                assert forall|k: Seq<char>| k != key@ implies #[trigger] self.lookup(k) == old(self).lookup(k) by {
                    let t = *old(self);
                    if t.contains_key(k) {
                        let x = t.index_of(k)->Some_0;
                        assert(t.key_at(x) == k);
                        t.lemma_lookup_at(x);
                        let y = if x < pos { x } else { x + 1 };
                        assert(self.entries@[y] == before[x]);
                        self.lemma_lookup_at(y);
                    } else if self.contains_key(k) {
                        let y = self.index_of(k)->Some_0;
                        assert(self.key_at(y) == k);
                        assert(y != pos);
                        let x = if y < pos { y } else { y - 1 };
                        assert(t.key_at(x) == k);
                    }
                }
            }
            None
        }
    }

    /// Takes the table apart into its entries, in ascending key order.
    pub fn into_entries(self) -> (entries: Vec<(String, V)>)
        ensures
            entries@ == self.entries_view(),
            sorted_keys(entries@),
    {
        proof {
            use_type_invariant(&self);
        }
        self.entries
    }
}

} // verus!
