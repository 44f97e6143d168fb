//! A JSON document held as plain values: what the card logic reads out of
//! character JSON. Reading the text itself is serde_json's work.

use vstd::prelude::*;

use crate::text::str_eq;
use vstd::pervasive::VecAdditionalExecFns;

verus! {

#[verifier::external_type_specification]
#[verifier::external_body]
pub struct ExSerdeJsonValue(serde_json::Value);

/// A JSON value. Numbers keep the text serde_json gives them; object
/// members keep the order in which serde_json lists them.
#[derive(Debug)]
pub enum JsonValue {
    Null,
    Bool(bool),
    Number(String),
    String(String),
    Array(Vec<JsonValue>),
    Object(Vec<JsonMember>),
}

#[derive(Debug)]
pub struct JsonMember {
    pub key: String,
    pub value: JsonValue,
}

/// The value of the first member named `key`.
pub open spec fn member_lookup(members: Seq<JsonMember>, key: Seq<char>) -> Option<JsonValue>
    decreases members.len(),
{
    if members.len() == 0 {
        None
    } else if members[0].key@ == key {
        Some(members[0].value)
    } else {
        member_lookup(members.drop_first(), key)
    }
}

/// A member of an object value; nothing for any other value.
pub open spec fn json_field(value: JsonValue, key: Seq<char>) -> Option<JsonValue> {
    match value {
        JsonValue::Object(members) => member_lookup(members@, key),
        _ => None,
    }
}

/// The characters of a string value.
pub open spec fn as_text(value: Option<JsonValue>) -> Option<Seq<char>> {
    match value {
        Some(JsonValue::String(s)) => Some(s@),
        _ => None,
    }
}

/// The text of a string member.
pub open spec fn text_field(members: Seq<JsonMember>, key: Seq<char>) -> Option<Seq<char>> {
    as_text(member_lookup(members, key))
}

/// Looks a member up by name.
pub fn member<'a>(members: &'a Vec<JsonMember>, key: &str) -> (found: Option<&'a JsonValue>)
    ensures
        match found {
            Some(v) => member_lookup(members@, key@) == Some(*v),
            None => member_lookup(members@, key@) is None,
        },
{
    let mut i: usize = 0;
    assert(members@.skip(0) =~= members@);
    while i < members.len()
        invariant
            i <= members@.len(),
            member_lookup(members@, key@) == member_lookup(members@.skip(i as int), key@),
        decreases members@.len() - i,
    {
        assert(members@.skip(i as int)[0] == members@[i as int]);
        if str_eq(members[i].key.as_str(), key) {
            return Some(&members[i].value);
        }
        assert(members@.skip(i as int).drop_first() =~= members@.skip(i + 1));
        i += 1;
    }
    assert(members@.skip(i as int).len() == 0);
    None
}

/// Looks a string member up by name.
pub fn text_member<'a>(members: &'a Vec<JsonMember>, key: &str) -> (found: Option<&'a String>)
    ensures
        match found {
            Some(s) => text_field(members@, key@) == Some(s@),
            None => text_field(members@, key@) is None,
        },
{
    match member(members, key) {
        Some(JsonValue::String(s)) => Some(s),
        _ => None,
    }
}

/// Every key reads the same in both member lists, except `key`.
pub open spec fn same_except(a: Seq<JsonMember>, b: Seq<JsonMember>, key: Seq<char>) -> bool {
    forall|k: Seq<char>| k != key ==> #[trigger] member_lookup(a, k) == member_lookup(b, k)
}

proof fn lemma_lookup_push(ms: Seq<JsonMember>, m: JsonMember, k: Seq<char>)
    ensures
        member_lookup(ms.push(m), k) == match member_lookup(ms, k) {
            Some(v) => Some(v),
            None => if m.key@ == k {
                Some(m.value)
            } else {
                None
            },
        },
    decreases ms.len(),
{
    assert(ms.push(m)[0] == if ms.len() == 0 {
        m
    } else {
        ms[0]
    });
    if ms.len() == 0 {
        assert(ms.push(m).drop_first() =~= Seq::<JsonMember>::empty());
    } else {
        assert(ms.push(m).drop_first() =~= ms.drop_first().push(m));
        lemma_lookup_push(ms.drop_first(), m, k);
    }
}

/// Replacing the member at the first position named `key` by another
/// member named `key` changes that key's value and nothing else.
proof fn lemma_lookup_update(ms: Seq<JsonMember>, i: int, m: JsonMember, key: Seq<char>, k: Seq<char>)
    requires
        0 <= i < ms.len(),
        ms[i].key@ == key,
        m.key@ == key,
        forall|j: int| 0 <= j < i ==> ms[j].key@ != key,
    ensures
        member_lookup(ms.update(i, m), k) == if k == key {
            Some(m.value)
        } else {
            member_lookup(ms, k)
        },
    decreases i,
{
    if i > 0 {
        let rest = ms.drop_first();
        assert(ms.update(i, m).drop_first() =~= rest.update(i - 1, m));
        assert forall|j: int| 0 <= j < i - 1 implies rest[j].key@ != key by {
            assert(rest[j] == ms[j + 1]);
        }
        lemma_lookup_update(rest, i - 1, m, key, k);
        assert(ms.update(i, m)[0] == ms[0]);
    } else {
        assert(ms.update(0, m)[0] == m);
        assert(ms.update(0, m).drop_first() =~= ms.drop_first());
    }
}

/// Removing a member named `key` leaves every other key as it was.
proof fn lemma_lookup_remove(ms: Seq<JsonMember>, i: int, key: Seq<char>, k: Seq<char>)
    requires
        0 <= i < ms.len(),
        ms[i].key@ == key,
        k != key,
    ensures
        member_lookup(ms.remove(i), k) == member_lookup(ms, k),
    decreases i,
{
    if i > 0 {
        let rest = ms.drop_first();
        assert(ms.remove(i).drop_first() =~= rest.remove(i - 1));
        assert(rest[i - 1] == ms[i]);
        lemma_lookup_remove(rest, i - 1, key, k);
        assert(ms.remove(i)[0] == ms[0]);
    } else {
        assert(ms.remove(0) =~= ms.drop_first());
    }
}

proof fn lemma_lookup_first(ms: Seq<JsonMember>, i: int, key: Seq<char>)
    requires
        0 <= i < ms.len(),
        ms[i].key@ == key,
        forall|j: int| 0 <= j < i ==> ms[j].key@ != key,
    ensures
        member_lookup(ms, key) == Some(ms[i].value),
    decreases i,
{
    if i > 0 {
        let rest = ms.drop_first();
        assert forall|j: int| 0 <= j < i - 1 implies rest[j].key@ != key by {
            assert(rest[j] == ms[j + 1]);
        }
        lemma_lookup_first(rest, i - 1, key);
    }
}

proof fn lemma_lookup_absent(ms: Seq<JsonMember>, key: Seq<char>)
    requires
        forall|j: int| 0 <= j < ms.len() ==> ms[j].key@ != key,
    ensures
        member_lookup(ms, key) is None,
    decreases ms.len(),
{
    if ms.len() > 0 {
        let rest = ms.drop_first();
        assert forall|j: int| 0 <= j < rest.len() implies rest[j].key@ != key by {
            assert(rest[j] == ms[j + 1]);
        }
        lemma_lookup_absent(rest, key);
    }
}

/// A run of member edits, each touching one key, leaves every other key
/// as it was.
pub proof fn lemma_edits_keep(snaps: Seq<Seq<JsonMember>>, keys: Seq<Seq<char>>, k: Seq<char>)
    requires
        snaps.len() == keys.len() + 1,
        forall|i: int| 0 <= i < keys.len() ==> #[trigger] same_except(snaps[i + 1], snaps[i], keys[i]),
        forall|i: int| 0 <= i < keys.len() ==> #[trigger] keys[i] != k,
    ensures
        member_lookup(snaps.last(), k) == member_lookup(snaps[0], k),
    decreases keys.len(),
{
    if keys.len() > 0 {
        let n = keys.len() - 1;
        assert(same_except(snaps[n + 1], snaps[n], keys[n]));
        assert(keys[n] != k);
        assert(member_lookup(snaps[n + 1], k) == member_lookup(snaps[n], k));
        let fewer = snaps.drop_last();
        let fewer_keys = keys.drop_last();
        assert forall|i: int| 0 <= i < fewer_keys.len() implies #[trigger] same_except(
            fewer[i + 1],
            fewer[i],
            fewer_keys[i],
        ) by {
            assert(same_except(snaps[i + 1], snaps[i], keys[i]));
        }
        assert forall|i: int| 0 <= i < fewer_keys.len() implies #[trigger] fewer_keys[i] != k by {
            assert(keys[i] != k);
        }
        lemma_edits_keep(fewer, fewer_keys, k);
    }
}

fn first_position(members: &Vec<JsonMember>, key: &str) -> (found: Option<usize>)
    ensures
        match found {
            Some(i) => i < members@.len() && members@[i as int].key@ == key@ && forall|j: int|
                0 <= j < i ==> members@[j].key@ != key@,
            None => forall|j: int| 0 <= j < members@.len() ==> members@[j].key@ != key@,
        },
{
    let mut i: usize = 0;
    while i < members.len()
        invariant
            i <= members@.len(),
            forall|j: int| 0 <= j < i ==> members@[j].key@ != key@,
        decreases members@.len() - i,
    {
        if str_eq(members[i].key.as_str(), key) {
            return Some(i);
        }
        i += 1;
    }
    None
}

/// Sets a member: replaces the value of the first member named `key`, or
/// appends the member.
pub fn object_set(members: &mut Vec<JsonMember>, key: &str, value: JsonValue)
    ensures
        member_lookup(final(members)@, key@) == Some(value),
        same_except(final(members)@, old(members)@, key@),
{
    let ghost before = members@;
    let member = JsonMember { key: String::from_str(key), value };
    match first_position(members, key) {
        Some(i) => {
            members.set(i, member);
            proof {
                assert forall|k: Seq<char>| #[trigger] member_lookup(members@, k) == if k == key@ {
                    Some(member.value)
                } else {
                    member_lookup(before, k)
                } by {
                    lemma_lookup_update(before, i as int, member, key@, k);
                }
            }
        },
        None => {
            members.push(member);
            proof {
                lemma_lookup_absent(before, key@);
                assert forall|k: Seq<char>| #[trigger] member_lookup(members@, k) == if k == key@ {
                    Some(member.value)
                } else {
                    member_lookup(before, k)
                } by {
                    lemma_lookup_push(before, member, k);
                }
            }
        },
    }
}

/// Adds a member only where no member is named `key`.
pub fn object_or_insert(members: &mut Vec<JsonMember>, key: &str, value: JsonValue)
    ensures
        member_lookup(final(members)@, key@) == match member_lookup(old(members)@, key@) {
            Some(v) => Some(v),
            None => Some(value),
        },
        same_except(final(members)@, old(members)@, key@),
{
    let ghost before = members@;
    match first_position(members, key) {
        Some(i) => {
            proof {
                lemma_lookup_first(before, i as int, key@);
            }
        },
        None => {
            let member = JsonMember { key: String::from_str(key), value };
            members.push(member);
            proof {
                lemma_lookup_absent(before, key@);
                assert forall|k: Seq<char>| #[trigger] member_lookup(members@, k) == if k == key@ {
                    Some(member.value)
                } else {
                    member_lookup(before, k)
                } by {
                    lemma_lookup_push(before, member, k);
                }
            }
        },
    }
}

/// Removes every member named `key`; returns the value the first of them
/// held.
pub fn object_remove(members: &mut Vec<JsonMember>, key: &str) -> (removed: Option<JsonValue>)
    ensures
        removed == member_lookup(old(members)@, key@),
        member_lookup(final(members)@, key@) is None,
        same_except(final(members)@, old(members)@, key@),
{
    let ghost before = members@;
    let mut removed: Option<JsonValue> = None;
    loop
        invariant
            before == old(members)@,
            same_except(members@, before, key@),
            removed is Some ==> removed == member_lookup(before, key@),
            removed is None ==> member_lookup(members@, key@) == member_lookup(before, key@),
        decreases members@.len(),
    {
        match first_position(members, key) {
            None => {
                proof {
                    lemma_lookup_absent(members@, key@);
                }
                return removed;
            },
            Some(i) => {
                let ghost current = members@;
                proof {
                    lemma_lookup_first(current, i as int, key@);
                    assert forall|k: Seq<char>| k != key@ implies #[trigger] member_lookup(
                        current.remove(i as int),
                        k,
                    ) == member_lookup(before, k) by {
                        lemma_lookup_remove(current, i as int, key@, k);
                    }
                }
                let member = members.remove(i);
                if removed.is_none() {
                    removed = Some(member.value);
                }
            },
        }
    }
}

/// The document serde_json reads from the bytes; nothing where they are not
/// JSON.
pub uninterp spec fn parsed_json(bytes: Seq<u8>) -> Option<JsonValue>;

/// `serde_json::from_slice` into serde_json's value, converted variant for
/// variant. Claimed: the result is a function of the bytes alone, and an
/// error comes exactly where serde_json reports one (its message is
/// returned).
#[verifier::external_body]
pub(crate) fn parse_json(bytes: &[u8]) -> (result: Result<JsonValue, String>)
    ensures
        match result {
            Ok(value) => parsed_json(bytes@) == Some(value),
            Err(_) => parsed_json(bytes@) is None,
        },
{
    match serde_json::from_slice::<serde_json::Value>(bytes) {
        Ok(value) => Ok(from_serde(&value)),
        Err(error) => Err(error.to_string()),
    }
}

/// serde_json's value as a `JsonValue`, variant for variant; numbers as the
/// text serde_json prints for them. Used only by `parse_json`.
#[verifier::external_body]
fn from_serde(value: &serde_json::Value) -> JsonValue {
    match value {
        serde_json::Value::Null => JsonValue::Null,
        serde_json::Value::Bool(b) => JsonValue::Bool(*b),
        serde_json::Value::Number(n) => JsonValue::Number(n.to_string()),
        serde_json::Value::String(s) => JsonValue::String(s.clone()),
        serde_json::Value::Array(items) => JsonValue::Array(items.iter().map(from_serde).collect()),
        serde_json::Value::Object(map) => JsonValue::Object(
            map.iter().map(|(k, v)| JsonMember { key: k.clone(), value: from_serde(v) }).collect(),
        ),
    }
}

} // verus!
