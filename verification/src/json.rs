//! JSON values as the configuration files and the hooks' input hold them.

use vstd::prelude::*;
use crate::text::str_eq;

verus! {

/// A JSON value. An object's members are in order, each key once.
#[derive(Debug)]
pub enum JsonValue {
    Null,
    Bool(bool),
    /// A number, as its JSON text.
    Number(String),
    Text(String),
    Array(Vec<JsonValue>),
    Object(Vec<(String, JsonValue)>),
}

/// The first member at or after `i` with key `key`, or the number of
/// members when there is none.
pub open spec fn key_from(e: Seq<(String, JsonValue)>, key: Seq<char>, i: int) -> int
    decreases e.len() - i,
{
    if i < 0 || i >= e.len() {
        e.len() as int
    } else if e[i].0@ == key {
        i
    } else {
        key_from(e, key, i + 1)
    }
}

/// The value of the member `key` of an object's members.
pub open spec fn entry(e: Seq<(String, JsonValue)>, key: Seq<char>) -> Option<JsonValue> {
    let i = key_from(e, key, 0);
    if i < e.len() {
        Some(e[i].1)
    } else {
        None
    }
}

/// `Value::get` with a key: the member of an object, none for other values.
pub open spec fn member(v: JsonValue, key: Seq<char>) -> Option<JsonValue> {
    match v {
        JsonValue::Object(e) => entry(e@, key),
        _ => None,
    }
}

/// No key occurs twice among the members.
pub open spec fn unique_keys(e: Seq<(String, JsonValue)>) -> bool {
    forall|i: int, j: int| 0 <= i < j < e.len() ==> (#[trigger] e[i]).0@ != (#[trigger] e[j]).0@
}

/// An object with unique keys whose object members have unique keys too,
/// as every object read from JSON text has; other values trivially.
pub open spec fn two_level_unique(v: JsonValue) -> bool {
    match v {
        JsonValue::Object(e) => unique_keys(e@) && forall|i: int|
            0 <= i < e@.len() ==> ((#[trigger] e@[i]).1 matches JsonValue::Object(f) ==> unique_keys(f@)),
        _ => true,
    }
}

pub proof fn lemma_key_from(e: Seq<(String, JsonValue)>, key: Seq<char>, i: int)
    requires
        0 <= i <= e.len(),
    ensures
        i <= key_from(e, key, i) <= e.len(),
        key_from(e, key, i) < e.len() ==> e[key_from(e, key, i)].0@ == key,
        forall|j: int| i <= j < key_from(e, key, i) ==> (#[trigger] e[j]).0@ != key,
    decreases e.len() - i,
{
    if i < e.len() && e[i].0@ != key {
        lemma_key_from(e, key, i + 1);
    }
}

/// Sequences with the same keys at every index find keys alike.
proof fn lemma_key_from_same_keys(a: Seq<(String, JsonValue)>, b: Seq<(String, JsonValue)>, key: Seq<char>, i: int)
    requires
        a.len() == b.len(),
        forall|j: int| 0 <= j < a.len() ==> (#[trigger] a[j]).0@ == b[j].0@,
    ensures
        key_from(a, key, i) == key_from(b, key, i),
    decreases a.len() - i,
{
    if 0 <= i < a.len() && a[i].0@ != key {
        lemma_key_from_same_keys(a, b, key, i + 1);
    }
}

/// Keys before the end are found alike after a member is pushed.
proof fn lemma_key_from_push(e: Seq<(String, JsonValue)>, x: (String, JsonValue), key: Seq<char>, i: int)
    requires
        0 <= i <= e.len(),
    ensures
        key_from(e.push(x), key, i) == if key_from(e, key, i) < e.len() {
            key_from(e, key, i)
        } else if x.0@ == key {
            e.len() as int
        } else {
            (e.len() + 1) as int
        },
    decreases e.len() - i,
{
    if i < e.len() {
        assert(e.push(x)[i] == e[i]);
        if e[i].0@ != key {
            lemma_key_from_push(e, x, key, i + 1);
        }
    } else {
        assert(e.push(x)[i] == x);
        if x.0@ != key {
            assert(key_from(e.push(x), key, i + 1) == e.len() + 1);
        }
    }
}

/// The members found first by key are found alike in a prefix that holds
/// them.
proof fn lemma_entry_take(e: Seq<(String, JsonValue)>, key: Seq<char>, n: int)
    requires
        0 <= n < e.len(),
    ensures
        entry(e.take(n + 1), key) == if entry(e.take(n), key) is Some {
            entry(e.take(n), key)
        } else if e[n].0@ == key {
            Some(e[n].1)
        } else {
            None
        },
{
    assert(e.take(n + 1) =~= e.take(n).push(e[n]));
    lemma_key_from_push(e.take(n), e[n], key, 0);
    lemma_key_from(e.take(n), key, 0);
}

/// Finds the first member with key `key`.
pub fn find_key(e: &Vec<(String, JsonValue)>, key: &str) -> (r: Option<usize>)
    ensures
        match r {
            Some(i) => i == key_from(e@, key@, 0) && i < e@.len(),
            None => key_from(e@, key@, 0) == e@.len(),
        },
{
    let mut i: usize = 0;
    while i < e.len()
        invariant
            i <= e@.len(),
            key_from(e@, key@, i as int) == key_from(e@, key@, 0),
        decreases e@.len() - i,
    {
        if str_eq(e[i].0.as_str(), key) {
            return Some(i);
        }
        i = i + 1;
    }
    None
}

impl JsonValue {
    /// `Value::get`: the member `key` of an object.
    pub fn get(&self, key: &str) -> (r: Option<&JsonValue>)
        ensures
            match r {
                Some(x) => member(*self, key@) == Some(*x),
                None => member(*self, key@) is None,
            },
    {
        match self {
            JsonValue::Object(e) => match find_key(e, key) {
                Some(i) => Some(&e[i].1),
                None => None,
            },
            _ => None,
        }
    }

    /// `Value::as_str`: the text of a string value.
    pub fn as_str(&self) -> (r: Option<&str>)
        ensures
            match r {
                Some(s) => *self matches JsonValue::Text(t) && t@ == s@,
                None => !(*self is Text),
            },
    {
        match self {
            JsonValue::Text(t) => Some(t.as_str()),
            _ => None,
        }
    }
}

/// `next`'s members set over `cur`'s: by key, each member of `next`, else
/// the member of `cur`.
pub open spec fn extends(cur: Seq<(String, JsonValue)>, next: Seq<(String, JsonValue)>, res: Seq<(String, JsonValue)>) -> bool {
    forall|k: Seq<char>| #[trigger] entry(res, k) == if entry(next, k) is Some {
        entry(next, k)
    } else {
        entry(cur, k)
    }
}

/// Sets the member `key` to `value`, in place when there is one.
fn upsert(e: &mut Vec<(String, JsonValue)>, key: String, value: JsonValue)
    requires
        unique_keys(old(e)@),
    ensures
        unique_keys(final(e)@),
        forall|k: Seq<char>| #[trigger] entry(final(e)@, k) == if k == key@ {
            Some(value)
        } else {
            entry(old(e)@, k)
        },
        forall|i: int| 0 <= i < old(e)@.len() ==> (#[trigger] final(e)@[i]).0@ == old(e)@[i].0@,
        forall|i: int| old(e)@.len() <= i < final(e)@.len() ==> (#[trigger] final(e)@[i]).0@ == key@,
{
    let ghost e0 = e@;
    match find_key(e, key.as_str()) {
        Some(j) => {
            let (k, _old) = e.remove(j);
            e.insert(j, (k, value));
            assert(e@ =~= e0.update(j as int, (e0[j as int].0, value)));
            proof {
                lemma_key_from(e0, key@, 0);
                assert forall|k: Seq<char>| #[trigger] entry(e@, k) == if k == key@ {
                    Some(value)
                } else {
                    entry(e0, k)
                } by {
                    lemma_key_from_same_keys(e@, e0, k, 0);
                    lemma_key_from(e0, k, 0);
                }
            }
        },
        None => {
            e.push((key, value));
            proof {
                lemma_key_from(e0, key@, 0);
                assert forall|k: Seq<char>| #[trigger] entry(e@, k) == if k == key@ {
                    Some(value)
                } else {
                    entry(e0, k)
                } by {
                    lemma_key_from_push(e0, (key, value), k, 0);
                    lemma_key_from(e0, k, 0);
                }
                assert forall|i: int, j: int| 0 <= i < j < e@.len() implies (#[trigger] e@[i]).0@ != (
                #[trigger] e@[j]).0@ by {
                    if j == e0.len() {
                        assert(e@[i] == e0[i]);
                        if e0[i].0@ == key@ {
                            lemma_key_from(e0, key@, 0);
                        }
                    }
                }
            }
        },
    }
}

/// Sets each member of `next` over `cur`, in order.
fn extend(cur: &mut Vec<(String, JsonValue)>, next: Vec<(String, JsonValue)>)
    requires
        unique_keys(old(cur)@),
        unique_keys(next@),
    ensures
        unique_keys(final(cur)@),
        extends(old(cur)@, next@, final(cur)@),
{
    let ghost c0 = cur@;
    let ghost n0 = next@;
    let mut rest = next;
    let ghost mut i: int = 0;
    assert(n0.skip(0) =~= n0);
    while rest.len() > 0
        invariant
            0 <= i <= n0.len(),
            rest@ == n0.skip(i),
            unique_keys(n0),
            unique_keys(cur@),
            extends(c0, n0.take(i), cur@),
        decreases rest@.len(),
    {
        let (k, v) = rest.remove(0);
        assert(n0[i] == (k, v));
        let ghost before = cur@;
        upsert(cur, k, v);
        proof {
            assert forall|key: Seq<char>| #[trigger] entry(cur@, key) == if entry(n0.take(i + 1), key) is Some {
                entry(n0.take(i + 1), key)
            } else {
                entry(c0, key)
            } by {
                lemma_entry_take(n0, key, i);
                lemma_key_from(n0.take(i), key, 0);
                if key == n0[i].0@ {
                    let idx = key_from(n0.take(i), key, 0);
                    if idx < i {
                        assert(n0.take(i)[idx] == n0[idx]);
                        assert(n0[idx].0@ != n0[i].0@);
                    }
                }
                assert(entry(before, key) == if entry(n0.take(i), key) is Some {
                    entry(n0.take(i), key)
                } else {
                    entry(c0, key)
                });
            }
            assert(rest@ =~= n0.skip(i + 1));
            i = i + 1;
        }
    }
    assert(n0.take(i) =~= n0);
}

/// The value a patch member leaves: an object member over an object
/// extends it; anything else replaces it.
pub open spec fn merged_member(old: Option<JsonValue>, new: JsonValue, res: JsonValue) -> bool {
    match (old, new) {
        (Some(JsonValue::Object(c)), JsonValue::Object(n)) => res matches JsonValue::Object(r) && extends(
            c@,
            n@,
            r@,
        ),
        _ => res == new,
    }
}

/// `res` is `patch` merged over `base`, both objects: each member of the
/// patch is merged over the base's (`merged_member`) and the other members
/// stay. When either is not an object, the base stays as it was.
pub open spec fn shallow_merged(base: JsonValue, patch: JsonValue, res: JsonValue) -> bool {
    match (base, patch) {
        (JsonValue::Object(b), JsonValue::Object(p)) => res matches JsonValue::Object(r) && forall|k: Seq<char>|
            match entry(p@, k) {
                None => #[trigger] entry(r@, k) == entry(b@, k),
                Some(pv) => entry(r@, k) matches Some(rv) && merged_member(entry(b@, k), pv, rv),
            },
        _ => res == base,
    }
}

/// Members whose values that are objects have unique keys.
pub open spec fn inner_unique(e: Seq<(String, JsonValue)>) -> bool {
    forall|i: int| 0 <= i < e.len() ==> ((#[trigger] e[i]).1 matches JsonValue::Object(f) ==> unique_keys(f@))
}

/// Merges one patch member `k: v` into the members `b`.
fn merge_member(b: &mut Vec<(String, JsonValue)>, k: String, v: JsonValue)
    requires
        unique_keys(old(b)@),
        inner_unique(old(b)@),
        v matches JsonValue::Object(f) ==> unique_keys(f@),
    ensures
        unique_keys(final(b)@),
        inner_unique(final(b)@),
        entry(final(b)@, k@) matches Some(rv) && merged_member(entry(old(b)@, k@), v, rv),
        forall|key: Seq<char>| key != k@ ==> #[trigger] entry(final(b)@, key) == entry(old(b)@, key),
{
    let ghost b0 = b@;
    proof {
        lemma_key_from(b0, k@, 0);
    }
    match find_key(b, k.as_str()) {
        Some(j) => {
            let (key0, cur) = b.remove(j);
            assert(b0[j as int] == (key0, cur));
            let newv = match (cur, v) {
                (JsonValue::Object(mut c), JsonValue::Object(n)) => {
                    extend(&mut c, n);
                    JsonValue::Object(c)
                },
                (_, other) => other,
            };
            assert(merged_member(entry(b0, k@), v, newv));
            b.insert(j, (key0, newv));
            assert(b@ =~= b0.update(j as int, (b0[j as int].0, newv)));
            proof {
                assert forall|key: Seq<char>| key != k@ implies #[trigger] entry(b@, key) == entry(b0, key) by {
                    lemma_key_from_same_keys(b@, b0, key, 0);
                    lemma_key_from(b0, key, 0);
                }
                lemma_key_from_same_keys(b@, b0, k@, 0);
                assert forall|i: int, j2: int| 0 <= i < j2 < b@.len() implies (#[trigger] b@[i]).0@ != (
                #[trigger] b@[j2]).0@ by {
                    assert(b0[i].0@ != b0[j2].0@);
                }
                assert forall|i: int| 0 <= i < b@.len() implies ((#[trigger] b@[i]).1 matches JsonValue::Object(
                    f,
                ) ==> unique_keys(f@)) by {
                    if i != j {
                        assert(b@[i] == b0[i]);
                    }
                }
            }
        },
        None => {
            let ghost x = (k, v);
            b.push((k, v));
            proof {
                assert forall|key: Seq<char>| key != k@ implies #[trigger] entry(b@, key) == entry(b0, key) by {
                    lemma_key_from_push(b0, x, key, 0);
                    lemma_key_from(b0, key, 0);
                }
                lemma_key_from_push(b0, x, k@, 0);
                assert forall|i: int, j: int| 0 <= i < j < b@.len() implies (#[trigger] b@[i]).0@ != (
                #[trigger] b@[j]).0@ by {
                    if j == b0.len() {
                        assert(b@[i] == b0[i]);
                    }
                }
                assert forall|i: int| 0 <= i < b@.len() implies ((#[trigger] b@[i]).1 matches JsonValue::Object(
                    f,
                ) ==> unique_keys(f@)) by {
                    if i < b0.len() {
                        assert(b@[i] == b0[i]);
                    }
                }
            }
        },
    }
}

/// `shallow_merged`: each member of `patch` merged over `base`, both
/// objects; otherwise `base` stays as it is.
pub fn shallow_merge(base: &mut JsonValue, patch: JsonValue)
    requires
        two_level_unique(*old(base)),
        two_level_unique(patch),
    ensures
        shallow_merged(*old(base), patch, *final(base)),
        two_level_unique(*final(base)),
{
    let ghost p0 = patch;
    let ghost base0 = *base;
    let members = match patch {
        JsonValue::Object(p) => p,
        _ => {
            return;
        },
    };
    let mut taken = JsonValue::Null;
    std::mem::swap(base, &mut taken);
    match taken {
        JsonValue::Object(mut b) => {
            let ghost b0 = b@;
            let ghost n0 = members@;
            let mut rest = members;
            let ghost mut i: int = 0;
            assert(n0.skip(0) =~= n0);
            while rest.len() > 0
                invariant
                    0 <= i <= n0.len(),
                    rest@ == n0.skip(i),
                    unique_keys(n0),
                    inner_unique(n0),
                    unique_keys(b@),
                    inner_unique(b@),
                    forall|k: Seq<char>|
                        match entry(n0.take(i), k) {
                            None => #[trigger] entry(b@, k) == entry(b0, k),
                            Some(pv) => entry(b@, k) matches Some(rv) && merged_member(entry(b0, k), pv, rv),
                        },
                decreases rest@.len(),
            {
                let (k, v) = rest.remove(0);
                assert(n0[i] == (k, v));
                let ghost before = b@;
                merge_member(&mut b, k, v);
                proof {
                    assert forall|key: Seq<char>|
                        match entry(n0.take(i + 1), key) {
                            None => #[trigger] entry(b@, key) == entry(b0, key),
                            Some(pv) => entry(b@, key) matches Some(rv) && merged_member(entry(b0, key), pv, rv),
                        } by {
                        lemma_entry_take(n0, key, i);
                        lemma_key_from(n0.take(i), key, 0);
                        if key == n0[i].0@ {
                            let idx = key_from(n0.take(i), key, 0);
                            if idx < i {
                                assert(n0.take(i)[idx] == n0[idx]);
                                assert(n0[idx].0@ != n0[i].0@);
                            }
                            assert(entry(before, key) == entry(b0, key));
                        }
                    }
                    assert(rest@ =~= n0.skip(i + 1));
                    i = i + 1;
                }
            }
            assert(n0.take(i) =~= n0);
            *base = JsonValue::Object(b);
        },
        other => {
            *base = other;
        },
    }
}

// ---------------------------------------------------------------- JSON text

#[verifier::external_type_specification]
#[verifier::external_body]
pub struct ExSerdeValue(serde_json::Value);

/// The value `serde_json::from_str` reads from a text, none when the text
/// is not one JSON value. Parsing depends on the text alone.
pub uninterp spec fn json_text_value(text: Seq<char>) -> Option<JsonValue>;

/// A `serde_json::Value` as a `JsonValue`, node for node: numbers as their
/// JSON text, object members in the map's order. It is the conversion
/// `json_text` uses for its result; nothing is claimed of it alone.
#[verifier::external_body]
fn json_from_serde(value: serde_json::Value) -> JsonValue {
    match value {
        serde_json::Value::Null => JsonValue::Null,
        serde_json::Value::Bool(b) => JsonValue::Bool(b),
        serde_json::Value::Number(n) => JsonValue::Number(n.to_string()),
        serde_json::Value::String(s) => JsonValue::Text(s),
        serde_json::Value::Array(items) => JsonValue::Array(items.into_iter().map(json_from_serde).collect()),
        serde_json::Value::Object(members) => JsonValue::Object(
            members.into_iter().map(|(k, v)| (k, json_from_serde(v))).collect(),
        ),
    }
}

/// `serde_json::from_str` into a `serde_json::Value`, converted: the error
/// exactly when the text is not one JSON value (`json_text_value`). An
/// object read from text holds each key once, at every level, because
/// `serde_json::Map` is a map.
#[verifier::external_body]
pub(crate) fn json_text(text: &str) -> (r: Result<JsonValue, serde_json::Error>)
    ensures
        r is Ok <==> json_text_value(text@) is Some,
        r matches Ok(v) ==> json_text_value(text@) == Some(v),
        r matches Ok(v) ==> two_level_unique(v),
{
    serde_json::from_str::<serde_json::Value>(text).map(json_from_serde)
}

} // verus!
