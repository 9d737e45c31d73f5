//! JSON values of `serde_json`, and the mathematical value that each of them stands for.

use serde_json::Value;
use vstd::prelude::*;
use vstd::utf8::*;

verus! {

/// A JSON document as a mathematical value. A number with a fraction or an exponent is known by
/// the bits of its double alone.
pub enum Json {
    Null,
    Bool(bool),
    Int(int),
    Float(nat),
    Text(Seq<char>),
    List(Seq<Json>),
    Object(Map<Seq<char>, Json>),
}

/// An opaque JSON value (`serde_json::Value`).
#[verifier::external_type_specification]
#[verifier::external_body]
pub struct ExValue(Value);

/// What a JSON value holds.
pub uninterp spec fn json(v: Value) -> Json;

/// The document that `serde_json` reads from `bytes`, or nothing where it reports an error. An object
/// whose first key is `raw_key` is not read as an object: the text under the key is read in its place.
pub uninterp spec fn json_read(bytes: Seq<u8>) -> Option<Json>;

/// The compact text that `serde_json` writes for a document.
pub uninterp spec fn json_text(j: Json) -> Seq<char>;

/// The text that `serde_json` writes for a document over several lines.
pub uninterp spec fn json_lines(j: Json) -> Seq<char>;

/// The key that `serde_json` keeps for itself, to mark text that it has yet to read.
pub open spec fn raw_key() -> Seq<char> {
    "$serde_json::private::RawValue"@
}

/// Holds of a document without fractions, in which lists and objects nest at most `depth` deep and no
/// object has a member under `raw_key`.
pub open spec fn tame(j: Json, depth: nat) -> bool
    decreases depth,
{
    match j {
        Json::Float(_) => false,
        Json::List(items) => depth > 0 && forall|i: int|
            0 <= i < items.len() ==> tame(#[trigger] items[i], (depth - 1) as nat),
        Json::Object(fields) => {
            &&& depth > 0
            &&& !fields.contains_key(raw_key())
            &&& forall|k: Seq<char>| #[trigger]
                fields.contains_key(k) ==> tame(fields[k], (depth - 1) as nat)
        },
        _ => true,
    }
}

// ---------- Reading and writing ----------

/// Reads a document (`serde_json::from_slice`). The result is named `json_read`; what it is on
/// given bytes is left unsaid, except that what `render` and `render_lines` wrote is read back.
#[verifier::external_body]
pub(crate) fn parse(bytes: &[u8]) -> (r: Option<Value>)
    ensures
        match r {
            Some(v) => json_read(bytes@) == Some(json(v)),
            None => json_read(bytes@) is None,
        },
{
    serde_json::from_slice(bytes).ok()
}

/// Writes a document in compact form (`Value`'s `to_string`). The text is named `json_text`. Read
/// again, it gives the same document, if that has no fraction in it, no member under the key that
/// `serde_json` keeps for itself, and nests no deeper than the 127 levels that the reader follows. Of
/// other documents that is left unsaid.
#[verifier::external_body]
pub(crate) fn render(v: &Value) -> (s: String)
    ensures
        s@ == json_text(json(*v)),
        tame(json(*v), 127) ==> json_read(encode_utf8(s@)) == Some(json(*v)),
{
    v.to_string()
}

/// Writes a document over several lines (`serde_json::to_string_pretty`). The text is named
/// `json_lines`. It is read back on the same documents as what `render` writes: the two differ in white
/// space only.
#[verifier::external_body]
pub(crate) fn render_lines(v: &Value) -> (s: String)
    ensures
        s@ == json_lines(json(*v)),
        tame(json(*v), 127) ==> json_read(encode_utf8(s@)) == Some(json(*v)),
{
    serde_json::to_string_pretty(v).unwrap()
}

// ---------- Taking apart ----------

/// The member of an object under `key`.
pub open spec fn member_of(j: Json, key: Seq<char>) -> Option<Json> {
    match j {
        Json::Object(fields) if fields.contains_key(key) => Some(fields[key]),
        _ => None,
    }
}

/// The characters of a string.
pub open spec fn text_of(j: Json) -> Option<Seq<char>> {
    match j {
        Json::Text(s) => Some(s),
        _ => None,
    }
}

/// A whole number that is not negative and fits in 64 bits.
pub open spec fn number_of(j: Json) -> Option<u64> {
    match j {
        Json::Int(n) if 0 <= n <= u64::MAX => Some(n as u64),
        _ => None,
    }
}

/// A truth value.
pub open spec fn bool_of(j: Json) -> Option<bool> {
    match j {
        Json::Bool(b) => Some(b),
        _ => None,
    }
}

/// What the values of a vector hold.
pub open spec fn json_all(values: Seq<Value>) -> Seq<Json> {
    values.map_values(|v: Value| json(v))
}

/// Looks up a member of an object (`Value::get` with a string): nothing if the value is no object
/// or has no such member.
#[verifier::external_body]
pub(crate) fn member<'a>(v: &'a Value, key: &str) -> (r: Option<&'a Value>)
    ensures
        match r {
            Some(m) => member_of(json(*v), key@) == Some(json(*m)),
            None => member_of(json(*v), key@) is None,
        },
{
    v.get(key)
}

/// The characters of a string value (`Value::as_str`): nothing if the value is no string.
#[verifier::external_body]
pub(crate) fn as_text(v: &Value) -> (r: Option<&str>)
    ensures
        match r {
            Some(s) => text_of(json(*v)) == Some(s@),
            None => text_of(json(*v)) is None,
        },
{
    v.as_str()
}

/// The number that a value holds (`Value::as_u64`): nothing if it is negative, has a fraction, is
/// larger than 64 bits, or is no number.
#[verifier::external_body]
pub(crate) fn as_number(v: &Value) -> (r: Option<u64>)
    ensures
        r == number_of(json(*v)),
{
    v.as_u64()
}

/// The truth value that a value holds (`Value::as_bool`): nothing if it holds none.
#[verifier::external_body]
pub(crate) fn as_bool(v: &Value) -> (r: Option<bool>)
    ensures
        r == bool_of(json(*v)),
{
    v.as_bool()
}

/// The items of a list (`Value::as_array`): nothing if the value is no list.
#[verifier::external_body]
pub(crate) fn as_list(v: &Value) -> (r: Option<&Vec<Value>>)
    ensures
        match r {
            Some(items) => json(*v) == Json::List(json_all(items@)),
            None => !(json(*v) is List),
        },
{
    v.as_array()
}

// ---------- Putting together ----------

/// The members of an object, given in order; where a key comes twice the later member counts.
pub open spec fn fields_map(fields: Seq<(Seq<char>, Json)>) -> Map<Seq<char>, Json>
    decreases fields.len(),
{
    if fields.len() == 0 {
        Map::empty()
    } else {
        fields_map(fields.drop_last()).insert(fields.last().0, fields.last().1)
    }
}

/// The object with the given members.
pub open spec fn object_of(fields: Seq<(Seq<char>, Json)>) -> Json {
    Json::Object(fields_map(fields))
}

/// What the members in a vector hold.
pub open spec fn fields_view(fields: Seq<(String, Value)>) -> Seq<(Seq<char>, Json)> {
    fields.map_values(|f: (String, Value)| (f.0@, json(f.1)))
}

/// Makes an object without members (`serde_json::Map::new`, in `Value::Object`).
#[verifier::external_body]
fn empty_object() -> (v: Value)
    ensures
        json(v) == Json::Object(Map::empty()),
{
    Value::Object(serde_json::Map::new())
}

/// Writes a member of an object (`value[key] = m`, with a string as the key). A member that was there
/// under the key is replaced. Of a value that is no object the call panics, or makes an object of
/// null.
#[verifier::external_body]
fn set_member(v: &mut Value, key: &str, m: Value)
    requires
        json(*old(v)) is Object,
    ensures
        json(*final(v)) == Json::Object(json(*old(v))->Object_0.insert(key@, json(m))),
{
    v[key] = m;
}

/// Makes an object of its members.
pub(crate) fn object(fields: Vec<(String, Value)>) -> (v: Value)
    ensures
        json(v) == object_of(fields_view(fields@)),
{
    let ghost all = fields_view(fields@);
    let ghost pairs = fields@;
    let mut left = fields;
    let mut v = empty_object();
    let ghost mut n: int = 0;
    assert(all.take(0) =~= seq![]);
    assert(pairs.skip(0) =~= pairs);
    while left.len() > 0
        invariant
            0 <= n <= pairs.len(),
            all == fields_view(pairs),
            left@ == pairs.skip(n),
            json(v) == Json::Object(fields_map(all.take(n))),
        decreases left@.len(),
    {
        let (key, m) = left.remove(0);
        proof {
            assert(all.take(n + 1).drop_last() =~= all.take(n));
            assert(all.take(n + 1).last() == (key@, json(m)));
            assert(left@ =~= pairs.skip(n + 1));
        }
        set_member(&mut v, key.as_str(), m);
        proof {
            n = n + 1;
        }
    }
    assert(all.take(n) =~= all);
    v
}

/// Makes a list of its items (`Value::Array`).
#[verifier::external_body]
pub(crate) fn list(items: Vec<Value>) -> (v: Value)
    ensures
        json(v) == Json::List(json_all(items@)),
{
    Value::Array(items)
}

/// Makes a string value (`Value::String`).
#[verifier::external_body]
pub(crate) fn text(s: String) -> (v: Value)
    ensures
        json(v) == Json::Text(s@),
{
    Value::String(s)
}

/// The string, or null where there is none.
pub open spec fn text_or_null(s: Option<Seq<char>>) -> Json {
    match s {
        Some(t) => Json::Text(t),
        None => Json::Null,
    }
}

/// Makes a string value of a string, and null of nothing (`Value::from` of an `Option`).
#[verifier::external_body]
pub(crate) fn optional_text(s: Option<String>) -> (v: Value)
    ensures
        json(v) == text_or_null(opt_view(s)),
{
    Value::from(s)
}

/// Makes a number (`Value::from` of a `u64`).
#[verifier::external_body]
pub(crate) fn number(n: u64) -> (v: Value)
    ensures
        json(v) == Json::Int(n as int),
{
    Value::from(n)
}

/// Makes a truth value (`Value::Bool`).
#[verifier::external_body]
pub(crate) fn boolean(b: bool) -> (v: Value)
    ensures
        json(v) == Json::Bool(b),
{
    Value::Bool(b)
}

/// The characters of an optional string.
pub open spec fn opt_view(s: Option<String>) -> Option<Seq<char>> {
    match s {
        Some(t) => Some(t@),
        None => None,
    }
}

/// One member of an object.
pub(crate) fn field(key: &str, v: Value) -> (f: (String, Value))
    ensures
        f.0@ == key@,
        f.1 == v,
{
    (key.to_string(), v)
}

/// A member of an object is found under its key, if no later one has the same key.
pub proof fn object_member(fields: Seq<(Seq<char>, Json)>, i: int)
    requires
        0 <= i < fields.len(),
        forall|j: int| i < j < fields.len() ==> (#[trigger] fields[j]).0 != fields[i].0,
    ensures
        member_of(object_of(fields), fields[i].0) == Some(fields[i].1),
    decreases fields.len(),
{
    if i < fields.len() - 1 {
        let before = fields.drop_last();
        assert forall|j: int| i < j < before.len() implies (#[trigger] before[j]).0
            != before[i].0 by {
            assert(before[j] == fields[j]);
        }
        object_member(before, i);
        assert(fields[fields.len() - 1].0 != fields[i].0);
    }
}

/// A member of a tame object is tame.
pub proof fn tame_member(j: Json, depth: nat, key: Seq<char>)
    requires
        tame(j, depth),
        member_of(j, key) is Some,
    ensures
        depth > 0,
        tame(member_of(j, key)->0, (depth - 1) as nat),
{
    match j {
        Json::Object(fields) => {
            assert(fields.contains_key(key));
        },
        _ => {},
    }
}

/// A key that is shorter than `raw_key` is another one.
pub proof fn short_key(key: Seq<char>)
    requires
        key.len() < 30,
    ensures
        key != raw_key(),
{
    reveal_strlit("$serde_json::private::RawValue");
}

/// An object with short keys nests one level deeper than its members.
pub proof fn tame_object(fields: Seq<(Seq<char>, Json)>, depth: nat)
    requires
        depth > 0,
        forall|i: int| 0 <= i < fields.len() ==> (#[trigger] fields[i]).0.len() < 30,
        forall|i: int|
            0 <= i < fields.len() ==> tame((#[trigger] fields[i]).1, (depth - 1) as nat),
    ensures
        tame(object_of(fields), depth),
    decreases fields.len(),
{
    if fields.len() > 0 {
        let before = fields.drop_last();
        assert forall|i: int| 0 <= i < before.len() implies {
            &&& (#[trigger] before[i]).0.len() < 30
            &&& tame(before[i].1, (depth - 1) as nat)
        } by {
            assert(before[i] == fields[i]);
        }
        tame_object(before, depth);
        assert(fields[fields.len() - 1].0.len() < 30);
        short_key(fields.last().0);
        let m = fields_map(fields);
        assert forall|k: Seq<char>| #[trigger] m.contains_key(k) implies tame(
            m[k],
            (depth - 1) as nat,
        ) by {
            if k == fields.last().0 {
                assert(tame(fields[fields.len() - 1].1, (depth - 1) as nat));
            } else {
                assert(fields_map(before).contains_key(k));
                tame_member(object_of(before), depth, k);
            }
        }
    }
}

/// What is tame is tame at every larger depth.
pub proof fn tame_deeper(j: Json, a: nat, b: nat)
    requires
        tame(j, a),
        a <= b,
    ensures
        tame(j, b),
    decreases a,
{
    match j {
        Json::List(items) => {
            assert forall|i: int| 0 <= i < items.len() implies tame(
                #[trigger] items[i],
                (b - 1) as nat,
            ) by {
                tame_deeper(items[i], (a - 1) as nat, (b - 1) as nat);
            }
        },
        Json::Object(fields) => {
            assert forall|k: Seq<char>| #[trigger] fields.contains_key(k) implies tame(
                fields[k],
                (b - 1) as nat,
            ) by {
                tame_deeper(fields[k], (a - 1) as nat, (b - 1) as nat);
            }
        },
        _ => {},
    }
}

/// An object has the members that it was made of and no others.
pub proof fn object_has_no_other(fields: Seq<(Seq<char>, Json)>, key: Seq<char>)
    requires
        forall|i: int| 0 <= i < fields.len() ==> (#[trigger] fields[i]).0 != key,
    ensures
        member_of(object_of(fields), key) is None,
    decreases fields.len(),
{
    if fields.len() > 0 {
        let before = fields.drop_last();
        assert forall|i: int| 0 <= i < before.len() implies (#[trigger] before[i]).0 != key by {
            assert(before[i] == fields[i]);
        }
        object_has_no_other(before, key);
        assert(fields[fields.len() - 1].0 != key);
    }
}

}
