//! JSON documents as the relay reads and writes them.
//!
//! Parsing and printing JSON is serde_json's work. The relay sees one level
//! of a document: its kind, its scalar value, and, for an array or an
//! object, each member as the JSON text serde_json prints for it. A member
//! is read by parsing that text in turn. serde_json is built to parse
//! floating-point numbers exactly, so a number printed and parsed again
//! comes back unchanged.

use vstd::prelude::*;
use serde_json::Value;

verus! {

/// One level of a JSON value. Members of arrays and objects are held as the
/// compact JSON text of the member.
#[derive(Debug)]
pub enum JsonValue {
    Null,
    /// A number that is a non-negative integer that fits a u64.
    UInt(u64),
    Str(String),
    Array(Vec<Vec<u8>>),
    Object(Vec<(String, Vec<u8>)>),
    /// Any other value (a boolean or another number), as its JSON text.
    Other(Vec<u8>),
}

/// The mathematical value of a `JsonValue`.
pub enum JsonView {
    Null,
    UInt(u64),
    Str(Seq<char>),
    Array(Seq<Seq<u8>>),
    Object(Seq<(Seq<char>, Seq<u8>)>),
    Other(Seq<u8>),
}

impl View for JsonValue {
    type V = JsonView;

    open spec fn view(&self) -> JsonView {
        match self {
            JsonValue::Null => JsonView::Null,
            JsonValue::UInt(n) => JsonView::UInt(*n),
            JsonValue::Str(s) => JsonView::Str(s@),
            JsonValue::Other(t) => JsonView::Other(t@),
            JsonValue::Array(a) => JsonView::Array(a@.map_values(|t: Vec<u8>| t@)),
            JsonValue::Object(f) => JsonView::Object(f@.map_values(|e: (String, Vec<u8>)| (e.0@, e.1@))),
        }
    }
}

/// The JSON value that `serde_json::from_slice` reads from `bytes`, if it
/// reads one.
pub uninterp spec fn json_parse(bytes: Seq<u8>) -> Option<JsonView>;

/// The bytes that `serde_json::to_vec` prints for a value, if it prints.
pub uninterp spec fn json_serialize(v: JsonView) -> Option<Seq<u8>>;

/// A scalar: null, a number that fits a u64, or a string.
pub open spec fn is_scalar(v: JsonView) -> bool {
    v is Null || v is UInt || v is Str
}

/// Every member text of an array or object, and the text of an other
/// value, parses as JSON.
pub open spec fn members_parse(v: JsonView) -> bool {
    match v {
        JsonView::Array(a) => forall|i: int| 0 <= i < a.len() ==> (#[trigger] json_parse(a[i])) is Some,
        JsonView::Object(f) => forall|i: int| 0 <= i < f.len() ==> (#[trigger] json_parse(f[i].1)) is Some,
        JsonView::Other(t) => json_parse(t) is Some,
        _ => true,
    }
}

/// A scalar, or an array or object whose member texts each parse as a
/// scalar: a value one level deep.
pub open spec fn is_flat(v: JsonView) -> bool {
    match v {
        JsonView::Array(a) => forall|i: int|
            0 <= i < a.len() ==> ((#[trigger] json_parse(a[i])) matches Some(x) && is_scalar(x)),
        JsonView::Object(f) => forall|i: int|
            0 <= i < f.len() ==> ((#[trigger] json_parse(f[i].1)) matches Some(x) && is_scalar(x)),
        JsonView::Other(_) => false,
        _ => true,
    }
}

/// `serde_json::from_slice` into a `serde_json::Value`, seen one level deep:
/// the members of an array or object are held as the bytes
/// `serde_json::to_vec` prints for them (printing a `Value` does not fail).
/// The result is named, not stated. What was parsed prints again, and what
/// it prints parses again: each member text, and the whole, is printed
/// from a `Value` no deeper than the one parsed.
#[verifier::external_body]
pub fn parse_json(bytes: &[u8]) -> (r: Option<JsonValue>)
    ensures
        match r {
            Some(v) => json_parse(bytes@) == Some(v@),
            None => json_parse(bytes@) is None,
        },
        r matches Some(v) ==> members_parse(v@),
        r matches Some(v) ==> json_serialize(v@) is Some && json_parse(json_serialize(v@)->Some_0) is Some,
{
    let t = |x: &Value| serde_json::to_vec(x).unwrap_or_default();
    let v: Value = serde_json::from_slice(bytes).ok()?;
    Some(match &v {
        Value::Null => JsonValue::Null,
        Value::String(s) => JsonValue::Str(s.clone()),
        Value::Array(a) => JsonValue::Array(a.iter().map(t).collect()),
        Value::Object(m) => JsonValue::Object(m.iter().map(|(k, x)| (k.clone(), t(x))).collect()),
        _ => v.as_u64().map_or(JsonValue::Other(t(&v)), JsonValue::UInt),
    })
}

/// `serde_json::to_vec` of the `serde_json::Value` that `v` stands for (its
/// members' texts are parsed back with `serde_json::from_slice`). Printing
/// a `Value` does not fail, so the result is `None` exactly when a member's
/// text (or the text of an other value) does not parse. The text printed
/// is named, not stated; a scalar's text parses back to the scalar, and a
/// value one level deep prints text that parses.
#[verifier::external_body]
pub fn serialize_json(v: &JsonValue) -> (r: Option<Vec<u8>>)
    ensures
        match r {
            Some(b) => json_serialize(v@) == Some(b@),
            None => json_serialize(v@) is None,
        },
        r is Some <==> members_parse(v@),
        is_scalar(v@) ==> r is Some && json_parse(r->Some_0@) == Some(v@),
        is_flat(v@) ==> r is Some && json_parse(r->Some_0@) is Some,
{
    let p = |t: &Vec<u8>| serde_json::from_slice::<Value>(t).ok();
    let x = match v {
        JsonValue::Null => Value::Null,
        JsonValue::UInt(u) => Value::from(*u),
        JsonValue::Str(s) => Value::from(s.as_str()),
        JsonValue::Array(a) => Value::Array(a.iter().map(p).collect::<Option<_>>()?),
        JsonValue::Object(f) => Value::Object(f.iter().map(|(k, t)| Some((k.clone(), p(t)?))).collect::<Option<_>>()?),
        JsonValue::Other(t) => p(t)?,
    };
    serde_json::to_vec(&x).ok()
}

/// The text of the first member of `fields` named `key`.
pub open spec fn field_text(fields: Seq<(Seq<char>, Seq<u8>)>, key: Seq<char>) -> Option<Seq<u8>>
    decreases fields.len(),
{
    if fields.len() == 0 {
        None
    } else if fields[0].0 == key {
        Some(fields[0].1)
    } else {
        field_text(fields.drop_first(), key)
    }
}

/// The text of `v[key]` when `v` is an object with a member `key`; `None`
/// otherwise (where indexing gives null).
pub open spec fn member_text(v: JsonView, key: Seq<char>) -> Option<Seq<u8>> {
    match v {
        JsonView::Object(fields) => field_text(fields, key),
        _ => None,
    }
}

/// `v[key].as_str()`: the member `key` of `v` when it is a string.
pub open spec fn member_str(v: JsonView, key: Seq<char>) -> Option<Seq<char>> {
    match member_text(v, key) {
        Some(t) => match json_parse(t) {
            Some(JsonView::Str(s)) => Some(s),
            _ => None,
        },
        None => None,
    }
}

/// `v[key].as_u64()`: the member `key` of `v` when it is a number that is a
/// non-negative integer fitting a u64.
pub open spec fn member_u64(v: JsonView, key: Seq<char>) -> Option<u64> {
    match member_text(v, key) {
        Some(t) => match json_parse(t) {
            Some(JsonView::UInt(n)) => Some(n),
            _ => None,
        },
        None => None,
    }
}

/// The text of the member `key` of `v`, if `v` is an object that has one.
pub fn member<'a>(v: &'a JsonValue, key: &str) -> (r: Option<&'a Vec<u8>>)
    ensures
        match r {
            Some(t) => member_text(v@, key@) == Some(t@),
            None => member_text(v@, key@) is None,
        },
{
    match v {
        JsonValue::Object(fields) => {
            let k = key.to_string();
            let n = fields.len();
            let ghost fv = fields@.map_values(|e: (String, Vec<u8>)| (e.0@, e.1@));
            let mut i: usize = 0;
            assert(fv.skip(0) =~= fv);
            while i < n
                invariant
                    n == fields@.len(),
                    0 <= i <= n,
                    k@ == key@,
                    member_text(v@, key@) == field_text(fv, key@),
                    fv == fields@.map_values(|e: (String, Vec<u8>)| (e.0@, e.1@)),
                    field_text(fv, key@) == field_text(fv.skip(i as int), key@),
                decreases n - i,
            {
                proof {
                    assert(fv.skip(i as int).drop_first() =~= fv.skip(i + 1));
                    assert(fv.skip(i as int)[0] == fv[i as int]);
                }
                if fields[i].0 == k {
                    assert(fv.skip(i as int).len() > 0);
                    assert(fv[i as int].0 == key@);
                    assert(field_text(fv.skip(i as int), key@) == Some(fv[i as int].1));
                    return Some(&fields[i].1);
                }
                i = i + 1;
            }
            None
        },
        _ => None,
    }
}

/// `v[key].as_str()`.
pub fn member_as_str(v: &JsonValue, key: &str) -> (r: Option<String>)
    ensures
        match r {
            Some(s) => member_str(v@, key@) == Some(s@),
            None => member_str(v@, key@) is None,
        },
{
    match member(v, key) {
        Some(t) => match parse_json(t.as_slice()) {
            Some(JsonValue::Str(s)) => Some(s),
            _ => None,
        },
        None => None,
    }
}

/// `v[key].as_u64()`.
pub fn member_as_u64(v: &JsonValue, key: &str) -> (r: Option<u64>)
    ensures
        r == member_u64(v@, key@),
{
    match member(v, key) {
        Some(t) => match parse_json(t.as_slice()) {
            Some(JsonValue::UInt(n)) => Some(n),
            _ => None,
        },
        None => None,
    }
}

} // verus!
