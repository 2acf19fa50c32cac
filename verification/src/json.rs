//! Trusted boundary to `serde_json`, which parses registry response bodies.
//! A parsed document is opaque to the rest of the library; what a value holds
//! is named by `value_model`, and the wrappers of the accessor methods the
//! lister calls state what each returns over that name.

use vstd::prelude::*;

verus! {

#[verifier::external_type_specification]
#[verifier::external_body]
pub struct ExJsonValue(serde_json::Value);

/// Model of a JSON value: exactly what the version lister reads. Numbers are
/// modelled opaquely, since the lister never reads one.
pub enum JsonModel {
    Null,
    Boolean(bool),
    Number,
    Str(Seq<char>),
    Arr(Seq<JsonModel>),
    Obj(Map<Seq<char>, JsonModel>),
}

/// What `serde_json::from_str::<Value>` yields on `s`: a function of the
/// text alone, `None` when the text is not a JSON document.
pub uninterp spec fn json_of(s: Seq<char>) -> Option<JsonModel>;

/// What a parsed `serde_json::Value` holds.
pub uninterp spec fn value_model(v: serde_json::Value) -> JsonModel;

/// Relies on `serde_json::from_str::<Value>`: a deterministic parse of a
/// JSON document, failing exactly on malformed text.
#[verifier::external_body]
pub fn parse_json(s: &str) -> (r: Option<serde_json::Value>)
    ensures
        r is Some <==> json_of(s@) is Some,
        r matches Some(v) ==> json_of(s@) == Some(value_model(v)),
{
    serde_json::from_str(s).ok()
}

/// Relies on `serde_json::Value::get` with a string index: `Some` exactly
/// when the value is an object with that member, returning the member.
#[verifier::external_body]
pub fn json_get<'a>(v: &'a serde_json::Value, key: &str) -> (r: Option<&'a serde_json::Value>)
    ensures
        r is Some <==> (value_model(*v) matches JsonModel::Obj(m) && m.contains_key(key@)),
        r matches Some(f) ==> value_model(*v) matches JsonModel::Obj(m)
            && value_model(*f) == m[key@],
{
    v.get(key)
}

/// Relies on `serde_json::Value::as_array`: `Some` exactly on arrays,
/// returning the elements in order.
#[verifier::external_body]
pub fn json_as_array<'a>(v: &'a serde_json::Value) -> (r: Option<&'a Vec<serde_json::Value>>)
    ensures
        r is Some <==> value_model(*v) is Arr,
        r matches Some(a) ==> value_model(*v) matches JsonModel::Arr(m)
            && a@.len() == m.len()
            && forall|i: int| 0 <= i < m.len() ==> value_model(#[trigger] a@[i]) == m[i],
{
    v.as_array()
}

/// Relies on `serde_json::Value::as_str`: `Some` exactly on strings,
/// returning the text.
#[verifier::external_body]
pub fn json_as_str<'a>(v: &'a serde_json::Value) -> (r: Option<&'a str>)
    ensures
        r is Some <==> value_model(*v) is Str,
        r matches Some(s) ==> value_model(*v) == JsonModel::Str(s@),
{
    v.as_str()
}

} // verus!
