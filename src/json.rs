//! What the library takes from `serde_json`: parsing a JSON text into a value
//! tree, and the string value.
use vstd::prelude::*;

verus! {

#[verifier::external_type_specification]
#[verifier::external_body]
pub struct ExValue(serde_json::Value);

#[verifier::external_type_specification]
#[verifier::external_body]
#[verifier::reject_recursive_types(K)]
#[verifier::reject_recursive_types(V)]
pub struct ExMap<K, V>(serde_json::Map<K, V>);

/// A JSON object.
pub type JsonObject = serde_json::Map<String, serde_json::Value>;

/// The keys of a JSON object with their values.
pub type JsonEntries = Map<Seq<char>, serde_json::Value>;

/// What a JSON object holds.
pub uninterp spec fn json_map_view(m: JsonObject) -> JsonEntries;

/// Relies on `serde_json::Map::new`: an empty object.
#[verifier::external_body]
pub(crate) fn json_map_new() -> (r: JsonObject)
    ensures
        json_map_view(r) == JsonEntries::empty(),
{
    serde_json::Map::new()
}

/// Relies on `Clone for serde_json::Map`: a copy with the same entries.
pub assume_specification[ <serde_json::Map<String, serde_json::Value> as Clone>::clone ](m: &serde_json::Map<String, serde_json::Value>) -> (r: serde_json::Map<String, serde_json::Value>)
    ensures
        json_map_view(r) == json_map_view(*m),
;

/// Relies on `serde_json::Map::insert`: sets `k` to `v` and gives the value
/// that `k` had.
#[verifier::external_body]
pub(crate) fn json_map_insert(
    m: &mut JsonObject,
    k: String,
    v: serde_json::Value,
) -> (r: Option<serde_json::Value>)
    ensures
        json_map_view(*final(m)) == json_map_view(*old(m)).insert(k@, v),
        r matches Some(w) ==> json_map_view(*old(m)).contains_key(k@) && json_map_view(
            *old(m),
        )[k@] == w,
        r is None ==> !json_map_view(*old(m)).contains_key(k@),
{
    m.insert(k, v)
}

/// Relies on `serde_json::Map::get`: the value of `key`, if it has one.
#[verifier::external_body]
pub(crate) fn json_map_get<'a>(m: &'a JsonObject, key: &str) -> (r:
    Option<&'a serde_json::Value>)
    ensures
        r matches Some(w) ==> json_map_view(*m).contains_key(key@) && json_map_view(*m)[key@]
            == *w,
        r is None ==> !json_map_view(*m).contains_key(key@),
{
    m.get(key)
}

/// Relies on `serde_json::Map::remove`: removes `key` and gives the value it
/// had.
#[verifier::external_body]
pub(crate) fn json_map_remove(m: &mut JsonObject, key: &str) -> (r:
    Option<serde_json::Value>)
    ensures
        json_map_view(*final(m)) == json_map_view(*old(m)).remove(key@),
        r matches Some(w) ==> json_map_view(*old(m)).contains_key(key@) && json_map_view(
            *old(m),
        )[key@] == w,
        r is None ==> !json_map_view(*old(m)).contains_key(key@),
{
    m.remove(key)
}

/// The value that the JSON text `text` denotes, if it is a JSON document.
pub uninterp spec fn json_of(text: Seq<char>) -> Option<serde_json::Value>;

/// The JSON string value holding `s`.
pub uninterp spec fn json_string_of(s: Seq<char>) -> serde_json::Value;

/// Relies on `serde_json::from_str::<Value>`: the value tree of a JSON
/// document, or an error; the outcome depends on the text alone.
#[verifier::external_body]
pub(crate) fn parse_json(text: &str) -> (r: Option<serde_json::Value>)
    ensures
        r == json_of(text@),
{
    serde_json::from_str::<serde_json::Value>(text).ok()
}

/// Relies on `From<String> for serde_json::Value`: `Value::String(s)`.
#[verifier::external_body]
pub(crate) fn json_string(s: String) -> (r: serde_json::Value)
    ensures
        r == json_string_of(s@),
{
    serde_json::Value::from(s)
}

/// Relies on `serde_json::Value::as_str`: the text of a `Value::String`,
/// `None` for any other value.
pub assume_specification[ serde_json::Value::as_str ](v: &serde_json::Value) -> (r: Option<&str>)
    ensures
        r matches Some(s) ==> *v == json_string_of(s@),
        r is None ==> forall|t: Seq<char>| *v != json_string_of(t),
        r matches Some(s) ==> forall|t: Seq<char>| *v == json_string_of(t) ==> s@ == t,
;

} // verus!
