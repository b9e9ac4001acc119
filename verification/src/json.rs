//! JSON documents as plain values, read from the text that tools print.
use vstd::prelude::*;
use crate::text::str_eq;

verus! {

/// A JSON value. Object members keep the order in which the parser hands them
/// over.
#[derive(Debug)]
pub enum Json {
    Null,
    Bool(bool),
    /// A number, in the decimal text the parser prints for it.
    Number(String),
    Str(String),
    Array(Vec<Json>),
    Object(Vec<(String, Json)>),
}

/// The value of the first member named `key`.
pub open spec fn member(fields: Seq<(String, Json)>, key: Seq<char>) -> Option<Json>
    decreases fields.len(),
{
    if fields.len() == 0 {
        None
    } else if fields[0].0@ == key {
        Some(fields[0].1)
    } else {
        member(fields.drop_first(), key)
    }
}

/// The string member named `key`, if there is one and it is a string.
pub open spec fn str_member(fields: Seq<(String, Json)>, key: Seq<char>) -> Option<Seq<char>> {
    match member(fields, key) {
        Some(Json::Str(s)) => Some(s@),
        _ => None,
    }
}

/// The boolean member named `key`, if there is one and it is a boolean.
pub open spec fn bool_member(fields: Seq<(String, Json)>, key: Seq<char>) -> Option<bool> {
    match member(fields, key) {
        Some(Json::Bool(b)) => Some(b),
        _ => None,
    }
}

/// The member named `key` of an object; `None` for other values.
pub open spec fn json_get(j: Json, key: Seq<char>) -> Option<Json> {
    match j {
        Json::Object(f) => member(f@, key),
        _ => None,
    }
}

/// Looks up the first member named `key` in an object's members.
pub fn find_member<'a>(fields: &'a Vec<(String, Json)>, key: &str) -> (r: Option<&'a Json>)
    ensures
        match r {
            Some(v) => member(fields@, key@) == Some(*v),
            None => member(fields@, key@) is None,
        },
{
    let mut i: usize = 0;
    assert(fields@.skip(0) =~= fields@);
    while i < fields.len()
        invariant
            i <= fields@.len(),
            member(fields@, key@) == member(fields@.skip(i as int), key@),
        decreases fields.len() - i,
    {
        let ghost rest = fields@.skip(i as int);
        assert(rest.drop_first() =~= fields@.skip(i + 1));
        if str_eq(fields[i].0.as_str(), key) {
            return Some(&fields[i].1);
        }
        i = i + 1;
    }
    None
}

/// The string member named `key`.
pub fn str_member_of<'a>(fields: &'a Vec<(String, Json)>, key: &str) -> (r: Option<&'a str>)
    ensures
        match r {
            Some(s) => str_member(fields@, key@) == Some(s@),
            None => str_member(fields@, key@) is None,
        },
{
    match find_member(fields, key) {
        Some(Json::Str(s)) => Some(s.as_str()),
        _ => None,
    }
}

/// The boolean member named `key`.
pub fn bool_member_of(fields: &Vec<(String, Json)>, key: &str) -> (r: Option<bool>)
    ensures
        r == bool_member(fields@, key@),
{
    match find_member(fields, key) {
        Some(Json::Bool(b)) => Some(*b),
        _ => None,
    }
}

} // verus!

verus! {

#[verifier::external_type_specification]
#[verifier::external_body]
pub struct ExJsonValue(serde_json::Value);

/// What `serde_json::from_str::<serde_json::Value>` makes of `text`, as a
/// `Json` value: `None` when the text is not one JSON document.
pub uninterp spec fn parsed_json(text: Seq<char>) -> Option<Json>;

/// Parses `text` with `serde_json::from_str` into a `serde_json::Value` and
/// turns that into a `Json` of the same shape. The contract only names the
/// result (`parsed_json` of the text): it depends on the text alone.
#[verifier::external_body]
pub fn parse_json(text: &str) -> (r: Option<Json>)
    ensures
        r == parsed_json(text@),
{
    serde_json::from_str::<serde_json::Value>(text).ok().map(json_of)
}

/// Turns a `serde_json::Value` into the `Json` of the same shape, variant for
/// variant. Only `parse_json` uses it; the pair is described by `parse_json`.
#[verifier::external_body]
fn json_of(v: serde_json::Value) -> Json {
    match v {
        serde_json::Value::Null => Json::Null,
        serde_json::Value::Bool(b) => Json::Bool(b),
        serde_json::Value::Number(n) => Json::Number(n.to_string()),
        serde_json::Value::String(s) => Json::Str(s),
        serde_json::Value::Array(a) => Json::Array(a.into_iter().map(json_of).collect()),
        serde_json::Value::Object(m) => Json::Object(m.into_iter().map(|(k, x)| (k, json_of(x))).collect()),
    }
}

} // verus!
