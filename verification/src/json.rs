//! The JSON documents this crate reads, as `serde_json` parses them.

use vstd::prelude::*;

verus! {

/// A JSON value as mathematics: the tree that a `serde_json::Value` holds.
pub enum Json {
    Null,
    Bool(bool),
    /// A number that the value holds as an integer.
    Integer(int),
    /// Any other number.
    Inexact,
    Text(Seq<char>),
    List(Seq<Json>),
    /// The members by name; of two members with one name the value keeps the
    /// later.
    Object(Map<Seq<char>, Json>),
}

/// `serde_json::Value`, carried as it is; what it holds is read through the
/// functions below.
#[verifier::external_type_specification]
#[verifier::external_body]
pub struct ExValue(serde_json::Value);

/// `serde_json::Error`, carried as it is; nothing is read from it.
#[verifier::external_type_specification]
#[verifier::external_body]
pub struct ExJsonError(serde_json::Error);

/// The tree that a value holds: variant for variant what `serde_json::Value`
/// is, an integer where its number is one.
pub uninterp spec fn json_of(v: serde_json::Value) -> Json;

/// The tree that `serde_json` reads from a text, `None` where it rejects the text.
pub uninterp spec fn json_document(text: Seq<char>) -> Option<Json>;

/// `serde_json::from_str` at type `Value`: the document of the text, or an
/// error exactly where the text has none.
#[verifier::external_body]
pub(crate) fn parse_value(text: &str) -> (r: Result<serde_json::Value, serde_json::Error>)
    ensures
        match r {
            Ok(v) => json_document(text@) == Some(json_of(v)),
            Err(_) => json_document(text@) is None,
        },
{
    serde_json::from_str::<serde_json::Value>(text)
}

/// `Value::get` with a string key: the member of that name where the value is
/// an object that has one, else `None`.
#[verifier::external_body]
pub(crate) fn member<'a>(v: &'a serde_json::Value, key: &str) -> (r: Option<&'a serde_json::Value>)
    ensures
        match r {
            Some(m) => json_of(*v) matches Json::Object(o) && o.contains_key(key@) && json_of(*m)
                == o[key@],
            None => !(json_of(*v) matches Json::Object(o) && o.contains_key(key@)),
        },
{
    v.get(key)
}

/// `Value::as_str`: the text of a string value, `None` for any other value.
pub assume_specification<'a>[ serde_json::Value::as_str ](v: &'a serde_json::Value) -> (r: Option<&'a str>)
    ensures
        match r {
            Some(s) => json_of(*v) == Json::Text(s@),
            None => !(json_of(*v) is Text),
        },
;

/// `Value::as_array`: the elements of an array value in order, `None` for any
/// other value.
pub assume_specification<'a>[ serde_json::Value::as_array ](v: &'a serde_json::Value) -> (r: Option<&'a Vec<serde_json::Value>>)
    ensures
        match r {
            Some(a) => json_of(*v) matches Json::List(l) && l.len() == a@.len() && forall|i: int|
                0 <= i < l.len() ==> json_of(#[trigger] a@[i]) == l[i],
            None => !(json_of(*v) is List),
        },
;

/// `Value::as_i64`: the number where the value is an integer that an `i64`
/// holds, else `None`.
pub assume_specification[ serde_json::Value::as_i64 ](v: &serde_json::Value) -> (r: Option<i64>)
    ensures
        match r {
            Some(n) => json_of(*v) == Json::Integer(n as int),
            None => !(json_of(*v) matches Json::Integer(n) && i64::MIN <= n <= i64::MAX),
        },
;

} // verus!
