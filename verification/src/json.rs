//! JSON documents: what a `serde_json::Value` holds, and the few operations on it that the
//! pingers and the subscription tasks need.
use vstd::prelude::*;

verus! {

/// What a JSON document holds.
///
/// `Integer` is a number that `serde_json::Value` keeps as an integer, between `i64::MIN` and
/// `u64::MAX`; every other number is a `Real`, known by the bits of its double.
pub enum Json {
    Null,
    Bool(bool),
    Integer(int),
    Real(u64),
    Text(Seq<char>),
    Array(Seq<Json>),
    Object(Map<Seq<char>, Json>),
}

impl Json {
    /// The members of an object; a null document counts as an object without members.
    pub open spec fn members(self) -> Map<Seq<char>, Json> {
        match self {
            Json::Object(members) => members,
            _ => Map::empty(),
        }
    }

    /// The member `key`, where the document is an object that has one.
    pub open spec fn member(self, key: Seq<char>) -> Option<Json> {
        if self is Object && self->Object_0.contains_key(key) {
            Some(self->Object_0[key])
        } else {
            None
        }
    }

    /// The document after the member `key` has been set to `value`.
    pub open spec fn with(self, key: Seq<char>, value: Json) -> Json {
        Json::Object(self.members().insert(key, value))
    }

    /// The number as a `u64`, where it is an integer that fits.
    pub open spec fn as_u64(self) -> Option<u64> {
        match self {
            Json::Integer(n) => if 0 <= n <= u64::MAX {
                Some(n as u64)
            } else {
                None
            },
            _ => None,
        }
    }

    /// The number as an `i64`, where it is an integer that fits.
    pub open spec fn as_i64(self) -> Option<i64> {
        match self {
            Json::Integer(n) => if i64::MIN <= n <= i64::MAX {
                Some(n as i64)
            } else {
                None
            },
            _ => None,
        }
    }
}

/// `serde_json::Value`, opaque here: contracts speak of it through `json_view`.
#[verifier::external_type_specification]
#[verifier::external_body]
pub struct ExValue(serde_json::Value);

/// What a `serde_json::Value` holds.
pub uninterp spec fn json_view(value: serde_json::Value) -> Json;

/// The document that `serde_json::from_str` reads in a text, if the text is one JSON document.
pub uninterp spec fn json_parsed(text: Seq<char>) -> Option<Json>;

/// `serde_json::from_str::<Value>`: the document that the text holds, and nothing where the text
/// is not JSON. A text that begins with an opening brace can only hold an object.
#[verifier::external_body]
pub(crate) fn json_parse(text: &str) -> (document: Option<serde_json::Value>)
    ensures
        document is Some <==> json_parsed(text@) is Some,
        document matches Some(value) ==> json_parsed(text@) == Some(json_view(value)),
        document matches Some(value) ==> (text@.len() > 0 && text@[0] == '{' ==> json_view(
            value,
        ) is Object),
{
    serde_json::from_str::<serde_json::Value>(text).ok()
}

/// `Value::Null`: the null document.
#[verifier::external_body]
pub(crate) fn json_null() -> (document: serde_json::Value)
    ensures
        json_view(document) == Json::Null,
{
    serde_json::Value::Null
}

/// `Value::from(&str)`: the document that is this text.
#[verifier::external_body]
pub(crate) fn json_text(text: &str) -> (document: serde_json::Value)
    ensures
        json_view(document) == Json::Text(text@),
{
    serde_json::Value::from(text)
}

/// `Value::from(u64)`: the document that is this number.
#[verifier::external_body]
pub(crate) fn json_u64(number: u64) -> (document: serde_json::Value)
    ensures
        json_view(document) == Json::Integer(number as int),
{
    serde_json::Value::from(number)
}

/// `Value::from(i64)`: the document that is this number.
#[verifier::external_body]
pub(crate) fn json_i64(number: i64) -> (document: serde_json::Value)
    ensures
        json_view(document) == Json::Integer(number as int),
{
    serde_json::Value::from(number)
}

/// `value["key"] = ...`, which is `IndexMut` of `Value`: sets one member of an object and leaves
/// the others as they are. A null document becomes an object; any other kind would panic.
#[verifier::external_body]
pub(crate) fn json_set(document: &mut serde_json::Value, key: &str, value: serde_json::Value)
    requires
        json_view(*old(document)) is Null || json_view(*old(document)) is Object,
    ensures
        json_view(*final(document)) == json_view(*old(document)).with(key@, json_view(value)),
{
    document[key] = value;
}

/// `Value::get` with a string: the member of that name, where the document is an object that has
/// one.
#[verifier::external_body]
pub(crate) fn json_get<'a>(document: &'a serde_json::Value, key: &str) -> (member: Option<
    &'a serde_json::Value,
>)
    ensures
        member is Some <==> json_view(*document).member(key@) is Some,
        member matches Some(value) ==> json_view(*document).member(key@) == Some(
            json_view(*value),
        ),
{
    document.get(key)
}

/// `Value::as_u64`: the number, where the document is an integer that fits a `u64`.
#[verifier::external_body]
pub(crate) fn json_as_u64(document: &serde_json::Value) -> (number: Option<u64>)
    ensures
        number == json_view(*document).as_u64(),
{
    document.as_u64()
}

/// `Value::as_i64`: the number, where the document is an integer that fits an `i64`.
#[verifier::external_body]
pub(crate) fn json_as_i64(document: &serde_json::Value) -> (number: Option<i64>)
    ensures
        number == json_view(*document).as_i64(),
{
    document.as_i64()
}

} // verus!
