//! JSON documents as mathematical values, and the calls of `serde_json` that read, build and
//! change them.

use serde_json::Value;
use vstd::prelude::*;

verus! {

/// A JSON number: an integer that fits `u64`, a negative integer that fits `i64`, or the bit
/// pattern of a double.
pub enum JsonNumber {
    Unsigned(u64),
    Negative(i64),
    Double(u64),
}

/// A JSON document.
pub enum Json {
    Null,
    Bool(bool),
    Number(JsonNumber),
    Text(Seq<char>),
    Array(Seq<Json>),
    Object(Map<Seq<char>, Json>),
}

impl Json {
    /// The member of an object under `key`; nothing for any other document.
    pub open spec fn field(self, key: Seq<char>) -> Option<Json> {
        match self {
            Json::Object(members) => if members.contains_key(key) {
                Some(members[key])
            } else {
                None
            },
            _ => None,
        }
    }

    /// The value of an unsigned integer; nothing for any other document.
    pub open spec fn unsigned(self) -> Option<u64> {
        match self {
            Json::Number(JsonNumber::Unsigned(n)) => Some(n),
            _ => None,
        }
    }

    /// The characters of a text; nothing for any other document.
    pub open spec fn text(self) -> Option<Seq<char>> {
        match self {
            Json::Text(chars) => Some(chars),
            _ => None,
        }
    }

    /// The items of an array; no items for any other document.
    pub open spec fn items(self) -> Seq<Json> {
        match self {
            Json::Array(items) => items,
            _ => Seq::empty(),
        }
    }
}

/// The document of a signed integer.
pub open spec fn signed_json(n: int) -> Json {
    if n >= 0 {
        Json::Number(JsonNumber::Unsigned(n as u64))
    } else {
        Json::Number(JsonNumber::Negative(n as i64))
    }
}

#[verifier::external_type_specification]
#[verifier::external_body]
pub struct ExValue(Value);

#[verifier::external_type_specification]
#[verifier::external_body]
#[verifier::reject_recursive_types(K)]
#[verifier::reject_recursive_types(V)]
pub struct ExJsonMap<K, V>(serde_json::Map<K, V>);

#[verifier::external_type_specification]
#[verifier::external_body]
pub struct ExJsonError(serde_json::Error);

/// The document that a `serde_json::Value` holds.
pub uninterp spec fn json_of(value: Value) -> Json;

/// The members that a `serde_json::Map` holds.
pub uninterp spec fn members_of(members: serde_json::Map<String, Value>) -> Map<Seq<char>, Json>;

/// The document that `serde_json::from_str` reads from a text, or nothing where it fails.
pub uninterp spec fn parsed_text(text: Seq<char>) -> Option<Json>;

/// The document that `serde_json::from_slice` reads from bytes, or nothing where it fails.
pub uninterp spec fn parsed_bytes(bytes: Seq<u8>) -> Option<Json>;

/// The bytes that `serde_json::to_vec` writes for a document, or nothing where it fails.
pub uninterp spec fn serialized(document: Json) -> Option<Seq<u8>>;

/// The text that `serde_json` writes for a document.
pub uninterp spec fn rendered(document: Json) -> Seq<char>;

/// `serde_json::from_str` into a `Value`: what it reads, and whether it fails, depends on the text
/// alone.
#[verifier::external_body]
pub(crate) fn parse_text(text: &str) -> (r: Result<Value, serde_json::Error>)
    ensures
        r is Ok <==> parsed_text(text@) is Some,
        r matches Ok(value) ==> parsed_text(text@) == Some(json_of(value)),
{
    serde_json::from_str::<Value>(text)
}

/// `serde_json::from_slice` into a `Value`: what it reads, and whether it fails, depends on the
/// bytes alone.
#[verifier::external_body]
pub(crate) fn parse_bytes(bytes: &[u8]) -> (r: Result<Value, serde_json::Error>)
    ensures
        r is Ok <==> parsed_bytes(bytes@) is Some,
        r matches Ok(value) ==> parsed_bytes(bytes@) == Some(json_of(value)),
{
    serde_json::from_slice::<Value>(bytes)
}

/// `serde_json::to_vec` of a `Value`: what it writes, and whether it fails, depends on the document
/// alone.
#[verifier::external_body]
pub(crate) fn serialize(value: &Value) -> (r: Result<Vec<u8>, serde_json::Error>)
    ensures
        r is Ok <==> serialized(json_of(*value)) is Some,
        r matches Ok(bytes) ==> serialized(json_of(*value)) == Some(bytes@),
{
    serde_json::to_vec(value)
}

/// `serde_json::to_value` of a `Value`: the same document. Nothing in a `Value` makes it fail.
#[verifier::external_body]
pub(crate) fn copy_document(value: &Value) -> (r: Result<Value, serde_json::Error>)
    ensures
        r is Ok,
        r matches Ok(copy) ==> json_of(copy) == json_of(*value),
{
    serde_json::to_value(value)
}

/// `Value`'s `to_string`: the text depends on the document alone.
#[verifier::external_body]
pub(crate) fn render(value: &Value) -> (text: String)
    ensures
        text@ == rendered(json_of(*value)),
{
    value.to_string()
}

/// `Value::get` with a text: the member of an object under that key, nothing for any other
/// document.
#[verifier::external_body]
pub(crate) fn field<'a>(value: &'a Value, key: &str) -> (r: Option<&'a Value>)
    ensures
        r is Some <==> json_of(*value).field(key@) is Some,
        r matches Some(member) ==> json_of(*value).field(key@) == Some(json_of(*member)),
{
    value.get(key)
}

/// `Value::as_u64`: the value of an unsigned integer, nothing for any other document.
pub assume_specification[ Value::as_u64 ](value: &Value) -> (r: Option<u64>)
    ensures
        r == json_of(*value).unsigned(),
;

/// `Value::as_bool`: a truth value, nothing for any other document.
pub assume_specification[ Value::as_bool ](value: &Value) -> (r: Option<bool>)
    ensures
        r == match json_of(*value) {
            Json::Bool(b) => Some(b),
            _ => None,
        },
;

/// `Value::as_str`: the characters of a text, nothing for any other document.
pub assume_specification[ Value::as_str ](value: &Value) -> (r: Option<&str>)
    ensures
        r is Some <==> json_of(*value) is Text,
        r matches Some(text) ==> json_of(*value) == Json::Text(text@),
;

/// `Value::as_array`: the items of an array in order, nothing for any other document.
pub assume_specification[ Value::as_array ](value: &Value) -> (r: Option<&Vec<Value>>)
    ensures
        r is Some <==> json_of(*value) is Array,
        r matches Some(items) ==> json_of(*value) == Json::Array(
            items@.map_values(|item: Value| json_of(item)),
        ),
;

/// `Value::as_object`: the members of an object, nothing for any other document.
pub assume_specification[ Value::as_object ](value: &Value) -> (r: Option<
    &serde_json::Map<String, Value>,
>)
    ensures
        r is Some <==> json_of(*value) is Object,
        r matches Some(members) ==> json_of(*value) == Json::Object(members_of(*members)),
;

/// `Value::as_object_mut`: the members of an object, through which the object can be changed, and
/// nothing for any other document, which stays as it is.
#[verifier::external_body]
pub(crate) fn object_mut(value: &mut Value) -> (r: Option<&mut serde_json::Map<String, Value>>)
    ensures
        r is Some <==> json_of(*old(value)) is Object,
        match r {
            Some(members) => json_of(*old(value)) == Json::Object(members_of(*members)) && json_of(
                *final(value),
            ) == Json::Object(members_of(*final(members))),
            None => json_of(*final(value)) == json_of(*old(value)),
        },
{
    value.as_object_mut()
}

/// `serde_json::Map::get`: the member under a key.
#[verifier::external_body]
pub(crate) fn member<'a>(members: &'a serde_json::Map<String, Value>, key: &str) -> (r: Option<
    &'a Value,
>)
    ensures
        r is Some <==> members_of(*members).contains_key(key@),
        r matches Some(value) ==> json_of(*value) == members_of(*members)[key@],
{
    members.get(key)
}

/// `serde_json::Map::get_mut`: the member under a key, through which it can be changed; without
/// such a member the map stays as it is.
#[verifier::external_body]
pub(crate) fn member_mut<'a>(
    members: &'a mut serde_json::Map<String, Value>,
    key: &str,
) -> (r: Option<&'a mut Value>)
    ensures
        r is Some <==> members_of(*old(members)).contains_key(key@),
        match r {
            Some(value) => json_of(*value) == members_of(*old(members))[key@] && members_of(
                *final(members),
            ) == members_of(*old(members)).insert(key@, json_of(*final(value))),
            None => members_of(*final(members)) == members_of(*old(members)),
        },
{
    members.get_mut(key)
}

/// `serde_json::Map::remove`: takes the member under a key out, if there is one.
#[verifier::external_body]
pub(crate) fn remove_member(members: &mut serde_json::Map<String, Value>, key: &str)
    ensures
        members_of(*final(members)) == members_of(*old(members)).remove(key@),
{
    members.remove(key);
}

/// `serde_json::Map::is_empty`.
pub assume_specification[ serde_json::Map::<String, Value>::is_empty ](
    members: &serde_json::Map<String, Value>,
) -> (r: bool)
    ensures
        r == members_of(*members).is_empty(),
;

/// `serde_json::Map::new`: no members.
pub assume_specification[ serde_json::Map::<String, Value>::new ]() -> (members: serde_json::Map<
    String,
    Value,
>)
    ensures
        members_of(members).is_empty(),
;

/// `serde_json::Map::insert`: puts a member in, in place of one under the same key, which it hands
/// back.
pub assume_specification[ serde_json::Map::<String, Value>::insert ](
    members: &mut serde_json::Map<String, Value>,
    key: String,
    value: Value,
) -> (r: Option<Value>)
    ensures
        members_of(*final(members)) == members_of(*old(members)).insert(key@, json_of(value)),
        r is Some <==> members_of(*old(members)).contains_key(key@),
        r matches Some(replaced) ==> json_of(replaced) == members_of(*old(members))[key@],
;

/// `Value::String`: the document of a text.
#[verifier::external_body]
pub(crate) fn text_value(text: String) -> (value: Value)
    ensures
        json_of(value) == Json::Text(text@),
{
    Value::String(text)
}

/// `Value::Bool`: the document of a truth value.
#[verifier::external_body]
pub(crate) fn bool_value(b: bool) -> (value: Value)
    ensures
        json_of(value) == Json::Bool(b),
{
    Value::Bool(b)
}

/// `Value::from` a `u64`: the document of an unsigned integer.
#[verifier::external_body]
pub(crate) fn count_value(n: u64) -> (value: Value)
    ensures
        json_of(value) == Json::Number(JsonNumber::Unsigned(n)),
{
    Value::from(n)
}

/// `Value::from` an `i64`: the document of a signed integer.
#[verifier::external_body]
pub(crate) fn signed_value(n: i64) -> (value: Value)
    ensures
        json_of(value) == signed_json(n as int),
{
    Value::from(n)
}

/// `Value::Null`.
#[verifier::external_body]
pub(crate) fn null_value() -> (value: Value)
    ensures
        json_of(value) == Json::Null,
{
    Value::Null
}

/// `Value::Object`: the document of the given members.
#[verifier::external_body]
pub(crate) fn object_value(members: serde_json::Map<String, Value>) -> (value: Value)
    ensures
        json_of(value) == Json::Object(members_of(members)),
{
    Value::Object(members)
}

/// The parts of a document are read where they are and nowhere else: a member of an object under its
/// key, an unsigned integer, the characters of a text, the items of an array.
pub proof fn parts_are_read_where_they_are(
    document: Json,
    members: Map<Seq<char>, Json>,
    key: Seq<char>,
    n: u64,
    chars: Seq<char>,
    items: Seq<Json>,
)
    ensures
        members.contains_key(key) ==> Json::Object(members).field(key) == Some(members[key]),
        !members.contains_key(key) ==> Json::Object(members).field(key) is None,
        !(document is Object) ==> document.field(key) is None,
        document.unsigned() == Some(n) <==> document == Json::Number(JsonNumber::Unsigned(n)),
        document.text() == Some(chars) <==> document == Json::Text(chars),
        Json::Array(items).items() == items,
        !(document is Array) ==> document.items() == Seq::<Json>::empty(),
{
}

/// A signed integer is written as a negative one if and only if it is below zero.
pub proof fn a_signed_integer_keeps_its_sign(n: i64)
    ensures
        n < 0 ==> signed_json(n as int) == Json::Number(JsonNumber::Negative(n)),
        n >= 0 ==> signed_json(n as int) == Json::Number(JsonNumber::Unsigned(n as u64)),
{
}

} // verus!
