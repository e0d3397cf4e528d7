//! JSON documents, as `serde_json` holds, reads and writes them.
//!
//! Nothing in this file is proved. Each function here makes one call into
//! `serde_json` or `std`, and its contract says of that call what the source
//! or the documentation of the function shows. The contracts speak of a
//! value by the document that it holds, a `Json`.

use vstd::prelude::*;
use vstd::utf8::{decode_utf8, valid_utf8};

verus! {

/// `serde_json::Value`, a JSON document in memory. What it holds is known
/// here as `json_of` alone.
#[verifier::external_type_specification]
#[verifier::external_body]
pub struct ExValue(serde_json::Value);

/// `serde_json::Map`, the members of a JSON object in memory, ordered by their
/// keys. What it holds is known here as `members_of` alone.
#[verifier::external_type_specification]
#[verifier::external_body]
#[verifier::reject_recursive_types(K)]
#[verifier::reject_recursive_types(V)]
pub struct ExMembers<K, V>(serde_json::Map<K, V>);

/// A JSON document.
pub enum Json {
    /// `null`.
    Null,
    /// `true` or `false`.
    Bool(bool),
    /// A number that is held as an integer.
    Integer(int),
    /// A number that is held as a floating point number, given by its bits.
    Float(u64),
    /// A string.
    Text(Seq<char>),
    /// An array, by its items in their order.
    Array(Seq<Json>),
    /// An object, by its members under their keys. No key occurs twice, and
    /// the members have no order of their own.
    Object(Map<Seq<char>, Json>),
}

impl Json {
    /// The member `key` of an object; `None` for an object without such a
    /// member and for a document that is no object.
    pub open spec fn member(self, key: Seq<char>) -> Option<Json> {
        match self {
            Json::Object(members) => if members.dom().contains(key) {
                Some(members[key])
            } else {
                None
            },
            _ => None,
        }
    }
}

/// The document that a `serde_json::Value` holds.
pub uninterp spec fn json_of(value: serde_json::Value) -> Json;

/// The members that a `serde_json::Map` holds, by their keys.
pub uninterp spec fn members_of(members: serde_json::Map<String, serde_json::Value>) -> Map<
    Seq<char>,
    Json,
>;

/// The document that `serde_json::from_str` reads from a text, `None` for a
/// text that it refuses.
pub uninterp spec fn json_parsed(text: Seq<char>) -> Option<Json>;

/// The text that `serde_json` writes for a document, in its compact form.
pub uninterp spec fn json_text(json: Json) -> Seq<char>;

/// The text that `String::from_utf8_lossy` makes of bytes.
pub uninterp spec fn utf8_lossy(bytes: Seq<u8>) -> Seq<char>;

/// `String::from_utf8_lossy`: the text of `bytes`, in which each sequence of
/// bytes that is no UTF-8 is replaced by U+FFFD. Bytes that are UTF-8 give the
/// text that they encode.
#[verifier::external_body]
pub(crate) fn decode_lossy(bytes: &[u8]) -> (r: String)
    ensures
        r@ == utf8_lossy(bytes@),
        valid_utf8(bytes@) ==> r@ == decode_utf8(bytes@),
{
    String::from_utf8_lossy(bytes).into_owned()
}

/// `serde_json::from_str` for a `Value`: the document that the text holds, or
/// `None` where the text is no JSON document.
#[verifier::external_body]
pub(crate) fn parse(text: &str) -> (r: Option<serde_json::Value>)
    ensures
        match r {
            Some(value) => json_parsed(text@) == Some(json_of(value)),
            None => json_parsed(text@) is None,
        },
{
    serde_json::from_str::<serde_json::Value>(text).ok()
}

/// `Value::get` with a text as index: the member `key` of an object, `None`
/// for an object without such a member and for a value that is no object.
#[verifier::external_body]
pub(crate) fn member<'a>(value: &'a serde_json::Value, key: &str) -> (r: Option<
    &'a serde_json::Value,
>)
    ensures
        match r {
            Some(found) => json_of(*value).member(key@) == Some(json_of(*found)),
            None => json_of(*value).member(key@) is None,
        },
{
    value.get(key)
}

/// `Value::as_str`: the text of a value that is a text, `None` for any other
/// value.
#[verifier::external_body]
pub(crate) fn text_of<'a>(value: &'a serde_json::Value) -> (r: Option<&'a str>)
    ensures
        match r {
            Some(text) => json_of(*value) == Json::Text(text@),
            None => !(json_of(*value) is Text),
        },
{
    value.as_str()
}

/// `Value::clone`: a value that holds the same document.
pub assume_specification[ <serde_json::Value as Clone>::clone ](
    value: &serde_json::Value,
) -> (r: serde_json::Value)
    ensures
        json_of(r) == json_of(*value),
;

/// `Value::from` for a `String`: the value that is that text.
#[verifier::external_body]
pub(crate) fn text_value(text: String) -> (r: serde_json::Value)
    ensures
        json_of(r) == Json::Text(text@),
{
    serde_json::Value::from(text)
}

/// `Value::from` for a `usize`: the value that is that number.
#[verifier::external_body]
pub(crate) fn number_value(number: usize) -> (r: serde_json::Value)
    ensures
        json_of(r) == Json::Integer(number as int),
{
    serde_json::Value::from(number)
}

/// `Value::Array`: the value that is the array of the items, in their order.
#[verifier::external_body]
pub(crate) fn array_value(items: Vec<serde_json::Value>) -> (r: serde_json::Value)
    ensures
        json_of(r) == Json::Array(items@.map_values(|item: serde_json::Value| json_of(item))),
{
    serde_json::Value::Array(items)
}

/// `Map::new`: members, none yet.
#[verifier::external_body]
pub(crate) fn no_members() -> (r: serde_json::Map<String, serde_json::Value>)
    ensures
        members_of(r) == (Map::<Seq<char>, Json>::empty()),
{
    serde_json::Map::new()
}

/// `Map::insert`: puts a member under `key`, in place of the member that was
/// under that key, if there was one.
#[verifier::external_body]
pub(crate) fn put_member(
    members: &mut serde_json::Map<String, serde_json::Value>,
    key: &str,
    value: serde_json::Value,
)
    ensures
        members_of(*final(members)) == members_of(*old(members)).insert(key@, json_of(value)),
{
    members.insert(key.to_owned(), value);
}

/// `Value::Object`: the value that is the object of the members.
#[verifier::external_body]
pub(crate) fn object_value(members: serde_json::Map<String, serde_json::Value>) -> (r:
    serde_json::Value)
    ensures
        json_of(r) == Json::Object(members_of(members)),
{
    serde_json::Value::Object(members)
}

/// `Value::to_string`: the document as a JSON text in compact form.
#[verifier::external_body]
pub(crate) fn render(value: &serde_json::Value) -> (r: String)
    ensures
        r@ == json_text(json_of(*value)),
{
    value.to_string()
}

} // verus!
