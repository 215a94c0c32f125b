//! JSON documents, as `serde_json` holds them.

use serde_json::Value;
use vstd::prelude::*;

use crate::text;

verus! {

/// A JSON document of `serde_json`.
#[verifier::external_type_specification]
#[verifier::external_body]
pub struct ExValue(serde_json::Value);

/// What a JSON document holds.
pub enum JsonView {
    Null,
    Bool(bool),
    /// A number, as it is written out.
    Number(Seq<char>),
    Text(Seq<char>),
    Array(Seq<JsonView>),
    Object(Map<Seq<char>, JsonView>),
}

/// What a `serde_json::Value` holds.
pub uninterp spec fn json_of(v: serde_json::Value) -> JsonView;

/// What `serde_json::from_slice` makes of the bytes: the document that they
/// spell out, or the text of the error.
pub uninterp spec fn json_parse(bytes: Seq<u8>) -> Result<JsonView, Seq<char>>;

/// The bytes that `serde_json::to_vec` writes for a document.
pub uninterp spec fn json_print(j: JsonView) -> Seq<u8>;

/// The member of an object under `key`.
pub open spec fn member(j: JsonView, key: Seq<char>) -> Option<JsonView> {
    match j {
        JsonView::Object(members) => if members.dom().contains(key) {
            Some(members[key])
        } else {
            None
        },
        _ => None,
    }
}

/// The characters of a string.
pub open spec fn text_in(j: JsonView) -> Option<Seq<char>> {
    match j {
        JsonView::Text(text) => Some(text),
        _ => None,
    }
}

/// The elements of an array.
pub open spec fn items_in(j: JsonView) -> Option<Seq<JsonView>> {
    match j {
        JsonView::Array(items) => Some(items),
        _ => None,
    }
}

/// The string under `key` of an object.
pub open spec fn text_member(j: JsonView, key: Seq<char>) -> Option<Seq<char>> {
    match member(j, key) {
        Some(value) => text_in(value),
        None => None,
    }
}

/// The array under `key` of an object.
pub open spec fn array_member(j: JsonView, key: Seq<char>) -> Option<Seq<JsonView>> {
    match member(j, key) {
        Some(value) => items_in(value),
        None => None,
    }
}

/// `j` with `value` under `key`.
pub open spec fn with_member(j: JsonView, key: Seq<char>, value: JsonView) -> JsonView {
    match j {
        JsonView::Object(members) => JsonView::Object(members.insert(key, value)),
        _ => j,
    }
}

/// What each of several documents holds.
pub open spec fn all_json(values: Seq<Value>) -> Seq<JsonView> {
    values.map_values(|v: Value| json_of(v))
}

/// What a document holds, if there is one.
pub open spec fn opt_json(v: Option<Value>) -> Option<JsonView> {
    match v {
        Some(v) => Some(json_of(v)),
        None => None,
    }
}

/// `Value::clone`: the copy holds what the document holds.
pub assume_specification[ <serde_json::Value as Clone>::clone ](v: &serde_json::Value) -> (r:
    serde_json::Value)
    ensures
        json_of(r) == json_of(*v),
;

/// `Value::get` with a string for an index: the member of that name, where the
/// document is an object that has one.
#[verifier::external_body]
pub(crate) fn json_get<'a>(v: &'a Value, key: &str) -> (r: Option<&'a Value>)
    ensures
        match r {
            Some(found) => member(json_of(*v), key@) == Some(json_of(*found)),
            None => member(json_of(*v), key@) is None,
        },
{
    v.get(key)
}

/// `Value::as_str`: the characters, where the document is a string.
#[verifier::external_body]
pub(crate) fn json_as_str<'a>(v: &'a Value) -> (r: Option<&'a str>)
    ensures
        match r {
            Some(found) => text_in(json_of(*v)) == Some(found@),
            None => text_in(json_of(*v)) is None,
        },
{
    v.as_str()
}

/// `Value::as_array`: the elements, where the document is an array.
#[verifier::external_body]
pub(crate) fn json_as_array<'a>(v: &'a Value) -> (r: Option<&'a Vec<Value>>)
    ensures
        match r {
            Some(found) => items_in(json_of(*v)) == Some(all_json(found@)),
            None => items_in(json_of(*v)) is None,
        },
{
    v.as_array()
}

/// `Value::String`: the document that is the given string.
#[verifier::external_body]
pub(crate) fn json_text(text: String) -> (r: Value)
    ensures
        json_of(r) == JsonView::Text(text@),
{
    Value::String(text)
}

/// `Value::from` on an integer: the document that is the given number, which is
/// written out in decimal.
#[verifier::external_body]
pub(crate) fn json_number(n: u64) -> (r: Value)
    ensures
        json_of(r) == JsonView::Number(text::decimal(n as nat)),
{
    Value::from(n)
}

/// `Value::Array`: the document that is an array of the given ones.
#[verifier::external_body]
pub(crate) fn json_array(items: Vec<Value>) -> (r: Value)
    ensures
        json_of(r) == JsonView::Array(all_json(items@)),
{
    Value::Array(items)
}

/// `serde_json::Map::new`: the document that is an object without members.
#[verifier::external_body]
pub(crate) fn json_object() -> (r: Value)
    ensures
        json_of(r) == JsonView::Object(Map::empty()),
{
    Value::Object(serde_json::Map::new())
}

/// Assignment to `value["key"]` (`IndexMut` for `Value`): puts a member in place
/// of the one of that name or adds it. On what is neither an object nor null it
/// would panic.
#[verifier::external_body]
pub(crate) fn json_set(v: &mut Value, key: &str, value: Value)
    requires
        json_of(*old(v)) is Object,
    ensures
        json_of(*final(v)) == with_member(json_of(*old(v)), key@, json_of(value)),
{
    v[key] = value;
}

/// `serde_json::from_slice` into a `Value`: the document that the bytes spell
/// out, or the text of the error.
#[verifier::external_body]
pub(crate) fn parse_json(bytes: &[u8]) -> (r: Result<Value, String>)
    ensures
        match r {
            Ok(v) => json_parse(bytes@) == Ok::<JsonView, Seq<char>>(json_of(v)),
            Err(e) => json_parse(bytes@) == Err::<JsonView, Seq<char>>(e@),
        },
{
    serde_json::from_slice(bytes).map_err(|e| e.to_string())
}

/// `serde_json::to_vec`, which does not fail on a `Value`: the bytes depend only
/// on what the document holds, since an object keeps its members sorted by name.
/// Where they can be parsed, a `model` that is a string comes back as it was.
///
/// Left unsaid is that they can be parsed, since the parser refuses documents that
/// are nested too deep, and what becomes of the rest: a number that is not an
/// integer may be rounded, and an object whose only member goes by the name that
/// `serde_json` keeps for raw values gives way to the document in that member.
#[verifier::external_body]
pub(crate) fn print_json(v: &Value) -> (r: Vec<u8>)
    ensures
        r@ == json_print(json_of(*v)),
        text_member(json_of(*v), "model"@) matches Some(model) ==> (json_parse(r@) matches Ok(back)
            ==> text_member(back, "model"@) == Some(model)),
{
    serde_json::to_vec(v).unwrap()
}

/// The string under `key` of an object.
pub fn get_text<'a>(v: &'a Value, key: &str) -> (r: Option<&'a str>)
    ensures
        match r {
            Some(found) => text_member(json_of(*v), key@) == Some(found@),
            None => text_member(json_of(*v), key@) is None,
        },
{
    match json_get(v, key) {
        Some(found) => json_as_str(found),
        None => None,
    }
}

/// The array under `key` of an object.
pub fn get_array<'a>(v: &'a Value, key: &str) -> (r: Option<&'a Vec<Value>>)
    ensures
        match r {
            Some(found) => array_member(json_of(*v), key@) == Some(all_json(found@)),
            None => array_member(json_of(*v), key@) is None,
        },
{
    match json_get(v, key) {
        Some(found) => json_as_array(found),
        None => None,
    }
}

/// What is put into an object can be taken out again, and leaves the other members as
/// they are.
pub proof fn members_read_back(
    members: Map<Seq<char>, JsonView>,
    key: Seq<char>,
    value: JsonView,
    other: Seq<char>,
)
    ensures
        member(JsonView::Object(members), key) == if members.dom().contains(key) {
            Some(members[key])
        } else {
            None
        },
        member(with_member(JsonView::Object(members), key, value), key) == Some(value),
        other != key ==> member(with_member(JsonView::Object(members), key, value), other)
            == member(JsonView::Object(members), other),
        with_member(JsonView::Object(members), key, value) is Object,
{
}

/// A string under a key is read whole, and so is an array; anything else under the key
/// is neither, and what is not an object has no members.
pub proof fn strings_and_arrays_read_whole(
    j: JsonView,
    key: Seq<char>,
    text: Seq<char>,
    items: Seq<JsonView>,
)
    ensures
        text_member(j, key) == Some(text) <==> member(j, key) == Some(JsonView::Text(text)),
        array_member(j, key) == Some(items) <==> member(j, key) == Some(JsonView::Array(items)),
        !(j is Object) ==> member(j, key) is None,
{
}

/// What is seen of several documents is each of them, in their order.
pub proof fn documents_are_seen_one_by_one(values: Seq<Value>, value: Value)
    ensures
        all_json(seq![]).len() == 0,
        all_json(values.push(value)) == all_json(values).push(json_of(value)),
        opt_json(Some(value)) == Some(json_of(value)),
        opt_json(None) is None,
{
    assert(all_json(values.push(value)) =~= all_json(values).push(json_of(value)));
}

} // verus!
