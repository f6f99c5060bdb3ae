//! JSON values: `serde_json`, with object members kept in insertion order.
use serde_json::{Map as JsonMap, Value};
use vstd::prelude::*;

verus! {

/// The content of a JSON value.
pub enum JsonTree {
    Null,
    Bool(bool),
    /// An integer from zero to `u64::MAX`.
    Num(u64),
    /// Any other number, by its text.
    OtherNum(Seq<char>),
    Str(Seq<char>),
    Arr(Seq<JsonTree>),
    /// The members of an object, in order.
    Obj(Seq<(Seq<char>, JsonTree)>),
}

/// `serde_json::Value`.
#[verifier::external_type_specification]
#[verifier::external_body]
pub struct ExJsonValue(serde_json::Value);

/// What a `serde_json::Value` holds.
pub uninterp spec fn value_tree(value: serde_json::Value) -> JsonTree;

/// The compact text of a JSON value, as UTF-8.
pub uninterp spec fn json_bytes(tree: JsonTree) -> Seq<u8>;

/// The JSON value that a text denotes.
pub uninterp spec fn json_parsed(bytes: Seq<u8>) -> Option<JsonTree>;

/// The value of the member `name`, when the tree is an object that has one.
pub open spec fn member_of(tree: JsonTree, name: Seq<char>) -> Option<JsonTree> {
    match tree {
        JsonTree::Obj(members) => if exists|i: int|
            0 <= i < members.len() && (#[trigger] members[i]).0 == name {
            Some(
                members[
                    choose|i: int| 0 <= i < members.len() && (#[trigger] members[i]).0 == name
                ].1,
            )
        } else {
            None
        },
        _ => None,
    }
}


/// Whether the member names of an object differ from each other.
pub open spec fn names_differ(members: Seq<(Seq<char>, JsonTree)>) -> bool {
    forall|i: int, j: int|
        0 <= i < members.len() && 0 <= j < members.len() && (#[trigger] members[i]).0 == (
        #[trigger] members[j]).0 ==> i == j
}

/// Numbers and strings, and arrays and objects of such values nested at most `depth` deep, with
/// object members of different names.
pub open spec fn writable(tree: JsonTree, depth: nat) -> bool
    decreases depth,
{
    match tree {
        JsonTree::Num(_) => true,
        JsonTree::Str(_) => true,
        JsonTree::Arr(items) => depth > 0 && forall|i: int|
            0 <= i < items.len() ==> writable(#[trigger] items[i], (depth - 1) as nat),
        JsonTree::Obj(members) => depth > 0 && names_differ(members) && forall|i: int|
            0 <= i < members.len() ==> writable((#[trigger] members[i]).1, (depth - 1) as nat),
        _ => false,
    }
}

/// `serde_json::Value::from(u64)`.
#[verifier::external_body]
pub(crate) fn json_number(n: u64) -> (value: serde_json::Value)
    ensures
        value_tree(value) == JsonTree::Num(n),
{
    Value::from(n)
}

/// `serde_json::Value::from(&str)`.
#[verifier::external_body]
pub(crate) fn json_string(s: &str) -> (value: serde_json::Value)
    ensures
        value_tree(value) == JsonTree::Str(s@),
{
    Value::from(s)
}

/// `serde_json::Value::from(Vec<Value>)`: an array of the items.
#[verifier::external_body]
pub(crate) fn json_array(items: Vec<serde_json::Value>) -> (value: serde_json::Value)
    ensures
        value_tree(value) == JsonTree::Arr(items@.map_values(|v: serde_json::Value| value_tree(v))),
{
    Value::from(items)
}

/// `serde_json::Value::from(Map)`: an object with the members in the given order, provided that
/// their names differ.
#[verifier::external_body]
pub(crate) fn json_object(members: Vec<(String, serde_json::Value)>) -> (value: serde_json::Value)
    requires
        names_differ(
            members@.map_values(|m: (String, serde_json::Value)| (m.0@, value_tree(m.1))),
        ),
    ensures
        value_tree(value) == JsonTree::Obj(
            members@.map_values(|m: (String, serde_json::Value)| (m.0@, value_tree(m.1))),
        ),
{
    Value::from(JsonMap::from_iter(members))
}

/// `serde_json::to_vec`: the bytes are a function of the value. Reading them back gives the value,
/// for values within the nesting that the reader accepts.
#[verifier::external_body]
pub(crate) fn json_to_bytes(value: &serde_json::Value) -> (bytes: Vec<u8>)
    ensures
        bytes@ == json_bytes(value_tree(*value)),
        writable(value_tree(*value), 16) ==> json_parsed(bytes@) == Some(value_tree(*value)),
{
    serde_json::to_vec(value).expect("a JSON value has a text")
}

/// `serde_json::from_slice`: the outcome is a function of the bytes.
#[verifier::external_body]
pub(crate) fn json_from_bytes(bytes: &[u8]) -> (value: Option<serde_json::Value>)
    ensures
        match (value, json_parsed(bytes@)) {
            (Some(v), Some(t)) => value_tree(v) == t,
            (None, None) => true,
            _ => false,
        },
{
    serde_json::from_slice(bytes).ok()
}

/// `serde_json::Value::as_u64`.
#[verifier::external_body]
pub(crate) fn json_as_u64(value: &serde_json::Value) -> (n: Option<u64>)
    ensures
        n == (match value_tree(*value) {
            JsonTree::Num(m) => Some(m),
            _ => None,
        }),
{
    value.as_u64()
}

/// `serde_json::Value::is_null`.
#[verifier::external_body]
pub(crate) fn json_is_null(value: &serde_json::Value) -> (yes: bool)
    ensures
        yes == (value_tree(*value) is Null),
{
    value.is_null()
}

/// `serde_json::Value::as_str`.
#[verifier::external_body]
pub(crate) fn json_as_str(value: &serde_json::Value) -> (s: Option<&str>)
    ensures
        match s {
            Some(t) => value_tree(*value) == JsonTree::Str(t@),
            None => !(value_tree(*value) is Str),
        },
{
    value.as_str()
}

/// `serde_json::Value::as_array`.
#[verifier::external_body]
pub(crate) fn json_as_array(value: &serde_json::Value) -> (items: Option<&Vec<serde_json::Value>>)
    ensures
        match items {
            Some(v) => value_tree(*value) == JsonTree::Arr(
                v@.map_values(|x: serde_json::Value| value_tree(x)),
            ),
            None => !(value_tree(*value) is Arr),
        },
{
    value.as_array()
}

/// `serde_json::Value::get` with a member name.
#[verifier::external_body]
pub(crate) fn json_member<'a>(value: &'a serde_json::Value, name: &str) -> (member: Option<
    &'a serde_json::Value,
>)
    ensures
        match (member, member_of(value_tree(*value), name@)) {
            (Some(v), Some(t)) => value_tree(*v) == t,
            (None, None) => true,
            _ => false,
        },
{
    value.get(name)
}

/// `serde_json::Value::as_object`, with its members in order.
#[verifier::external_body]
pub(crate) fn json_members<'a>(value: &'a serde_json::Value) -> (members: Option<
    Vec<(&'a str, &'a serde_json::Value)>,
>)
    ensures
        match members {
            Some(m) => value_tree(*value) == JsonTree::Obj(
                m@.map_values(|e: (&'a str, &'a serde_json::Value)| (e.0@, value_tree(*e.1))),
            ),
            None => !(value_tree(*value) is Obj),
        },
{
    let object = value.as_object()?;
    Some(object.iter().map(|(name, member)| (name.as_str(), member)).collect())
}

} // verus!
