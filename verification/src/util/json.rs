//! Reading and writing the fields of structures as JSON.
//!
//! A text is read into a tree before its fields are: of a member that is given twice the last one
//! counts, and a text with a number that no tree holds, or nested deeper than the reader goes, is
//! refused, even where that is in a member that nothing reads.
use crate::outside::json::{
    json_array, json_as_array, json_as_str, json_as_u64, json_is_null, json_member, json_members,
    json_number, member_of, value_tree, JsonTree,
};
use vstd::prelude::*;

verus! {

/// Field `index` of `count` of a structure: a member of an object, or an item of an array.
pub open spec fn field_tree(tree: JsonTree, name: Seq<char>, index: int, count: int) -> Option<
    JsonTree,
> {
    match tree {
        JsonTree::Obj(_) => member_of(tree, name),
        JsonTree::Arr(items) => if items.len() == count {
            Some(items[index])
        } else {
            None
        },
        _ => None,
    }
}

/// An unsigned integer up to `max`.
pub open spec fn number_of(tree: Option<JsonTree>, max: u64) -> Option<u64> {
    match tree {
        Some(JsonTree::Num(n)) => if n <= max {
            Some(n)
        } else {
            None
        },
        _ => None,
    }
}

/// A string.
pub open spec fn text_of(tree: Option<JsonTree>) -> Option<Seq<char>> {
    match tree {
        Some(JsonTree::Str(s)) => Some(s),
        _ => None,
    }
}

/// Bytes, as an array of numbers.
pub open spec fn bytes_tree(bytes: Seq<u8>) -> JsonTree {
    JsonTree::Arr(bytes.map_values(|b: u8| JsonTree::Num(b as u64)))
}

/// The bytes that an array of numbers stands for.
pub open spec fn bytes_of(tree: Option<JsonTree>) -> Option<Seq<u8>> {
    match tree {
        Some(JsonTree::Arr(items)) => if forall|i: int|
            0 <= i < items.len() ==> (#[trigger] items[i] matches JsonTree::Num(n) && n <= 255) {
            Some(items.map_values(|t: JsonTree| t->Num_0 as u8))
        } else {
            None
        },
        _ => None,
    }
}

/// The name of an enumeration's variant: a string, or an object with the name as its only member
/// and null as its value.
pub open spec fn variant_of(tree: Option<JsonTree>) -> Option<Seq<char>> {
    match tree {
        Some(JsonTree::Str(s)) => Some(s),
        Some(JsonTree::Obj(members)) => if members.len() == 1 && members[0].1 is Null {
            Some(members[0].0)
        } else {
            None
        },
        _ => None,
    }
}

/// Reading back bytes.
pub proof fn lemma_bytes_tree(bytes: Seq<u8>)
    ensures
        bytes_of(Some(bytes_tree(bytes))) == Some(bytes),
        crate::outside::json::writable(bytes_tree(bytes), 1),
{
    reveal_with_fuel(crate::outside::json::writable, 2);
    let items = bytes.map_values(|b: u8| JsonTree::Num(b as u64));
    assert forall|i: int| 0 <= i < items.len() implies (#[trigger] items[i] matches JsonTree::Num(n)
        && n <= 255) by {
        assert(items[i] == JsonTree::Num(bytes[i] as u64));
    }
    assert(items.map_values(|t: JsonTree| t->Num_0 as u8) =~= bytes);
}

/// The first member of a given name, when names differ, is the one at any index with that name.
pub proof fn lemma_member_at(members: Seq<(Seq<char>, JsonTree)>, at: int)
    requires
        crate::outside::json::names_differ(members),
        0 <= at < members.len(),
    ensures
        member_of(JsonTree::Obj(members), members[at].0) == Some(members[at].1),
{
    let name = members[at].0;
    let i = choose|i: int| 0 <= i < members.len() && (#[trigger] members[i]).0 == name;
    assert(members[i].0 == members[at].0);
}

pub(crate) fn json_field<'a>(
    value: &'a serde_json::Value,
    name: &str,
    index: usize,
    count: usize,
) -> (field: Option<&'a serde_json::Value>)
    requires
        index < count,
    ensures
        match (field, field_tree(value_tree(*value), name@, index as int, count as int)) {
            (Some(v), Some(t)) => value_tree(*v) == t,
            (None, None) => true,
            _ => false,
        },
{
    match json_as_array(value) {
        Some(items) => {
            if items.len() == count {
                let item = &items[index];
                assert(items@.map_values(|x: serde_json::Value| value_tree(x))[index as int]
                    == value_tree(*item));
                Some(item)
            } else {
                None
            }
        },
        None => json_member(value, name),
    }
}

/// The tree of an optional value.
pub open spec fn opt_tree(value: Option<&serde_json::Value>) -> Option<JsonTree> {
    match value {
        Some(v) => Some(value_tree(*v)),
        None => None,
    }
}

pub(crate) fn json_number_up_to(value: Option<&serde_json::Value>, max: u64) -> (n: Option<u64>)
    ensures
        n == number_of(opt_tree(value), max),
{
    match value {
        Some(v) => match json_as_u64(v) {
            Some(n) => if n <= max {
                Some(n)
            } else {
                None
            },
            None => None,
        },
        None => None,
    }
}

pub(crate) fn json_text(value: Option<&serde_json::Value>) -> (s: Option<String>)
    ensures
        match (s, text_of(opt_tree(value))) {
            (Some(t), Some(v)) => t@ == v,
            (None, None) => true,
            _ => false,
        },
{
    match value {
        Some(v) => match json_as_str(v) {
            Some(s) => Some(s.to_owned()),
            None => None,
        },
        None => None,
    }
}

pub(crate) fn json_variant(value: Option<&serde_json::Value>) -> (s: Option<String>)
    ensures
        match (s, variant_of(opt_tree(value))) {
            (Some(t), Some(v)) => t@ == v,
            (None, None) => true,
            _ => false,
        },
{
    match value {
        Some(v) => {
            match json_as_str(v) {
                Some(s) => Some(s.to_owned()),
                None => match json_members(v) {
                    Some(members) => {
                        let ghost trees = members@.map_values(
                            |e: (&str, &serde_json::Value)| (e.0@, value_tree(*e.1)),
                        );
                        assert(value_tree(*v) == JsonTree::Obj(trees));
                        if members.len() == 1 {
                            assert(trees[0] == (members@[0].0@, value_tree(*members@[0].1)));
                            if json_is_null(members[0].1) {
                                Some(members[0].0.to_owned())
                            } else {
                                None
                            }
                        } else {
                            assert(trees.len() == members@.len());
                            None
                        }
                    },
                    None => None,
                },
            }
        },
        None => None,
    }
}

pub(crate) fn json_bytes_field(value: Option<&serde_json::Value>) -> (bytes: Option<Vec<u8>>)
    ensures
        match (bytes, bytes_of(opt_tree(value))) {
            (Some(b), Some(v)) => b@ == v,
            (None, None) => true,
            _ => false,
        },
{
    match value {
        Some(v) => match json_as_array(v) {
            Some(items) => {
                let ghost trees = items@.map_values(|x: serde_json::Value| value_tree(x));
                let mut out: Vec<u8> = Vec::new();
                let mut i: usize = 0;
                while i < items.len()
                    invariant
                        i <= items@.len(),
                        trees == items@.map_values(|x: serde_json::Value| value_tree(x)),
                        opt_tree(value) == Some(JsonTree::Arr(trees)),
                        out@.len() == i,
                        forall|k: int|
                            0 <= k < i ==> (#[trigger] trees[k] matches JsonTree::Num(n) && n <= 255
                                && out@[k] == n as u8),
                    decreases items.len() - i,
                {
                    assert(trees[i as int] == value_tree(items@[i as int]));
                    match json_as_u64(&items[i]) {
                        Some(n) => {
                            if n > 255 {
                                return None;
                            }
                            out.push(n as u8);
                        },
                        None => {
                            return None;
                        },
                    }
                    i += 1;
                }
                assert(out@ =~= trees.map_values(|t: JsonTree| t->Num_0 as u8));
                Some(out)
            },
            None => None,
        },
        None => None,
    }
}

/// Bytes as an array of numbers.
pub(crate) fn json_bytes_value(bytes: &[u8]) -> (value: serde_json::Value)
    ensures
        value_tree(value) == bytes_tree(bytes@),
{
    let mut items: Vec<serde_json::Value> = Vec::new();
    let mut i: usize = 0;
    while i < bytes.len()
        invariant
            i <= bytes@.len(),
            items@.len() == i,
            forall|k: int|
                0 <= k < i ==> value_tree(#[trigger] items@[k]) == JsonTree::Num(bytes@[k] as u64),
        decreases bytes.len() - i,
    {
        items.push(json_number(bytes[i] as u64));
        i += 1;
    }
    assert(items@.map_values(|v: serde_json::Value| value_tree(v)) =~= bytes@.map_values(
        |b: u8| JsonTree::Num(b as u64),
    ));
    json_array(items)
}

} // verus!
