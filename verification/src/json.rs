//! JSON text in and out of [`Value`].

use serde_json::Value as Json;
use vstd::prelude::*;

use crate::value::{clone_number, Dict, Tree, Value};
use crate::value::{distinct_keys, lemma_array_tree, lemma_lookup_none, lemma_put_new, trees};

verus! {

/// `serde_json::Value`, a parsed JSON document.
#[verifier::external_type_specification]
#[verifier::external_body]
pub struct ExJson(Json);

/// `serde_json::Error`, why a text is no JSON document.
#[verifier::external_type_specification]
#[verifier::external_body]
pub struct ExJsonError(serde_json::Error);

/// The tree that a parsed document holds. Its numbers are those of [`number_tree`].
pub uninterp spec fn json_tree(json: Json) -> Tree;

/// What `serde_json::from_str` reads from a text: the tree of the document, or nothing where the
/// text is none.
pub uninterp spec fn json_document(text: Seq<char>) -> Option<Tree>;

/// What `serde_json::Number::as_i64` makes of a number.
pub uninterp spec fn json_integer(number: serde_json::Number) -> Option<i64>;

/// The compact text that `serde_json::Value` displays for a document.
pub uninterp spec fn json_rendering(tree: Tree) -> Seq<char>;

/// A number as a tree: an integer where it fits, else the number itself.
pub open spec fn number_tree(number: serde_json::Number) -> Tree {
    match json_integer(number) {
        Some(integer) => Tree::Int(integer),
        None => Tree::Float(number),
    }
}

/// One level of a parsed document.
pub(crate) enum JsonNode<'a> {
    Null,
    Bool(bool),
    Number(&'a serde_json::Number),
    Text(&'a String),
    Items(&'a Vec<Json>),
    Fields(Vec<(&'a String, &'a Json)>),
}

/// One level of a document to build.
pub(crate) enum JsonPart {
    Null,
    Bool(bool),
    Number(serde_json::Number),
    Text(String),
    Items(Vec<Json>),
    Fields(Vec<(String, Json)>),
}

pub(crate) open spec fn json_trees(items: Seq<Json>) -> Seq<Tree> {
    Seq::new(items.len(), |i: int| json_tree(items[i]))
}

pub(crate) open spec fn node_tree(node: JsonNode<'_>) -> Tree {
    match node {
        JsonNode::Null => Tree::Null,
        JsonNode::Bool(flag) => Tree::Bool(flag),
        JsonNode::Number(number) => number_tree(*number),
        JsonNode::Text(text) => Tree::Str(text@),
        JsonNode::Items(items) => Tree::Arr(json_trees(items@)),
        JsonNode::Fields(fields) => Tree::Dict(
            Seq::new(fields@.len(), |i: int| (fields@[i].0@, json_tree(*fields@[i].1))),
        ),
    }
}

pub(crate) open spec fn part_tree(part: JsonPart) -> Tree {
    match part {
        JsonPart::Null => Tree::Null,
        JsonPart::Bool(flag) => Tree::Bool(flag),
        JsonPart::Number(number) => number_tree(number),
        JsonPart::Text(text) => Tree::Str(text@),
        JsonPart::Items(items) => Tree::Arr(json_trees(items@)),
        JsonPart::Fields(fields) => Tree::Dict(
            Seq::new(fields@.len(), |i: int| (fields@[i].0@, json_tree(fields@[i].1))),
        ),
    }
}

/// `serde_json::from_str`, for a `serde_json::Value`.
#[verifier::external_body]
fn read_json(text: &str) -> (read: Result<Json, serde_json::Error>)
    ensures
        match read {
            Ok(json) => json_document(text@) == Some(json_tree(json)),
            Err(_) => json_document(text@) is None,
        },
{
    serde_json::from_str(text)
}

/// The variants of `serde_json::Value`, with the entries of an object in the order of
/// `serde_json::Map::iter`, which yields each key once.
#[verifier::external_body]
fn json_node<'a>(json: &'a Json) -> (node: JsonNode<'a>)
    ensures
        json_tree(*json) == node_tree(node),
        node matches JsonNode::Fields(fields) ==> distinct_keys(json_tree(*json)->Dict_0),
{
    match json {
        Json::Null => JsonNode::Null,
        Json::Bool(flag) => JsonNode::Bool(*flag),
        Json::Number(number) => JsonNode::Number(number),
        Json::String(text) => JsonNode::Text(text),
        Json::Array(items) => JsonNode::Items(items),
        Json::Object(map) => JsonNode::Fields(map.iter().collect()),
    }
}

/// `serde_json::Number::as_i64`.
#[verifier::external_body]
fn number_integer(number: &serde_json::Number) -> (integer: Option<i64>)
    ensures
        integer == json_integer(*number),
{
    number.as_i64()
}

/// `serde_json::Number::from`, for an `i64`: the number that reads back as that integer.
#[verifier::external_body]
fn integer_number(integer: i64) -> (number: serde_json::Number)
    ensures
        json_integer(number) == Some(integer),
{
    serde_json::Number::from(integer)
}

/// The variants of `serde_json::Value`. An object is collected into a `serde_json::Map`, which
/// keeps the order of the fields.
#[verifier::external_body]
fn build_json(part: JsonPart) -> (json: Json)
    requires
        part matches JsonPart::Fields(fields) ==> distinct_keys(part_tree(part)->Dict_0),
    ensures
        json_tree(json) == part_tree(part),
{
    match part {
        JsonPart::Null => Json::Null,
        JsonPart::Bool(flag) => Json::Bool(flag),
        JsonPart::Number(number) => Json::Number(number),
        JsonPart::Text(text) => Json::String(text),
        JsonPart::Items(items) => Json::Array(items),
        JsonPart::Fields(fields) => Json::Object(fields.into_iter().collect()),
    }
}

/// An array of strings.
pub open spec fn is_text_array(tree: Tree) -> bool {
    match tree {
        Tree::Arr(items) => forall|i: int| 0 <= i < items.len() ==> (#[trigger] items[i]) is Str,
        _ => false,
    }
}

/// `serde_json::Value::to_string`: the compact JSON text of a document. The text of an array of
/// strings reads back as that array.
#[verifier::external_body]
fn render_json(json: &Json) -> (text: String)
    ensures
        text@ == json_rendering(json_tree(*json)),
        is_text_array(json_tree(*json)) ==> json_document(text@) == Some(json_tree(*json)),
{
    json.to_string()
}

impl Value {
    /// The value that a parsed document holds.
    pub fn from_json(json: &Json) -> (value: Value)
        ensures
            value@ == json_tree(*json),
        decreases json_tree(*json),
    {
        match json_node(json) {
            JsonNode::Null => Value::Null,
            JsonNode::Bool(flag) => Value::Bool(flag),
            JsonNode::Number(number) => match number_integer(number) {
                Some(integer) => Value::Int(integer),
                None => Value::Float(clone_number(number)),
            },
            JsonNode::Text(text) => Value::Str(text.clone()),
            JsonNode::Items(items) => {
                let mut values: Vec<Value> = Vec::new();
                let mut i: usize = 0;
                while i < items.len()
                    invariant
                        i <= items@.len(),
                        values@.len() == i,
                        json_tree(*json) == Tree::Arr(json_trees(items@)),
                        forall|j: int|
                            0 <= j < i ==> (#[trigger] values@[j])@ == json_tree(items@[j]),
                    decreases items@.len() - i,
                {
                    assert(json_trees(items@)[i as int] == json_tree(items@[i as int]));
                    assert(decreases_to!(json_tree(*json) => json_tree(*json)->Arr_0[i as int]));
                    let value = Value::from_json(&items[i]);
                    values.push(value);
                    i = i + 1;
                }
                assert(trees(values@) =~= json_trees(items@));
                Value::array(values)
            },
            JsonNode::Fields(fields) => {
                let mut dict = Dict::new();
                let ghost entries = json_tree(*json)->Dict_0;
                let mut i: usize = 0;
                while i < fields.len()
                    invariant
                        i <= fields@.len(),
                        json_tree(*json) == Tree::Dict(entries),
                        entries.len() == fields@.len(),
                        forall|j: int|
                            0 <= j < fields@.len() ==> (#[trigger] entries[j]) == (
                                fields@[j].0@,
                                json_tree(*fields@[j].1),
                            ),
                        distinct_keys(entries),
                        dict@ == entries.take(i as int),
                    decreases fields@.len() - i,
                {
                    assert(decreases_to!(json_tree(*json) => json_tree(*json)->Dict_0[i as int].1));
                    let value = Value::from_json(fields[i].1);
                    proof {
                        lemma_lookup_none(dict@, fields@[i as int].0@);
                        lemma_put_new(dict@, fields@[i as int].0@, value@);
                    }
                    dict.insert(fields[i].0.clone(), value);
                    i = i + 1;
                    assert(dict@ =~= entries.take(i as int));
                }
                assert(entries.take(i as int) =~= entries);
                Value::dict(dict)
            },
        }
    }
}

/// A tree as a document holds it: every number that is an integer reads as one.
pub open spec fn json_form(tree: Tree) -> Tree
    decreases tree,
{
    match tree {
        Tree::Float(number) => number_tree(number),
        Tree::Arr(items) => Tree::Arr(
            Seq::new(
                items.len(),
                |i: int|
                    if 0 <= i < items.len() {
                        json_form(items[i])
                    } else {
                        Tree::Null
                    },
            ),
        ),
        Tree::Dict(entries) => Tree::Dict(
            Seq::new(
                entries.len(),
                |i: int|
                    if 0 <= i < entries.len() {
                        (entries[i].0, json_form(entries[i].1))
                    } else {
                        (Seq::empty(), Tree::Null)
                    },
            ),
        ),
        other => other,
    }
}

impl Value {
    /// The document that holds this value.
    pub fn to_json(&self) -> (json: Json)
        ensures
            json_tree(json) == json_form(self@),
        decreases self@,
    {
        match self {
            Value::Null => build_json(JsonPart::Null),
            Value::Bool(flag) => build_json(JsonPart::Bool(*flag)),
            Value::Int(integer) => build_json(JsonPart::Number(integer_number(*integer))),
            Value::Float(number) => build_json(JsonPart::Number(clone_number(number))),
            Value::Str(text) => build_json(JsonPart::Text(text.clone())),
            Value::Arr(items) => {
                proof {
                    lemma_array_tree(*items);
                }
                let mut parts: Vec<Json> = Vec::new();
                let mut i: usize = 0;
                while i < items.len()
                    invariant
                        i <= items@.len(),
                        parts@.len() == i,
                        self@ == Tree::Arr(trees(items@)),
                        forall|j: int|
                            0 <= j < i ==> json_tree(#[trigger] parts@[j]) == json_form(
                                items@[j]@,
                            ),
                    decreases items@.len() - i,
                {
                    assert(self@->Arr_0[i as int] == items@[i as int]@);
                    assert(decreases_to!(self@ => self@->Arr_0[i as int]));
                    let part = items[i].to_json();
                    parts.push(part);
                    i = i + 1;
                }
                assert(json_trees(parts@) =~= json_form(self@)->Arr_0);
                build_json(JsonPart::Items(parts))
            },
            Value::Dict(dict) => {
                let mut parts: Vec<(String, Json)> = Vec::new();
                let ghost entries = dict@;
                let mut i: usize = 0;
                loop
                    invariant
                        i <= entries.len(),
                        parts@.len() == i,
                        self@ == Tree::Dict(entries),
                        entries == dict@,
                        forall|j: int|
                            #![trigger parts@[j]]
                            0 <= j < i ==> parts@[j].0@ == entries[j].0 && json_tree(parts@[j].1)
                                == json_form(entries[j].1),
                        forall|j: int, k: int|
                            0 <= j < i && 0 <= k < entries.len() && j != k ==> (
                            #[trigger] entries[j]).0 != (#[trigger] entries[k]).0,
                    ensures
                        i == entries.len(),
                    decreases entries.len() - i,
                {
                    match dict.entry(i) {
                        Some((key, value)) => {
                            assert(decreases_to!(self@ => self@->Dict_0[i as int].1));
                            let part = value.to_json();
                            parts.push((key.clone(), part));
                            i = parts.len();
                        },
                        None => {
                            break;
                        },
                    }
                }
                let part = JsonPart::Fields(parts);
                assert(part_tree(part)->Dict_0 =~= json_form(self@)->Dict_0);
                assert(distinct_keys(part_tree(part)->Dict_0));
                build_json(part)
            },
        }
    }

    /// The compact JSON text of this value. The text of an array of strings reads back as that
    /// array.
    pub fn json_text(&self) -> (text: String)
        ensures
            text@ == json_rendering(json_form(self@)),
            is_text_array(json_form(self@)) ==> json_document(text@) == Some(json_form(self@)),
    {
        render_json(&self.to_json())
    }
}

/// The value that a text stands for: the JSON document that it is, else the text itself. Bare
/// control messages such as `pong` are no JSON.
pub open spec fn text_tree(document: Option<Tree>, text: Seq<char>) -> Tree {
    match document {
        Some(tree) => tree,
        None => Tree::Str(text),
    }
}

/// The value of a text, given the document that was read from it, if any.
pub fn text_value(document: Option<Value>, text: &str) -> (value: Value)
    ensures
        value@ == text_tree(
            match document {
                Some(value) => Some(value@),
                None => None,
            },
            text@,
        ),
{
    match document {
        Some(value) => value,
        None => Value::text(text),
    }
}

/// The document that a text is, if it is one.
pub fn read_document(text: &str) -> (document: Option<Value>)
    ensures
        match document {
            Some(value) => json_document(text@) == Some(value@),
            None => json_document(text@) is None,
        },
{
    match read_json(text) {
        Ok(json) => Some(Value::from_json(&json)),
        Err(_) => None,
    }
}

/// Decodes a text frame: JSON where it parses, else a plain string.
pub fn parse_text(text: &str) -> (value: Value)
    ensures
        value@ == text_tree(json_document(text@), text@),
{
    text_value(read_document(text), text)
}

} // verus!
