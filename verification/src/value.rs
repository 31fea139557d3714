//! The dynamic value that frames carry once they are parsed.

use std::sync::Arc;

use vstd::prelude::*;

verus! {

/// What a [`Value`] holds, as a mathematical tree. Dictionaries keep the order of their entries.
#[verifier::ext_equal]
pub enum Tree {
    Null,
    Bool(bool),
    Int(i64),
    Float(serde_json::Number),
    Str(Seq<char>),
    Arr(Seq<Tree>),
    Dict(Seq<(Seq<char>, Tree)>),
}

/// A JSON-shaped value. Arrays and dictionaries are shared, so a clone is cheap.
///
/// A number that is no 64-bit signed integer is carried as the JSON number it was read as.
#[derive(Debug, PartialEq)]
pub enum Value {
    Null,
    Bool(bool),
    Int(i64),
    Float(serde_json::Number),
    Str(String),
    Arr(Arc<Vec<Value>>),
    Dict(Arc<Dict>),
}

/// A dictionary of values that keeps insertion order.
#[verifier::external_body]
#[derive(Debug, PartialEq)]
pub struct Dict {
    map: indexmap::IndexMap<String, Value>,
}

/// `serde_json::Number`, a number as JSON text spells it.
#[verifier::external_type_specification]
#[verifier::external_body]
pub struct ExNumber(serde_json::Number);

/// The entries that a dictionary holds, in the order in which `indexmap::IndexMap` keeps them.
pub uninterp spec fn dict_entries(dict: Dict) -> Seq<(Seq<char>, Tree)>;

/// The value under `key`.
pub open spec fn lookup(entries: Seq<(Seq<char>, Tree)>, key: Seq<char>) -> Option<Tree>
    decreases entries.len(),
{
    if entries.len() == 0 {
        None
    } else if entries[0].0 == key {
        Some(entries[0].1)
    } else {
        lookup(entries.drop_first(), key)
    }
}

/// `entries` with `value` under `key`: in place where the key occurs, last where it does not.
pub open spec fn put(
    entries: Seq<(Seq<char>, Tree)>,
    key: Seq<char>,
    value: Tree,
) -> Seq<(Seq<char>, Tree)>
    decreases entries.len(),
{
    if entries.len() == 0 {
        seq![(key, value)]
    } else if entries[0].0 == key {
        seq![(key, value)] + entries.drop_first()
    } else {
        seq![entries[0]] + put(entries.drop_first(), key, value)
    }
}

/// The entries as a map from key to value.
pub open spec fn entry_map(entries: Seq<(Seq<char>, Tree)>) -> Map<Seq<char>, Tree> {
    Map::new(
        |key: Seq<char>| lookup(entries, key) is Some,
        |key: Seq<char>| lookup(entries, key)->0,
    )
}

/// No key occurs twice.
pub open spec fn distinct_keys(entries: Seq<(Seq<char>, Tree)>) -> bool {
    forall|i: int, j: int|
        0 <= i < j < entries.len() ==> (#[trigger] entries[i]).0 != (#[trigger] entries[j]).0
}

/// A key has no value exactly where no entry bears it.
pub proof fn lemma_lookup_none(entries: Seq<(Seq<char>, Tree)>, key: Seq<char>)
    ensures
        lookup(entries, key) is None <==> forall|i: int|
            0 <= i < entries.len() ==> (#[trigger] entries[i]).0 != key,
    decreases entries.len(),
{
    if entries.len() > 0 {
        let rest = entries.drop_first();
        lemma_lookup_none(rest, key);
        if lookup(entries, key) is None {
            assert forall|i: int| 0 <= i < entries.len() implies (#[trigger] entries[i]).0 != key by {
                if i > 0 {
                    assert(rest[i - 1] == entries[i]);
                }
            }
        } else if entries[0].0 != key {
            let i = choose|i: int| 0 <= i < rest.len() && (#[trigger] rest[i]).0 == key;
            assert(entries[i + 1].0 == key);
        }
    }
}

/// A new key goes last.
pub proof fn lemma_put_new(entries: Seq<(Seq<char>, Tree)>, key: Seq<char>, value: Tree)
    requires
        lookup(entries, key) is None,
    ensures
        put(entries, key, value) == entries.push((key, value)),
    decreases entries.len(),
{
    if entries.len() > 0 {
        lemma_put_new(entries.drop_first(), key, value);
        assert(put(entries, key, value) =~= entries.push((key, value)));
    }
}

/// What a `put` leaves under every key.
pub proof fn lemma_lookup_put(
    entries: Seq<(Seq<char>, Tree)>,
    key: Seq<char>,
    value: Tree,
    other: Seq<char>,
)
    ensures
        lookup(put(entries, key, value), other) == if other == key {
            Some(value)
        } else {
            lookup(entries, other)
        },
    decreases entries.len(),
{
    reveal_with_fuel(lookup, 2);
    let after = put(entries, key, value);
    if entries.len() == 0 {
        assert(after.drop_first() =~= Seq::empty());
    } else if entries[0].0 == key {
        assert(after.drop_first() =~= entries.drop_first());
    } else {
        lemma_lookup_put(entries.drop_first(), key, value, other);
        assert(after.drop_first() =~= put(entries.drop_first(), key, value));
    }
}

/// A `put` is an insertion into the map of the entries.
pub proof fn lemma_entry_map_put(entries: Seq<(Seq<char>, Tree)>, key: Seq<char>, value: Tree)
    ensures
        entry_map(put(entries, key, value)) == entry_map(entries).insert(key, value),
{
    assert forall|other: Seq<char>|
        #![trigger lookup(put(entries, key, value), other)]
        lookup(put(entries, key, value), other) == if other == key {
            Some(value)
        } else {
            lookup(entries, other)
        } by {
        lemma_lookup_put(entries, key, value, other);
    }
    assert(entry_map(put(entries, key, value)) =~= entry_map(entries).insert(key, value));
}

impl Tree {
    /// The value under `key` in a dictionary; nothing in any other tree.
    pub open spec fn field(self, key: Seq<char>) -> Option<Tree> {
        match self {
            Tree::Dict(entries) => lookup(entries, key),
            _ => None,
        }
    }

    /// The text of the string under `key`, where there is one.
    pub open spec fn text_field(self, key: Seq<char>) -> Option<Seq<char>> {
        match self.field(key) {
            Some(Tree::Str(text)) => Some(text),
            _ => None,
        }
    }
}

impl Value {
    /// The tree of this value.
    pub open spec fn tree(self) -> Tree
        decreases self,
    {
        match self {
            Value::Null => Tree::Null,
            Value::Bool(flag) => Tree::Bool(flag),
            Value::Int(number) => Tree::Int(number),
            Value::Float(number) => Tree::Float(number),
            Value::Str(text) => Tree::Str(text@),
            Value::Arr(items) => Tree::Arr(
                Seq::new(
                    items@.len(),
                    |i: int|
                        if 0 <= i < items@.len() {
                            items@[i].tree()
                        } else {
                            Tree::Null
                        },
                ),
            ),
            Value::Dict(dict) => Tree::Dict(dict_entries(*dict)),
        }
    }
}

impl View for Value {
    type V = Tree;

    open spec fn view(&self) -> Tree {
        self.tree()
    }
}

impl View for Dict {
    type V = Seq<(Seq<char>, Tree)>;

    open spec fn view(&self) -> Seq<(Seq<char>, Tree)> {
        dict_entries(*self)
    }
}

/// The trees of the values of a list.
pub open spec fn trees(values: Seq<Value>) -> Seq<Tree> {
    Seq::new(values.len(), |i: int| values[i]@)
}

/// The tree of an array is made of the trees of its items.
pub proof fn lemma_array_tree(items: Arc<Vec<Value>>)
    ensures
        Value::Arr(items)@ == Tree::Arr(trees(items@)),
{
    assert(Value::Arr(items)@->Arr_0 =~= trees(items@));
}

/// `Arc::clone`: another pointer to the same value, so what it points to is equal.
#[verifier::external_body]
fn share<T>(shared: &Arc<T>) -> (other: Arc<T>)
    ensures
        other == *shared,
{
    Arc::clone(shared)
}

/// `serde_json::Number::clone`: an equal number.
#[verifier::external_body]
pub(crate) fn clone_number(number: &serde_json::Number) -> (copy: serde_json::Number)
    ensures
        copy == *number,
{
    number.clone()
}

impl Dict {
    /// `indexmap::IndexMap::new`: a map without entries.
    #[verifier::external_body]
    pub(crate) fn new() -> (dict: Dict)
        ensures
            dict_entries(dict) == Seq::<(Seq<char>, Tree)>::empty(),
    {
        Dict { map: indexmap::IndexMap::new() }
    }

    /// `indexmap::IndexMap::insert`: replaces the value of a key in place, and appends the entry
    /// of a new key.
    #[verifier::external_body]
    pub(crate) fn insert(&mut self, key: String, value: Value)
        ensures
            dict_entries(*final(self)) == put(dict_entries(*old(self)), key@, value@),
    {
        self.map.insert(key, value);
    }

    /// `indexmap::IndexMap::get`: the value under a key.
    #[verifier::external_body]
    pub(crate) fn get(&self, key: &str) -> (found: Option<&Value>)
        ensures
            match found {
                Some(value) => lookup(dict_entries(*self), key@) == Some(value@),
                None => lookup(dict_entries(*self), key@) is None,
            },
    {
        self.map.get(key)
    }

    /// `indexmap::IndexMap::get_index`: the entry at a position, which shares its key with no
    /// other.
    #[verifier::external_body]
    pub(crate) fn entry(&self, index: usize) -> (entry: Option<(&String, &Value)>)
        ensures
            match entry {
                Some((key, value)) => {
                    &&& index < dict_entries(*self).len()
                    &&& dict_entries(*self)[index as int] == (key@, value@)
                    &&& forall|i: int|
                        0 <= i < dict_entries(*self).len() && i != index ==> (
                        #[trigger] dict_entries(*self)[i]).0 != key@
                },
                None => index >= dict_entries(*self).len(),
            },
    {
        self.map.get_index(index)
    }

    /// `indexmap::IndexMap::capacity`: how many entries fit without allocating, at least those
    /// that are there. How much more depends on the allocator and on the history of the map.
    #[verifier::external_body]
    pub(crate) fn capacity(&self) -> (capacity: usize)
        ensures
            capacity >= dict_entries(*self).len(),
    {
        self.map.capacity()
    }

    /// `indexmap::IndexMap::clone`: a map with clones of the same entries, in the same order.
    #[verifier::external_body]
    pub(crate) fn duplicate(&self) -> (copy: Dict)
        ensures
            dict_entries(copy) == dict_entries(*self),
    {
        Dict { map: self.map.clone() }
    }
}

impl Clone for Value {
    fn clone(&self) -> (copy: Value)
        ensures
            copy == *self,
    {
        match self {
            Value::Null => Value::Null,
            Value::Bool(flag) => Value::Bool(*flag),
            Value::Int(number) => Value::Int(*number),
            Value::Float(number) => Value::Float(clone_number(number)),
            Value::Str(text) => Value::Str(text.clone()),
            Value::Arr(items) => Value::Arr(share(items)),
            Value::Dict(dict) => Value::Dict(share(dict)),
        }
    }
}

impl Value {
    /// A string value with the given text.
    pub fn text(text: &str) -> (value: Value)
        ensures
            value@ == Tree::Str(text@),
    {
        Value::Str(text.to_owned())
    }

    /// A dictionary value.
    pub fn dict(dict: Dict) -> (value: Value)
        ensures
            value@ == Tree::Dict(dict@),
    {
        Value::Dict(Arc::new(dict))
    }

    /// An array value.
    pub fn array(items: Vec<Value>) -> (value: Value)
        ensures
            value@ == Tree::Arr(trees(items@)),
    {
        let shared = Arc::new(items);
        proof {
            lemma_array_tree(shared);
        }
        Value::Arr(shared)
    }

    /// The text of a string value.
    pub fn as_str(&self) -> (text: Option<&str>)
        ensures
            match text {
                Some(text) => self@ == Tree::Str(text@),
                None => !(self@ is Str),
            },
    {
        match self {
            Value::Str(text) => Some(text.as_str()),
            _ => None,
        }
    }

    /// The value under `key` in a dictionary; nothing in any other value.
    pub fn field(&self, key: &str) -> (found: Option<&Value>)
        ensures
            match found {
                Some(value) => self@.field(key@) == Some(value@),
                None => self@.field(key@) is None,
            },
    {
        match self {
            Value::Dict(dict) => dict.get(key),
            _ => None,
        }
    }

    /// The text of the string under `key`, where there is one.
    pub fn text_field(&self, key: &str) -> (found: Option<String>)
        ensures
            match found {
                Some(text) => self@.text_field(key@) == Some(text@),
                None => self@.text_field(key@) is None,
            },
    {
        match self.field(key) {
            Some(Value::Str(text)) => Some(text.clone()),
            _ => None,
        }
    }
}

} // verus!
