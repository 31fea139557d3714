//! Bounds and decoding for the WebSocket transport.
//!
//! The client owns the queue lifecycle; this module keeps the queue and payload accounting rules
//! in one place, so that every reader and writer path uses the same limits.

use std::io::Read;

use vstd::layout::size_of;
use vstd::prelude::*;
use vstd::string::*;
use vstd::utf8::{decode_utf8, encode_utf8, valid_utf8};

use crate::json::{json_document, parse_text, text_tree};
use crate::ledger::{lemma_total_front, lemma_total_push, total_charge, Ledger};
use crate::value::{lemma_array_tree, trees, Dict, Tree, Value};

verus! {

/// Most bytes that one WebSocket frame may bring before decoding.
pub const MAX_PAYLOAD_BYTES: usize = 256 * 1024;

/// Most bytes that a compressed frame may expand to.
pub const MAX_DECODED_BYTES: usize = 1024 * 1024;

/// Most parsed frames that the inbound queue retains.
pub const INCOMING_CAPACITY: usize = 256;

/// Most estimated bytes that the inbound queue retains.
pub const INCOMING_BYTES: usize = 4 * 1024 * 1024;

/// Most frames that wait for the writer.
pub const OUTGOING_CAPACITY: usize = 64;

/// Most bytes that wait for the writer, the frame being written included.
pub const OUTGOING_BYTES: usize = 1024 * 1024;

/// The allocations behind a value: how much room each string, array and dictionary has, which is
/// at least what it holds.
pub enum Footprint {
    Leaf,
    Str(nat),
    Arr(nat, Seq<Footprint>),
    Dict(nat, Seq<(nat, Footprint)>),
}

/// Whether a footprint can be that of a value with this tree.
pub open spec fn covers(footprint: Footprint, tree: Tree) -> bool
    decreases tree,
{
    match (footprint, tree) {
        (Footprint::Leaf, Tree::Null) => true,
        (Footprint::Leaf, Tree::Bool(_)) => true,
        (Footprint::Leaf, Tree::Int(_)) => true,
        (Footprint::Leaf, Tree::Float(_)) => true,
        (Footprint::Str(capacity), Tree::Str(text)) => capacity >= encode_utf8(text).len(),
        (Footprint::Arr(capacity, parts), Tree::Arr(items)) => capacity >= items.len()
            && covers_items(parts, items),
        (Footprint::Dict(capacity, parts), Tree::Dict(entries)) => capacity >= entries.len()
            && covers_entries(parts, entries),
        _ => false,
    }
}

/// Whether each footprint can be that of the item at its place.
pub open spec fn covers_items(parts: Seq<Footprint>, items: Seq<Tree>) -> bool
    decreases items,
{
    &&& parts.len() == items.len()
    &&& items.len() > 0 ==> covers_items(parts.drop_last(), items.drop_last()) && covers(
        parts.last(),
        items.last(),
    )
}

/// Whether each pair can be the room of the key and the footprint of the value at its place.
pub open spec fn covers_entries(
    parts: Seq<(nat, Footprint)>,
    entries: Seq<(Seq<char>, Tree)>,
) -> bool
    decreases entries,
{
    &&& parts.len() == entries.len()
    &&& entries.len() > 0 ==> {
        &&& covers_entries(parts.drop_last(), entries.drop_last())
        &&& parts.last().0 >= encode_utf8(entries.last().0).len()
        &&& covers(parts.last().1, entries.last().1)
    }
}

/// What one slot of a dictionary takes.
pub open spec fn slot_bytes() -> nat {
    size_of::<String>() + size_of::<Value>() + size_of::<usize>()
}

/// The bytes that a value with this footprint retains: its inline storage, and for a container its
/// header, two counters and every slot that it has room for.
pub open spec fn footprint_bytes(footprint: Footprint) -> nat
    decreases footprint,
{
    match footprint {
        Footprint::Leaf => size_of::<Value>(),
        Footprint::Str(capacity) => size_of::<Value>() + capacity,
        Footprint::Arr(capacity, parts) => size_of::<Value>() + size_of::<Vec<Value>>() + 2
            * size_of::<usize>() + capacity * size_of::<Value>() + items_bytes(parts),
        Footprint::Dict(capacity, parts) => size_of::<Value>() + size_of::<Dict>() + 2 * size_of::<
            usize,
        >() + capacity * slot_bytes() + entries_bytes(parts),
    }
}

pub open spec fn items_bytes(parts: Seq<Footprint>) -> nat
    decreases parts,
{
    if parts.len() == 0 {
        0
    } else {
        items_bytes(parts.drop_last()) + footprint_bytes(parts.last())
    }
}

pub open spec fn entries_bytes(parts: Seq<(nat, Footprint)>) -> nat
    decreases parts,
{
    if parts.len() == 0 {
        0
    } else {
        entries_bytes(parts.drop_last()) + parts.last().0 + footprint_bytes(parts.last().1)
    }
}

/// A count that saturates where it no longer fits.
pub open spec fn clamp(count: nat) -> nat {
    if count > usize::MAX {
        usize::MAX as nat
    } else {
        count
    }
}

/// Whether a value with this tree may be charged this many bytes.
pub open spec fn chargeable(tree: Tree, bytes: nat) -> bool {
    exists|footprint: Footprint|
        #[trigger] covers(footprint, tree) && bytes == clamp(footprint_bytes(footprint))
}

/// Whether these many bytes are the charge of a value with this tree whose allocations are these.
pub open spec fn measured(tree: Tree, footprint: Footprint, bytes: nat) -> bool {
    covers(footprint, tree) && bytes == clamp(footprint_bytes(footprint))
}

/// The footprint without any spare room.
pub open spec fn tight(tree: Tree) -> Footprint
    decreases tree,
{
    match tree {
        Tree::Str(text) => Footprint::Str(encode_utf8(text).len()),
        Tree::Arr(items) => Footprint::Arr(items.len(), tight_items(items)),
        Tree::Dict(entries) => Footprint::Dict(entries.len(), tight_entries(entries)),
        _ => Footprint::Leaf,
    }
}

/// The footprints of items without any spare room.
pub open spec fn tight_items(items: Seq<Tree>) -> Seq<Footprint>
    decreases items,
{
    if items.len() == 0 {
        Seq::empty()
    } else {
        tight_items(items.drop_last()).push(tight(items.last()))
    }
}

/// The room of keys and the footprints of values without any spare room.
pub open spec fn tight_entries(entries: Seq<(Seq<char>, Tree)>) -> Seq<(nat, Footprint)>
    decreases entries,
{
    if entries.len() == 0 {
        Seq::empty()
    } else {
        tight_entries(entries.drop_last()).push(
            (encode_utf8(entries.last().0).len(), tight(entries.last().1)),
        )
    }
}

/// The bytes that a value with this tree holds, without any spare room.
pub open spec fn held_bytes(tree: Tree) -> nat {
    footprint_bytes(tight(tree))
}

proof fn lemma_tight_covers(tree: Tree)
    ensures
        covers(tight(tree), tree),
    decreases tree,
{
    match tree {
        Tree::Arr(items) => lemma_tight_covers_items(items),
        Tree::Dict(entries) => lemma_tight_covers_entries(entries),
        _ => {},
    }
}

proof fn lemma_tight_covers_items(items: Seq<Tree>)
    ensures
        covers_items(tight_items(items), items),
    decreases items,
{
    if items.len() > 0 {
        lemma_tight_covers_items(items.drop_last());
        lemma_tight_covers(items.last());
        assert(tight_items(items).drop_last() =~= tight_items(items.drop_last()));
    }
}

proof fn lemma_tight_covers_entries(entries: Seq<(Seq<char>, Tree)>)
    ensures
        covers_entries(tight_entries(entries), entries),
    decreases entries,
{
    if entries.len() > 0 {
        lemma_tight_covers_entries(entries.drop_last());
        lemma_tight_covers(entries.last().1);
        assert(tight_entries(entries).drop_last() =~= tight_entries(entries.drop_last()));
    }
}

proof fn lemma_tight_least(footprint: Footprint, tree: Tree)
    requires
        covers(footprint, tree),
    ensures
        footprint_bytes(footprint) >= held_bytes(tree),
    decreases tree,
{
    match (footprint, tree) {
        (Footprint::Arr(capacity, parts), Tree::Arr(items)) => {
            lemma_tight_least_items(parts, items);
            let (len, size) = (items.len(), size_of::<Value>());
            assert(capacity * size >= len * size) by (nonlinear_arith)
                requires
                    capacity >= len,
            ;
        },
        (Footprint::Dict(capacity, parts), Tree::Dict(entries)) => {
            lemma_tight_least_entries(parts, entries);
            let (len, size) = (entries.len(), slot_bytes());
            assert(capacity * size >= len * size) by (nonlinear_arith)
                requires
                    capacity >= len,
            ;
        },
        _ => {},
    }
}

proof fn lemma_tight_least_items(parts: Seq<Footprint>, items: Seq<Tree>)
    requires
        covers_items(parts, items),
    ensures
        items_bytes(parts) >= items_bytes(tight_items(items)),
    decreases items,
{
    if items.len() > 0 {
        lemma_tight_least_items(parts.drop_last(), items.drop_last());
        lemma_tight_least(parts.last(), items.last());
        assert(tight_items(items).drop_last() =~= tight_items(items.drop_last()));
    }
}

proof fn lemma_tight_least_entries(
    parts: Seq<(nat, Footprint)>,
    entries: Seq<(Seq<char>, Tree)>,
)
    requires
        covers_entries(parts, entries),
    ensures
        entries_bytes(parts) >= entries_bytes(tight_entries(entries)),
    decreases entries,
{
    if entries.len() > 0 {
        lemma_tight_least_entries(parts.drop_last(), entries.drop_last());
        lemma_tight_least(parts.last().1, entries.last().1);
        assert(tight_entries(entries).drop_last() =~= tight_entries(entries.drop_last()));
    }
}

/// Every value may be charged exactly what it holds.
pub proof fn lemma_chargeable(tree: Tree)
    ensures
        chargeable(tree, clamp(held_bytes(tree))),
{
    lemma_tight_covers(tree);
}

/// The accounting is conservative: no value is charged less than what it holds.
pub proof fn law_charge_covers_what_is_held(tree: Tree, bytes: nat)
    requires
        chargeable(tree, bytes),
    ensures
        bytes >= clamp(held_bytes(tree)),
{
    let footprint = choose|footprint: Footprint|
        #[trigger] covers(footprint, tree) && bytes == clamp(footprint_bytes(footprint));
    lemma_tight_least(footprint, tree);
}

/// A value never retains less than its inline storage, and a container always more than its parts
/// together.
pub proof fn law_containers_retain_more_than_their_parts(
    footprint: Footprint,
    room: nat,
    parts: Seq<Footprint>,
    entries: Seq<(nat, Footprint)>,
)
    ensures
        footprint_bytes(footprint) >= size_of::<Value>(),
        footprint_bytes(Footprint::Arr(room, parts)) > size_of::<Value>() + items_bytes(parts),
        footprint_bytes(Footprint::Dict(room, entries)) > size_of::<Value>() + entries_bytes(
            entries,
        ),
{
    broadcast use vstd::layout::layout_of_primitives;

    assert(room * size_of::<Value>() >= 0 && room * slot_bytes() >= 0) by (nonlinear_arith);
    if let Footprint::Arr(capacity, _) = footprint {
        assert(capacity * size_of::<Value>() >= 0) by (nonlinear_arith);
    }
    if let Footprint::Dict(capacity, _) = footprint {
        assert(capacity * slot_bytes() >= 0) by (nonlinear_arith);
    }
}

/// Whether `larger` comes of `smaller` by giving strings and containers more room, and by putting
/// for values, at any depth, others that retain at least as much.
pub open spec fn outgrows(larger: Footprint, smaller: Footprint) -> bool
    decreases smaller,
{
    ||| footprint_bytes(larger) >= footprint_bytes(smaller)
    ||| match (larger, smaller) {
        (Footprint::Str(room), Footprint::Str(less)) => room >= less,
        (Footprint::Arr(room, parts), Footprint::Arr(less, fewer)) => room >= less
            && outgrows_items(parts, fewer),
        (Footprint::Dict(room, parts), Footprint::Dict(less, fewer)) => room >= less
            && outgrows_entries(parts, fewer),
        _ => false,
    }
}

/// Whether each item comes of the one at its place like that.
pub open spec fn outgrows_items(larger: Seq<Footprint>, smaller: Seq<Footprint>) -> bool
    decreases smaller,
{
    &&& larger.len() == smaller.len()
    &&& smaller.len() > 0 ==> outgrows_items(larger.drop_last(), smaller.drop_last()) && outgrows(
        larger.last(),
        smaller.last(),
    )
}

/// Whether each entry comes of the one at its place like that.
pub open spec fn outgrows_entries(
    larger: Seq<(nat, Footprint)>,
    smaller: Seq<(nat, Footprint)>,
) -> bool
    decreases smaller,
{
    &&& larger.len() == smaller.len()
    &&& smaller.len() > 0 ==> {
        &&& outgrows_entries(larger.drop_last(), smaller.drop_last())
        &&& larger.last().0 >= smaller.last().0
        &&& outgrows(larger.last().1, smaller.last().1)
    }
}

/// The accounting is monotone: more room, or a larger value in the place of one that is nested at
/// any depth, never makes the charge smaller.
pub proof fn law_charge_grows_with_room_and_parts(larger: Footprint, smaller: Footprint)
    requires
        outgrows(larger, smaller),
    ensures
        footprint_bytes(larger) >= footprint_bytes(smaller),
        clamp(footprint_bytes(larger)) >= clamp(footprint_bytes(smaller)),
    decreases smaller,
{
    if footprint_bytes(larger) < footprint_bytes(smaller) {
        match (larger, smaller) {
            (Footprint::Arr(room, parts), Footprint::Arr(less, fewer)) => {
                lemma_outgrown_items(parts, fewer);
                let size = size_of::<Value>();
                assert(room * size >= less * size) by (nonlinear_arith)
                    requires
                        room >= less,
                ;
            },
            (Footprint::Dict(room, parts), Footprint::Dict(less, fewer)) => {
                lemma_outgrown_entries(parts, fewer);
                let size = slot_bytes();
                assert(room * size >= less * size) by (nonlinear_arith)
                    requires
                        room >= less,
                ;
            },
            _ => {},
        }
    }
}

/// Of two values, the one whose allocations come of the other's by more room, or by values in the
/// place of nested ones that retain at least as much, is charged at least as much.
pub proof fn law_larger_value_is_charged_no_less(
    tree: Tree,
    footprint: Footprint,
    bytes: nat,
    larger: Tree,
    larger_footprint: Footprint,
    larger_bytes: nat,
)
    requires
        measured(tree, footprint, bytes),
        measured(larger, larger_footprint, larger_bytes),
        outgrows(larger_footprint, footprint),
    ensures
        larger_bytes >= bytes,
{
    law_charge_grows_with_room_and_parts(larger_footprint, footprint);
}

/// A string, an array, a dictionary or a key with more room outgrows the one with less, and so does
/// a container one of whose values gave way to one that outgrows it.
pub proof fn law_more_room_and_larger_parts_outgrow(
    less: nat,
    room: nat,
    items: Seq<Footprint>,
    entries: Seq<(nat, Footprint)>,
    i: int,
    part: Footprint,
    key_room: nat,
)
    requires
        room >= less,
    ensures
        outgrows(Footprint::Str(room), Footprint::Str(less)),
        outgrows(Footprint::Arr(room, items), Footprint::Arr(less, items)),
        outgrows(Footprint::Dict(room, entries), Footprint::Dict(less, entries)),
        0 <= i < items.len() && outgrows(part, items[i]) ==> outgrows(
            Footprint::Arr(room, items.update(i, part)),
            Footprint::Arr(less, items),
        ),
        0 <= i < entries.len() && outgrows(part, entries[i].1) ==> outgrows(
            Footprint::Dict(room, entries.update(i, (entries[i].0, part))),
            Footprint::Dict(less, entries),
        ),
        0 <= i < entries.len() && key_room >= entries[i].0 ==> outgrows(
            Footprint::Dict(room, entries.update(i, (key_room, entries[i].1))),
            Footprint::Dict(less, entries),
        ),
{
    lemma_items_outgrow(items, items);
    lemma_entries_outgrow(entries, entries);
    if 0 <= i < items.len() && outgrows(part, items[i]) {
        lemma_items_outgrow(items.update(i, part), items);
    }
    if 0 <= i < entries.len() && outgrows(part, entries[i].1) {
        lemma_entries_outgrow(entries.update(i, (entries[i].0, part)), entries);
    }
    if 0 <= i < entries.len() && key_room >= entries[i].0 {
        lemma_entries_outgrow(entries.update(i, (key_room, entries[i].1)), entries);
    }
}

proof fn lemma_items_outgrow(larger: Seq<Footprint>, smaller: Seq<Footprint>)
    requires
        larger.len() == smaller.len(),
        forall|i: int| 0 <= i < smaller.len() ==> outgrows(#[trigger] larger[i], smaller[i]),
    ensures
        outgrows_items(larger, smaller),
    decreases smaller.len(),
{
    if smaller.len() > 0 {
        lemma_items_outgrow(larger.drop_last(), smaller.drop_last());
        assert(outgrows(larger[smaller.len() - 1], smaller[smaller.len() - 1]));
    }
}

proof fn lemma_entries_outgrow(larger: Seq<(nat, Footprint)>, smaller: Seq<(nat, Footprint)>)
    requires
        larger.len() == smaller.len(),
        forall|i: int|
            0 <= i < smaller.len() ==> (#[trigger] larger[i]).0 >= smaller[i].0 && outgrows(
                larger[i].1,
                smaller[i].1,
            ),
    ensures
        outgrows_entries(larger, smaller),
    decreases smaller.len(),
{
    if smaller.len() > 0 {
        lemma_entries_outgrow(larger.drop_last(), smaller.drop_last());
        assert(larger[smaller.len() - 1].0 >= smaller[smaller.len() - 1].0);
    }
}

proof fn lemma_outgrown_items(larger: Seq<Footprint>, smaller: Seq<Footprint>)
    requires
        outgrows_items(larger, smaller),
    ensures
        items_bytes(larger) >= items_bytes(smaller),
    decreases smaller,
{
    if smaller.len() > 0 {
        lemma_outgrown_items(larger.drop_last(), smaller.drop_last());
        law_charge_grows_with_room_and_parts(larger.last(), smaller.last());
    }
}

proof fn lemma_outgrown_entries(larger: Seq<(nat, Footprint)>, smaller: Seq<(nat, Footprint)>)
    requires
        outgrows_entries(larger, smaller),
    ensures
        entries_bytes(larger) >= entries_bytes(smaller),
    decreases smaller,
{
    if smaller.len() > 0 {
        lemma_outgrown_entries(larger.drop_last(), smaller.drop_last());
        law_charge_grows_with_room_and_parts(larger.last().1, smaller.last().1);
    }
}

/// `String::capacity`: the bytes that the string has room for, at least those that it holds.
#[verifier::external_body]
pub(crate) fn string_capacity(text: &String) -> (capacity: usize)
    ensures
        capacity >= encode_utf8(text@).len(),
{
    text.capacity()
}

/// `Vec::capacity`: the items that the vector has room for, at least those that it holds.
#[verifier::external_body]
pub(crate) fn vec_capacity<T>(items: &Vec<T>) -> (capacity: usize)
    ensures
        capacity >= items@.len(),
{
    items.capacity()
}

/// Whether this many bytes are what `String::capacity` gives for this very string.
pub closed spec fn string_has_room(text: String, room: nat) -> bool {
    room <= usize::MAX && call_ensures(string_capacity, (&text,), room as usize)
}

/// Whether this many bytes are what `Vec::capacity` gives for this very vector.
pub closed spec fn bytes_have_room(bytes: Vec<u8>, room: nat) -> bool {
    room <= usize::MAX && call_ensures(vec_capacity::<u8>, (&bytes,), room as usize)
}

/// Whether this many items are what `Vec::capacity` gives for this very vector.
pub closed spec fn items_have_room(items: Vec<Value>, room: nat) -> bool {
    room <= usize::MAX && call_ensures(vec_capacity::<Value>, (&items,), room as usize)
}

/// Whether this many entries are what `indexmap::IndexMap::capacity` gives for this very map.
pub closed spec fn dict_has_room(dict: Dict, room: nat) -> bool {
    room <= usize::MAX && call_ensures(Dict::capacity, (&dict,), room as usize)
}

/// Whether these are the key and the value that a map holds at a position.
pub closed spec fn is_entry(dict: Dict, i: int, key: String, value: Value) -> bool {
    0 <= i <= usize::MAX && call_ensures(Dict::entry, (&dict, i as usize), Some((&key, &value)))
}

/// The bytes that a string has room for.
pub fn text_room(text: &String) -> (room: usize)
    ensures
        string_has_room(*text, room as nat),
        room >= encode_utf8(text@).len(),
{
    string_capacity(text)
}

/// The bytes that a vector has room for.
pub fn bytes_room(bytes: &Vec<u8>) -> (room: usize)
    ensures
        bytes_have_room(*bytes, room as nat),
        room >= bytes@.len(),
{
    vec_capacity(bytes)
}

/// The room of an allocation is what that very allocation reports, neither more nor less.
pub(crate) proof fn law_room_is_what_is_reported(
    text: String,
    bytes: Vec<u8>,
    items: Vec<Value>,
    dict: Dict,
    value: Value,
    room: usize,
)
    ensures
        string_has_room(text, room as nat) == call_ensures(string_capacity, (&text,), room),
        bytes_have_room(bytes, room as nat) == call_ensures(vec_capacity::<u8>, (&bytes,), room),
        items_have_room(items, room as nat) == call_ensures(
            vec_capacity::<Value>,
            (&items,),
            room,
        ),
        dict_has_room(dict, room as nat) == call_ensures(Dict::capacity, (&dict,), room),
        is_entry(dict, room as int, text, value) == call_ensures(
            Dict::entry,
            (&dict, room),
            Some((&text, &value)),
        ),
{
}

/// What an allocation has room for is at least what it holds.
pub proof fn lemma_room_covers(
    text: String,
    bytes: Vec<u8>,
    items: Vec<Value>,
    dict: Dict,
    room: nat,
)
    ensures
        string_has_room(text, room) ==> room >= encode_utf8(text@).len(),
        bytes_have_room(bytes, room) ==> room >= bytes@.len(),
        items_have_room(items, room) ==> room >= items@.len(),
        dict_has_room(dict, room) ==> room >= dict@.len(),
{
}

/// Whether a footprint is that of this very value: the room of each string, array, dictionary and
/// key is what that allocation reports.
pub open spec fn allotted(footprint: Footprint, value: Value) -> bool
    decreases footprint,
{
    match (footprint, value) {
        (Footprint::Leaf, Value::Null) => true,
        (Footprint::Leaf, Value::Bool(_)) => true,
        (Footprint::Leaf, Value::Int(_)) => true,
        (Footprint::Leaf, Value::Float(_)) => true,
        (Footprint::Str(room), Value::Str(text)) => string_has_room(text, room),
        (Footprint::Arr(room, parts), Value::Arr(items)) => items_have_room(*items, room)
            && allotted_items(parts, items@),
        (Footprint::Dict(room, parts), Value::Dict(dict)) => dict_has_room(*dict, room)
            && parts.len() == dict@.len() && allotted_entries(parts, *dict),
        _ => false,
    }
}

/// Whether each footprint is that of the item at its place.
pub open spec fn allotted_items(parts: Seq<Footprint>, items: Seq<Value>) -> bool
    decreases parts,
{
    &&& parts.len() == items.len()
    &&& parts.len() > 0 ==> allotted_items(parts.drop_last(), items.drop_last()) && allotted(
        parts.last(),
        items.last(),
    )
}

/// Whether each pair is the room of the key and the footprint of the value at its place.
pub open spec fn allotted_entries(parts: Seq<(nat, Footprint)>, dict: Dict) -> bool
    decreases parts,
{
    parts.len() > 0 ==> {
        &&& allotted_entries(parts.drop_last(), dict)
        &&& exists|key: String, value: Value| #[trigger]
            is_entry(dict, parts.len() - 1, key, value) && string_has_room(key, parts.last().0)
                && allotted(parts.last().1, value)
    }
}

/// Whether these many bytes are the charge of this very value: exactly the bytes of its footprint.
pub open spec fn charged(value: Value, bytes: nat) -> bool {
    exists|footprint: Footprint| #[trigger]
        allotted(footprint, value) && measured(value@, footprint, bytes)
}

/// Whether these many bytes are the charge of some value with this tree.
pub open spec fn weighed(tree: Tree, bytes: nat) -> bool {
    exists|value: Value| value@ == tree && #[trigger] charged(value, bytes)
}

/// Whether a text can be held with this much room.
pub open spec fn text_has_room(text: Seq<char>, room: nat) -> bool {
    exists|held: String| held@ == text && #[trigger] string_has_room(held, room)
}

/// A charge covers what its value holds.
pub proof fn lemma_charged(value: Value, tree: Tree, bytes: nat)
    ensures
        charged(value, bytes) ==> chargeable(value@, bytes),
        weighed(tree, bytes) ==> chargeable(tree, bytes),
{
}

/// `core::mem::size_of`, of a value. A value can hold any 64-bit integer, so it takes some bytes.
#[verifier::external_body]
fn value_size() -> (size: usize)
    ensures
        size == size_of::<Value>(),
        size > 0,
{
    core::mem::size_of::<Value>()
}

fn saturating_mul(a: usize, b: usize) -> (product: usize)
    ensures
        product == clamp((a * b) as nat),
{
    assert(a * b >= 0) by (nonlinear_arith)
        requires
            a >= 0,
            b >= 0,
    ;
    match a.checked_mul(b) {
        Some(product) => product,
        None => usize::MAX,
    }
}

/// The bytes of a string value with this much room.
pub fn string_bytes(capacity: usize) -> (bytes: usize)
    ensures
        bytes == clamp(size_of::<Value>() + capacity as nat),
{
    value_size().saturating_add(capacity)
}

/// The bytes of an array value with this much room, whose items take `items` bytes.
pub fn array_bytes(capacity: usize, items: usize) -> (bytes: usize)
    ensures
        bytes == clamp(
            size_of::<Value>() + size_of::<Vec<Value>>() + 2 * size_of::<usize>() + capacity as nat
                * size_of::<Value>() + items as nat,
        ),
{
    broadcast use vstd::layout::layout_of_primitives;
    value_size().saturating_add(core::mem::size_of::<Vec<Value>>()).saturating_add(
        2 * core::mem::size_of::<usize>(),
    ).saturating_add(saturating_mul(capacity, value_size())).saturating_add(items)
}

/// The bytes of a dictionary value with this much room, whose keys and values take `entries`
/// bytes.
pub fn dict_bytes(capacity: usize, entries: usize) -> (bytes: usize)
    ensures
        bytes == clamp(
            size_of::<Value>() + size_of::<Dict>() + 2 * size_of::<usize>() + capacity as nat
                * slot_bytes() + entries as nat,
        ),
{
    broadcast use vstd::layout::layout_of_primitives;
    let slot = core::mem::size_of::<String>().saturating_add(
        value_size(),
    ).saturating_add(core::mem::size_of::<usize>());
    proof {
        let room = capacity as nat;
        let exact = slot_bytes();
        assert(clamp((room * slot as nat) as nat) == clamp(room * exact)) by (nonlinear_arith)
            requires
                slot == clamp(exact),
        ;
    }
    value_size().saturating_add(core::mem::size_of::<Dict>()).saturating_add(
        2 * core::mem::size_of::<usize>(),
    ).saturating_add(saturating_mul(capacity, slot)).saturating_add(entries)
}

/// The charge of a value, with the footprint that it was computed from. By their footprints the
/// charges of two values can be told apart.
pub fn measure(value: &Value) -> (charge: (usize, Ghost<Footprint>))
    ensures
        measured(value@, charge.1@, charge.0 as nat),
        allotted(charge.1@, *value),
    decreases value@,
{
    match value {
        Value::Null => (value_size(), Ghost(Footprint::Leaf)),
        Value::Bool(_) => (value_size(), Ghost(Footprint::Leaf)),
        Value::Int(_) => (value_size(), Ghost(Footprint::Leaf)),
        Value::Float(_) => (value_size(), Ghost(Footprint::Leaf)),
        Value::Str(text) => {
            let capacity = string_capacity(text);
            (string_bytes(capacity), Ghost(Footprint::Str(capacity as nat)))
        },
        Value::Arr(items) => {
            proof {
                lemma_array_tree(*items);
            }
            let capacity = vec_capacity(items);
            let mut total: usize = 0;
            let ghost mut parts: Seq<Footprint> = Seq::empty();
            let mut i: usize = 0;
            while i < items.len()
                invariant
                    i <= items@.len(),
                    value@ == Tree::Arr(trees(items@)),
                    covers_items(parts, trees(items@).take(i as int)),
                    allotted_items(parts, items@.take(i as int)),
                    total == clamp(items_bytes(parts)),
                decreases items@.len() - i,
            {
                assert(value@->Arr_0[i as int] == items@[i as int]@);
                assert(decreases_to!(value@ => value@->Arr_0[i as int]));
                let (bytes, part) = measure(&items[i]);
                proof {
                    let longer = parts.push(part@);
                    let seen = trees(items@).take(i + 1);
                    assert(longer.drop_last() =~= parts);
                    assert(seen.drop_last() =~= trees(items@).take(i as int));
                    assert(items@.take(i + 1).drop_last() =~= items@.take(i as int));
                    parts = longer;
                }
                total = total.saturating_add(bytes);
                i = i + 1;
            }
            assert(trees(items@).take(i as int) =~= trees(items@));
            assert(items@.take(i as int) =~= items@);
            (array_bytes(capacity, total), Ghost(Footprint::Arr(capacity as nat, parts)))
        },
        Value::Dict(dict) => {
            let capacity = dict.capacity();
            let mut total: usize = 0;
            let ghost entries = dict@;
            let ghost mut parts: Seq<(nat, Footprint)> = Seq::empty();
            let mut i: usize = 0;
            loop
                invariant
                    i <= entries.len(),
                    capacity >= entries.len(),
                    value@ == Tree::Dict(entries),
                    entries == dict@,
                    covers_entries(parts, entries.take(i as int)),
                    parts.len() == i,
                    allotted_entries(parts, **dict),
                    total == clamp(entries_bytes(parts)),
                ensures
                    i == entries.len(),
                decreases entries.len() - i,
            {
                match dict.entry(i) {
                    Some((key, item)) => {
                        assert(decreases_to!(value@ => value@->Dict_0[i as int].1));
                        let room = string_capacity(key);
                        let (bytes, part) = measure(item);
                        proof {
                            let longer = parts.push((room as nat, part@));
                            let seen = entries.take(i + 1);
                            assert(longer.drop_last() =~= parts);
                            assert(seen.drop_last() =~= entries.take(i as int));
                            assert(is_entry(**dict, i as int, *key, *item));
                            parts = longer;
                        }
                        total = total.saturating_add(room).saturating_add(bytes);
                        i = i + 1;
                    },
                    None => {
                        break;
                    },
                }
            }
            assert(entries.take(i as int) =~= entries);
            (dict_bytes(capacity, total), Ghost(Footprint::Dict(capacity as nat, parts)))
        },
    }
}

/// Estimates the memory that a value retains.
///
/// A value has its inline storage, while strings, arrays and dictionaries retain further
/// allocations. The room of a container counts, not its length, and its slots bring a little
/// bookkeeping. Shared storage may be counted more than once: this is a conservative accounting
/// bound, no measurement of the allocator. How much room there is beyond what is held, no contract
/// says.
pub fn estimate_value_bytes(value: &Value) -> (bytes: usize)
    ensures
        charged(*value, bytes as nat),
        chargeable(value@, bytes as nat),
        bytes >= size_of::<Value>(),
        bytes > 0,
{
    let least = value_size();
    let (bytes, footprint) = measure(value);
    proof {
        law_containers_retain_more_than_their_parts(footprint@, 0, Seq::empty(), Seq::empty());
    }
    assert(bytes >= least);
    bytes
}

/// A queue of parsed values, bounded in count and in bytes.
///
/// The byte count is a conservative estimate of what the values retain, not of the wire
/// representation: a small JSON frame can retain a large tree of strings, slots and spare room.
pub struct ParsedQueue {
    ledger: Ledger<Value>,
}

impl View for ParsedQueue {
    type V = Seq<(Tree, nat)>;

    /// The queued values with what each is charged, first in first.
    closed spec fn view(&self) -> Seq<(Tree, nat)> {
        self.ledger@
    }
}

/// Whether a queue keeps both bounds.
pub open spec fn within_bounds(queue: Seq<(Tree, nat)>) -> bool {
    queue.len() <= INCOMING_CAPACITY && total_charge(queue) <= INCOMING_BYTES
}

/// Why a queue refuses a value that is charged `charge`, if it does.
pub open spec fn push_refusal(queue: Seq<(Tree, nat)>, charge: nat) -> Option<Seq<char>> {
    if queue.len() >= INCOMING_CAPACITY {
        Some("[NetworkError] incoming WebSocket queue capacity exceeded (256)"@)
    } else if charge > INCOMING_BYTES - total_charge(queue) {
        Some("[NetworkError] incoming WebSocket queue byte limit exceeded (4194304 bytes)"@)
    } else {
        None
    }
}

/// What a push of `tree` at `charge` answers, and what it leaves.
pub open spec fn pushed(
    before: Seq<(Tree, nat)>,
    tree: Tree,
    charge: nat,
    after: Seq<(Tree, nat)>,
    answer: Result<(), String>,
) -> bool {
    match push_refusal(before, charge) {
        Some(reason) => answer is Err && answer->Err_0@ == reason && after == before,
        None => answer is Ok && after == before.push((tree, charge)),
    }
}

/// Whether every queued value is charged what it retains, which is never nothing.
pub open spec fn charged_in_full(queue: Seq<(Tree, nat)>) -> bool {
    forall|i: int|
        0 <= i < queue.len() ==> chargeable((#[trigger] queue[i]).0, queue[i].1) && queue[i].1 > 0
}

/// A queue that charges every value what it retains is charged nothing exactly while it is empty.
pub proof fn law_empty_queue_is_charged_nothing(queue: Seq<(Tree, nat)>)
    requires
        charged_in_full(queue),
    ensures
        total_charge(queue) >= queue.len(),
        (total_charge(queue) == 0) == (queue.len() == 0),
    decreases queue.len(),
{
    if queue.len() > 0 {
        law_empty_queue_is_charged_nothing(queue.drop_last());
        assert(queue[queue.len() - 1].1 > 0);
    }
}

/// What is done with a queue: a value at its charge is pushed, the first one is taken out, or all
/// are dropped.
pub enum QueueStep {
    Push(Tree, nat),
    Pop,
    Clear,
}

/// The queue once that was done. A push that is refused leaves it as it is.
pub open spec fn stepped(queue: Seq<(Tree, nat)>, step: QueueStep) -> Seq<(Tree, nat)> {
    match step {
        QueueStep::Push(tree, charge) => if push_refusal(queue, charge) is None {
            queue.push((tree, charge))
        } else {
            queue
        },
        QueueStep::Pop => if queue.len() > 0 {
            queue.drop_first()
        } else {
            queue
        },
        QueueStep::Clear => Seq::empty(),
    }
}

/// The queue that a new one becomes by these steps.
pub open spec fn reached(steps: Seq<QueueStep>) -> Seq<(Tree, nat)>
    decreases steps.len(),
{
    if steps.len() == 0 {
        Seq::empty()
    } else {
        stepped(reached(steps.drop_last()), steps.last())
    }
}

/// Whatever is pushed, popped and cleared, a queue keeps both bounds, charges each value that is
/// still in it what it was charged when it was pushed, and is charged nothing exactly while it is
/// empty.
pub proof fn law_every_queue_keeps_its_accounts(steps: Seq<QueueStep>)
    requires
        forall|i: int|
            0 <= i < steps.len() ==> match #[trigger] steps[i] {
                QueueStep::Push(tree, charge) => chargeable(tree, charge) && charge > 0,
                _ => true,
            },
    ensures
        within_bounds(reached(steps)),
        charged_in_full(reached(steps)),
        (total_charge(reached(steps)) == 0) == (reached(steps).len() == 0),
    decreases steps.len(),
{
    if steps.len() > 0 {
        let fewer = steps.drop_last();
        assert forall|i: int| 0 <= i < fewer.len() implies match #[trigger] fewer[i] {
            QueueStep::Push(tree, charge) => chargeable(tree, charge) && charge > 0,
            _ => true,
        } by {
            assert(fewer[i] == steps[i]);
        }
        law_every_queue_keeps_its_accounts(fewer);
        let queue = reached(fewer);
        assert(steps[steps.len() - 1] == steps.last());
        match steps.last() {
            QueueStep::Push(tree, charge) => lemma_total_push(queue, tree, charge),
            QueueStep::Pop => if queue.len() > 0 {
                lemma_total_front(queue);
            },
            QueueStep::Clear => {},
        }
    }
    law_empty_queue_is_charged_nothing(reached(steps));
}

impl ParsedQueue {
    #[verifier::type_invariant]
    spec fn inv(self) -> bool {
        within_bounds(self@)
    }

    /// An empty queue.
    pub fn new() -> (queue: ParsedQueue)
        ensures
            queue@ == Seq::<(Tree, nat)>::empty(),
    {
        ParsedQueue { ledger: Ledger::new() }
    }

    /// Adds a value that is charged `charge`, if both bounds leave room for it.
    pub fn push_charged(&mut self, value: Value, charge: usize) -> (answer: Result<(), String>)
        ensures
            pushed(old(self)@, value@, charge as nat, final(self)@, answer),
            within_bounds(final(self)@),
    {
        proof {
            use_type_invariant(&*self);
        }
        if self.ledger.len() >= INCOMING_CAPACITY {
            return Err(
                "[NetworkError] incoming WebSocket queue capacity exceeded (256)".to_owned(),
            );
        }
        if charge > INCOMING_BYTES.saturating_sub(self.ledger.bytes()) {
            return Err(
                "[NetworkError] incoming WebSocket queue byte limit exceeded (4194304 bytes)".to_owned(),
            );
        }
        let mut taken = ParsedQueue::new();
        core::mem::swap(self, &mut taken);
        let ParsedQueue { mut ledger } = taken;
        proof {
            lemma_total_push(ledger@, value@, charge as nat);
        }
        ledger.push(value, charge);
        *self = ParsedQueue { ledger };
        Ok(())
    }

    /// Adds a parsed value if both bounds leave room for it.
    pub fn push(&mut self, value: Value) -> (answer: Result<(), String>)
        ensures
            exists|charge: nat| #[trigger]
                chargeable(value@, charge) && charged(value, charge) && charge > 0 && pushed(
                    old(self)@,
                    value@,
                    charge,
                    final(self)@,
                    answer,
                ) && final(self)@ == stepped(old(self)@, QueueStep::Push(value@, charge)),
            charged_in_full(old(self)@) ==> charged_in_full(final(self)@),
            within_bounds(final(self)@),
    {
        let charge = estimate_value_bytes(&value);
        assert(chargeable(value@, charge as nat));
        self.push_charged(value, charge)
    }

    /// Takes the first value out.
    pub fn pop(&mut self) -> (popped: Option<Value>)
        ensures
            match popped {
                Some(value) => old(self)@.len() > 0 && old(self)@[0].0 == value@ && final(self)@
                    == old(self)@.drop_first(),
                None => old(self)@.len() == 0 && final(self)@ == old(self)@,
            },
            final(self)@ == stepped(old(self)@, QueueStep::Pop),
    {
        proof {
            use_type_invariant(&*self);
        }
        let mut taken = ParsedQueue::new();
        core::mem::swap(self, &mut taken);
        let ParsedQueue { mut ledger } = taken;
        proof {
            if ledger@.len() > 0 {
                lemma_total_front(ledger@);
            }
        }
        let popped = ledger.pop();
        *self = ParsedQueue { ledger };
        match popped {
            Some((value, _)) => Some(value),
            None => None,
        }
    }

    /// Drops every value.
    pub fn clear(&mut self)
        ensures
            final(self)@ == Seq::<(Tree, nat)>::empty(),
            final(self)@ == stepped(old(self)@, QueueStep::Clear),
    {
        *self = ParsedQueue::new();
    }

    /// Whether nothing is queued.
    pub fn is_empty(&self) -> (empty: bool)
        ensures
            empty == (self@.len() == 0),
    {
        self.ledger.len() == 0
    }

    /// How many values are queued.
    pub fn len(&self) -> (len: usize)
        ensures
            len == self@.len(),
            within_bounds(self@),
    {
        proof {
            use_type_invariant(self);
        }
        self.ledger.len()
    }

    /// What the queued values are charged together.
    pub fn bytes(&self) -> (bytes: usize)
        ensures
            bytes == total_charge(self@),
            within_bounds(self@),
    {
        proof {
            use_type_invariant(self);
        }
        self.ledger.bytes()
    }
}

/// What `flate2::read::GzDecoder` expands a payload to, read up to `limit` bytes: nothing where the
/// payload is no gzip stream or a broken one.
pub uninterp spec fn gzip_expansion(payload: Seq<u8>, limit: u64) -> Option<Seq<u8>>;

/// What `flate2::read::DeflateDecoder` expands a payload to, read up to `limit` bytes: nothing
/// where the payload is a broken raw deflate stream.
pub uninterp spec fn deflate_expansion(payload: Seq<u8>, limit: u64) -> Option<Seq<u8>>;

/// What `core::str::Utf8Error` says of bytes that are no UTF-8.
pub uninterp spec fn utf8_complaint(bytes: Seq<u8>) -> Seq<char>;

/// Reads `flate2::read::GzDecoder` to its end, or to `limit` bytes, whichever comes first. Gives
/// what was read, and whether no error came. `std::io::Take` reports the end at the limit, so an
/// error comes only short of it.
#[verifier::external_body]
fn read_gzip(payload: &[u8], limit: u64) -> (read: (Vec<u8>, bool))
    ensures
        read.1 == (gzip_expansion(payload@, limit) is Some),
        read.1 ==> gzip_expansion(payload@, limit) == Some(read.0@),
        read.0@.len() <= limit,
        !read.1 ==> read.0@.len() < limit,
{
    let mut decoded = Vec::new();
    let complete = flate2::read::GzDecoder::new(payload).take(limit).read_to_end(&mut decoded);
    (decoded, complete.is_ok())
}

/// Reads `flate2::read::DeflateDecoder` to its end, or to `limit` bytes, whichever comes first, as
/// [`read_gzip`] does.
#[verifier::external_body]
fn read_deflate(payload: &[u8], limit: u64) -> (read: (Vec<u8>, bool))
    ensures
        read.1 == (deflate_expansion(payload@, limit) is Some),
        read.1 ==> deflate_expansion(payload@, limit) == Some(read.0@),
        read.0@.len() <= limit,
        !read.1 ==> read.0@.len() < limit,
{
    let mut decoded = Vec::new();
    let complete = flate2::read::DeflateDecoder::new(payload).take(limit).read_to_end(&mut decoded);
    (decoded, complete.is_ok())
}

/// `core::str::from_utf8`, with the display of its error: the text of bytes that are UTF-8, and
/// what is wrong with others.
#[verifier::external_body]
fn read_utf8(bytes: &[u8]) -> (read: Result<&str, String>)
    ensures
        match read {
            Ok(text) => valid_utf8(bytes@) && text@ == decode_utf8(bytes@),
            Err(complaint) => !valid_utf8(bytes@) && complaint@ == utf8_complaint(bytes@),
        },
{
    match core::str::from_utf8(bytes) {
        Ok(text) => Ok(text),
        Err(error) => Err(error.to_string()),
    }
}

/// How reading a compressed payload went.
pub enum Compressed {
    /// It is no stream of that format.
    Invalid,
    /// It expands to these bytes.
    Decoded(Vec<u8>),
    /// It expands to more than is accepted.
    Overflow,
}

/// How many bytes of an expansion are read: one more than is accepted. Stopping at the exact limit
/// could not tell an accepted payload from one that is still expanding.
pub const EXPANSION_LIMIT: u64 = 1024 * 1024 + 1;

/// Judges what was read of a compressed payload, and whether the reading ended without an error.
pub fn read_compressed(decoded: Vec<u8>, complete: bool) -> (read: Compressed)
    ensures
        match read {
            Compressed::Overflow => decoded@.len() > MAX_DECODED_BYTES,
            Compressed::Decoded(bytes) => complete && decoded@.len() <= MAX_DECODED_BYTES && bytes
                == decoded,
            Compressed::Invalid => !complete && decoded@.len() <= MAX_DECODED_BYTES,
        },
{
    if decoded.len() > MAX_DECODED_BYTES {
        Compressed::Overflow
    } else if complete {
        Compressed::Decoded(decoded)
    } else {
        Compressed::Invalid
    }
}

/// The value of raw bytes: an array of their numbers.
pub open spec fn bytes_tree(bytes: Seq<u8>) -> Tree {
    Tree::Arr(Seq::new(bytes.len(), |i: int| Tree::Int(bytes[i] as i64)))
}

/// The value of raw bytes that are no text.
pub fn bytes_to_value(bytes: &[u8]) -> (value: Value)
    ensures
        value@ == bytes_tree(bytes@),
{
    let mut items: Vec<Value> = Vec::new();
    let mut i: usize = 0;
    while i < bytes.len()
        invariant
            i <= bytes@.len(),
            items@.len() == i,
            forall|j: int| 0 <= j < i ==> (#[trigger] items@[j])@ == Tree::Int(bytes@[j] as i64),
        decreases bytes@.len() - i,
    {
        items.push(Value::Int(bytes[i] as i64));
        i = i + 1;
    }
    assert(trees(items@) =~= bytes_tree(bytes@)->Arr_0);
    Value::array(items)
}

/// The value of a text that the bytes encode.
pub open spec fn utf8_tree(bytes: Seq<u8>) -> Tree {
    text_tree(json_document(decode_utf8(bytes)), decode_utf8(bytes))
}

/// The value of an uncompressed binary payload: as text where it is text, else its bytes.
pub fn parse_binary_bytes(bytes: &[u8]) -> (value: Value)
    ensures
        value@ == if valid_utf8(bytes@) {
            utf8_tree(bytes@)
        } else {
            bytes_tree(bytes@)
        },
{
    match read_utf8(bytes) {
        Ok(text) => parse_text(text),
        Err(_) => bytes_to_value(bytes),
    }
}

/// Whether an expansion is accepted as a text frame: only text that is not empty is.
pub open spec fn is_text_frame(bytes: Seq<u8>) -> bool {
    bytes.len() > 0 && valid_utf8(bytes)
}

/// The value of an expansion. Empty or binary expansions fall through to the next decoder.
pub fn parse_compressed(bytes: &[u8]) -> (value: Option<Value>)
    ensures
        match value {
            Some(value) => is_text_frame(bytes@) && value@ == utf8_tree(bytes@),
            None => !is_text_frame(bytes@),
        },
{
    if bytes.len() == 0 {
        return None;
    }
    match read_utf8(bytes) {
        Ok(text) => Some(parse_text(text)),
        Err(_) => None,
    }
}

/// What an attempt at one compressed format settles: the value, the refusal of an expansion that
/// is too long, or nothing.
pub open spec fn expansion_verdict(expansion: Option<Seq<u8>>) -> Option<Result<Tree, Seq<char>>> {
    match expansion {
        Some(bytes) => if bytes.len() > MAX_DECODED_BYTES {
            Some(Err("[NetworkError] decoded WebSocket payload exceeds 1048576 bytes"@))
        } else if is_text_frame(bytes) {
            Some(Ok(utf8_tree(bytes)))
        } else {
            None
        },
        None => None,
    }
}

/// Whether an answer is the one that is owed.
pub open spec fn answers(answer: Result<Value, String>, owed: Result<Tree, Seq<char>>) -> bool {
    match (answer, owed) {
        (Ok(value), Ok(tree)) => value@ == tree,
        (Err(message), Err(text)) => message@ == text,
        _ => false,
    }
}

/// Settles what it can from what was read of one compressed format.
pub fn settle_expansion(read: Compressed) -> (verdict: Option<Result<Value, String>>)
    ensures
        match read {
            Compressed::Overflow => verdict is Some && answers(
                verdict->0,
                Err("[NetworkError] decoded WebSocket payload exceeds 1048576 bytes"@),
            ),
            Compressed::Invalid => verdict is None,
            Compressed::Decoded(bytes) => if is_text_frame(bytes@) {
                verdict is Some && answers(verdict->0, Ok(utf8_tree(bytes@)))
            } else {
                verdict is None
            },
        },
{
    match read {
        Compressed::Decoded(bytes) => match parse_compressed(bytes.as_slice()) {
            Some(value) => Some(Ok(value)),
            None => None,
        },
        Compressed::Overflow => Some(
            Err("[NetworkError] decoded WebSocket payload exceeds 1048576 bytes".to_owned()),
        ),
        Compressed::Invalid => None,
    }
}

/// What a payload decodes to.
///
/// Text must be UTF-8. A binary payload is tried as gzip and then as raw deflate; a broken stream
/// falls through to plain text or bytes, while an expansion that is too long is the end.
pub open spec fn decoding(payload: Seq<u8>, is_binary: bool) -> Result<Tree, Seq<char>> {
    if payload.len() > MAX_PAYLOAD_BYTES {
        Err("[NetworkError] WebSocket payload exceeds 262144 bytes"@)
    } else if !is_binary {
        if valid_utf8(payload) {
            Ok(utf8_tree(payload))
        } else {
            Err(
                "[NetworkError] WebSocket text is not valid UTF-8: "@ + utf8_complaint(payload),
            )
        }
    } else {
        match expansion_verdict(gzip_expansion(payload, EXPANSION_LIMIT)) {
            Some(verdict) => verdict,
            None => match expansion_verdict(deflate_expansion(payload, EXPANSION_LIMIT)) {
                Some(verdict) => verdict,
                None => if valid_utf8(payload) {
                    Ok(utf8_tree(payload))
                } else {
                    Ok(bytes_tree(payload))
                },
            },
        }
    }
}

/// Decodes one raw WebSocket payload under the transport bounds.
pub fn decode(payload: &[u8], is_binary: bool) -> (answer: Result<Value, String>)
    ensures
        answers(answer, decoding(payload@, is_binary)),
{
    if payload.len() > MAX_PAYLOAD_BYTES {
        return Err("[NetworkError] WebSocket payload exceeds 262144 bytes".to_owned());
    }
    if !is_binary {
        return match read_utf8(payload) {
            Ok(text) => Ok(parse_text(text)),
            Err(complaint) => {
                let mut message = "[NetworkError] WebSocket text is not valid UTF-8: ".to_owned();
                message.append(complaint.as_str());
                Err(message)
            },
        };
    }
    let (expanded, complete) = read_gzip(payload, EXPANSION_LIMIT);
    if let Some(verdict) = settle_expansion(read_compressed(expanded, complete)) {
        return verdict;
    }
    let (inflated, complete) = read_deflate(payload, EXPANSION_LIMIT);
    if let Some(verdict) = settle_expansion(read_compressed(inflated, complete)) {
        return verdict;
    }
    Ok(parse_binary_bytes(payload))
}

/// An expansion that is too long is the end: neither gzip nor raw deflate falls back to another
/// reading of the payload.
pub proof fn law_expansion_overflow_is_terminal(payload: Seq<u8>, gzip: Seq<u8>, deflate: Seq<u8>)
    requires
        payload.len() <= MAX_PAYLOAD_BYTES,
    ensures
        gzip_expansion(payload, EXPANSION_LIMIT) == Some(gzip) && gzip.len() > MAX_DECODED_BYTES
            ==> decoding(payload, true) == Err::<Tree, Seq<char>>(
            "[NetworkError] decoded WebSocket payload exceeds 1048576 bytes"@,
        ),
        expansion_verdict(gzip_expansion(payload, EXPANSION_LIMIT)) is None && deflate_expansion(
            payload,
            EXPANSION_LIMIT,
        ) == Some(deflate) && deflate.len() > MAX_DECODED_BYTES ==> decoding(payload, true) == Err::<
            Tree,
            Seq<char>,
        >("[NetworkError] decoded WebSocket payload exceeds 1048576 bytes"@),
{
}

/// A binary payload that is no compressed text and that is UTF-8 reads as the text message with the
/// same payload does.
pub proof fn law_plain_binary_reads_as_text(payload: Seq<u8>)
    requires
        expansion_verdict(gzip_expansion(payload, EXPANSION_LIMIT)) is None,
        expansion_verdict(deflate_expansion(payload, EXPANSION_LIMIT)) is None,
        valid_utf8(payload),
    ensures
        decoding(payload, true) == decoding(payload, false),
{
}

/// An empty expansion is no text frame: it settles nothing.
pub proof fn law_empty_expansion_settles_nothing()
    ensures
        expansion_verdict(Some(Seq::empty())) is None,
        expansion_verdict(None) is None,
{
}

/// No payload beyond the limit is decoded, whatever it holds.
pub proof fn law_oversized_payload_is_refused(payload: Seq<u8>, is_binary: bool)
    requires
        payload.len() > MAX_PAYLOAD_BYTES,
    ensures
        decoding(payload, is_binary) == Err::<Tree, Seq<char>>(
            "[NetworkError] WebSocket payload exceeds 262144 bytes"@,
        ),
{
}

} // verus!
