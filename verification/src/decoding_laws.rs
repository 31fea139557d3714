//! What payloads decode to, what values are charged and what queues hold, as a caller sees it: each
//! law speaks of what calls are given and what they give back.

use vstd::layout::size_of;
use vstd::prelude::*;
use vstd::utf8::{decode_utf8, valid_utf8};

use crate::bounds::{allotted, allotted_entries, allotted_items, array_bytes, bytes_have_room};
use crate::bounds::bytes_to_value;
use crate::bounds::{charged, decode, decoding, deflate_expansion, dict_bytes};
use crate::bounds::{dict_has_room, estimate_value_bytes, footprint_bytes};
use crate::bounds::{gzip_expansion, is_entry, items_have_room, measure, measured};
use crate::bounds::{parse_binary_bytes, parse_compressed, read_compressed, settle_expansion};
use crate::bounds::{string_bytes, string_has_room, text_has_room, utf8_complaint, weighed};
use crate::bounds::{Compressed, Footprint, ParsedQueue};
use crate::ledger::total_charge;
use crate::outgoing::{Message, OutgoingQueue, Refusal};
use crate::traffic_laws::reading;
use crate::value::{Dict, Tree, Value};

verus! {

/// Whether a payload is the text that `bytes` are, read as a message.
pub open spec fn reads_as(answer: Result<Value, String>, bytes: Seq<u8>) -> bool {
    answer is Ok && answer->Ok_0@ == reading(decode_utf8(bytes))
}

/// Whether an answer is a refusal with this text.
pub open spec fn refuses(answer: Result<Value, String>, text: Seq<char>) -> bool {
    answer is Err && answer->Err_0@ == text
}

/// Whether an expansion settles what its payload is: it is text, or more than may come.
pub open spec fn settles(expansion: Option<Seq<u8>>) -> bool {
    expansion is Some && (expansion->0.len() > 1048576 || (expansion->0.len() > 0 && valid_utf8(
        expansion->0,
    )))
}

/// Whether an expansion that settles it is what was answered.
pub open spec fn is_expansion(answer: Result<Value, String>, expansion: Seq<u8>) -> bool {
    if expansion.len() > 1048576 {
        refuses(answer, "[NetworkError] decoded WebSocket payload exceeds 1048576 bytes"@)
    } else {
        reads_as(answer, expansion)
    }
}

/// A payload beyond 262144 bytes is refused. A text payload reads as its text, and is refused where
/// it is none. A binary payload reads as the text that it expands to, as gzip, else as raw deflate,
/// and is refused where that is more than 1048576 bytes; one that expands to no text reads as its own
/// text, or as its bytes where it is none.
pub proof fn law_payload_decodes_to_its_text(
    payload: &[u8],
    is_binary: bool,
    answer: Result<Value, String>,
)
    requires
        call_ensures(decode, (payload, is_binary), answer),
    ensures
        ({
            let bytes = payload@;
            let gzip = gzip_expansion(bytes, 1048577);
            let deflate = deflate_expansion(bytes, 1048577);
            &&& bytes.len() > 262144 ==> refuses(
                answer,
                "[NetworkError] WebSocket payload exceeds 262144 bytes"@,
            )
            &&& bytes.len() <= 262144 && !is_binary && valid_utf8(bytes) ==> reads_as(answer, bytes)
            &&& bytes.len() <= 262144 && !is_binary && !valid_utf8(bytes) ==> refuses(
                answer,
                "[NetworkError] WebSocket text is not valid UTF-8: "@ + utf8_complaint(bytes),
            )
            &&& bytes.len() <= 262144 && is_binary && settles(gzip) ==> is_expansion(
                answer,
                gzip->0,
            )
            &&& bytes.len() <= 262144 && is_binary && !settles(gzip) && settles(deflate)
                ==> is_expansion(answer, deflate->0)
            &&& bytes.len() <= 262144 && is_binary && !settles(gzip) && !settles(deflate)
                && valid_utf8(bytes) ==> reads_as(answer, bytes)
            &&& bytes.len() <= 262144 && is_binary && !settles(gzip) && !settles(deflate)
                && !valid_utf8(bytes) ==> answer is Ok && answer->Ok_0@ is Arr
                && answer->Ok_0@->Arr_0.len() == bytes.len() && forall|i: int|
                0 <= i < bytes.len() ==> #[trigger] answer->Ok_0@->Arr_0[i] == Tree::Int(
                    bytes[i] as i64,
                )
            &&& (answer is Ok) == (decoding(bytes, is_binary) is Ok)
            &&& answer is Ok ==> answer->Ok_0@ == decoding(bytes, is_binary)->Ok_0
            &&& answer is Err ==> answer->Err_0@ == decoding(bytes, is_binary)->Err_0
        }),
{
}

/// The parts of decoding: bytes read as their text or else as their numbers; an expansion reads as
/// its text where it is text that is not empty; what was read of a compressed payload is too much
/// beyond 1048576 bytes, whole where no error came, and else no such stream.
pub proof fn law_parts_of_decoding(
    bytes: &[u8],
    plain: Value,
    numbers: Value,
    expanded: Option<Value>,
    decoded: Vec<u8>,
    complete: bool,
    read: Compressed,
    verdict: Option<Result<Value, String>>,
)
    requires
        call_ensures(parse_binary_bytes, (bytes,), plain),
        call_ensures(bytes_to_value, (bytes,), numbers),
        call_ensures(parse_compressed, (bytes,), expanded),
        call_ensures(read_compressed, (decoded, complete), read),
        call_ensures(settle_expansion, (read,), verdict),
    ensures
        numbers@ is Arr && numbers@->Arr_0.len() == bytes@.len(),
        forall|i: int|
            0 <= i < bytes@.len() ==> #[trigger] numbers@->Arr_0[i] == Tree::Int(bytes@[i] as i64),
        valid_utf8(bytes@) ==> plain@ == reading(decode_utf8(bytes@)),
        !valid_utf8(bytes@) ==> plain@ is Arr && plain@->Arr_0.len() == bytes@.len() && forall|
            i: int,
        |
            0 <= i < bytes@.len() ==> #[trigger] plain@->Arr_0[i] == Tree::Int(bytes@[i] as i64),
        (expanded is Some) == (bytes@.len() > 0 && valid_utf8(bytes@)),
        expanded is Some ==> expanded->0@ == reading(decode_utf8(bytes@)),
        (verdict is Some) == (decoded@.len() > 1048576 || (complete && decoded@.len() > 0
            && valid_utf8(decoded@))),
        verdict is Some ==> is_expansion(verdict->0, decoded@),
        read is Overflow == (decoded@.len() > 1048576),
        read is Decoded == (decoded@.len() <= 1048576 && complete),
        read is Decoded ==> read->Decoded_0@ == decoded@,
{
}

/// The bytes of a footprint go up by exactly one byte for each byte of room of a string or a key, by
/// exactly the size of a value for each item that an array has room for, by exactly a key, a value
/// and a word for each entry that a dictionary has room for, and by exactly its own bytes for each
/// value that is held. Without room, and without anything held, a value is charged its own size, an
/// array its header beside it, and a dictionary its header.
pub proof fn law_footprint_is_charged_slot_by_slot(
    room: nat,
    items: Seq<Footprint>,
    entries: Seq<(nat, Footprint)>,
    part: Footprint,
    key: nat,
)
    ensures
        footprint_bytes(Footprint::Leaf) == size_of::<Value>(),
        footprint_bytes(Footprint::Str(0)) == size_of::<Value>(),
        footprint_bytes(Footprint::Str(room + 1)) == footprint_bytes(Footprint::Str(room)) + 1,
        footprint_bytes(Footprint::Arr(0, Seq::empty())) == size_of::<Value>() + size_of::<
            Vec<Value>,
        >() + 2 * size_of::<usize>(),
        footprint_bytes(Footprint::Arr(room + 1, items)) == footprint_bytes(
            Footprint::Arr(room, items),
        ) + size_of::<Value>(),
        footprint_bytes(Footprint::Arr(room, items.push(part))) == footprint_bytes(
            Footprint::Arr(room, items),
        ) + footprint_bytes(part),
        footprint_bytes(Footprint::Dict(0, Seq::empty())) == size_of::<Value>() + size_of::<Dict>()
            + 2 * size_of::<usize>(),
        footprint_bytes(Footprint::Dict(room + 1, entries)) == footprint_bytes(
            Footprint::Dict(room, entries),
        ) + size_of::<String>() + size_of::<Value>() + size_of::<usize>(),
        footprint_bytes(Footprint::Dict(room, entries.push((key, part)))) == footprint_bytes(
            Footprint::Dict(room, entries),
        ) + key + footprint_bytes(part),
{
    assert(items.push(part).drop_last() =~= items);
    assert(entries.push((key, part)).drop_last() =~= entries);
    let size = size_of::<Value>();
    let slot = size_of::<String>() + size_of::<Value>() + size_of::<usize>();
    assert((room + 1) * size == room * size + size) by (nonlinear_arith);
    assert((room + 1) * slot == room * slot + slot) by (nonlinear_arith);
    assert(0 * size == 0 && 0 * slot == 0) by (nonlinear_arith);
}

/// The footprint of a value is its own: the room of a string, of an array, of a dictionary and of
/// each key is what that very allocation reports, and every value that is held has its own footprint
/// in its place. A charge is the bytes of such a footprint, no more and no less, as far as they can
/// be counted.
pub proof fn law_footprint_is_the_values_own(
    footprint: Footprint,
    value: Value,
    bytes: nat,
    tree: Tree,
    text: Seq<char>,
    room: nat,
)
    ensures
        allotted(footprint, value) ==> match value {
            Value::Str(held) => footprint is Str && string_has_room(held, footprint->Str_0),
            Value::Arr(items) => footprint is Arr && items_have_room(*items, footprint->Arr_0)
                && footprint->Arr_1.len() == items@.len() && forall|i: int|
                0 <= i < items@.len() ==> allotted(#[trigger] footprint->Arr_1[i], items@[i]),
            Value::Dict(dict) => footprint is Dict && dict_has_room(*dict, footprint->Dict_0)
                && footprint->Dict_1.len() == dict@.len() && forall|i: int|
                0 <= i < dict@.len() ==> is_entry_footprint(
                    *dict,
                    i,
                    #[trigger] footprint->Dict_1[i],
                ),
            _ => footprint is Leaf,
        },
        charged(value, bytes) ==> exists|own: Footprint| #[trigger]
            allotted(own, value) && (footprint_bytes(own) <= usize::MAX ==> bytes
                == footprint_bytes(own)) && (footprint_bytes(own) > usize::MAX ==> bytes
                == usize::MAX),
        weighed(tree, bytes) ==> exists|held: Value| held@ == tree && #[trigger] charged(
            held,
            bytes,
        ),
        text_has_room(text, room) ==> exists|held: String| held@ == text && #[trigger]
            string_has_room(held, room),
{
    if allotted(footprint, value) {
        if let Value::Arr(items) = value {
            lemma_allotted_items(footprint->Arr_1, items@);
        }
        if let Value::Dict(dict) = value {
            lemma_allotted_entries(footprint->Dict_1, &*dict);
        }
    }
    if charged(value, bytes) {
        let own = choose|own: Footprint| #[trigger]
            allotted(own, value) && measured(value@, own, bytes);
        assert(allotted(own, value));
    }
}

/// Whether a pair is the room of the key and the footprint of the value that a dictionary holds at a
/// position.
pub open spec fn is_entry_footprint(dict: Dict, i: int, part: (nat, Footprint)) -> bool {
    exists|key: String, item: Value| #[trigger]
        is_entry(dict, i, key, item) && string_has_room(key, part.0) && allotted(part.1, item)
}

proof fn lemma_allotted_items(parts: Seq<Footprint>, items: Seq<Value>)
    requires
        allotted_items(parts, items),
    ensures
        parts.len() == items.len(),
        forall|i: int| 0 <= i < items.len() ==> allotted(#[trigger] parts[i], items[i]),
    decreases parts.len(),
{
    if parts.len() > 0 {
        let fewer = parts.drop_last();
        lemma_allotted_items(fewer, items.drop_last());
        assert forall|i: int| 0 <= i < items.len() implies allotted(#[trigger] parts[i], items[i]) by {
            if i < fewer.len() {
                assert(allotted(fewer[i], items.drop_last()[i]));
            }
        }
    }
}

proof fn lemma_allotted_entries(parts: Seq<(nat, Footprint)>, dict: &Dict)
    requires
        allotted_entries(parts, *dict),
    ensures
        forall|i: int|
            0 <= i < parts.len() ==> is_entry_footprint(*dict, i, #[trigger] parts[i]),
    decreases parts.len(),
{
    if parts.len() > 0 {
        let fewer = parts.drop_last();
        lemma_allotted_entries(fewer, dict);
        assert forall|i: int| 0 <= i < parts.len() implies is_entry_footprint(
            *dict,
            i,
            #[trigger] parts[i],
        ) by {
            if i < fewer.len() {
                assert(fewer[i] == parts[i]);
            }
        }
    }
}

/// The estimate of a value is the charge of its own footprint, at least the size of a value. The
/// parts of it are computed without wrapping: what cannot be counted is the greatest count.
pub proof fn law_estimate_is_the_charge(
    value: Value,
    bytes: usize,
    measure_bytes: usize,
    footprint: Ghost<Footprint>,
    room: usize,
    held: usize,
    of_string: usize,
    of_array: usize,
    of_dict: usize,
)
    requires
        call_ensures(estimate_value_bytes, (&value,), bytes),
        call_ensures(measure, (&value,), (measure_bytes, footprint)),
        call_ensures(string_bytes, (room,), of_string),
        call_ensures(array_bytes, (room, held), of_array),
        call_ensures(dict_bytes, (room, held), of_dict),
    ensures
        charged(value, bytes as nat),
        bytes > 0 && bytes >= size_of::<Value>(),
        allotted(footprint@, value),
        footprint_bytes(footprint@) <= usize::MAX ==> measure_bytes == footprint_bytes(footprint@),
        footprint_bytes(footprint@) > usize::MAX ==> measure_bytes == usize::MAX,
        of_string == saturated((size_of::<Value>() + room) as nat),
        of_array == saturated(
            (size_of::<Value>() + size_of::<Vec<Value>>() + 2 * size_of::<usize>() + room
                * size_of::<Value>() + held) as nat,
        ),
        of_dict == saturated(
            (size_of::<Value>() + size_of::<Dict>() + 2 * size_of::<usize>() + room * (size_of::<
                String,
            >() + size_of::<Value>() + size_of::<usize>()) + held) as nat,
        ),
{
}

/// A count, or the greatest where it is beyond.
pub open spec fn saturated(count: nat) -> nat {
    if count <= usize::MAX {
        count
    } else {
        usize::MAX as nat
    }
}

/// A queue takes a value last, at its charge, while it holds fewer than 256 and the charges stay
/// within 4194304 bytes; else it stays as it is and says why not. It gives the first value out, and
/// can be emptied. What it holds and what that is charged is read as it is.
pub proof fn law_queue_takes_what_fits(
    fresh: ParsedQueue,
    pushed: &mut ParsedQueue,
    value: Value,
    charge: usize,
    answer: Result<(), String>,
    popped: &mut ParsedQueue,
    first: Option<Value>,
    cleared: &mut ParsedQueue,
    asked: ParsedQueue,
    empty: bool,
    len: usize,
    bytes: usize,
)
    requires
        call_ensures(ParsedQueue::new, (), fresh),
        call_ensures(ParsedQueue::push_charged, (pushed, value, charge), answer),
        call_ensures(ParsedQueue::pop, (popped,), first),
        call_ensures(ParsedQueue::clear, (cleared,), ()),
        call_ensures(ParsedQueue::is_empty, (&asked,), empty),
        call_ensures(ParsedQueue::len, (&asked,), len),
        call_ensures(ParsedQueue::bytes, (&asked,), bytes),
    ensures
        fresh@.len() == 0,
        (answer is Ok) == (old(pushed)@.len() < 256 && total_charge(old(pushed)@) + charge
            <= 4194304),
        answer is Ok ==> final(pushed)@ == old(pushed)@.push((value@, charge as nat)),
        answer is Err ==> final(pushed)@ == old(pushed)@,
        old(pushed)@.len() >= 256 ==> answer->Err_0@
            == "[NetworkError] incoming WebSocket queue capacity exceeded (256)"@,
        old(pushed)@.len() < 256 && answer is Err ==> answer->Err_0@
            == "[NetworkError] incoming WebSocket queue byte limit exceeded (4194304 bytes)"@,
        (first is Some) == (old(popped)@.len() > 0),
        first is Some ==> first->0@ == old(popped)@[0].0 && final(popped)@
            == old(popped)@.drop_first(),
        first is None ==> final(popped)@ == old(popped)@,
        final(cleared)@.len() == 0,
        empty == (asked@.len() == 0) && len == asked@.len() && bytes == total_charge(asked@),
        len <= 256 && bytes <= 4194304,
{
}

/// A value that is pushed is charged what its own allocations report, and is taken where that fits.
pub proof fn law_pushed_value_is_charged_exactly(
    queue: &mut ParsedQueue,
    value: Value,
    answer: Result<(), String>,
)
    requires
        call_ensures(ParsedQueue::push, (queue, value), answer),
    ensures
        exists|charge: nat| #[trigger]
            charged(value, charge) && charge > 0 && (answer is Ok) == (old(queue)@.len() < 256
                && total_charge(old(queue)@) + charge <= 4194304) && (answer is Ok
                    ==> final(queue)@ == old(queue)@.push((value@, charge))),
        answer is Err ==> final(queue)@ == old(queue)@,
{
    let before = old(queue)@;
    let after = final(queue)@;
    let charge = choose|charge: nat| #[trigger]
        crate::bounds::chargeable(value@, charge) && charged(value, charge) && charge > 0
            && crate::bounds::pushed(before, value@, charge, after, answer);
    assert(charged(value, charge));
}

/// The queue for the writer takes a frame last, at what it retains and one byte at least, while
/// fewer than 64 wait and the charges, the frame being written included, stay within 1048576 bytes.
/// It gives the first frame out and charges it until the next one is given out or it is let go of.
pub proof fn law_outgoing_queue_takes_what_fits(
    fresh: OutgoingQueue,
    pushed: &mut OutgoingQueue,
    message: Message,
    retained: usize,
    refused: Option<Refusal>,
    given: &mut OutgoingQueue,
    first: Option<Message>,
    cleared: &mut OutgoingQueue,
    released: &mut OutgoingQueue,
    asked: OutgoingQueue,
    available: usize,
    len: usize,
)
    requires
        call_ensures(OutgoingQueue::new, (), fresh),
        call_ensures(OutgoingQueue::push, (pushed, message, retained), refused),
        call_ensures(OutgoingQueue::next, (given,), first),
        call_ensures(OutgoingQueue::clear, (cleared,), ()),
        call_ensures(OutgoingQueue::release, (released,), ()),
        call_ensures(OutgoingQueue::available, (&asked,), available),
        call_ensures(OutgoingQueue::len, (&asked,), len),
    ensures
        fresh@.waiting.len() == 0 && fresh@.in_flight == 0,
        ({
            let charge: nat = if retained == 0 {
                1
            } else {
                retained as nat
            };
            let before = old(pushed)@;
            let after = final(pushed)@;
            let over = charge + total_charge(before.waiting) + before.in_flight > 1048576;
            &&& over ==> refused == Some(Refusal::Budget)
            &&& !over && before.waiting.len() >= 64 ==> refused == Some(Refusal::Full)
            &&& !over && before.waiting.len() < 64 ==> refused is None
            &&& refused is Some ==> after == before
            &&& refused is None ==> after.waiting == before.waiting.push((message@, charge))
                && after.in_flight == before.in_flight
        }),
        (first is Some) == (old(given)@.waiting.len() > 0),
        first is Some ==> first->0@ == old(given)@.waiting[0].0 && final(given)@.waiting
            == old(given)@.waiting.drop_first() && final(given)@.in_flight
            == old(given)@.waiting[0].1,
        first is None ==> final(given)@.waiting.len() == 0 && final(given)@.in_flight == 0,
        final(cleared)@.waiting.len() == 0 && final(cleared)@.in_flight == old(cleared)@.in_flight,
        final(released)@.in_flight == 0 && final(released)@.waiting == old(released)@.waiting,
        available == 1048576 - total_charge(asked@.waiting) - asked@.in_flight,
        len == asked@.waiting.len(),
{
}

/// A frame retains the room of the text or the bytes that it holds.
pub proof fn law_frame_retains_its_own_room(message: Message, bytes: usize)
    requires
        call_ensures(Message::retained, (&message,), bytes),
    ensures
        match message {
            Message::Text(text) => string_has_room(text, bytes as nat),
            Message::Binary(held) => bytes_have_room(held, bytes as nat),
            Message::Ping(held) => bytes_have_room(held, bytes as nat),
            Message::Pong(held) => bytes_have_room(held, bytes as nat),
        },
{
}

} // verus!
