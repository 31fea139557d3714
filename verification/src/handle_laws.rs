//! What is done through handles and by URL, as a caller sees it: each law speaks of what calls are
//! given and what they give back, and of what the same call does to the client itself.

use vstd::prelude::*;

use crate::bridge::{begin_flight, client_field_live, client_value, flight_handle, flight_hash_of};
use crate::bridge::{future_hash_of, hash_str, law_flight_handle_is_read_back, shows};
use crate::bridge::{law_reference_reaches_its_client, subscription_target_of, url_of};
use crate::bridge::{value_on_pong, value_open_flight, value_reject, value_reset, value_resolve};
use crate::bridge::{value_send, value_sub_field_write, value_subs_insert, value_subs_remove};
use crate::bridge::write_sub_field;
use crate::client::ClientState;
use crate::client_view::ClientView;
use crate::clock::is_reading;
use crate::flight::{complaint_of, hand_on, ws_await_flight, FlightStart, FlightStep};
use crate::flight::PendingFlight;
use crate::json::{json_document, json_form, json_rendering};
use crate::mock::{mock_has_pending_futures, mock_has_queued_messages, mock_inject};
use crate::mock::{mock_is_completed, mock_mark_completed, mock_reject_futures};
use crate::mock::{mock_sent_messages, mock_setup};
use crate::reference::reference_text;
use crate::registry_laws::is_answered;
use crate::traffic_laws::{arrives, ends, goes_out, is_captured, reading};
use crate::transport::{Transport, TransportView};
use crate::value::{entry_map, lookup, Tree, Value};

verus! {

/// Whether a client is the registered and open one that a reference is to, and belongs to the one
/// who asks.
pub open spec fn is_reached(
    transport: TransportView,
    active: u64,
    reference: Seq<char>,
    generation: u64,
) -> bool {
    let client = transport.clients[generation];
    &&& transport.clients.dom().contains(generation)
    &&& transport.registry.dom().contains(client.url)
    &&& transport.registry[client.url] == generation
    &&& !client.closed
    &&& client.scope_id == active
    &&& reference == reference_text(generation, client.scope_id, client.url)
}

/// A reference reaches a client exactly where that is the registered and open one that it is to, and
/// belongs to the one who asks.
pub proof fn law_reference_reaches_exactly_its_client(
    transport: TransportView,
    active: u64,
    reference: Seq<char>,
    generation: u64,
)
    requires
        transport.wf(),
    ensures
        (transport.routed(active, reference) == Some(generation)) == is_reached(
            transport,
            active,
            reference,
            generation,
        ),
{
    if is_reached(transport, active, reference, generation) {
        law_reference_reaches_its_client(transport, active, generation);
    }
    if transport.routed(active, reference) == Some(generation) {
        let url = crate::reference::url_of_reference(reference)->0;
        assert(transport.registration_wf(url));
    }
}

/// Whether only one client changed.
pub open spec fn changes_one(before: TransportView, after: TransportView, generation: u64) -> bool {
    &&& after.clients.dom() == before.clients.dom()
    &&& after.clients.remove(generation) == before.clients.remove(generation)
    &&& after == (TransportView { clients: after.clients, ..before })
}

proof fn lemma_changes_one(before: TransportView, generation: u64, client: ClientView)
    requires
        before.clients.dom().contains(generation),
    ensures
        changes_one(before, before.with_client(generation, client), generation),
{
    let after = before.with_client(generation, client);
    assert(after.clients.dom() =~= before.clients.dom());
    assert(after.clients.remove(generation) =~= before.clients.remove(generation));
}

/// The text that a handle has under a key, where it has one.
pub open spec fn text_under(handle: Tree, key: Seq<char>) -> Option<Seq<char>> {
    match handle {
        Tree::Dict(entries) => match lookup(entries, key) {
            Some(Tree::Str(text)) => Some(text),
            _ => None,
        },
        _ => None,
    }
}

/// What is read of a handle is what it has under the key of that name: its URL, the hash of its
/// future, and that of its flight, for which the hash of a future stands in.
pub proof fn law_handle_is_read_as_it_is(
    handle: Value,
    url: Option<String>,
    future: Option<String>,
    flight: Option<String>,
    text: Option<String>,
)
    requires
        call_ensures(url_of, (&handle,), url),
        call_ensures(future_hash_of, (&handle,), future),
        call_ensures(flight_hash_of, (&handle,), flight),
        call_ensures(hash_str, (&handle,), text),
    ensures
        (url is Some) == (text_under(handle@, "url"@) is Some),
        url is Some ==> Some(url->0@) == text_under(handle@, "url"@),
        (future is Some) == (text_under(handle@, "__ws_future_hash"@) is Some),
        future is Some ==> Some(future->0@) == text_under(handle@, "__ws_future_hash"@),
        text_under(handle@, "__ws_flight_hash"@) is Some ==> flight is Some && Some(flight->0@)
            == text_under(handle@, "__ws_flight_hash"@),
        text_under(handle@, "__ws_flight_hash"@) is None ==> (flight is Some) == (text_under(
            handle@,
            "__ws_future_hash"@,
        ) is Some),
        text_under(handle@, "__ws_flight_hash"@) is None && flight is Some ==> Some(flight->0@)
            == text_under(handle@, "__ws_future_hash"@),
        (text is Some) == (handle@ is Str),
        text is Some ==> handle@ == Tree::Str(text->0@),
{
}

/// Whether a handle names a client by a reference that reaches it.
pub open spec fn names(
    transport: TransportView,
    active: u64,
    handle: Tree,
    generation: u64,
) -> bool {
    text_under(handle, "__ws_client_ref"@) is Some && is_reached(
        transport,
        active,
        text_under(handle, "__ws_client_ref"@)->0,
        generation,
    )
}

proof fn lemma_names(transport: TransportView, active: u64, handle: Tree)
    requires
        transport.wf(),
    ensures
        forall|generation: u64|
            (transport.handled_by(active, handle) == Some(generation)) == #[trigger] names(
                transport,
                active,
                handle,
                generation,
            ),
        match transport.handled_by(active, handle) {
            Some(generation) => names(transport, active, handle, generation),
            None => forall|generation: u64| !#[trigger] names(
                transport,
                active,
                handle,
                generation,
            ),
        },
{
    assert forall|generation: u64|
        (transport.handled_by(active, handle) == Some(generation)) == #[trigger] names(
            transport,
            active,
            handle,
            generation,
        ) by {
        if text_under(handle, "__ws_client_ref"@) is Some {
            law_reference_reaches_exactly_its_client(
                transport,
                active,
                text_under(handle, "__ws_client_ref"@)->0,
                generation,
            );
        }
    }
    if let Some(generation) = transport.handled_by(active, handle) {
        assert(names(transport, active, handle, generation));
    }
}

/// The value that a call is given at a position, null where it is given none.
pub open spec fn given(args: Seq<Value>, i: int) -> Tree {
    if 0 <= i < args.len() {
        args[i]@
    } else {
        Tree::Null
    }
}

/// The hash that a settlement through a handle is for: the future's own, else the second argument
/// where that is a text.
pub open spec fn meant_hash(handle: Tree, args: Seq<Value>) -> Option<Seq<char>> {
    if text_under(handle, "__ws_future_hash"@) is Some {
        text_under(handle, "__ws_future_hash"@)
    } else if given(args, 1) is Str {
        Some(given(args, 1)->Str_0)
    } else {
        None
    }
}

/// Resolving through a handle resolves at the client that it names, and nowhere else, as that client
/// resolves. The value is given back. Where the handle names none, or no hash is meant, nothing
/// happens.
pub proof fn law_resolving_through_a_handle(
    transport: &mut Transport,
    active: u64,
    handle: Value,
    args: &[Value],
    result: Value,
    generation: u64,
    state: &mut ClientState,
    hash: &str,
    value: Value,
)
    requires
        old(transport)@.wf(),
        call_ensures(value_resolve, (transport, active, &handle, args), result),
        call_ensures(ClientState::resolve, (state, hash, value), ()),
        value@ == given(args@, 0),
        meant_hash(handle@, args@) is Some ==> hash@ == meant_hash(handle@, args@)->0,
    ensures
        result@ == given(args@, 0),
        names(old(transport)@, active, handle@, generation) && meant_hash(handle@, args@) is Some
            && old(state)@ == old(transport)@.clients[generation]
                ==> final(transport)@.clients[generation] == final(state)@ && changes_one(
            old(transport)@,
            final(transport)@,
            generation,
        ),
        (forall|other: u64| !#[trigger] names(old(transport)@, active, handle@, other))
            || meant_hash(handle@, args@) is None ==> final(transport)@ == old(transport)@,
{
    let before = old(transport)@;
    lemma_names(before, active, handle@);
    if names(before, active, handle@, generation) {
        lemma_changes_one(before, generation, final(state)@);
    }
    if let Some(reached) = before.handled_by(active, handle@) {
        assert(names(before, active, handle@, reached));
    }
}

/// Rejecting through a handle rejects at the client that it names, and nowhere else, as that client
/// rejects: the hash that is meant, or every hash that is waited on where none is. The error is given
/// back. Where the handle names no client, nothing happens.
pub proof fn law_rejecting_through_a_handle(
    transport: &mut Transport,
    active: u64,
    handle: Value,
    args: &[Value],
    result: Value,
    generation: u64,
    one: &mut ClientState,
    hash: &str,
    every: &mut ClientState,
    error: Value,
)
    requires
        old(transport)@.wf(),
        call_ensures(value_reject, (transport, active, &handle, args), result),
        call_ensures(ClientState::reject, (one, hash, error), ()),
        call_ensures(ClientState::reject_pending_futures, (every, error), ()),
        error@ == given(args@, 0),
        meant_hash(handle@, args@) is Some ==> hash@ == meant_hash(handle@, args@)->0,
    ensures
        result@ == given(args@, 0),
        names(old(transport)@, active, handle@, generation) ==> changes_one(
            old(transport)@,
            final(transport)@,
            generation,
        ),
        names(old(transport)@, active, handle@, generation) && meant_hash(handle@, args@) is Some
            && old(one)@ == old(transport)@.clients[generation]
                ==> final(transport)@.clients[generation] == final(one)@,
        names(old(transport)@, active, handle@, generation) && meant_hash(handle@, args@) is None
            && old(every)@ == old(transport)@.clients[generation]
                ==> final(transport)@.clients[generation] == final(every)@,
        (forall|other: u64| !#[trigger] names(old(transport)@, active, handle@, other))
            ==> final(transport)@ == old(transport)@,
{
    let before = old(transport)@;
    lemma_names(before, active, handle@);
    if names(before, active, handle@, generation) {
        lemma_changes_one(before, generation, final(transport)@.clients[generation]);
    }
    if let Some(reached) = before.handled_by(active, handle@) {
        assert(names(before, active, handle@, reached));
    }
}

/// The text that a value is sent as: a text as it is, anything else as JSON, nothing as nothing.
pub open spec fn text_to_send(args: Seq<Value>) -> Seq<char> {
    if args.len() == 0 {
        Seq::empty()
    } else if args[0]@ is Str {
        args[0]@->Str_0
    } else {
        json_rendering(json_form(args[0]@))
    }
}

/// Whether a text was sent by a client, or captured by a mock, as the state of the client asks.
pub open spec fn text_goes_out(before: ClientView, after: ClientView, text: Seq<char>) -> bool {
    let len = vstd::utf8::encode_utf8(text).len();
    if before.closed {
        after == before
    } else if len > 262144 {
        ends(
            before,
            after,
            crate::lifecycle::FailureSource::Internal,
            "[NetworkError] outgoing payload exceeds limit"@,
        )
    } else if before.mock {
        exists|charge: nat, sent: bool|
            crate::bounds::weighed(reading(text), charge) && #[trigger] is_captured(
                before,
                after,
                reading(text),
                charge,
                sent,
            )
    } else {
        exists|room: nat, sent: bool|
            crate::bounds::text_has_room(text, room) && #[trigger] goes_out(
                before,
                after,
                crate::outgoing::Frame::Text(text),
                len,
                room,
                sent,
            )
    }
}

/// Sending through a handle sends the text of the first argument at the client that it names, and
/// nowhere else. Where the handle names none, nothing happens.
pub proof fn law_sending_through_a_handle(
    transport: &mut Transport,
    active: u64,
    handle: Value,
    args: &[Value],
    result: Value,
    generation: u64,
)
    requires
        old(transport)@.wf(),
        call_ensures(value_send, (transport, active, &handle, args), result),
    ensures
        result@ is Null,
        names(old(transport)@, active, handle@, generation) ==> changes_one(
            old(transport)@,
            final(transport)@,
            generation,
        ) && text_goes_out(
            old(transport)@.clients[generation],
            final(transport)@.clients[generation],
            text_to_send(args@),
        ),
        (forall|other: u64| !#[trigger] names(old(transport)@, active, handle@, other))
            ==> final(transport)@ == old(transport)@,
{
    let before = old(transport)@;
    let after = final(transport)@;
    lemma_names(before, active, handle@);
    assert(crate::bridge::sent_text(args@) =~= text_to_send(args@));
    if names(before, active, handle@, generation) {
        let text = text_to_send(args@);
        let state = before.clients[generation];
        let charge = choose|charge: nat| #[trigger]
            state.text_charge(text, charge) && after == before.with_client(
                generation,
                state.send_text(text, charge),
            );
        lemma_changes_one(before, generation, state.send_text(text, charge));
        let now = after.clients[generation];
        let sent = state.sends_text(text, charge);
        if state.mock {
            assert(crate::json::text_tree(json_document(text), text) == reading(text));
            if !state.closed && vstd::utf8::encode_utf8(text).len() <= 262144 {
                assert(is_captured(state, now, reading(text), charge, sent));
            }
        } else if !state.closed && vstd::utf8::encode_utf8(text).len() <= 262144 {
            assert(goes_out(
                state,
                now,
                crate::outgoing::Frame::Text(text),
                vstd::utf8::encode_utf8(text).len(),
                charge,
                sent,
            ));
        }
    }
    if let Some(reached) = before.handled_by(active, handle@) {
        assert(names(before, active, handle@, reached));
    }
}

/// Resetting and noting a pong through a handle do so at the client that it names, and nowhere else.
/// Where the handle names none, nothing happens.
pub proof fn law_reset_and_pong_through_a_handle(
    reset: &mut Transport,
    ponged: &mut Transport,
    active: u64,
    handle: Value,
    nothing: Value,
    null: Value,
    generation: u64,
    state: &mut ClientState,
)
    requires
        old(reset)@.wf(),
        call_ensures(value_reset, (reset, active, &handle), nothing),
        old(ponged)@.wf(),
        call_ensures(value_on_pong, (ponged, active, &handle), null),
        call_ensures(ClientState::reset, (state,), ()),
    ensures
        nothing@ is Null && null@ is Null,
        names(old(reset)@, active, handle@, generation) && old(state)@
            == old(reset)@.clients[generation] ==> final(reset)@.clients[generation]
            == final(state)@
            && changes_one(old(reset)@, final(reset)@, generation),
        (forall|other: u64| !#[trigger] names(old(reset)@, active, handle@, other))
            ==> final(reset)@ == old(reset)@,
        names(old(ponged)@, active, handle@, generation) ==> changes_one(
            old(ponged)@,
            final(ponged)@,
            generation,
        ) && is_reading(final(ponged)@.clients[generation].last_pong_ms)
            && final(ponged)@.clients[generation] == (ClientView {
            last_pong_ms: final(ponged)@.clients[generation].last_pong_ms,
            ..old(ponged)@.clients[generation]
        }),
        (forall|other: u64| !#[trigger] names(old(ponged)@, active, handle@, other))
            ==> final(ponged)@ == old(ponged)@,
{
    lemma_names(old(reset)@, active, handle@);
    lemma_names(old(ponged)@, active, handle@);
    if names(old(reset)@, active, handle@, generation) {
        lemma_changes_one(old(reset)@, generation, final(reset)@.clients[generation]);
    }
    if names(old(ponged)@, active, handle@, generation) {
        lemma_changes_one(old(ponged)@, generation, final(ponged)@.clients[generation]);
    }
    if let Some(reached) = old(reset)@.handled_by(active, handle@) {
        assert(names(old(reset)@, active, handle@, reached));
    }
    if let Some(reached) = old(ponged)@.handled_by(active, handle@) {
        assert(names(old(ponged)@, active, handle@, reached));
    }
}

/// Setting and removing a subscription by a reference do so at the client that it reaches, and
/// nowhere else. Where it reaches none, nothing happens.
pub proof fn law_subscriptions_by_reference(
    inserted: &mut Transport,
    removed: &mut Transport,
    active: u64,
    reference: &str,
    key: &str,
    value: Value,
    generation: u64,
    set: &mut ClientState,
    unset: &mut ClientState,
)
    requires
        old(inserted)@.wf(),
        call_ensures(value_subs_insert, (inserted, active, reference, key, value), ()),
        old(removed)@.wf(),
        call_ensures(value_subs_remove, (removed, active, reference, key), ()),
        call_ensures(ClientState::set_subscription, (set, key, value), ()),
        call_ensures(ClientState::remove_subscription, (unset, key), ()),
    ensures
        is_reached(old(inserted)@, active, reference@, generation) && old(set)@
            == old(inserted)@.clients[generation] ==> final(inserted)@.clients[generation]
            == final(set)@
            && changes_one(old(inserted)@, final(inserted)@, generation),
        (forall|other: u64| !#[trigger] is_reached(old(inserted)@, active, reference@, other))
            ==> final(inserted)@ == old(inserted)@,
        is_reached(old(removed)@, active, reference@, generation) && old(unset)@
            == old(removed)@.clients[generation] ==> final(removed)@.clients[generation]
            == final(unset)@
            && changes_one(old(removed)@, final(removed)@, generation),
        (forall|other: u64| !#[trigger] is_reached(old(removed)@, active, reference@, other))
            ==> final(removed)@ == old(removed)@,
{
    lemma_reached(old(inserted)@, active, reference@, generation);
    lemma_reached(old(removed)@, active, reference@, generation);
    if is_reached(old(inserted)@, active, reference@, generation) {
        lemma_changes_one(old(inserted)@, generation, final(inserted)@.clients[generation]);
    }
    if is_reached(old(removed)@, active, reference@, generation) {
        lemma_changes_one(old(removed)@, generation, final(removed)@.clients[generation]);
    }
}

proof fn lemma_reached(
    transport: TransportView,
    active: u64,
    reference: Seq<char>,
    generation: u64,
)
    requires
        transport.wf(),
    ensures
        is_reached(transport, active, reference, generation) == (transport.routed(active, reference)
            == Some(generation)),
        (forall|other: u64| !#[trigger] is_reached(transport, active, reference, other))
            ==> transport.routed(active, reference) is None,
{
    law_reference_reaches_exactly_its_client(transport, active, reference, generation);
    if let Some(other) = transport.routed(active, reference) {
        law_reference_reaches_exactly_its_client(transport, active, reference, other);
        assert(is_reached(transport, active, reference, other));
    }
}

/// A document refers to a subscription exactly where it is an array of two texts: the reference to
/// the client, and the hash.
pub proof fn law_subscription_is_referred_to_by_two_texts(
    document: Option<Value>,
    target: Option<(String, String)>,
)
    requires
        call_ensures(subscription_target_of, (document,), target),
    ensures
        (target is Some) == (document is Some && document->0@ is Arr && document->0@->Arr_0.len()
            == 2 && document->0@->Arr_0[0] is Str && document->0@->Arr_0[1] is Str),
        target is Some ==> document->0@->Arr_0[0] == Tree::Str((target->0).0@)
            && document->0@->Arr_0[1] == Tree::Str((target->0).1@),
{
}

/// A field is written on the subscription that is referred to, at the client that the reference
/// reaches, and nowhere else, as that client writes it. Where it reaches none, nothing happens.
pub proof fn law_field_is_written_by_reference(
    transport: &mut Transport,
    active: u64,
    reference: String,
    hash: String,
    key: &str,
    value: Value,
    generation: u64,
    state: &mut ClientState,
    subscription: &str,
    nowhere: &mut Transport,
)
    requires
        old(transport)@.wf(),
        call_ensures(
            write_sub_field,
            (transport, active, Some((reference, hash)), key, value),
            (),
        ),
        subscription@ == hash@,
        call_ensures(ClientState::set_subscription_field, (state, subscription, key, value), ()),
        old(nowhere)@.wf(),
        call_ensures(write_sub_field, (nowhere, active, None, key, value), ()),
    ensures
        is_reached(old(transport)@, active, reference@, generation) && old(state)@
            == old(transport)@.clients[generation] ==> final(transport)@.clients[generation]
            == final(state)@
            && changes_one(old(transport)@, final(transport)@, generation),
        (forall|other: u64| !#[trigger] is_reached(old(transport)@, active, reference@, other))
            ==> final(transport)@ == old(transport)@,
        final(nowhere)@ == old(nowhere)@,
{
    lemma_reached(old(transport)@, active, reference@, generation);
    if is_reached(old(transport)@, active, reference@, generation) {
        lemma_changes_one(old(transport)@, generation, final(transport)@.clients[generation]);
    }
}

/// Whether a tree is an array of two texts.
pub open spec fn is_two_texts(tree: Tree) -> bool {
    tree is Arr && tree->Arr_0.len() == 2 && tree->Arr_0[0] is Str && tree->Arr_0[1] is Str
}

/// A field that is written by the text of a reference to a subscription is written as by the
/// reference and the hash that the text reads as; a text that reads as none writes nothing.
pub proof fn law_field_is_written_by_text(
    transport: &mut Transport,
    active: u64,
    text: &str,
    key: &str,
    value: Value,
    same: &mut Transport,
    reference: String,
    hash: String,
)
    requires
        old(transport)@.wf(),
        call_ensures(value_sub_field_write, (transport, active, text, key, value), ()),
        old(same)@ == old(transport)@,
        call_ensures(write_sub_field, (same, active, Some((reference, hash)), key, value), ()),
    ensures
        json_document(text@) == Some(Tree::Arr(seq![Tree::Str(reference@), Tree::Str(hash@)]))
            ==> final(transport)@ == final(same)@,
        !(json_document(text@) is Some && is_two_texts(json_document(text@)->0))
            ==> final(transport)@ == old(transport)@,
{
}

/// The handle of the client of a URL, which is acquired where there is none, says the URL, the
/// reference to the client, and what it shows of its subscriptions and futures. An acquisition that
/// is refused is refused with its text.
pub proof fn law_client_handle_says_what_it_is(
    transport: &mut Transport,
    active: u64,
    url: &str,
    answer: Result<Value, String>,
    acquired: Result<u64, String>,
    other: u64,
    key: Seq<char>,
)
    requires
        old(transport)@.wf(),
        old(transport)@.next_generation < u64::MAX,
        call_ensures(client_value, (transport, active, url), answer),
        crate::transport::acquires(acquired, old(transport)@.acquisition(active, url@)),
    ensures
        (answer is Ok) == (acquired is Ok),
        answer is Err ==> answer->Err_0@ == acquired->Err_0@,
        answer is Ok ==> ({
            let client = final(transport)@.clients[acquired->Ok_0];
            let handle = answer->Ok_0@;
            &&& text_under(handle, "url"@) == Some(client.url)
            &&& text_under(handle, "__ws_client_ref"@) == Some(
                reference_text(client.generation, client.scope_id, client.url),
            )
            &&& handle is Dict
            &&& (lookup(handle->Dict_0, key) is Some) == (key == "url"@ || key
                == "__ws_client_ref"@ || key == "subscriptions"@ || key == "futures"@)
            &&& shows(lookup(handle->Dict_0, "subscriptions"@), client.subscriptions_shown())
            &&& shows(lookup(handle->Dict_0, "futures"@), client.futures_shown())
        }),
        exists|now: i64| #[trigger]
            is_answered(
                old(transport)@,
                final(transport)@,
                active,
                url@,
                now,
                acquired,
                other,
            ),
{
    let before = old(transport)@;
    let after = final(transport)@;
    let now = choose|now: i64|
        is_reading(now) && after == #[trigger] before.acquired(active, url@, now);
    crate::registry_laws::lemma_answered(before, active, url@, now, acquired, other);
    if answer is Ok {
        let entries = answer->Ok_0@->Dict_0;
        assert(entry_map(entries).dom().contains(key) == (lookup(entries, key) is Some));
    }
}

/// What is shown live of a client that a reference reaches is what the client itself shows: its
/// futures, or else its subscriptions. Where it reaches none, nothing is shown.
pub proof fn law_live_field_is_the_clients_own(
    transport: Transport,
    active: u64,
    reference: &str,
    field: &str,
    shown: Value,
    generation: u64,
    state: ClientState,
    futures: Value,
    subscriptions: Value,
)
    requires
        transport@.wf(),
        call_ensures(client_field_live, (&transport, active, reference, field), shown),
        call_ensures(ClientState::futures_value, (&state,), futures),
        call_ensures(ClientState::subscriptions_value, (&state,), subscriptions),
    ensures
        shown@ is Dict,
        is_reached(transport@, active, reference@, generation) && state@
            == transport@.clients[generation] && field@ == "futures"@ ==> entry_map(shown@->Dict_0)
            == entry_map(futures@->Dict_0),
        is_reached(transport@, active, reference@, generation) && state@
            == transport@.clients[generation] && field@ != "futures"@ ==> entry_map(shown@->Dict_0)
            == entry_map(subscriptions@->Dict_0),
        (forall|other: u64| !#[trigger] is_reached(transport@, active, reference@, other))
            ==> shown@->Dict_0.len() == 0,
{
    lemma_reached(transport@, active, reference@, generation);
}

/// The handle of a flight says the URL, the hash and whether its holder leads, and the reference to
/// the open client of the URL, where there is one.
pub proof fn law_flight_handle_says_what_it_is(
    transport: Transport,
    url: &str,
    hash: &str,
    led: bool,
    handle: Value,
)
    requires
        transport@.wf(),
        call_ensures(flight_handle, (&transport, url, hash, led), handle),
    ensures
        text_under(handle@, "url"@) == Some(url@),
        text_under(handle@, "__ws_flight_hash"@) == Some(hash@),
        handle@ is Dict,
        lookup(handle@->Dict_0, "__ws_flight_led"@) == Some(Tree::Bool(led)),
        ({
            let named = transport@.registry[url@];
            let open = transport@.registry.dom().contains(url@)
                && !transport@.clients[named].closed;
            &&& open ==> text_under(handle@, "__ws_client_ref"@) == Some(
                reference_text(
                    named,
                    transport@.clients[named].scope_id,
                    transport@.clients[named].url,
                ),
            )
            &&& !open ==> text_under(handle@, "__ws_client_ref"@) is None
        }),
{
    if transport@.registry.dom().contains(url@) {
        assert(transport@.registration_wf(url@));
    }
    crate::bridge::lemma_handle_keys();
    let reference = match transport@.live(url@) {
        Some(generation) => transport@.clients[generation].reference(),
        None => Seq::empty(),
    };
    law_flight_handle_is_read_back(url@, reference, hash@, led);
}

/// Beginning a flight at a URL acquires the client of the URL, and begins the flight there as that
/// client begins it; the caller leads where the client says so. A refused acquisition is refused with
/// its text, and begins nothing.
pub proof fn law_flight_begins_at_the_urls_client(
    transport: &mut Transport,
    active: u64,
    url: &str,
    hash: &str,
    answer: Result<bool, String>,
    acquired: Result<u64, String>,
    state: &mut ClientState,
    leads: bool,
    other: u64,
)
    requires
        old(transport)@.wf(),
        old(transport)@.next_generation < u64::MAX,
        call_ensures(begin_flight, (transport, active, url, hash), answer),
        crate::transport::acquires(acquired, old(transport)@.acquisition(active, url@)),
        call_ensures(ClientState::flight_begin, (state, hash), leads),
    ensures
        acquired is Err ==> answer is Err && answer->Err_0@ == acquired->Err_0@
            && final(transport)@ == old(transport)@,
        acquired is Ok ==> exists|slot: TransportView, now: i64|
            #[trigger] is_answered(
                old(transport)@,
                slot,
                active,
                url@,
                now,
                acquired,
                other,
            ) && changes_one(slot, final(transport)@, acquired->Ok_0) && (old(state)@
                == slot.clients[acquired->Ok_0] ==> answer == Ok::<bool, String>(leads)
                    && final(transport)@.clients[acquired->Ok_0] == final(state)@),
{
    let before = old(transport)@;
    let after = final(transport)@;
    let now = choose|now: i64|
        is_reading(now) && #[trigger] crate::bridge::flight_begun(
            before,
            active,
            url@,
            hash@,
            now,
            answer,
            after,
        );
    if acquired is Ok {
        let slot = before.acquired(active, url@, now);
        crate::registry_laws::lemma_answered(before, active, url@, now, acquired, other);
        crate::transport_laws::law_acquired_client_is_live(before, active, url@, now, now);
        lemma_changes_one(slot, acquired->Ok_0, after.clients[acquired->Ok_0]);
    }
}

/// Opening a flight through a handle opens it at the client that it names, and nowhere else, as that
/// client begins it, and gives a handle that says so. Where the handle names none, or the hash is no
/// text, nothing happens.
pub proof fn law_flight_opens_through_a_handle(
    transport: &mut Transport,
    active: u64,
    handle: Value,
    hash: Value,
    opened: Value,
    generation: u64,
    state: &mut ClientState,
    name: &str,
    leads: bool,
)
    requires
        old(transport)@.wf(),
        call_ensures(value_open_flight, (transport, active, &handle, &hash), opened),
        call_ensures(ClientState::flight_begin, (state, name), leads),
        hash@ is Str ==> name@ == hash@->Str_0,
    ensures
        names(old(transport)@, active, handle@, generation) && hash@ is Str && old(state)@
            == old(transport)@.clients[generation] ==> {
            let client = old(transport)@.clients[generation];
            &&& final(transport)@.clients[generation] == final(state)@
            &&& changes_one(old(transport)@, final(transport)@, generation)
            &&& text_under(opened@, "url"@) == Some(client.url)
            &&& text_under(opened@, "__ws_client_ref"@) == Some(
                reference_text(generation, client.scope_id, client.url),
            )
            &&& text_under(opened@, "__ws_flight_hash"@) == Some(name@)
            &&& lookup(opened@->Dict_0, "__ws_flight_led"@) == Some(Tree::Bool(leads))
        },
        (forall|other: u64| !#[trigger] names(old(transport)@, active, handle@, other)) || !(hash@
            is Str) ==> opened@ is Null && final(transport)@ == old(transport)@,
{
    let before = old(transport)@;
    lemma_names(before, active, handle@);
    if names(before, active, handle@, generation) && hash@ is Str {
        let client = before.clients[generation];
        lemma_changes_one(before, generation, final(transport)@.clients[generation]);
        crate::bridge::lemma_handle_keys();
        law_flight_handle_is_read_back(
            client.url,
            client.reference(),
            name@,
            !client.flight_open(name@),
        );
    }
    if let Some(reached) = before.handled_by(active, handle@) {
        assert(names(before, active, handle@, reached));
    }
}

/// Whether a waiter's step hands an outcome on: a value as it is, an error as its text, which for
/// anything but a text is its JSON, and null where there is no outcome.
pub open spec fn is_handed_on(step: FlightStep, outcome: Option<Result<Tree, Tree>>) -> bool {
    match outcome {
        Some(Ok(tree)) => match step {
            FlightStep::Done(value) => value@ == tree,
            _ => false,
        },
        Some(Err(Tree::Str(text))) => match step {
            FlightStep::Failed(message) => message@ == text,
            _ => false,
        },
        Some(Err(error)) => match step {
            FlightStep::Failed(message) => message@ == json_rendering(json_form(error)),
            _ => false,
        },
        None => match step {
            FlightStep::Done(value) => value@ is Null,
            _ => false,
        },
    }
}

/// The outcome that a client has for a hash, if it has one.
pub open spec fn outcome_at(client: ClientView, hash: Seq<char>) -> Option<Result<Tree, Tree>> {
    if client.flights.dom().contains(hash) {
        client.flights[hash].settled
    } else {
        None
    }
}

/// Whether a flight is open at a client.
pub open spec fn open_at(client: ClientView, hash: Seq<char>) -> bool {
    client.flights.dom().contains(hash) && client.flights[hash].open
}

/// The client that a handle waits at: the one that its reference reaches, or, for a handle without
/// one, the open client of its URL where that belongs to the one who asks.
pub open spec fn waits_at(
    transport: TransportView,
    active: u64,
    handle: Tree,
    url: Seq<char>,
    generation: u64,
) -> bool {
    if text_under(handle, "__ws_client_ref"@) is Some {
        is_reached(transport, active, text_under(handle, "__ws_client_ref"@)->0, generation)
    } else {
        &&& transport.registry.dom().contains(url)
        &&& transport.registry[url] == generation
        &&& !transport.clients[generation].closed
        &&& transport.clients[generation].scope_id == active
    }
}

/// Waiting on a handle: a leader, and anyone where no flight is open, gets the last outcome at once,
/// and null where there is none; anyone else is to wait, 1500 milliseconds at a mock and 60000
/// elsewhere. A handle that names no flight or waits at no client gets null at once.
pub proof fn law_waiting_begins_as_the_flight_stands(
    transport: Transport,
    active: u64,
    handle: Value,
    start: FlightStart,
    generation: u64,
)
    requires
        transport@.wf(),
        call_ensures(ws_await_flight, (&transport, active, &handle), start),
    ensures
        ({
            let url = text_under(handle@, "url"@);
            let hash = if text_under(handle@, "__ws_flight_hash"@) is Some {
                text_under(handle@, "__ws_flight_hash"@)
            } else {
                text_under(handle@, "__ws_future_hash"@)
            };
            let led = handle@ is Dict && lookup(handle@->Dict_0, "__ws_flight_led"@) == Some(
                Tree::Bool(true),
            );
            let client = transport@.clients[generation];
            &&& url is None || hash is None ==> match start {
                FlightStart::Settled(step) => is_handed_on(step, None),
                FlightStart::Pending(_) => false,
            }
            &&& url is Some && hash is Some && (forall|other: u64| !#[trigger] waits_at(
                transport@,
                active,
                handle@,
                url->0,
                other,
            )) ==> match start {
                FlightStart::Settled(step) => is_handed_on(step, None),
                FlightStart::Pending(_) => false,
            }
            &&& url is Some && hash is Some && waits_at(
                transport@,
                active,
                handle@,
                url->0,
                generation,
            ) && (led || !open_at(client, hash->0)) ==> match start {
                FlightStart::Settled(step) => is_handed_on(step, outcome_at(client, hash->0)),
                FlightStart::Pending(_) => false,
            }
            &&& url is Some && hash is Some && waits_at(
                transport@,
                active,
                handle@,
                url->0,
                generation,
            ) && !led && open_at(client, hash->0) ==> match start {
                FlightStart::Settled(_) => false,
                FlightStart::Pending(pending) => pending.generation == generation && pending.url@
                    == url->0 && pending.hash@ == hash->0 && pending.budget_ms == if client.mock {
                    1500u64
                } else {
                    60000u64
                },
            }
        }),
{
    if let Some(url) = text_under(handle@, "url"@) {
        if let Some(reference) = text_under(handle@, "__ws_client_ref"@) {
            lemma_reached(transport@, active, reference, generation);
            assert(forall|other: u64|
                #[trigger] waits_at(transport@, active, handle@, url, other) == is_reached(
                    transport@,
                    active,
                    reference,
                    other,
                ));
            if let Some(reached) = transport@.routed(active, reference) {
                lemma_reached(transport@, active, reference, reached);
                assert(waits_at(transport@, active, handle@, url, reached));
            }
        } else {
            if let Some(named) = transport@.live(url) {
                if transport@.clients[named].scope_id == active {
                    assert(waits_at(transport@, active, handle@, url, named));
                }
            }
        }
    }
}

/// A waiter that looks again gets the outcome, where there is one; waits on, where there is none and
/// the flight is open; and gets null otherwise, also where the client is gone. One whose time is up
/// is told the hash and the URL.
pub proof fn law_waiter_goes_on_until_settled(
    pending: PendingFlight,
    transport: Transport,
    step: FlightStep,
    message: String,
    outcome: Option<Result<Value, Value>>,
    handed: FlightStep,
    error: Value,
    text: String,
)
    requires
        call_ensures(PendingFlight::poll, (&pending, &transport), step),
        call_ensures(PendingFlight::timed_out, (&pending,), message),
        call_ensures(hand_on, (outcome,), handed),
        call_ensures(complaint_of, (&error,), text),
    ensures
        ({
            let client = transport@.clients[pending.generation];
            let there = transport@.clients.dom().contains(pending.generation);
            &&& !there ==> is_handed_on(step, None)
            &&& there && outcome_at(client, pending.hash@) is None && open_at(client, pending.hash@)
                ==> step is Wait
            &&& there && !(outcome_at(client, pending.hash@) is None && open_at(
                client,
                pending.hash@,
            )) ==> is_handed_on(step, outcome_at(client, pending.hash@))
        }),
        message@ == "[NetworkError] timed out waiting for the in-flight '"@ + pending.hash@
            + "' on "@ + pending.url@,
        is_handed_on(
            handed,
            match outcome {
                Some(Ok(value)) => Some(Ok(value@)),
                Some(Err(error)) => Some(Err(error@)),
                None => None,
            },
        ),
        error@ is Str ==> text@ == error@->Str_0,
        !(error@ is Str) ==> text@ == json_rendering(json_form(error@)),
{
}

/// Setting a mock up acquires the client of the URL, and starts it over as a mock as that client
/// does. A refused acquisition is refused with its text, and nothing happens.
pub proof fn law_mock_is_set_up_at_the_urls_client(
    transport: &mut Transport,
    active: u64,
    url: &str,
    answer: Result<u64, String>,
    state: &mut ClientState,
    other: u64,
)
    requires
        old(transport)@.wf(),
        old(transport)@.next_generation < u64::MAX,
        call_ensures(mock_setup, (transport, active, url), answer),
        call_ensures(ClientState::mock_setup, (state,), ()),
    ensures
        answer is Err ==> final(transport)@ == old(transport)@,
        exists|slot: TransportView, now: i64|
            #[trigger] is_answered(
                old(transport)@,
                slot,
                active,
                url@,
                now,
                answer,
                other,
            ) && (answer is Ok ==> changes_one(slot, final(transport)@, answer->Ok_0)
                && (old(state)@ == slot.clients[answer->Ok_0]
                ==> final(transport)@.clients[answer->Ok_0] == final(state)@)),
{
    let before = old(transport)@;
    let after = final(transport)@;
    let now = choose|now: i64|
        is_reading(now) && #[trigger] crate::mock::mock_set_up(before, active, url@, now, after);
    let slot = before.acquired(active, url@, now);
    crate::registry_laws::lemma_answered(before, active, url@, now, answer, other);
    if answer is Ok {
        crate::transport_laws::law_acquired_client_is_live(before, active, url@, now, now);
        lemma_changes_one(slot, answer->Ok_0, after.clients[answer->Ok_0]);
    }
}

/// The open client that is registered for a URL, if there is one.
pub open spec fn open_client(transport: TransportView, url: Seq<char>, generation: u64) -> bool {
    &&& transport.registry.dom().contains(url)
    &&& transport.registry[url] == generation
    &&& !transport.clients[generation].closed
}

/// What a fixture does by URL is done at the open client of that URL, and nowhere else: a message
/// arrives there, the watching side is done there, those who wait there are rejected. Without such a
/// client nothing happens.
pub proof fn law_fixture_works_by_url(
    injected: &mut Transport,
    message: Value,
    completed: &mut Transport,
    rejected: &mut Transport,
    url: &str,
    generation: u64,
    every: &mut ClientState,
    error: Value,
)
    requires
        old(injected)@.wf(),
        call_ensures(mock_inject, (injected, url, message), ()),
        old(completed)@.wf(),
        call_ensures(mock_mark_completed, (completed, url), ()),
        old(rejected)@.wf(),
        call_ensures(mock_reject_futures, (rejected, url), ()),
        error@ == Tree::Str(
            "[ExchangeError] static ws test: the injected messages did not resolve the watch future"@,
        ),
        call_ensures(ClientState::reject_pending_futures, (every, error), ()),
    ensures
        open_client(old(injected)@, url@, generation) ==> changes_one(
            old(injected)@,
            final(injected)@,
            generation,
        ) && exists|charge: nat| #[trigger]
            crate::bounds::charged(message, charge) && arrives(
                old(injected)@.clients[generation],
                final(injected)@.clients[generation],
                message@,
                charge,
            ),
        !open_client(old(injected)@, url@, old(injected)@.registry[url@]) ==> final(injected)@
            == old(injected)@,
        open_client(old(completed)@, url@, generation) ==> changes_one(
            old(completed)@,
            final(completed)@,
            generation,
        ) && final(completed)@.clients[generation] == (ClientView {
            completed: true,
            ..old(completed)@.clients[generation]
        }),
        !open_client(old(completed)@, url@, old(completed)@.registry[url@]) ==> final(completed)@
            == old(completed)@,
        open_client(old(rejected)@, url@, generation) ==> changes_one(
            old(rejected)@,
            final(rejected)@,
            generation,
        ) && (old(every)@ == old(rejected)@.clients[generation]
            ==> final(rejected)@.clients[generation] == final(every)@),
        !open_client(old(rejected)@, url@, old(rejected)@.registry[url@]) ==> final(rejected)@
            == old(rejected)@,
{
    if open_client(old(injected)@, url@, generation) {
        let before = old(injected)@;
        let after = final(injected)@;
        assert(before.registration_wf(url@));
        let charge = choose|charge: nat| #[trigger]
            crate::bounds::chargeable(message@, charge) && crate::bounds::charged(message, charge)
                && after == before.on_live(
                url@,
                |client: ClientView| client.push_incoming(message@, charge),
            );
        lemma_changes_one(before, generation, after.clients[generation]);
        assert(crate::bounds::charged(message, charge) && arrives(
            before.clients[generation],
            after.clients[generation],
            message@,
            charge,
        ));
    }
    if open_client(old(completed)@, url@, generation) {
        assert(old(completed)@.registration_wf(url@));
        lemma_changes_one(old(completed)@, generation, final(completed)@.clients[generation]);
    }
    if open_client(old(rejected)@, url@, generation) {
        assert(old(rejected)@.registration_wf(url@));
        lemma_changes_one(old(rejected)@, generation, final(rejected)@.clients[generation]);
    }
}

/// What a fixture reads by URL is read at the open client of that URL: what it captured, in order,
/// whether someone waits, whether messages wait, and whether the watching side is done. Without such
/// a client nothing is captured, nobody waits, and it is done.
pub proof fn law_fixture_reads_by_url(
    transport: Transport,
    url: &str,
    sent: Value,
    pending: bool,
    queued: bool,
    completed: bool,
    generation: u64,
    hash: Seq<char>,
)
    requires
        transport@.wf(),
        call_ensures(mock_sent_messages, (&transport, url), sent),
        call_ensures(mock_has_pending_futures, (&transport, url), pending),
        call_ensures(mock_has_queued_messages, (&transport, url), queued),
        call_ensures(mock_is_completed, (&transport, url), completed),
    ensures
        sent@ is Arr,
        open_client(transport@, url@, generation) ==> {
            let client = transport@.clients[generation];
            &&& sent@->Arr_0.len() == client.capture.len()
            &&& forall|i: int|
                0 <= i < client.capture.len() ==> #[trigger] sent@->Arr_0[i] == client.capture[i].0
            &&& client.futures.contains(hash) ==> pending
            &&& pending ==> client.futures != Set::<Seq<char>>::empty()
            &&& queued == (client.incoming.len() > 0)
            &&& completed == client.completed
        },
        !open_client(transport@, url@, transport@.registry[url@]) ==> sent@->Arr_0.len() == 0
            && !pending && !queued && completed,
{
}

} // verus!
