//! What messages, failures and connections do to a client, as a caller sees it: each law speaks of
//! what calls are given and what they give back.

use vstd::prelude::*;
use vstd::utf8::encode_utf8;

use crate::bounds::{charged, string_has_room, weighed};
use crate::client::ClientState;
use crate::client_view::ClientView;
use crate::clock::is_reading;
use crate::events::{Dial, Dialed, NextMessage};
use crate::json::json_document;
use crate::ledger::total_charge;
use crate::lifecycle::{FailureSource, FailureView, ScopeJoinReport, SocketError, TaskOutcome};
use crate::outgoing::{Frame, Message};
use crate::value::{Tree, Value};

verus! {

/// What the items of a queue are charged together is the sum of their charges.
pub proof fn law_total_is_the_sum(queue: Seq<(Tree, nat)>, item: Tree, charge: nat)
    ensures
        total_charge(Seq::<(Tree, nat)>::empty()) == 0,
        total_charge(queue.push((item, charge))) == total_charge(queue) + charge,
        queue.len() > 0 ==> total_charge(queue) == queue[0].1 + total_charge(queue.drop_first()),
{
    crate::ledger::lemma_total_push(queue, item, charge);
    if queue.len() > 0 {
        crate::ledger::lemma_total_front(queue);
    }
}

/// A new client is for its URL and its owner, open, not connected, and free to connect; nothing has
/// happened to it.
pub proof fn law_new_client_is_clean(
    url: &str,
    generation: u64,
    scope_id: u64,
    now: i64,
    client: ClientState,
    hash: Seq<char>,
)
    requires
        call_ensures(ClientState::new, (url, generation, scope_id, now), client),
    ensures
        client@.url == url@,
        client@.generation == generation,
        client@.scope_id == scope_id,
        client@.last_pong_ms == now,
        !client@.closed && !client@.connected && !client@.mock && !client@.completed,
        client@.writer_ready,
        client@.error is None,
        client@.incoming.len() == 0,
        client@.capture.len() == 0,
        client@.outgoing.waiting.len() == 0 && client@.outgoing.in_flight == 0,
        client@.tasks.pending == 0 && client@.tasks.joined == 0,
        client@.tasks.failures.len() == 0 && !client@.tasks.retained,
        !client@.resolved.dom().contains(hash),
        !client@.rejections.dom().contains(hash),
        !client@.subscriptions.dom().contains(hash),
        !client@.futures.contains(hash),
        !client@.flights.dom().contains(hash),
{
}

/// What is read of a client is what it is.
pub proof fn law_client_is_read_as_it_is(
    client: ClientState,
    url: String,
    generation: u64,
    scope_id: u64,
    closed: bool,
    connected: bool,
    mock: bool,
    queued: bool,
    completed: bool,
    pong: i64,
    pending: usize,
    error: Option<String>,
    budget: Option<u64>,
)
    requires
        call_ensures(ClientState::url, (&client,), &url),
        call_ensures(ClientState::generation, (&client,), generation),
        call_ensures(ClientState::scope_id, (&client,), scope_id),
        call_ensures(ClientState::is_closed, (&client,), closed),
        call_ensures(ClientState::is_connected, (&client,), connected),
        call_ensures(ClientState::is_mock, (&client,), mock),
        call_ensures(ClientState::has_queued_messages, (&client,), queued),
        call_ensures(ClientState::is_ws_test_completed, (&client,), completed),
        call_ensures(ClientState::last_pong_ms, (&client,), pong),
        call_ensures(ClientState::pending_tasks, (&client,), pending),
        call_ensures(ClientState::terminal_error, (&client,), error),
        call_ensures(ClientState::message_budget_ms, (&client,), budget),
    ensures
        url@ == client@.url,
        generation == client@.generation,
        scope_id == client@.scope_id,
        closed == client@.closed,
        connected == client@.connected,
        mock == client@.mock,
        queued == (client@.incoming.len() > 0),
        completed == client@.completed,
        pong == client@.last_pong_ms,
        pending == client@.tasks.pending,
        (error is Some) == (client@.error is Some),
        error is Some ==> error->0@ == client@.error->0.message,
        client@.mock ==> budget == Some(1500u64),
        !client@.mock ==> budget is None,
{
}

/// Whether a client closed: nothing is written any more and nothing can connect, and nothing else
/// changed.
pub open spec fn closes(before: ClientView, after: ClientView) -> bool {
    &&& after.closed && !after.connected && !after.writer_ready
    &&& after.outgoing.waiting.len() == 0
    &&& after.outgoing.in_flight == before.outgoing.in_flight
    &&& after == (ClientView {
        closed: after.closed,
        connected: after.connected,
        writer_ready: after.writer_ready,
        outgoing: after.outgoing,
        ..before
    })
}

/// Whether a failure ended a client: the first failure is the one that is reported, one internal
/// failure after it is kept beside it, no message is left, and the client closed.
pub open spec fn ends(
    before: ClientView,
    after: ClientView,
    source: FailureSource,
    message: Seq<char>,
) -> bool {
    &&& after.closed && !after.connected && !after.writer_ready
    &&& after.incoming.len() == 0
    &&& after.outgoing.waiting.len() == 0
    &&& after.outgoing.in_flight == before.outgoing.in_flight
    &&& before.error is None ==> after.error is Some && after.error->0.source == source
        && after.error->0.message == message
    &&& before.error is Some ==> after.error == before.error
    &&& after.tasks.pending == before.tasks.pending && after.tasks.joined == before.tasks.joined
    &&& if before.error is Some && source is Internal && !before.tasks.retained {
        &&& after.tasks.retained
        &&& after.tasks.failures == before.tasks.failures.push(FailureView { source, message })
    } else {
        after.tasks == before.tasks
    }
    &&& after == (ClientView {
        closed: after.closed,
        connected: after.connected,
        writer_ready: after.writer_ready,
        incoming: after.incoming,
        outgoing: after.outgoing,
        error: after.error,
        tasks: after.tasks,
        ..before
    })
}

/// Requesting the close of a client closes it, keeps what it has received, settled and failed with,
/// and keeps its tasks.
pub proof fn law_close_closes(client: &mut ClientState)
    requires
        call_ensures(ClientState::request_close, (client,), ()),
    ensures
        closes(old(client)@, final(client)@),
{
}

/// A failure ends the client with its own text, whichever way it comes: by a call, from the writer,
/// from the reader or by the end of the stream. Errors of the socket end the transport; any other
/// error is internal.
pub proof fn law_failure_ends_the_client(
    failed: &mut ClientState,
    source: FailureSource,
    message: String,
    writer: &mut ClientState,
    reader: &mut ClientState,
    error: SocketError,
    detail: &str,
    ended: &mut ClientState,
)
    requires
        call_ensures(ClientState::fail, (failed, source, message), ()),
        call_ensures(ClientState::writer_failed, (writer, error, detail), ()),
        call_ensures(ClientState::reader_failed, (reader, error, detail), ()),
        call_ensures(ClientState::reader_ended, (ended,), ()),
    ensures
        ends(old(failed)@, final(failed)@, source, message@),
        ({
            let how = if error is Other {
                FailureSource::Internal
            } else {
                FailureSource::TransportTerminal
            };
            &&& ends(old(writer)@, final(writer)@, how, "[NetworkError] writer: "@ + detail@)
            &&& ends(old(reader)@, final(reader)@, how, "[NetworkError] reader: "@ + detail@)
        }),
        ends(
            old(ended)@,
            final(ended)@,
            FailureSource::TransportTerminal,
            "[NetworkError] reader reached EOF"@,
        ),
{
}

/// A message that arrives at an open client is queued last, at its charge, while there are fewer
/// than 256 messages and the charges stay within 4194304 bytes; beyond either it ends the client
/// with a text that says which. A closed client ignores it.
pub proof fn law_message_is_queued_or_ends_the_client(
    client: &mut ClientState,
    value: Value,
    charge: usize,
)
    requires
        call_ensures(ClientState::push_incoming_charged, (client, value, charge), ()),
    ensures
        ({
            let before = old(client)@;
            let after = final(client)@;
            &&& before.closed ==> after == before
            &&& !before.closed && before.incoming.len() >= 256 ==> ends(
                before,
                after,
                FailureSource::Internal,
                "[NetworkError] incoming WebSocket queue capacity exceeded (256)"@,
            )
            &&& !before.closed && before.incoming.len() < 256 && total_charge(before.incoming)
                + charge > 4194304 ==> ends(
                before,
                after,
                FailureSource::Internal,
                "[NetworkError] incoming WebSocket queue byte limit exceeded (4194304 bytes)"@,
            )
            &&& !before.closed && before.incoming.len() < 256 && total_charge(before.incoming)
                + charge <= 4194304 ==> after == (ClientView {
                incoming: before.incoming.push((value@, charge as nat)),
                ..before
            })
        }),
{
}

/// A message that arrives is charged what the very allocations of its value report, and is queued
/// last exactly as the charge allows.
pub proof fn law_arriving_message_is_charged_exactly(
    client: &mut ClientState,
    value: Value,
    injected: &mut ClientState,
    message: Value,
)
    requires
        call_ensures(ClientState::push_incoming, (client, value), ()),
        call_ensures(ClientState::mock_inject, (injected, message), ()),
    ensures
        exists|charge: nat| #[trigger]
            charged(value, charge) && arrives(old(client)@, final(client)@, value@, charge),
        exists|charge: nat| #[trigger]
            charged(message, charge) && arrives(old(injected)@, final(injected)@, message@, charge),
{
    let charge = choose|charge: nat| #[trigger]
        crate::bounds::chargeable(value@, charge) && charged(value, charge) && final(client)@
            == old(client)@.push_incoming(value@, charge);
    assert(arrives(old(client)@, final(client)@, value@, charge));
    let other = choose|charge: nat| #[trigger]
        crate::bounds::chargeable(message@, charge) && charged(message, charge) && final(injected)@
            == old(injected)@.push_incoming(message@, charge);
    assert(arrives(old(injected)@, final(injected)@, message@, other));
}

/// Whether a message at its charge was queued last, or ended the client, or was ignored, as the
/// state of the client asks.
pub open spec fn arrives(before: ClientView, after: ClientView, value: Tree, charge: nat) -> bool {
    if before.closed {
        after == before
    } else if before.incoming.len() >= 256 {
        ends(
            before,
            after,
            FailureSource::Internal,
            "[NetworkError] incoming WebSocket queue capacity exceeded (256)"@,
        )
    } else if total_charge(before.incoming) + charge > 4194304 {
        ends(
            before,
            after,
            FailureSource::Internal,
            "[NetworkError] incoming WebSocket queue byte limit exceeded (4194304 bytes)"@,
        )
    } else {
        after == (ClientView { incoming: before.incoming.push((value, charge)), ..before })
    }
}

/// A message every possible charge of which fits what is left of both bounds is accepted: the client
/// stays open, and whoever watches an otherwise empty queue gets that very message next.
pub proof fn law_fitting_message_is_delivered(
    client: &mut ClientState,
    value: Value,
    watched: &mut ClientState,
    next: NextMessage,
)
    requires
        call_ensures(ClientState::push_incoming, (client, value), ()),
        !old(client)@.closed,
        old(client)@.error is None,
        old(client)@.incoming.len() == 0,
        forall|charge: nat| #[trigger] charged(value, charge) ==> charge <= 4194304,
        old(watched)@ == final(client)@,
        call_ensures(ClientState::next_message, (watched,), next),
    ensures
        !final(client)@.closed,
        match next {
            NextMessage::Message(message) => message@ == value@,
            _ => false,
        },
        final(watched)@ == old(client)@,
{
    let charge = choose|charge: nat| #[trigger]
        crate::bounds::chargeable(value@, charge) && charged(value, charge) && final(client)@
            == old(client)@.push_incoming(value@, charge);
    assert(old(client)@.incoming =~= Seq::empty());
    assert(total_charge(old(client)@.incoming) == 0);
    assert(old(client)@.incoming.push((value@, charge)).drop_first() =~= old(client)@.incoming);
}

/// Whoever watches gets the failure of a failed client; else the first message, which is then taken
/// out; else the end of a closed client; else nothing yet. Nothing but the message that is given
/// changes.
pub proof fn law_next_message_is_the_first(client: &mut ClientState, next: NextMessage)
    requires
        call_ensures(ClientState::next_message, (client,), next),
    ensures
        ({
            let before = old(client)@;
            let after = final(client)@;
            &&& before.error is Some ==> after == before && match next {
                NextMessage::Failed(message) => message@ == before.error->0.message,
                _ => false,
            }
            &&& before.error is None && before.incoming.len() > 0 ==> after == (ClientView {
                incoming: before.incoming.drop_first(),
                ..before
            }) && match next {
                NextMessage::Message(value) => value@ == before.incoming[0].0,
                _ => false,
            }
            &&& before.error is None && before.incoming.len() == 0 && before.closed ==> next
                is Ended && after == before
            &&& before.error is None && before.incoming.len() == 0 && !before.closed ==> next
                is Wait && after == before
        }),
{
}

/// Whether a frame was queued for the writer last, at its charge, or ended the client, or was
/// ignored, as the state of the client asks: no frame beyond 262144 bytes, no more than 64 frames,
/// and no more than 1048576 bytes together with the frame being written. A frame is charged what it
/// retains, and one byte at least.
pub open spec fn goes_out(
    before: ClientView,
    after: ClientView,
    frame: Frame,
    len: nat,
    retained: nat,
    sent: bool,
) -> bool {
    let charge: nat = if retained == 0 {
        1
    } else {
        retained
    };
    if before.closed {
        !sent && after == before
    } else if len > 262144 {
        !sent && ends(
            before,
            after,
            FailureSource::Internal,
            "[NetworkError] outgoing payload exceeds limit"@,
        )
    } else if charge + total_charge(before.outgoing.waiting) + before.outgoing.in_flight
        > 1048576 {
        !sent && ends(
            before,
            after,
            FailureSource::Internal,
            "[NetworkError] outgoing byte budget exceeded"@,
        )
    } else if before.outgoing.waiting.len() >= 64 {
        !sent && ends(
            before,
            after,
            FailureSource::Internal,
            "[NetworkError] outgoing queue full or closed"@,
        )
    } else {
        &&& sent
        &&& after.outgoing.waiting == before.outgoing.waiting.push((frame, charge))
        &&& after.outgoing.in_flight == before.outgoing.in_flight
        &&& after == (ClientView { outgoing: after.outgoing, ..before })
    }
}

/// The length of the payload of a frame, in bytes.
pub open spec fn payload_len(frame: Frame) -> nat {
    match frame {
        Frame::Text(text) => encode_utf8(text).len(),
        Frame::Binary(bytes) => bytes.len(),
        Frame::Ping(bytes) => bytes.len(),
        Frame::Pong(bytes) => bytes.len(),
    }
}

/// A frame goes out with what it holds, at the bytes that it retains.
pub proof fn law_frame_is_queued_or_ends_the_client(
    client: &mut ClientState,
    message: Message,
    retained: usize,
    sent: bool,
    len: usize,
)
    requires
        call_ensures(ClientState::send_retained, (client, message, retained), sent),
        call_ensures(Message::len, (&message,), len),
    ensures
        goes_out(
            old(client)@,
            final(client)@,
            message@,
            payload_len(message@),
            retained as nat,
            sent,
        ),
        len == payload_len(message@),
        match message {
            Message::Text(text) => message@ == Frame::Text(text@),
            Message::Binary(bytes) => message@ == Frame::Binary(bytes@),
            Message::Ping(bytes) => message@ == Frame::Ping(bytes@),
            Message::Pong(bytes) => message@ == Frame::Pong(bytes@),
        },
{
}

/// A frame that is sent is charged what its very allocation reports.
pub proof fn law_sent_frame_is_charged_exactly(
    client: &mut ClientState,
    message: Message,
    sent: bool,
)
    requires
        call_ensures(ClientState::send_message, (client, message), sent),
    ensures
        exists|retained: nat| #[trigger]
            message.has_room(retained) && goes_out(
                old(client)@,
                final(client)@,
                message@,
                payload_len(message@),
                retained,
                sent,
            ),
        match message {
            Message::Text(text) => forall|room: nat| #[trigger]
                message.has_room(room) == string_has_room(text, room),
            Message::Binary(bytes) => forall|room: nat| #[trigger]
                message.has_room(room) == crate::bounds::bytes_have_room(bytes, room),
            Message::Ping(bytes) => forall|room: nat| #[trigger]
                message.has_room(room) == crate::bounds::bytes_have_room(bytes, room),
            Message::Pong(bytes) => forall|room: nat| #[trigger]
                message.has_room(room) == crate::bounds::bytes_have_room(bytes, room),
        },
{
    let before = old(client)@;
    let after = final(client)@;
    let retained = choose|retained: nat|
        retained >= message@.len() && message.has_room(retained) && sent == #[trigger] before.sends(
            message@,
            retained,
        ) && after == before.send(message@, retained);
    assert(message.has_room(retained));
}

/// A keep-alive is a ping without a payload, which is charged one byte.
pub proof fn law_keep_alive_is_an_empty_ping(client: &mut ClientState, sent: bool)
    requires
        call_ensures(ClientState::keep_alive, (client,), sent),
    ensures
        goes_out(old(client)@, final(client)@, Frame::Ping(Seq::empty()), 0, 0, sent),
{
}

/// The writer gets the frames in the order in which they were queued. The one that it gets is
/// charged until it takes the next or lets go of it.
pub proof fn law_writer_gets_the_first_frame(
    client: &mut ClientState,
    message: Option<Message>,
    released: &mut ClientState,
    available: usize,
)
    requires
        call_ensures(ClientState::next_outgoing, (client,), message),
        call_ensures(ClientState::release_outgoing, (released,), ()),
        call_ensures(ClientState::outgoing_available, (&*old(client),), available),
    ensures
        ({
            let before = old(client)@.outgoing;
            let after = final(client)@.outgoing;
            &&& before.waiting.len() == 0 ==> message is None && after.waiting.len() == 0
                && after.in_flight == 0
            &&& before.waiting.len() > 0 ==> message is Some && message->0@ == before.waiting[0].0
                && after.waiting == before.waiting.drop_first() && after.in_flight
                == before.waiting[0].1
            &&& available == 1048576 - total_charge(before.waiting) - before.in_flight
        }),
        final(client)@ == (ClientView { outgoing: final(client)@.outgoing, ..old(client)@ }),
        final(released)@.outgoing.in_flight == 0,
        final(released)@.outgoing.waiting == old(released)@.outgoing.waiting,
        final(released)@ == (ClientView { outgoing: final(released)@.outgoing, ..old(released)@ }),
{
}

/// Whether a value was captured last, at its charge, or ended the client, as the state of the
/// client asks: no more than 64 values, and no more than 1048576 bytes.
pub open spec fn is_captured(
    before: ClientView,
    after: ClientView,
    value: Tree,
    charge: nat,
    kept: bool,
) -> bool {
    if before.capture.len() >= 64 {
        !kept && ends(before, after, FailureSource::Internal, "[NetworkError] mock capture full"@)
    } else if total_charge(before.capture) + charge > 1048576 {
        !kept && ends(
            before,
            after,
            FailureSource::Internal,
            "[NetworkError] mock capture byte budget exceeded"@,
        )
    } else {
        kept && after == (ClientView { capture: before.capture.push((value, charge)), ..before })
    }
}

/// A value is captured last, or ends the client. What was captured is shown in order.
pub proof fn law_value_is_captured_or_ends_the_client(
    client: &mut ClientState,
    value: Value,
    charge: usize,
    kept: bool,
    shown: Value,
)
    requires
        call_ensures(ClientState::capture_charged, (client, value, charge), kept),
        call_ensures(ClientState::mock_sent_value, (&*old(client),), shown),
    ensures
        is_captured(old(client)@, final(client)@, value@, charge as nat, kept),
        shown@ is Arr,
        shown@->Arr_0.len() == old(client)@.capture.len(),
        forall|i: int|
            0 <= i < shown@->Arr_0.len() ==> #[trigger] shown@->Arr_0[i]
                == old(client)@.capture[i].0,
{
}

/// What a text reads as: the document that it is, else the text itself.
pub open spec fn reading(text: Seq<char>) -> Tree {
    match json_document(text) {
        Some(tree) => tree,
        None => Tree::Str(text),
    }
}

/// A text goes out as it is, unless the transport is a mock: then the document that it is, else the
/// text itself, is captured. It is charged what the allocations report that hold it. A closed client
/// ignores it, and one beyond 262144 bytes ends the client either way.
pub proof fn law_text_is_sent_or_captured(client: &mut ClientState, text: String, sent: bool)
    requires
        call_ensures(ClientState::send_text, (client, text), sent),
    ensures
        ({
            let before = old(client)@;
            let after = final(client)@;
            let len = encode_utf8(text@).len();
            let read = reading(text@);
            &&& before.closed ==> !sent && after == before
            &&& !before.closed && len > 262144 ==> !sent && ends(
                before,
                after,
                FailureSource::Internal,
                "[NetworkError] outgoing payload exceeds limit"@,
            )
            &&& !before.closed && len <= 262144 && !before.mock ==> exists|room: nat| #[trigger]
                crate::bounds::text_has_room(text@, room) && goes_out(
                    before,
                    after,
                    Frame::Text(text@),
                    len,
                    room,
                    sent,
                )
            &&& !before.closed && len <= 262144 && before.mock ==> exists|charge: nat| #[trigger]
                weighed(read, charge) && is_captured(before, after, read, charge, sent)
        }),
{
    let before = old(client)@;
    let after = final(client)@;
    let charge = choose|charge: nat| #[trigger]
        before.text_charge(text@, charge) && sent == before.sends_text(text@, charge) && after
            == before.send_text(text@, charge);
    if !before.closed && encode_utf8(text@).len() <= 262144 {
        if before.mock {
            assert(crate::json::text_tree(json_document(text@), text@) == reading(text@));
            assert(weighed(reading(text@), charge));
        } else {
            assert(crate::bounds::text_has_room(text@, charge));
        }
    }
}

/// A mock counts as connected; nothing else changes by that. One that starts over has forgotten
/// what it settled, captured and received, and is not done.
pub proof fn law_mock_is_connected(
    enabled: &mut ClientState,
    started: &mut ClientState,
    hash: Seq<char>,
    done: &mut ClientState,
)
    requires
        call_ensures(ClientState::mock_enable, (enabled,), ()),
        call_ensures(ClientState::mock_setup, (started,), ()),
        call_ensures(ClientState::mark_ws_test_completed, (done,), ()),
    ensures
        final(enabled)@ == (ClientView { mock: true, connected: true, ..old(enabled)@ }),
        final(done)@ == (ClientView { completed: true, ..old(done)@ }),
        ({
            let before = old(started)@;
            let after = final(started)@;
            &&& after.mock && after.connected && !after.completed
            &&& after.capture.len() == 0 && after.incoming.len() == 0
            &&& !after.resolved.dom().contains(hash)
            &&& !after.rejections.dom().contains(hash)
            &&& !after.subscriptions.dom().contains(hash)
            &&& !after.futures.contains(hash)
            &&& !after.flights.dom().contains(hash)
            &&& after == (ClientView {
                mock: after.mock,
                connected: after.connected,
                completed: after.completed,
                capture: after.capture,
                incoming: after.incoming,
                resolved: after.resolved,
                rejections: after.rejections,
                subscriptions: after.subscriptions,
                futures: after.futures,
                flights: after.flights,
                ..before
            })
        }),
{
}

/// A pong is noted at its time, and changes nothing else.
pub proof fn law_pong_is_noted(at: &mut ClientState, time: i64, now: &mut ClientState)
    requires
        call_ensures(ClientState::on_pong_at, (at, time), ()),
        call_ensures(ClientState::on_pong, (now,), ()),
    ensures
        final(at)@ == (ClientView { last_pong_ms: time, ..old(at)@ }),
        is_reading(final(now)@.last_pong_ms),
        final(now)@ == (ClientView { last_pong_ms: final(now)@.last_pong_ms, ..old(now)@ }),
{
}

/// A closed client is not dialed, a connected one needs it no more, and any other is dialed through
/// the proxy that is given, or straight where none is.
pub proof fn law_dial_goes_by_the_proxy(
    client: ClientState,
    proxy: Option<String>,
    dial: Result<Dial, String>,
)
    requires
        call_ensures(ClientState::dial, (&client, proxy), dial),
    ensures
        client@.closed ==> match dial {
            Err(message) => message@ == "[NetworkError] client closed before connect"@,
            Ok(_) => false,
        },
        !client@.closed && client@.connected ==> dial matches Ok(Dial::Ready),
        !client@.closed && !client@.connected && proxy is Some && proxy->0@.len() > 0
            ==> match dial {
            Ok(Dial::Proxy(through)) => through@ == proxy->0@,
            _ => false,
        },
        !client@.closed && !client@.connected && (proxy is None || proxy->0@.len() == 0)
            ==> dial matches Ok(Dial::Direct),
{
}

/// A connection comes about exactly where the socket is open, the client is open and no connection
/// came before. Then the client is connected, the pong time is now, and three more tasks are to be
/// awaited; otherwise nothing changes, and the reason is given.
pub proof fn law_connection_comes_about_once(
    client: &mut ClientState,
    dialed: Dialed,
    now: i64,
    answer: Result<(), String>,
)
    requires
        old(client)@.wf(),
        call_ensures(ClientState::finish_connect, (client, dialed, now), answer),
    ensures
        ({
            let before = old(client)@;
            let after = final(client)@;
            &&& (answer is Ok) == (dialed is Opened && !before.closed && before.writer_ready)
            &&& answer is Err ==> after == before
            &&& answer is Ok ==> after.connected && !after.writer_ready && after.last_pong_ms == now
                && after.tasks.pending == before.tasks.pending + 3 && after.tasks.joined
                == before.tasks.joined && after.tasks.failures == before.tasks.failures
                && after.tasks.retained == before.tasks.retained && after == (ClientView {
                connected: after.connected,
                writer_ready: after.writer_ready,
                last_pong_ms: after.last_pong_ms,
                tasks: after.tasks,
                ..before
            })
            &&& match dialed {
                Dialed::Closing => answer->Err_0@ == "[NetworkError] client closed during connect"@,
                Dialed::DeadlineExceeded => answer->Err_0@
                    == "[NetworkError] connect deadline exceeded"@,
                Dialed::Failed(message) => answer->Err_0@ == message@,
                Dialed::Opened => {
                    &&& before.closed ==> answer->Err_0@
                        == "[NetworkError] client closed during connect"@
                    &&& !before.closed && !before.writer_ready ==> answer->Err_0@
                        == "[NetworkError] slot has no writer channel"@
                },
            }
        }),
{
}

/// A task that is awaited is one less to be awaited and one more that was; a panic is kept with its
/// text, and nothing else changes. What a client leaves to a report are the tasks that were awaited,
/// the failures of its tasks and then its own.
pub proof fn law_awaited_task_counts(
    client: &mut ClientState,
    outcome: TaskOutcome,
    reporting: ClientState,
    report: &mut ScopeJoinReport,
    in_time: bool,
)
    requires
        old(client)@.tasks.pending > 0,
        call_ensures(ClientState::task_finished, (client, outcome), ()),
        old(report)@.tasks_joined + 3 <= usize::MAX,
        call_ensures(ClientState::report_to, (&reporting, report, in_time), ()),
    ensures
        ({
            let before = old(client)@;
            let after = final(client)@;
            &&& after.tasks.pending == before.tasks.pending - 1
            &&& after.tasks.joined == before.tasks.joined + 1
            &&& after.tasks.retained == before.tasks.retained
            &&& match outcome {
                TaskOutcome::Panicked(message) => after.tasks.failures
                    == before.tasks.failures.push(
                    FailureView { source: FailureSource::TaskPanic, message: message@ },
                ),
                _ => after.tasks.failures == before.tasks.failures,
            }
            &&& after == (ClientView { tasks: after.tasks, ..before })
        }),
        ({
            let before = old(report)@;
            let after = final(report)@;
            let left = reporting@;
            &&& after.clients == before.clients
            &&& after.tasks_joined == before.tasks_joined + left.tasks.joined
            &&& after.timed_out == (before.timed_out || !in_time)
            &&& after.cleanup_complete == (before.cleanup_complete && in_time && left.tasks.pending
                == 0)
            &&& left.error is None ==> after.failures == before.failures + left.tasks.failures
            &&& left.error is Some ==> after.failures == (before.failures
                + left.tasks.failures).push(left.error->0)
        }),
{
}

} // verus!
