//! What observers of raw messages are given, as a caller sees it: each law speaks of what calls are
//! given and what they give back.

use std::time::Instant;

use tokio::sync::broadcast;
use vstd::prelude::*;
use vstd::utf8::encode_utf8;

use crate::bounds::{bytes_have_room, decoding, weighed};
use crate::client::ClientState;
use crate::client_view::ClientView;
use crate::clock::is_reading;
use crate::events::Inbound;
use crate::inbound::received;
use crate::lifecycle::{FailureSource, ScopeJoinReport};
use crate::outgoing::Frame;
use crate::raw::{channel_counts, channel_id};
use crate::raw::{heard_channel, overflow_after, raw_all_overflow_count, raw_bus};
use crate::raw::{raw_overflow_count, raw_published, reclaim_raw_buses, sent_before, subscribe_raw};
use crate::raw::{subscribe_raw_all, BusView, RawBuses, RawFrame, RawFrameView, RawView};
use crate::scope::{ClientScope, JoinRun};
use crate::traffic_laws::{arrives, closes, ends, goes_out};
use crate::transport::{drop_client, Transport, TransportView};

verus! {

/// Whether a channel was handed one more frame: this one, after all those before, none of which
/// changed. It is the same channel with the same room. It was asked once how many frames are still
/// to be seen, and one is counted exactly where that were as many as it has room for.
pub open spec fn is_handed(before: BusView, after: BusView, room: nat) -> bool {
    &&& after.offered.len() == before.offered.len() + 1
    &&& after.offered.drop_last() == before.offered
    &&& after.sent == before.sent || after.sent == before.sent.push(after.offered.last())
    &&& after.channel == before.channel
    &&& after.room == before.room
    &&& after.lengths.len() == before.lengths.len() + 1
    &&& after.lengths.drop_last() == before.lengths
    &&& before.room == room ==> after.overflow == if after.lengths.last() >= room {
        before.overflow.wrapping_add(1)
    } else {
        before.overflow
    }
}

/// Whether a frame is the message: the very bytes as they came, of that kind, from that URL and
/// client, read at that time.
pub open spec fn is_message(
    frame: RawFrameView,
    client: ClientView,
    payload: Seq<u8>,
    is_binary: bool,
    at: Instant,
    ms: i64,
) -> bool {
    &&& frame.payload == payload
    &&& frame.is_binary == is_binary
    &&& frame.url == client.url
    &&& frame.generation == client.generation
    &&& frame.ingress_at == at
    &&& frame.ingress_unix_ms == ms
}

/// Whether a message was handed to its observers: once to the channel for all URLs, where there is
/// one; once to the channel of its own URL, where that answers that it has a receiver; to no other
/// channel. A URL whose channel answers that it has none loses it, and none gets a channel.
pub open spec fn reaches_observers(
    before: RawView,
    after: RawView,
    client: ClientView,
    payload: Seq<u8>,
    is_binary: bool,
    at: Instant,
    ms: i64,
    url: Seq<char>,
) -> bool {
    &&& (after.all is Some) == (before.all is Some)
    &&& before.all is Some ==> {
        &&& is_handed(before.all->0, after.all->0, 256)
        &&& is_message(after.all->0.offered.last(), client, payload, is_binary, at, ms)
        &&& after.all->0.counts == before.all->0.counts
    }
    &&& after.buses.dom().contains(url) ==> {
        let old_bus = before.buses[url];
        let new_bus = after.buses[url];
        &&& before.buses.dom().contains(url)
        &&& new_bus.counts.len() == old_bus.counts.len() + 1
        &&& new_bus.counts.drop_last() == old_bus.counts
        &&& new_bus.counts.last() > 0
        &&& url == client.url ==> is_handed(old_bus, new_bus, 64) && is_message(
            new_bus.offered.last(),
            client,
            payload,
            is_binary,
            at,
            ms,
        )
        &&& url != client.url ==> new_bus == (BusView { counts: new_bus.counts, ..old_bus })
    }
}

/// What [`raw_published`] comes to for a message.
proof fn lemma_published_message(
    before: RawView,
    frame: RawFrameView,
    after: RawView,
    client: ClientView,
    payload: Seq<u8>,
    is_binary: bool,
    at: Instant,
    ms: i64,
    url: Seq<char>,
)
    requires
        raw_published(before, frame, after),
        is_message(frame, client, payload, is_binary, at, ms),
    ensures
        reaches_observers(before, after, client, payload, is_binary, at, ms, url),
{
    let (counts, at_url, at_all) = choose|
        counts: Map<Seq<char>, nat>,
        at_url: crate::raw::Delivery,
        at_all: crate::raw::Delivery,
    |
        crate::raw::published_by(before, frame, after, counts, at_url, at_all);
    let left = before.reclaimed(counts);
    if before.all is Some {
        assert(after.all->0.offered.drop_last() =~= before.all->0.offered);
        assert(after.all->0.lengths.drop_last() =~= before.all->0.lengths);
    }
    if after.buses.dom().contains(url) {
        assert(left.buses.dom().contains(url));
        assert(after.buses[url].counts.drop_last() =~= before.buses[url].counts);
        if url == frame.url {
            assert(after.buses[url].offered.drop_last() =~= before.buses[url].offered);
            assert(after.buses[url].lengths.drop_last() =~= before.buses[url].lengths);
        }
    }
}

/// A message is handed to its observers byte for byte, of whatever length it is.
pub proof fn law_observers_get_the_message_itself(
    client: ClientState,
    raw: &mut RawBuses,
    payload: Vec<u8>,
    is_binary: bool,
    at: Instant,
    ms: i64,
    url: Seq<char>,
)
    requires
        call_ensures(ClientState::observe_raw, (&client, raw, payload, is_binary, at, ms), ()),
    ensures
        reaches_observers(
            old(raw)@,
            final(raw)@,
            client@,
            payload@,
            is_binary,
            at,
            ms,
            url,
        ),
{
    let frame = crate::inbound::raw_frame(client@, payload@, is_binary, at, ms);
    lemma_published_message(
        old(raw)@,
        frame,
        final(raw)@,
        client@,
        payload@,
        is_binary,
        at,
        ms,
        url,
    );
}

/// A frame that is published is handed to its observers as it is.
pub proof fn law_published_frame_is_handed_over(
    raw: &mut RawBuses,
    frame: RawFrame,
    copy: RawFrame,
    client: ClientView,
    url: Seq<char>,
)
    requires
        call_ensures(RawBuses::publish, (raw, frame), ()),
        call_ensures(<RawFrame as Clone>::clone, (&frame,), copy),
        client.url == frame.url@,
        client.generation == frame.generation,
    ensures
        reaches_observers(
            old(raw)@,
            final(raw)@,
            client,
            frame.payload@,
            frame.is_binary,
            frame.ingress_at,
            frame.ingress_unix_ms,
            url,
        ),
        copy.url@ == frame.url@ && copy.generation == frame.generation,
        copy.payload@ == frame.payload@ && copy.is_binary == frame.is_binary,
        copy.ingress_at == frame.ingress_at && copy.ingress_unix_ms == frame.ingress_unix_ms,
{
    lemma_published_message(
        old(raw)@,
        frame@,
        final(raw)@,
        client,
        frame.payload@,
        frame.is_binary,
        frame.ingress_at,
        frame.ingress_unix_ms,
        url,
    );
}

/// Whether a payload was received: by a closed client not at all; one that does not decode ends the
/// client, and reaches nobody; any other reaches the observers as it came, and what it decodes to is
/// the message that arrives, charged what the allocations report that hold it.
pub open spec fn takes_in(
    before: ClientView,
    after: ClientView,
    raw_before: RawView,
    raw_after: RawView,
    payload: Seq<u8>,
    is_binary: bool,
    at: Instant,
    ms: i64,
    url: Seq<char>,
) -> bool {
    if before.closed {
        after == before && raw_after == raw_before
    } else {
        match decoding(payload, is_binary) {
            Err(message) => {
                &&& ends(before, after, FailureSource::Internal, message)
                &&& raw_after == raw_before
            },
            Ok(tree) => {
                &&& reaches_observers(
                    raw_before,
                    raw_after,
                    before,
                    payload,
                    is_binary,
                    at,
                    ms,
                    url,
                )
                &&& exists|charge: nat| #[trigger]
                    weighed(tree, charge) && arrives(before, after, tree, charge)
            },
        }
    }
}

proof fn lemma_received(
    before: ClientView,
    raw: RawView,
    payload: Seq<u8>,
    is_binary: bool,
    at: Instant,
    ms: i64,
    after: ClientView,
    raw_after: RawView,
    url: Seq<char>,
)
    requires
        received(before, raw, payload, is_binary, at, ms, after, raw_after),
    ensures
        takes_in(before, after, raw, raw_after, payload, is_binary, at, ms, url),
{
    if !before.closed {
        if let Ok(tree) = decoding(payload, is_binary) {
            lemma_published_message(
                raw,
                crate::inbound::raw_frame(before, payload, is_binary, at, ms),
                raw_after,
                before,
                payload,
                is_binary,
                at,
                ms,
                url,
            );
            let charge = choose|charge: nat| #[trigger]
                crate::bounds::chargeable(tree, charge) && weighed(tree, charge) && after
                    == before.push_incoming(tree, charge);
            assert(weighed(tree, charge) && arrives(before, after, tree, charge));
        }
    }
}

/// Receiving a payload is that.
pub proof fn law_payload_is_taken_in(
    client: &mut ClientState,
    raw: &mut RawBuses,
    payload: Vec<u8>,
    is_binary: bool,
    at: Instant,
    ms: i64,
    url: Seq<char>,
)
    requires
        call_ensures(
            ClientState::receive_payload_at,
            (client, raw, payload, is_binary, at, ms),
            (),
        ),
    ensures
        takes_in(
            old(client)@,
            final(client)@,
            old(raw)@,
            final(raw)@,
            payload@,
            is_binary,
            at,
            ms,
            url,
        ),
{
    lemma_received(
        old(client)@,
        old(raw)@,
        payload@,
        is_binary,
        at,
        ms,
        final(client)@,
        final(raw)@,
        url,
    );
}

/// Receiving a payload now, or injecting it, is receiving it at the time that the clocks say.
pub proof fn law_payload_is_taken_in_now(
    client: &mut ClientState,
    raw: &mut RawBuses,
    injected: &mut ClientState,
    injected_raw: &mut RawBuses,
    payload: Vec<u8>,
    is_binary: bool,
    url: Seq<char>,
)
    requires
        call_ensures(ClientState::receive_payload, (client, raw, payload, is_binary), ()),
        call_ensures(
            ClientState::mock_inject_raw,
            (injected, injected_raw, payload, is_binary),
            (),
        ),
    ensures
        exists|at: Instant, ms: i64|
            is_reading(ms) && #[trigger] takes_in(
                old(client)@,
                final(client)@,
                old(raw)@,
                final(raw)@,
                payload@,
                is_binary,
                at,
                ms,
                url,
            ),
        exists|at: Instant, ms: i64|
            is_reading(ms) && #[trigger] takes_in(
                old(injected)@,
                final(injected)@,
                old(injected_raw)@,
                final(injected_raw)@,
                payload@,
                is_binary,
                at,
                ms,
                url,
            ),
{
    let before = old(client)@;
    let raw_before = old(raw)@;
    let after = final(client)@;
    let raw_after = final(raw)@;
    let (at, ms) = choose|at: Instant, ms: i64|
        is_reading(ms) && #[trigger] received(
            before,
            raw_before,
            payload@,
            is_binary,
            at,
            ms,
            after,
            raw_after,
        );
    lemma_received(before, raw_before, payload@, is_binary, at, ms, after, raw_after, url);
    let before = old(injected)@;
    let raw_before = old(injected_raw)@;
    let after = final(injected)@;
    let raw_after = final(injected_raw)@;
    let (at, ms) = choose|at: Instant, ms: i64|
        is_reading(ms) && #[trigger] received(
            before,
            raw_before,
            payload@,
            is_binary,
            at,
            ms,
            after,
            raw_after,
        );
    lemma_received(before, raw_before, payload@, is_binary, at, ms, after, raw_after, url);
}

/// Whether what the socket brings was dealt with: messages are taken in, a ping is answered with a
/// pong that holds the same payload, a pong is noted, a close closes, errors and the end of the
/// stream end the client with their texts, and anything else does nothing. Only messages reach
/// observers.
pub open spec fn deals_with(
    before: ClientView,
    after: ClientView,
    raw_before: RawView,
    raw_after: RawView,
    inbound: Inbound,
    url: Seq<char>,
) -> bool {
    match inbound {
        Inbound::Text(payload) => exists|at: Instant, ms: i64|
            is_reading(ms) && #[trigger] takes_in(
                before,
                after,
                raw_before,
                raw_after,
                payload@,
                false,
                at,
                ms,
                url,
            ),
        Inbound::Binary(payload) => exists|at: Instant, ms: i64|
            is_reading(ms) && #[trigger] takes_in(
                before,
                after,
                raw_before,
                raw_after,
                payload@,
                true,
                at,
                ms,
                url,
            ),
        Inbound::Ping(payload) => raw_after == raw_before && exists|room: nat, sent: bool|
            bytes_have_room(payload, room) && #[trigger] goes_out(
                before,
                after,
                Frame::Pong(payload@),
                payload@.len(),
                room,
                sent,
            ),
        Inbound::Pong => {
            &&& raw_after == raw_before
            &&& is_reading(after.last_pong_ms)
            &&& after == (ClientView { last_pong_ms: after.last_pong_ms, ..before })
        },
        Inbound::Close => raw_after == raw_before && closes(before, after),
        Inbound::Other => raw_after == raw_before && after == before,
        Inbound::Failed(error, detail) => raw_after == raw_before && ends(
            before,
            after,
            if error is Other {
                FailureSource::Internal
            } else {
                FailureSource::TransportTerminal
            },
            "[NetworkError] reader: "@ + detail@,
        ),
        Inbound::End => raw_after == raw_before && ends(
            before,
            after,
            FailureSource::TransportTerminal,
            "[NetworkError] reader reached EOF"@,
        ),
    }
}

proof fn lemma_handled(
    before: ClientView,
    raw: RawView,
    inbound: Inbound,
    after: ClientView,
    raw_after: RawView,
    url: Seq<char>,
)
    requires
        crate::inbound::handled(before, raw, inbound, after, raw_after),
    ensures
        deals_with(before, after, raw, raw_after, inbound, url),
{
    match inbound {
        Inbound::Text(payload) => {
            let (at, ms) = choose|at: Instant, ms: i64|
                is_reading(ms) && #[trigger] received(
                    before,
                    raw,
                    payload@,
                    false,
                    at,
                    ms,
                    after,
                    raw_after,
                );
            lemma_received(before, raw, payload@, false, at, ms, after, raw_after, url);
        },
        Inbound::Binary(payload) => {
            let (at, ms) = choose|at: Instant, ms: i64|
                is_reading(ms) && #[trigger] received(
                    before,
                    raw,
                    payload@,
                    true,
                    at,
                    ms,
                    after,
                    raw_after,
                );
            lemma_received(before, raw, payload@, true, at, ms, after, raw_after, url);
        },
        Inbound::Ping(payload) => {
            let room = choose|room: nat|
                room >= payload@.len() && bytes_have_room(payload, room) && after
                    == #[trigger] before.send(Frame::Pong(payload@), room);
            assert(goes_out(
                before,
                after,
                Frame::Pong(payload@),
                payload@.len(),
                room,
                before.sends(Frame::Pong(payload@), room),
            ));
        },
        _ => {},
    }
}

/// What the socket brings is dealt with as its kind asks, and reading goes on exactly while the
/// client is open. At the registry it is dealt with by the client that is named, and by no other;
/// without such a client nothing happens.
pub proof fn law_inbound_is_dealt_with(
    client: &mut ClientState,
    raw: &mut RawBuses,
    inbound: Inbound,
    goes_on: bool,
    transport: &mut Transport,
    generation: u64,
    still: bool,
    url: Seq<char>,
)
    requires
        call_ensures(ClientState::on_inbound, (client, raw, inbound), goes_on),
        old(transport)@.wf(),
        call_ensures(Transport::on_inbound, (transport, generation, inbound), still),
    ensures
        deals_with(old(client)@, final(client)@, old(raw)@, final(raw)@, inbound, url),
        goes_on == !final(client)@.closed,
        ({
            let before = old(transport)@;
            let after = final(transport)@;
            if before.clients.dom().contains(generation) {
                &&& deals_with(
                    before.clients[generation],
                    after.clients[generation],
                    before.raw,
                    after.raw,
                    inbound,
                    url,
                )
                &&& still == !after.clients[generation].closed
                &&& after.clients.dom() == before.clients.dom()
                &&& after.clients.remove(generation) == before.clients.remove(generation)
                &&& after == (TransportView { clients: after.clients, raw: after.raw, ..before })
            } else {
                !still && after == before
            }
        }),
{
    lemma_handled(old(client)@, old(raw)@, inbound, final(client)@, final(raw)@, url);
    let before = old(transport)@;
    let after = final(transport)@;
    if before.clients.dom().contains(generation) {
        lemma_handled(
            before.clients[generation],
            before.raw,
            inbound,
            after.clients[generation],
            after.raw,
            url,
        );
        assert(after.clients.dom() =~= before.clients.dom());
        assert(after.clients.remove(generation) =~= before.clients.remove(generation));
    }
}

/// A payload that is injected at the registry is taken in by the client that is named, and by no
/// other; without such a client nothing happens.
pub proof fn law_injected_payload_is_taken_in(
    transport: &mut Transport,
    generation: u64,
    payload: Vec<u8>,
    is_binary: bool,
    url: Seq<char>,
)
    requires
        old(transport)@.wf(),
        call_ensures(Transport::mock_inject_raw, (transport, generation, payload, is_binary), ()),
    ensures
        ({
            let before = old(transport)@;
            let after = final(transport)@;
            if before.clients.dom().contains(generation) {
                &&& exists|at: Instant, ms: i64|
                    is_reading(ms) && #[trigger] takes_in(
                        before.clients[generation],
                        after.clients[generation],
                        before.raw,
                        after.raw,
                        payload@,
                        is_binary,
                        at,
                        ms,
                        url,
                    )
                &&& after.clients.dom() == before.clients.dom()
                &&& after.clients.remove(generation) == before.clients.remove(generation)
                &&& after == (TransportView { clients: after.clients, raw: after.raw, ..before })
            } else {
                after == before
            }
        }),
{
    let before = old(transport)@;
    let after = final(transport)@;
    if before.clients.dom().contains(generation) {
        let client = before.clients[generation];
        let client_after = after.clients[generation];
        let raw = before.raw;
        let raw_after = after.raw;
        let (at, ms) = choose|at: Instant, ms: i64|
            is_reading(ms) && #[trigger] received(
                client,
                raw,
                payload@,
                is_binary,
                at,
                ms,
                client_after,
                raw_after,
            );
        lemma_received(client, raw, payload@, is_binary, at, ms, client_after, raw_after, url);
        assert(after.clients.dom() =~= before.clients.dom());
        assert(after.clients.remove(generation) =~= before.clients.remove(generation));
    }
}

/// Whether every channel that is kept answered that it has a receiver, and is otherwise as it was,
/// and no channel came.
pub open spec fn keeps_observed(before: RawView, after: RawView, url: Seq<char>) -> bool {
    &&& after.all == before.all
    &&& after.buses.dom().contains(url) ==> {
        &&& before.buses.dom().contains(url)
        &&& after.buses[url].counts.len() == before.buses[url].counts.len() + 1
        &&& after.buses[url].counts.drop_last() == before.buses[url].counts
        &&& after.buses[url].counts.last() > 0
        &&& after.buses[url] == (BusView { counts: after.buses[url].counts, ..before.buses[url] })
    }
}

proof fn lemma_keeps_observed(raw: RawView, counts: Map<Seq<char>, nat>, url: Seq<char>)
    ensures
        keeps_observed(raw, raw.reclaimed(counts), url),
{
    if raw.reclaimed(counts).buses.dom().contains(url) {
        assert(raw.reclaimed(counts).buses[url].counts.drop_last() =~= raw.buses[url].counts);
    }
}

/// Reclaiming keeps the channels that answer that they have a receiver, as they are, and brings
/// none.
pub proof fn law_reclaim_keeps_what_is_observed(raw: &mut RawBuses, url: Seq<char>)
    requires
        call_ensures(reclaim_raw_buses, (raw,), ()),
    ensures
        keeps_observed(old(raw)@, final(raw)@, url),
{
    let before = old(raw)@;
    let after = final(raw)@;
    let counts = choose|counts: Map<Seq<char>, nat>| after == #[trigger] before.reclaimed(counts);
    lemma_keeps_observed(before, counts, url);
}

/// Given how many receivers each channel has, exactly those with some are kept, as they are.
pub proof fn law_retained_are_those_with_receivers(
    raw: &mut RawBuses,
    receivers: Vec<usize>,
    url: Seq<char>,
)
    requires
        receivers@.len() == old(raw).order().len(),
        call_ensures(RawBuses::retain_observed, (raw, &receivers), ()),
    ensures
        final(raw)@.buses.dom().contains(url) == (old(raw)@.buses.dom().contains(url) && exists|
            i: int,
        |
            0 <= i < receivers@.len() && #[trigger] old(raw).order()[i] == url && receivers@[i]
                != 0),
        final(raw)@.buses.dom().contains(url) ==> final(raw)@.buses[url] == old(raw)@.buses[url],
        final(raw)@.all == old(raw)@.all,
{
}

/// Whether an observer was attached to a URL: a URL beyond 4096 bytes is refused; otherwise channels
/// without receivers go, and the URL has a channel, its own where it had one and a new one with room
/// for 64 frames where it had none, unless 256 others are kept. The receiver hears that channel, from
/// what is sent on it next.
pub open spec fn attaches(
    before: RawView,
    after: RawView,
    url: Seq<char>,
    answer: Result<broadcast::Receiver<RawFrame>, String>,
    other: Seq<char>,
) -> bool {
    if encode_utf8(url).len() > 4096 {
        &&& after == before
        &&& answer is Err
        &&& answer->Err_0@ == "[NetworkError] raw observer URL exceeds limit"@
    } else {
        &&& after.all == before.all
        &&& other != url ==> keeps_observed(before, after, other)
        &&& answer is Ok ==> {
            &&& after.buses.dom().contains(url)
            &&& heard_channel(answer->Ok_0) == after.buses[url].channel
            &&& sent_before(answer->Ok_0) == after.buses[url].sent
            &&& keeps_observed(before, after, url) || after.buses[url] == (BusView {
                channel: after.buses[url].channel,
                offered: Seq::empty(),
                sent: Seq::empty(),
                counts: Seq::empty(),
                lengths: Seq::empty(),
                room: 64,
                overflow: 0,
            })
        }
        &&& answer is Err ==> {
            &&& answer->Err_0@ == "[NetworkError] raw observer URL registry is full"@
            &&& !after.buses.dom().contains(url)
            &&& after.buses.dom().len() >= 256
        }
        &&& after.buses.dom().len() <= 256
    }
}

proof fn lemma_attached(
    before: RawView,
    url: Seq<char>,
    answer: Result<broadcast::Receiver<RawFrame>, String>,
    after: RawView,
    other: Seq<char>,
)
    requires
        before.within_bounds(),
        encode_utf8(url).len() <= 4096,
        exists|counts: Map<Seq<char>, nat>|
            crate::raw::raw_attached(before, url, counts, answer, after),
    ensures
        attaches(before, after, url, answer, other),
{
    let counts = choose|counts: Map<Seq<char>, nat>|
        crate::raw::raw_attached(before, url, counts, answer, after);
    let left = before.reclaimed(counts);
    lemma_keeps_observed(before, counts, url);
    lemma_keeps_observed(before, counts, other);
    assert(left.buses.dom().subset_of(before.buses.dom()));
    vstd::set_lib::lemma_len_subset(left.buses.dom(), before.buses.dom());
    if answer is Ok {
        if !left.buses.dom().contains(url) {
            assert(after.buses.dom() =~= left.buses.dom().insert(url));
        }
    }
}

/// Observing a URL attaches an observer to it.
pub proof fn law_observer_is_attached(
    raw: &mut RawBuses,
    also: &mut RawBuses,
    url: &str,
    answer: Result<broadcast::Receiver<RawFrame>, String>,
    other_answer: Result<broadcast::Receiver<RawFrame>, String>,
    other: Seq<char>,
)
    requires
        old(raw)@.within_bounds(),
        call_ensures(subscribe_raw, (raw, url), answer),
        old(also)@.within_bounds(),
        call_ensures(raw_bus, (also, url), other_answer),
    ensures
        attaches(old(raw)@, final(raw)@, url@, answer, other),
        attaches(old(also)@, final(also)@, url@, other_answer, other),
{
    if encode_utf8(url@).len() <= 4096 {
        lemma_attached(old(raw)@, url@, answer, final(raw)@, other);
        lemma_attached(old(also)@, url@, other_answer, final(also)@, other);
    }
}

/// Observing all URLs gives a receiver on their one channel, from what is sent on it next. The
/// channel stays what it is where there is one, and is new, with room for 256 frames, where there is
/// none. No URL is touched.
pub proof fn law_observer_of_all_is_attached(
    raw: &mut RawBuses,
    receiver: broadcast::Receiver<RawFrame>,
)
    requires
        call_ensures(subscribe_raw_all, (raw,), receiver),
    ensures
        final(raw)@.buses == old(raw)@.buses,
        final(raw)@.all is Some,
        heard_channel(receiver) == final(raw)@.all->0.channel,
        sent_before(receiver) == final(raw)@.all->0.sent,
        old(raw)@.all is Some ==> final(raw)@.all == old(raw)@.all,
        old(raw)@.all is None ==> final(raw)@.all->0 == (BusView {
            channel: final(raw)@.all->0.channel,
            offered: Seq::empty(),
            sent: Seq::empty(),
            counts: Seq::empty(),
            lengths: Seq::empty(),
            room: 256,
            overflow: 0,
        }),
{
}

/// What is counted is read as it is, nothing where there is no channel; and one more is counted
/// exactly where as many frames are still to be seen as there is room for.
pub proof fn law_overflow_is_read_as_it_is(
    raw: RawBuses,
    url: &str,
    count: u64,
    at_all: u64,
    found: bool,
    len: usize,
    fresh: RawBuses,
    counted: u64,
    queued: usize,
    room: usize,
    next: u64,
)
    requires
        call_ensures(raw_overflow_count, (&raw, url), count),
        call_ensures(raw_all_overflow_count, (&raw,), at_all),
        call_ensures(RawBuses::has_url, (&raw, url), found),
        call_ensures(RawBuses::len, (&raw,), len),
        call_ensures(RawBuses::new, (), fresh),
        call_ensures(overflow_after, (counted, queued, room), next),
    ensures
        found == raw@.buses.dom().contains(url@),
        found ==> count == raw@.buses[url@].overflow,
        !found ==> count == 0,
        raw@.all is Some ==> at_all == raw@.all->0.overflow,
        raw@.all is None ==> at_all == 0,
        len == raw@.buses.dom().len() && len <= 256,
        fresh@.all is None && !fresh@.buses.dom().contains(url@),
        queued >= room && counted < u64::MAX ==> next == counted + 1,
        queued >= room && counted == u64::MAX ==> next == 0,
        queued < room ==> next == counted,
{
}

/// Whether the channel of a URL, when it was asked how many receivers it has, answered that it has
/// none.
pub open spec fn answered_none(before: RawView, url: Seq<char>) -> bool {
    exists|sender: broadcast::Sender<RawFrame>| #[trigger]
        channel_counts(sender) == before.buses[url].counts.push(0) && channel_id(sender)
            == before.buses[url].channel
}

/// Whether a URL that has a channel still has the same one, or its channel answered that it has no
/// receiver.
pub open spec fn keeps_channel(before: RawView, after: RawView, url: Seq<char>) -> bool {
    before.buses.dom().contains(url) ==> {
        ||| after.buses.dom().contains(url) && after.buses[url].channel == before.buses[url].channel
        ||| answered_none(before, url)
    }
}

proof fn lemma_keeps_channel(before: RawView, after: RawView, url: Seq<char>)
    requires
        before.loses_unobserved(after),
    ensures
        keeps_channel(before, after, url),
{
    if before.buses.dom().contains(url) && crate::raw::stands(before.buses[url].counted(0)) {
        let sender = choose|sender: broadcast::Sender<RawFrame>|
            {
                &&& channel_id(sender) == before.buses[url].channel
                &&& #[trigger] channel_counts(sender) == before.buses[url].counted(0).counts
            };
        assert(channel_counts(sender) == before.buses[url].counts.push(0));
    }
}

/// No channel that has a receiver is lost by publishing, reclaiming or observing.
pub proof fn law_observed_channel_is_not_lost(
    published: &mut RawBuses,
    frame: RawFrame,
    reclaimed: &mut RawBuses,
    observed: &mut RawBuses,
    bus: &mut RawBuses,
    at: &str,
    answer: Result<broadcast::Receiver<RawFrame>, String>,
    all: &mut RawBuses,
    receiver: broadcast::Receiver<RawFrame>,
    url: Seq<char>,
)
    requires
        call_ensures(RawBuses::publish, (published, frame), ()),
        call_ensures(reclaim_raw_buses, (reclaimed,), ()),
        call_ensures(subscribe_raw, (observed, at), answer),
        call_ensures(raw_bus, (bus, at), answer),
        call_ensures(subscribe_raw_all, (all,), receiver),
    ensures
        keeps_channel(old(published)@, final(published)@, url),
        keeps_channel(old(reclaimed)@, final(reclaimed)@, url),
        keeps_channel(old(observed)@, final(observed)@, url),
        keeps_channel(old(bus)@, final(bus)@, url),
        keeps_channel(old(all)@, final(all)@, url),
{
    lemma_keeps_channel(old(published)@, final(published)@, url);
    lemma_keeps_channel(old(reclaimed)@, final(reclaimed)@, url);
    lemma_keeps_channel(old(observed)@, final(observed)@, url);
    lemma_keeps_channel(old(bus)@, final(bus)@, url);
}

/// No channel that has a receiver is lost by what a client receives.
pub proof fn law_receiving_loses_no_observed_channel(
    client: ClientState,
    changed: &mut ClientState,
    handed: &mut RawBuses,
    received_at: &mut RawBuses,
    received_now: &mut RawBuses,
    injected: &mut RawBuses,
    brought: &mut RawBuses,
    payload: Vec<u8>,
    is_binary: bool,
    at: Instant,
    ms: i64,
    inbound: Inbound,
    goes_on: bool,
    url: Seq<char>,
)
    requires
        call_ensures(ClientState::observe_raw, (&client, handed, payload, is_binary, at, ms), ()),
        call_ensures(
            ClientState::receive_payload_at,
            (changed, received_at, payload, is_binary, at, ms),
            (),
        ),
        call_ensures(
            ClientState::receive_payload,
            (changed, received_now, payload, is_binary),
            (),
        ),
        call_ensures(ClientState::mock_inject_raw, (changed, injected, payload, is_binary), ()),
        call_ensures(ClientState::on_inbound, (changed, brought, inbound), goes_on),
    ensures
        keeps_channel(old(handed)@, final(handed)@, url),
        keeps_channel(old(received_at)@, final(received_at)@, url),
        keeps_channel(old(received_now)@, final(received_now)@, url),
        keeps_channel(old(injected)@, final(injected)@, url),
        keeps_channel(old(brought)@, final(brought)@, url),
{
    lemma_keeps_channel(old(handed)@, final(handed)@, url);
    lemma_keeps_channel(old(received_at)@, final(received_at)@, url);
    lemma_keeps_channel(old(received_now)@, final(received_now)@, url);
    lemma_keeps_channel(old(injected)@, final(injected)@, url);
    lemma_keeps_channel(old(brought)@, final(brought)@, url);
}

/// No channel that has a receiver is lost by what comes for a client, by dropping one, or by the end
/// of a shutdown or of an owner.
pub proof fn law_registry_loses_no_observed_channel(
    brought: &mut Transport,
    injected: &mut Transport,
    generation: u64,
    inbound: Inbound,
    goes_on: bool,
    payload: Vec<u8>,
    is_binary: bool,
    dropped: &mut Transport,
    active: u64,
    at: &str,
    run: JoinRun,
    finished: &mut Transport,
    report: ScopeJoinReport,
    scope: ClientScope,
    released: &mut Transport,
    url: Seq<char>,
)
    requires
        old(brought)@.wf(),
        call_ensures(Transport::on_inbound, (brought, generation, inbound), goes_on),
        old(injected)@.wf(),
        call_ensures(Transport::mock_inject_raw, (injected, generation, payload, is_binary), ()),
        old(dropped)@.wf(),
        call_ensures(drop_client, (dropped, active, at), ()),
        old(finished)@.wf(),
        call_ensures(JoinRun::finish, (run, finished), report),
        old(released)@.wf(),
        call_ensures(ClientScope::release, (scope, released), ()),
    ensures
        keeps_channel(old(brought)@.raw, final(brought)@.raw, url),
        keeps_channel(old(injected)@.raw, final(injected)@.raw, url),
        keeps_channel(old(dropped)@.raw, final(dropped)@.raw, url),
        keeps_channel(old(finished)@.raw, final(finished)@.raw, url),
        keeps_channel(old(released)@.raw, final(released)@.raw, url),
{
    lemma_keeps_channel(old(brought)@.raw, final(brought)@.raw, url);
    lemma_keeps_channel(old(injected)@.raw, final(injected)@.raw, url);
    lemma_keeps_channel(old(dropped)@.raw, final(dropped)@.raw, url);
    lemma_keeps_channel(old(finished)@.raw, final(finished)@.raw, url);
    lemma_keeps_channel(old(released)@.raw, final(released)@.raw, url);
}

} // verus!
