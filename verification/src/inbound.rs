//! What a client does with what the socket brings.

use std::time::Instant;

use vstd::prelude::*;

use crate::bounds::{bytes_have_room, chargeable, decode, decoding, weighed};
use crate::client::ClientState;
use crate::client_view::ClientView;
use crate::clock::{instant_now, is_reading, now_ms};
use crate::events::Inbound;
use crate::lifecycle::FailureSource;
use crate::outgoing::{Frame, Message};
use crate::raw::{raw_published, RawBuses, RawFrame, RawFrameView, RawView};

verus! {

/// `Vec::into_boxed_slice`: the same bytes, in an allocation without spare room.
#[verifier::external_body]
fn boxed_bytes(bytes: Vec<u8>) -> (boxed: Box<[u8]>)
    ensures
        boxed@ == bytes@,
{
    bytes.into_boxed_slice()
}

/// The raw frame of a payload that a client receives.
pub open spec fn raw_frame(
    client: ClientView,
    payload: Seq<u8>,
    is_binary: bool,
    ingress_at: Instant,
    ingress_unix_ms: i64,
) -> RawFrameView {
    RawFrameView {
        url: client.url,
        generation: client.generation,
        ingress_at,
        ingress_unix_ms,
        is_binary,
        payload,
    }
}

/// What a payload does: a closed client ignores it, one that does not decode ends the client, and
/// any other goes to the observers and into the inbound queue.
pub open spec fn received(
    client: ClientView,
    raw: RawView,
    payload: Seq<u8>,
    is_binary: bool,
    ingress_at: Instant,
    ingress_unix_ms: i64,
    client_after: ClientView,
    raw_after: RawView,
) -> bool {
    if client.closed {
        client_after == client && raw_after == raw
    } else {
        match decoding(payload, is_binary) {
            Ok(tree) => {
                &&& raw_published(
                    raw,
                    raw_frame(client, payload, is_binary, ingress_at, ingress_unix_ms),
                    raw_after,
                )
                &&& exists|charge: nat| #[trigger]
                    chargeable(tree, charge) && weighed(tree, charge) && client_after
                        == client.push_incoming(tree, charge)
            },
            Err(message) => {
                &&& client_after == client.fail(FailureSource::Internal, message)
                &&& raw_after == raw
            },
        }
    }
}

/// What the socket brings, and what comes of it.
pub open spec fn handled(
    client: ClientView,
    raw: RawView,
    inbound: Inbound,
    client_after: ClientView,
    raw_after: RawView,
) -> bool {
    match inbound {
        Inbound::Text(payload) => exists|at: Instant, ms: i64|
            is_reading(ms) && #[trigger] received(
                client,
                raw,
                payload@,
                false,
                at,
                ms,
                client_after,
                raw_after,
            ),
        Inbound::Binary(payload) => exists|at: Instant, ms: i64|
            is_reading(ms) && #[trigger] received(
                client,
                raw,
                payload@,
                true,
                at,
                ms,
                client_after,
                raw_after,
            ),
        Inbound::Ping(payload) => raw_after == raw && exists|retained: nat|
            retained >= payload@.len() && bytes_have_room(payload, retained) && client_after
                == #[trigger] client.send(Frame::Pong(payload@), retained),
        Inbound::Pong => raw_after == raw && exists|now: i64|
            is_reading(now) && client_after == #[trigger] client.pong(now),
        Inbound::Close => raw_after == raw && client_after == client.request_close(),
        Inbound::Other => raw_after == raw && client_after == client,
        Inbound::Failed(error, detail) => raw_after == raw && client_after == client.fail(
            if error.is_terminal() {
                FailureSource::TransportTerminal
            } else {
                FailureSource::Internal
            },
            "[NetworkError] reader: "@ + detail@,
        ),
        Inbound::End => raw_after == raw && client_after == client.fail(
            FailureSource::TransportTerminal,
            "[NetworkError] reader reached EOF"@,
        ),
    }
}

impl ClientState {
    /// Hands a payload to those who observe this client's URL, and to those who observe all. The
    /// reader is never held up: a full channel gives its oldest frame up, and counts that.
    pub fn observe_raw(
        &self,
        raw: &mut RawBuses,
        payload: Vec<u8>,
        is_binary: bool,
        ingress_at: Instant,
        ingress_unix_ms: i64,
    )
        ensures
            raw_published(
                old(raw)@,
                raw_frame(self@, payload@, is_binary, ingress_at, ingress_unix_ms),
                final(raw)@,
            ),
            old(raw)@.loses_unobserved(final(raw)@),
    {
        let frame = RawFrame {
            url: self.url().clone(),
            generation: self.generation(),
            ingress_at,
            ingress_unix_ms,
            is_binary,
            payload,
        };
        raw.publish(frame);
    }

    /// Receives a payload at the given instant.
    pub fn receive_payload_at(
        &mut self,
        raw: &mut RawBuses,
        payload: Vec<u8>,
        is_binary: bool,
        ingress_at: Instant,
        ingress_unix_ms: i64,
    )
        ensures
            received(
                old(self)@,
                old(raw)@,
                payload@,
                is_binary,
                ingress_at,
                ingress_unix_ms,
                final(self)@,
                final(raw)@,
            ),
            old(raw)@.loses_unobserved(final(raw)@),
    {
        if self.is_closed() {
            return;
        }
        match decode(payload.as_slice(), is_binary) {
            Ok(value) => {
                // A tiny payload must not keep a large allocation alive in the channel.
                let payload = boxed_bytes(payload).into_vec();
                self.observe_raw(raw, payload, is_binary, ingress_at, ingress_unix_ms);
                self.push_incoming(value);
            },
            Err(message) => {
                self.fail(FailureSource::Internal, message);
            },
        }
    }

    /// Receives a payload now.
    pub fn receive_payload(&mut self, raw: &mut RawBuses, payload: Vec<u8>, is_binary: bool)
        ensures
            exists|at: Instant, ms: i64|
                is_reading(ms) && #[trigger] received(
                    old(self)@,
                    old(raw)@,
                    payload@,
                    is_binary,
                    at,
                    ms,
                    final(self)@,
                    final(raw)@,
                ),
            old(raw)@.loses_unobserved(final(raw)@),
    {
        let ingress_at = instant_now();
        let ingress_unix_ms = now_ms();
        self.receive_payload_at(raw, payload, is_binary, ingress_at, ingress_unix_ms);
    }

    /// Injects a payload as the socket would bring it.
    pub fn mock_inject_raw(&mut self, raw: &mut RawBuses, payload: Vec<u8>, is_binary: bool)
        ensures
            exists|at: Instant, ms: i64|
                is_reading(ms) && #[trigger] received(
                    old(self)@,
                    old(raw)@,
                    payload@,
                    is_binary,
                    at,
                    ms,
                    final(self)@,
                    final(raw)@,
                ),
            old(raw)@.loses_unobserved(final(raw)@),
    {
        self.receive_payload(raw, payload, is_binary);
    }

    /// Takes what the socket brings. False where reading is over.
    pub fn on_inbound(&mut self, raw: &mut RawBuses, inbound: Inbound) -> (goes_on: bool)
        ensures
            handled(old(self)@, old(raw)@, inbound, final(self)@, final(raw)@),
            goes_on == !final(self)@.closed,
            old(raw)@.loses_unobserved(final(raw)@),
    {
        match inbound {
            Inbound::Text(payload) => self.receive_payload(raw, payload, false),
            Inbound::Binary(payload) => self.receive_payload(raw, payload, true),
            Inbound::Pong => self.on_pong(),
            Inbound::Ping(payload) => {
                self.send_message(Message::Pong(payload));
            },
            Inbound::Close => self.request_close(),
            Inbound::Failed(error, detail) => self.reader_failed(error, detail.as_str()),
            Inbound::End => self.reader_ended(),
            Inbound::Other => {},
        }
        !self.is_closed()
    }
}

/// A payload that does not decode reaches no observer and no queue, and ends the client.
pub proof fn law_undecodable_payload_is_terminal(
    client: ClientView,
    raw: RawView,
    payload: Seq<u8>,
    is_binary: bool,
    at: Instant,
    ms: i64,
    client_after: ClientView,
    raw_after: RawView,
)
    requires
        received(client, raw, payload, is_binary, at, ms, client_after, raw_after),
        !client.closed,
        decoding(payload, is_binary) is Err,
    ensures
        client_after.closed,
        client_after.error is Some,
        client_after.incoming.len() == 0,
        raw_after == raw,
{
}

/// A payload that decodes is handed, as it arrived, once to the channel of the client's URL, where
/// that keeps one, and once to the channel for all URLs, where there is one. That holds whether the
/// inbound queue then takes the value or not.
pub proof fn law_decoded_payload_reaches_observers(
    client: ClientView,
    raw: RawView,
    payload: Seq<u8>,
    is_binary: bool,
    at: Instant,
    ms: i64,
    client_after: ClientView,
    raw_after: RawView,
)
    requires
        received(client, raw, payload, is_binary, at, ms, client_after, raw_after),
        !client.closed,
        decoding(payload, is_binary) is Ok,
    ensures
        raw_after.buses.dom().contains(client.url) ==> raw.buses.dom().contains(client.url)
            && raw_after.buses[client.url].offered == raw.buses[client.url].offered.push(
            raw_frame(client, payload, is_binary, at, ms),
        ),
        raw.all is Some ==> raw_after.all is Some && raw_after.all->0.offered
            == raw.all->0.offered.push(raw_frame(client, payload, is_binary, at, ms)),
        raw.all is None ==> raw_after.all is None,
{
}

/// Reading is over where the peer closes, where the socket fails and where the stream ends.
pub proof fn law_reading_ends(
    client: ClientView,
    raw: RawView,
    inbound: Inbound,
    client_after: ClientView,
    raw_after: RawView,
)
    requires
        handled(client, raw, inbound, client_after, raw_after),
        inbound is Close || inbound is Failed || inbound is End,
    ensures
        client_after.closed,
        raw_after == raw,
{
}

} // verus!
