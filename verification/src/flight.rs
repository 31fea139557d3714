//! Waiting for a flight: what a waiter does next.

use vstd::prelude::*;
use vstd::string::*;

use crate::bridge::{flight_hash, flight_hash_of, is_led, route_handle, url_of};
use crate::bridge::{law_foreign_reference_reaches_nothing, law_stale_reference_reaches_nothing};
use crate::client::maybe_outcome;
use crate::client_view::ClientView;
use crate::json::{json_form, json_rendering};
use crate::transport::{get_client, Transport, TransportView};
use crate::value::{Tree, Value};

verus! {

/// How long one waits for a flight at a mock, in milliseconds.
pub const MOCK_FLIGHT_BUDGET_MS: u64 = 1500;

/// How long one waits for a flight, in milliseconds.
pub const FLIGHT_BUDGET_MS: u64 = 60_000;

/// What a waiter does next.
pub enum FlightStep {
    /// It has this value.
    Done(Value),
    /// It fails with this text.
    Failed(String),
    /// It waits.
    Wait,
}

/// A flight that is waited for.
pub struct PendingFlight {
    pub generation: u64,
    pub url: String,
    pub hash: String,
    pub budget_ms: u64,
}

/// How waiting begins.
pub enum FlightStart {
    /// There is nothing to wait for.
    Settled(FlightStep),
    /// There is this flight to wait for.
    Pending(PendingFlight),
}

/// The text of an error: a text as it is, anything else as JSON.
pub open spec fn complaint(error: Tree) -> Seq<char> {
    match error {
        Tree::Str(text) => text,
        other => json_rendering(json_form(other)),
    }
}

/// The text of an error.
pub fn complaint_of(error: &Value) -> (text: String)
    ensures
        text@ == complaint(error@),
{
    match error {
        Value::Str(text) => text.clone(),
        other => other.json_text(),
    }
}

/// Whether a step is what an outcome asks for: a value is handed on, an error fails the waiter,
/// and without either there is nothing to have.
pub open spec fn hands_on(step: FlightStep, outcome: Option<Result<Tree, Tree>>) -> bool {
    match (step, outcome) {
        (FlightStep::Done(value), Some(Ok(tree))) => value@ == tree,
        (FlightStep::Failed(text), Some(Err(error))) => text@ == complaint(error),
        (FlightStep::Done(value), None) => value@ is Null,
        _ => false,
    }
}

/// What an outcome asks for.
pub fn hand_on(outcome: Option<Result<Value, Value>>) -> (step: FlightStep)
    ensures
        hands_on(step, maybe_outcome(outcome)),
{
    match outcome {
        Some(Ok(value)) => FlightStep::Done(value),
        Some(Err(error)) => FlightStep::Failed(complaint_of(&error)),
        None => FlightStep::Done(Value::Null),
    }
}

impl TransportView {
    /// The client that a handle for `url` waits at. A handle with a reference waits at the client
    /// that the reference reaches. One without was made before there was an open client: it waits
    /// at the one that the URL has by now, where the owner `active` has it.
    pub open spec fn awaited_at(self, active: u64, handle: Tree, url: Seq<char>) -> Option<u64> {
        match handle.text_field("__ws_client_ref"@) {
            Some(reference) => self.routed(active, reference),
            None => match self.live(url) {
                Some(generation) => if self.clients[generation].scope_id == active {
                    Some(generation)
                } else {
                    None
                },
                None => None,
            },
        }
    }
}

/// The client that a handle for `url` waits at.
fn awaited(transport: &Transport, active: u64, handle: &Value, url: &str) -> (generation: Option<
    u64,
>)
    requires
        transport@.wf(),
    ensures
        generation == transport@.awaited_at(active, handle@, url@),
{
    match handle.text_field("__ws_client_ref") {
        Some(_) => route_handle(transport, active, handle),
        None => match get_client(transport, url) {
            Some(client) => {
                proof {
                    assert(transport@.registration_wf(url@));
                }
                if client.scope_id() == active {
                    Some(client.generation())
                } else {
                    None
                }
            },
            None => None,
        },
    }
}

/// How waiting on a handle begins.
///
/// A handle that names no flight, or reaches no client, has nothing to wait for. A leader never
/// waits for itself: it takes the last outcome, or nothing where it found nothing to do. Anyone
/// else waits while the flight is open.
pub open spec fn begins(
    transport: TransportView,
    active: u64,
    handle: Tree,
    start: FlightStart,
) -> bool {
    let url = handle.text_field("url"@);
    let awaited = match url {
        Some(url) => transport.awaited_at(active, handle, url),
        None => None,
    };
    match (url, flight_hash(handle), awaited) {
        (Some(url), Some(hash), Some(generation)) => {
            let client = transport.clients[generation];
            if is_led(handle) || !client.flight_open(hash) {
                start matches FlightStart::Settled(step) && hands_on(
                    step,
                    client.flight_outcome(hash),
                )
            } else {
                start matches FlightStart::Pending(pending) && {
                    &&& pending.generation == generation
                    &&& pending.url@ == url
                    &&& pending.hash@ == hash
                    &&& pending.budget_ms == if client.mock {
                        MOCK_FLIGHT_BUDGET_MS
                    } else {
                        FLIGHT_BUDGET_MS
                    }
                }
            }
        },
        _ => start matches FlightStart::Settled(step) && hands_on(step, None),
    }
}

/// Begins to wait on a handle.
pub fn ws_await_flight(transport: &Transport, active: u64, handle: &Value) -> (start: FlightStart)
    requires
        transport@.wf(),
    ensures
        begins(transport@, active, handle@, start),
{
    let url = match url_of(handle) {
        Some(url) => url,
        None => {
            return FlightStart::Settled(FlightStep::Done(Value::Null));
        },
    };
    let hash = match flight_hash_of(handle) {
        Some(hash) => hash,
        None => {
            return FlightStart::Settled(FlightStep::Done(Value::Null));
        },
    };
    let generation = match awaited(transport, active, handle, url.as_str()) {
        Some(generation) => generation,
        None => {
            return FlightStart::Settled(FlightStep::Done(Value::Null));
        },
    };
    let client = match transport.client(generation) {
        Some(client) => client,
        None => {
            return FlightStart::Settled(FlightStep::Done(Value::Null));
        },
    };
    let led = match handle.field("__ws_flight_led") {
        Some(Value::Bool(led)) => *led,
        _ => false,
    };
    if led || !client.flight_is_open(hash.as_str()) {
        return FlightStart::Settled(hand_on(client.flight_peek(hash.as_str())));
    }
    let budget_ms = if client.is_mock() {
        MOCK_FLIGHT_BUDGET_MS
    } else {
        FLIGHT_BUDGET_MS
    };
    FlightStart::Pending(PendingFlight { generation, url, hash, budget_ms })
}

/// What a waiter does once something happened: it takes what is settled, goes away with nothing
/// where the flight is over without an outcome, and waits otherwise.
pub open spec fn continues(
    transport: TransportView,
    generation: u64,
    hash: Seq<char>,
    step: FlightStep,
) -> bool {
    let client = transport.clients[generation];
    if !transport.clients.dom().contains(generation) {
        hands_on(step, None)
    } else if client.flight_outcome(hash) is None && client.flight_open(hash) {
        step is Wait
    } else {
        hands_on(step, client.flight_outcome(hash))
    }
}

impl PendingFlight {
    /// Looks again at the flight.
    pub fn poll(&self, transport: &Transport) -> (step: FlightStep)
        ensures
            continues(transport@, self.generation, self.hash@, step),
    {
        match transport.client(self.generation) {
            Some(client) => {
                let outcome = client.flight_peek(self.hash.as_str());
                if outcome.is_none() && client.flight_is_open(self.hash.as_str()) {
                    FlightStep::Wait
                } else {
                    hand_on(outcome)
                }
            },
            None => hand_on(None),
        }
    }

    /// What a waiter fails with whose time is up.
    pub fn timed_out(&self) -> (message: String)
        ensures
            message@ == "[NetworkError] timed out waiting for the in-flight '"@ + self.hash@
                + "' on "@ + self.url@,
    {
        let mut message = "[NetworkError] timed out waiting for the in-flight '".to_owned();
        message.append(self.hash.as_str());
        message.append("' on ");
        message.append(self.url.as_str());
        message
    }
}

/// A leader never waits on its own flight.
pub proof fn law_leader_never_waits(
    transport: TransportView,
    active: u64,
    handle: Tree,
    start: FlightStart,
)
    requires
        begins(transport, active, handle, start),
        is_led(handle),
    ensures
        start is Settled,
        !(start->Settled_0 is Wait),
{
}

/// A handle that was made for a client waits at that client or nowhere: once the client is closed
/// or replaced, not at the one that took its place.
pub proof fn law_stale_handle_waits_nowhere(
    transport: TransportView,
    active: u64,
    handle: Tree,
    url: Seq<char>,
    stale: ClientView,
)
    requires
        transport.wf(),
        handle.text_field("__ws_client_ref"@) == Some(stale.reference()),
        transport.live(stale.url) != Some(stale.generation) || stale.scope_id != active,
    ensures
        transport.awaited_at(active, handle, url) is None,
{
    if stale.scope_id != active {
        law_foreign_reference_reaches_nothing(transport, active, stale);
    } else {
        law_stale_reference_reaches_nothing(transport, active, stale);
    }
}

/// Once a flight is settled, every waiter that looks again gets the outcome, however often.
pub proof fn law_every_waiter_gets_the_outcome(
    transport: TransportView,
    generation: u64,
    hash: Seq<char>,
    outcome: Result<Tree, Tree>,
    step: FlightStep,
)
    requires
        transport.clients.dom().contains(generation),
        transport.clients[generation].flight_open(hash),
        continues(
            transport.with_client(
                generation,
                transport.clients[generation].settle(hash, outcome),
            ),
            generation,
            hash,
            step,
        ),
    ensures
        hands_on(step, Some(outcome)),
        !(step is Wait),
{
}

} // verus!
