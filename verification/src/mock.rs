//! The mock transport by URL: clients without a socket, whose texts are captured.

use vstd::prelude::*;

use crate::bounds::{chargeable, charged};
use crate::capture::captured;
use crate::client_laws::Operation;
use crate::client_view::ClientView;
use crate::clock::is_reading;
use crate::transport::{acquires, ensure_slot, get_client, Transport, TransportView};
use crate::value::{Tree, Value};

verus! {

/// Makes the client of `url` a connected one without a socket, whose texts are captured. Anything
/// left from before is dropped, so that each fixture starts fresh.
pub fn mock_setup(transport: &mut Transport, active: u64, url: &str) -> (answer: Result<
    u64,
    String,
>)
    requires
        old(transport)@.wf(),
        old(transport)@.next_generation < u64::MAX,
    ensures
        acquires(answer, old(transport)@.acquisition(active, url@)),
        exists|now: i64|
            is_reading(now) && #[trigger] mock_set_up(
                old(transport)@,
                active,
                url@,
                now,
                final(transport)@,
            ),
        final(transport)@.wf(),
{
    match ensure_slot(transport, active, url) {
        Ok(generation) => {
            let ghost slot = transport@;
            proof {
                slot.lemma_operation_wf(generation, Operation::MockSetup);
            }
            if let Some(client) = transport.client_mut(generation) {
                client.mock_setup();
            }
            proof {
                let now = choose|now: i64|
                    is_reading(now) && slot == #[trigger] old(transport)@.acquired(active, url@, now);
                assert(mock_set_up(old(transport)@, active, url@, now, transport@));
            }
            Ok(generation)
        },
        Err(message) => {
            proof {
                let now = choose|now: i64|
                    is_reading(now) && transport@ == #[trigger] old(transport)@.acquired(active, url@, now);
                assert(mock_set_up(old(transport)@, active, url@, now, transport@));
            }
            Err(message)
        },
    }
}

/// What setting up a mock leaves.
pub open spec fn mock_set_up(
    before: TransportView,
    active: u64,
    url: Seq<char>,
    now: i64,
    after: TransportView,
) -> bool {
    let acquired = before.acquired(active, url, now);
    match before.acquisition(active, url) {
        Ok(generation) => after == acquired.with_client(
            generation,
            acquired.clients[generation].mock_setup(),
        ),
        Err(_) => after == before,
    }
}

/// Injects a parsed message into the open client of `url`.
pub fn mock_inject(transport: &mut Transport, url: &str, message: Value)
    requires
        old(transport)@.wf(),
    ensures
        exists|charge: nat| #[trigger]
            chargeable(message@, charge) && charged(message, charge) && final(transport)@
                == old(transport)@.on_live(
                url@,
                |client: ClientView| client.push_incoming(message@, charge),
            ),
        final(transport)@.wf(),
{
    let charge = crate::bounds::estimate_value_bytes(&message);
    let ghost before = transport@;
    assert(chargeable(message@, charge as nat));
    proof {
        if let Some(generation) = before.live(url@) {
            assert(before.registration_wf(url@));
            before.lemma_operation_wf(
                generation,
                Operation::PushIncoming(message@, charge as nat),
            );
        }
    }
    if let Some(client) = transport.live_mut(url) {
        client.push_incoming_charged(message, charge);
    }
}

/// What the open client of `url` captured, as an array.
pub fn mock_sent_messages(transport: &Transport, url: &str) -> (sent: Value)
    requires
        transport@.wf(),
    ensures
        sent@ == match transport@.live(url@) {
            Some(generation) => Tree::Arr(captured(transport@.clients[generation].capture)),
            None => Tree::Arr(Seq::empty()),
        },
{
    match get_client(transport, url) {
        Some(client) => client.mock_sent_value(),
        None => {
            let nothing: Vec<Value> = Vec::new();
            let value = Value::array(nothing);
            assert(value@->Arr_0 =~= Seq::empty());
            value
        },
    }
}

/// Whether someone waits on a hash of the open client of `url`.
pub fn mock_has_pending_futures(transport: &Transport, url: &str) -> (pending: bool)
    requires
        transport@.wf(),
    ensures
        pending == match transport@.live(url@) {
            Some(generation) => transport@.clients[generation].futures != Set::<
                Seq<char>,
            >::empty(),
            None => false,
        },
{
    match get_client(transport, url) {
        Some(client) => client.has_pending_futures(),
        None => false,
    }
}

/// Whether messages wait at the open client of `url`.
pub fn mock_has_queued_messages(transport: &Transport, url: &str) -> (queued: bool)
    requires
        transport@.wf(),
    ensures
        queued == match transport@.live(url@) {
            Some(generation) => transport@.clients[generation].incoming.len() > 0,
            None => false,
        },
{
    match get_client(transport, url) {
        Some(client) => client.has_queued_messages(),
        None => false,
    }
}

/// Marks the watching side of the open client of `url` as done.
pub fn mock_mark_completed(transport: &mut Transport, url: &str)
    requires
        old(transport)@.wf(),
    ensures
        final(transport)@ == old(transport)@.on_live(
            url@,
            |client: ClientView| client.complete(),
        ),
        final(transport)@.wf(),
{
    let ghost before = transport@;
    proof {
        if let Some(generation) = before.live(url@) {
            assert(before.registration_wf(url@));
            before.lemma_operation_wf(generation, Operation::Complete);
        }
    }
    if let Some(client) = transport.live_mut(url) {
        client.mark_ws_test_completed();
    }
}

/// Whether the watching side of the open client of `url` is done. Without such a client it is.
pub fn mock_is_completed(transport: &Transport, url: &str) -> (completed: bool)
    requires
        transport@.wf(),
    ensures
        completed == match transport@.live(url@) {
            Some(generation) => transport@.clients[generation].completed,
            None => true,
        },
{
    match get_client(transport, url) {
        Some(client) => client.is_ws_test_completed(),
        None => true,
    }
}

/// What a fixture is told whose messages do not resolve what it watches.
pub open spec fn unresolved_complaint() -> Tree {
    Tree::Str(
        "[ExchangeError] static ws test: the injected messages did not resolve the watch future"@,
    )
}

/// Rejects every hash that someone waits on at the open client of `url`, so that a fixture whose
/// messages resolve nothing fails rather than hangs.
pub fn mock_reject_futures(transport: &mut Transport, url: &str)
    requires
        old(transport)@.wf(),
    ensures
        final(transport)@ == old(transport)@.on_live(
            url@,
            |client: ClientView| client.reject_each(client.futures, unresolved_complaint()),
        ),
        final(transport)@.wf(),
{
    let ghost before = transport@;
    proof {
        if let Some(generation) = before.live(url@) {
            assert(before.registration_wf(url@));
            let client = before.clients[generation];
            before.lemma_operation_wf(
                generation,
                Operation::RejectEach(client.futures, unresolved_complaint()),
            );
        }
    }
    if let Some(client) = transport.live_mut(url) {
        client.reject_pending_futures(
            Value::text(
                "[ExchangeError] static ws test: the injected messages did not resolve the watch future",
            ),
        );
    }
}

} // verus!
