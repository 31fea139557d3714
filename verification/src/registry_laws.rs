//! What acquiring, dropping and looking up clients does, as a caller sees it: each law speaks of
//! what calls are given and what they give back.

use vstd::prelude::*;
use vstd::utf8::encode_utf8;

use crate::client::ClientState;
use crate::client_view::ClientView;
use crate::clock::is_reading;
use crate::events::Dialed;
use crate::raw::RawBuses;
use crate::traffic_laws::closes;
use crate::transport::{acquire_slot, acquire_slot_at, client_generation, drop_client, ensure_slot};
use crate::transport::{get_client, remove_exact, Transport, TransportView};

verus! {

/// Whether a client is one that nothing has happened to: open, not connected, free to connect, and
/// without anything settled, subscribed, received, sent, captured, started or failed.
pub open spec fn is_clean(client: ClientView) -> bool {
    &&& !client.closed && !client.connected && !client.mock && !client.completed
    &&& client.writer_ready
    &&& client.error is None
    &&& client.incoming.len() == 0 && client.capture.len() == 0
    &&& client.outgoing.waiting.len() == 0 && client.outgoing.in_flight == 0
    &&& client.tasks.pending == 0 && client.tasks.joined == 0
    &&& client.tasks.failures.len() == 0 && !client.tasks.retained
    &&& client.resolved == Map::<Seq<char>, crate::value::Tree>::empty()
    &&& client.rejections == Map::<Seq<char>, crate::value::Tree>::empty()
    &&& client.subscriptions == Map::<Seq<char>, crate::value::Tree>::empty()
    &&& client.futures == Set::<Seq<char>>::empty()
    &&& client.flights == Map::<Seq<char>, crate::client_view::FlightView>::empty()
}

/// Whether a new client came for a URL and its owner: the next generation, clean, registered in the
/// place of whatever was registered, known to its owner last. A client of nobody that it replaces is
/// closed. Every other client, registration and owner stays.
pub open spec fn comes_anew(
    before: TransportView,
    after: TransportView,
    active: u64,
    url: Seq<char>,
    now: i64,
    other: u64,
) -> bool {
    let new = before.next_generation;
    &&& after.next_generation == new + 1
    &&& after.registry == before.registry.insert(url, new)
    &&& after.clients.dom() == before.clients.dom().insert(new)
    &&& is_clean(after.clients[new])
    &&& after.clients[new].url == url && after.clients[new].generation == new
    &&& after.clients[new].scope_id == active && after.clients[new].last_pong_ms == now
    &&& active == 0 && before.registry.dom().contains(url) ==> closes(
        before.clients[before.registry[url]],
        after.clients[before.registry[url]],
    )
    &&& before.clients.dom().contains(other) && other != new && !(active == 0
        && before.registry.dom().contains(url) && before.registry[url] == other)
        ==> after.clients[other] == before.clients[other]
    &&& active == 0 ==> after.scopes == before.scopes
    &&& active != 0 ==> after.scopes.dom() == before.scopes.dom()
    &&& active != 0 ==> after.scopes[active].clients == before.scopes[active].clients.push(new)
    &&& active != 0 ==> !after.scopes[active].closed
    &&& active != 0 ==> after.scopes.remove(active) == before.scopes.remove(active)
    &&& after.raw == before.raw && after.next_scope == before.next_scope
}

/// Whether asking for a URL was answered as it is owed, on behalf of the owner `active` or of
/// nobody.
pub open spec fn is_answered(
    before: TransportView,
    after: TransportView,
    active: u64,
    url: Seq<char>,
    now: i64,
    answer: Result<u64, String>,
    other: u64,
) -> bool {
    let registered = before.registry.dom().contains(url);
    let current = before.clients[before.registry[url]];
    let open_owner = before.scopes.dom().contains(active) && !before.scopes[active].closed;
    if encode_utf8(url).len() > 4096 {
        after == before && answer is Err && answer->Err_0@
            == "[NetworkError] WebSocket URL exceeds limit"@
    } else if active != 0 && !open_owner {
        after == before && answer is Err && answer->Err_0@
            == "[NetworkError] WebSocket owner is closed"@
    } else if registered && current.scope_id != active && active != 0 {
        after == before && answer is Err && answer->Err_0@
            == "[NetworkError] WebSocket URL belongs to another owner"@
    } else if registered && current.scope_id != active {
        after == before && answer is Err && answer->Err_0@
            == "[NetworkError] WebSocket URL belongs to a scoped owner"@
    } else if registered && !current.closed {
        after == before && answer is Ok && answer->Ok_0 == before.registry[url]
    } else if active != 0 && before.scopes[active].clients.len() >= 256 {
        after == before && answer is Err && answer->Err_0@
            == "[NetworkError] WebSocket owner generation limit"@
    } else if !registered && before.registry.dom().len() >= 1024 {
        after == before && answer is Err && answer->Err_0@
            == "[NetworkError] WebSocket registry limit"@
    } else {
        answer is Ok && answer->Ok_0 == before.next_generation && comes_anew(
            before,
            after,
            active,
            url,
            now,
            other,
        )
    }
}

pub proof fn lemma_answered(
    before: TransportView,
    active: u64,
    url: Seq<char>,
    now: i64,
    answer: Result<u64, String>,
    other: u64,
)
    requires
        before.wf(),
        before.next_generation < u64::MAX,
        crate::transport::acquires(answer, before.acquisition(active, url)),
    ensures
        is_answered(
            before,
            before.acquired(active, url, now),
            active,
            url,
            now,
            answer,
            other,
        ),
{
    let after = before.acquired(active, url, now);
    if before.registry.dom().contains(url) {
        assert(before.registration_wf(url));
    }
    if answer is Ok && before.acquisition(active, url) == Ok::<u64, Seq<char>>(
        before.next_generation,
    ) {
        assert(after.clients.dom() =~= before.clients.dom().insert(before.next_generation));
        if active != 0 {
            assert(after.scopes.dom() =~= before.scopes.dom());
            assert(after.scopes.remove(active) =~= before.scopes.remove(active));
        }
    }
}

/// Asking for a URL is answered as it is owed, at the time that is given.
pub proof fn law_acquisition_is_answered(
    transport: &mut Transport,
    active: u64,
    url: &str,
    now: i64,
    answer: Result<u64, String>,
    other: u64,
)
    requires
        old(transport)@.wf(),
        old(transport)@.next_generation < u64::MAX,
        call_ensures(acquire_slot_at, (transport, active, url, now), answer),
    ensures
        is_answered(
            old(transport)@,
            final(transport)@,
            active,
            url@,
            now,
            answer,
            other,
        ),
{
    lemma_answered(old(transport)@, active, url@, now, answer, other);
}

/// Asking for a URL now is asking at the time that the clock says, by either name.
pub proof fn law_acquisition_is_answered_now(
    transport: &mut Transport,
    ensured: &mut Transport,
    active: u64,
    url: &str,
    answer: Result<u64, String>,
    same: Result<u64, String>,
    other: u64,
)
    requires
        old(transport)@.wf(),
        old(transport)@.next_generation < u64::MAX,
        call_ensures(acquire_slot, (transport, active, url), answer),
        old(ensured)@.wf(),
        old(ensured)@.next_generation < u64::MAX,
        call_ensures(ensure_slot, (ensured, active, url), same),
    ensures
        exists|now: i64|
            is_reading(now) && #[trigger] is_answered(
                old(transport)@,
                final(transport)@,
                active,
                url@,
                now,
                answer,
                other,
            ),
        exists|now: i64|
            is_reading(now) && #[trigger] is_answered(
                old(ensured)@,
                final(ensured)@,
                active,
                url@,
                now,
                same,
                other,
            ),
{
    let before = old(transport)@;
    let after = final(transport)@;
    let now = choose|now: i64|
        is_reading(now) && after == #[trigger] before.acquired(active, url@, now);
    lemma_answered(before, active, url@, now, answer, other);
    let before = old(ensured)@;
    let after = final(ensured)@;
    let now = choose|now: i64|
        is_reading(now) && after == #[trigger] before.acquired(active, url@, now);
    lemma_answered(before, active, url@, now, same, other);
}

/// The client of a URL is the one that is registered, while it is open; and a client is found by its
/// generation exactly where it is there.
pub proof fn law_lookup_finds_the_open_client(
    transport: Transport,
    url: &str,
    found: Option<&ClientState>,
    generation: Option<u64>,
    asked: u64,
    client: Option<&ClientState>,
    raw: RawBuses,
    more: bool,
    owners: bool,
)
    requires
        transport@.wf(),
        call_ensures(get_client, (&transport, url), found),
        call_ensures(client_generation, (&transport, url), generation),
        call_ensures(Transport::client, (&transport, asked), client),
        call_ensures(Transport::raw, (&transport,), &raw),
        call_ensures(Transport::has_generations, (&transport,), more),
        call_ensures(Transport::has_scopes, (&transport,), owners),
    ensures
        ({
            let named = transport@.registry[url@];
            let open = transport@.registry.dom().contains(url@)
                && !transport@.clients[named].closed;
            &&& (found is Some) == open
            &&& open ==> found->0@ == transport@.clients[named]
            &&& (generation is Some) == open
            &&& open ==> generation == Some(named)
        }),
        (client is Some) == transport@.clients.dom().contains(asked),
        client is Some ==> client->0@ == transport@.clients[asked],
        raw@ == transport@.raw,
        more == (transport@.next_generation < u64::MAX),
        owners == (transport@.next_scope < u64::MAX),
{
}

/// A new registry knows nothing, and counts owners and generations from one.
pub proof fn law_new_registry_is_empty(
    transport: Transport,
    url: Seq<char>,
    generation: u64,
)
    requires
        call_ensures(Transport::new, (), transport),
    ensures
        !transport@.registry.dom().contains(url),
        !transport@.clients.dom().contains(generation),
        !transport@.scopes.dom().contains(generation),
        !transport@.raw.buses.dom().contains(url) && transport@.raw.all is None,
        transport@.next_generation == 1 && transport@.next_scope == 1,
        transport@.wf(),
{
}

/// Removing the registration of a client removes it where it is that client's own, and no other.
pub proof fn law_removed_registration_is_its_own(
    transport: &mut Transport,
    generation: u64,
    url: Seq<char>,
)
    requires
        old(transport)@.wf(),
        call_ensures(remove_exact, (transport, generation), ()),
    ensures
        ({
            let before = old(transport)@;
            let after = final(transport)@;
            &&& after == (TransportView { registry: after.registry, ..before })
            &&& after.registry.dom().contains(url) == (before.registry.dom().contains(url)
                && before.registry[url] != generation)
            &&& after.registry.dom().contains(url) ==> after.registry[url] == before.registry[url]
        }),
{
    let before = old(transport)@;
    if before.registry.dom().contains(url) {
        assert(before.registration_wf(url));
    }
}

/// Dropping the client of a URL closes it and removes its registration, where the one who asks has
/// it. Every other client and registration stays, and every owner; raw channels without receivers
/// go.
pub proof fn law_dropped_client_is_the_owners(
    transport: &mut Transport,
    active: u64,
    url: &str,
    other: u64,
    observed: Seq<char>,
)
    requires
        old(transport)@.wf(),
        call_ensures(drop_client, (transport, active, url), ()),
    ensures
        ({
            let before = old(transport)@;
            let after = final(transport)@;
            let named = before.registry[url@];
            let owns = before.registry.dom().contains(url@) && before.clients[named].scope_id
                == active;
            &&& owns ==> after.registry == before.registry.remove(url@)
            &&& owns ==> closes(before.clients[named], after.clients[named])
            &&& !owns ==> after.registry == before.registry
            &&& after.clients.dom() == before.clients.dom()
            &&& before.clients.dom().contains(other) && !(owns && other == named)
                ==> after.clients[other] == before.clients[other]
            &&& crate::observer_laws::keeps_observed(before.raw, after.raw, observed)
            &&& after == (TransportView {
                registry: after.registry,
                clients: after.clients,
                raw: after.raw,
                ..before
            })
        }),
{
    let before = old(transport)@;
    let after = final(transport)@;
    if before.registry.dom().contains(url@) {
        assert(before.registration_wf(url@));
    }
    let counts = choose|counts: Map<Seq<char>, nat>|
        after == #[trigger] before.dropped(active, url@).reclaimed(counts);
    assert(after.clients.dom() =~= before.clients.dom());
    if after.raw.buses.dom().contains(observed) {
        assert(after.raw.buses[observed].counts.drop_last()
            =~= before.raw.buses[observed].counts);
    }
}

/// A client can be let go of exactly where neither its URL nor an owner refers to it; then it alone
/// is gone.
pub proof fn law_retired_client_is_unreferenced(
    transport: &mut Transport,
    generation: u64,
    gone: bool,
)
    requires
        old(transport)@.wf(),
        call_ensures(Transport::retire, (transport, generation), gone),
    ensures
        ({
            let before = old(transport)@;
            let after = final(transport)@;
            let client = before.clients[generation];
            &&& gone == (before.clients.dom().contains(generation) && !(
            before.registry.dom().contains(client.url) && before.registry[client.url]
                == generation) && (client.scope_id == 0 || !before.scopes.dom().contains(
                client.scope_id,
            )))
            &&& gone ==> after.clients == before.clients.remove(generation)
            &&& !gone ==> after == before
            &&& after == (TransportView { clients: after.clients, ..before })
        }),
{
}

/// An attempt to connect is noted at the client that is named, and at no other, as that client notes
/// it; without such a client it is as if the client had closed.
pub proof fn law_connection_is_the_named_clients(
    transport: &mut Transport,
    generation: u64,
    dialed: Dialed,
    answer: Result<(), String>,
)
    requires
        old(transport)@.wf(),
        call_ensures(Transport::finish_connect, (transport, generation, dialed), answer),
    ensures
        ({
            let before = old(transport)@;
            let after = final(transport)@;
            let client = before.clients[generation];
            let comes = before.clients.dom().contains(generation) && dialed is Opened
                && !client.closed && client.writer_ready;
            &&& (answer is Ok) == comes
            &&& !comes ==> after == before
            &&& comes ==> {
                let now = after.clients[generation];
                &&& now.connected && !now.writer_ready && is_reading(now.last_pong_ms)
                &&& now.tasks.pending == client.tasks.pending + 3
                &&& now.tasks.joined == client.tasks.joined
                &&& now.tasks.failures == client.tasks.failures
                &&& now == (ClientView {
                    connected: now.connected,
                    writer_ready: now.writer_ready,
                    last_pong_ms: now.last_pong_ms,
                    tasks: now.tasks,
                    ..client
                })
            }
            &&& after.clients.dom() == before.clients.dom()
            &&& after.clients.remove(generation) == before.clients.remove(generation)
            &&& after == (TransportView { clients: after.clients, ..before })
            &&& !before.clients.dom().contains(generation) ==> answer->Err_0@
                == "[NetworkError] client closed during connect"@
            &&& before.clients.dom().contains(generation) ==> match dialed {
                Dialed::Closing => answer->Err_0@ == "[NetworkError] client closed during connect"@,
                Dialed::DeadlineExceeded => answer->Err_0@
                    == "[NetworkError] connect deadline exceeded"@,
                Dialed::Failed(message) => answer->Err_0@ == message@,
                Dialed::Opened => {
                    &&& client.closed ==> answer->Err_0@
                        == "[NetworkError] client closed during connect"@
                    &&& !client.closed && !client.writer_ready ==> answer->Err_0@
                        == "[NetworkError] slot has no writer channel"@
                },
            }
        }),
{
    let before = old(transport)@;
    let after = final(transport)@;
    assert(after.clients.dom() =~= before.clients.dom());
    assert(after.clients.remove(generation) =~= before.clients.remove(generation));
}

/// The client that is handed out to be changed is the one that was asked for, and whatever becomes of
/// it, nothing else changes. So it is with the raw channels.
pub proof fn law_handed_out_client_is_the_only_change(
    transport: &mut Transport,
    generation: u64,
    client: &mut ClientState,
    by_url: &mut Transport,
    url: &str,
    live: &mut ClientState,
    observed: &mut Transport,
    raw: &mut RawBuses,
    other: u64,
)
    requires
        call_ensures(Transport::client_mut, (transport, generation), Some(client)),
        old(by_url)@.wf(),
        call_ensures(Transport::live_mut, (by_url, url), Some(live)),
        call_ensures(Transport::raw_mut, (observed,), raw),
    ensures
        old(transport)@.clients.dom().contains(generation),
        old(client)@ == old(transport)@.clients[generation],
        final(transport)@.clients.dom() == old(transport)@.clients.dom(),
        final(transport)@.clients[generation] == final(client)@,
        other != generation ==> final(transport)@.clients[other] == old(transport)@.clients[other],
        final(transport)@ == (TransportView {
            clients: final(transport)@.clients,
            ..old(transport)@
        }),
        ({
            let found = old(by_url)@.registry[url@];
            &&& old(by_url)@.registry.dom().contains(url@)
            &&& !old(live)@.closed
            &&& old(live)@.url == url@
            &&& old(live)@ == old(by_url)@.clients[found]
            &&& final(by_url)@.clients.dom() == old(by_url)@.clients.dom()
            &&& final(by_url)@.clients[found] == final(live)@
            &&& other != found ==> final(by_url)@.clients[other] == old(by_url)@.clients[other]
            &&& final(by_url)@ == (TransportView {
                clients: final(by_url)@.clients,
                ..old(by_url)@
            })
        }),
        old(raw)@ == old(observed)@.raw,
        final(observed)@ == (TransportView { raw: final(raw)@, ..old(observed)@ }),
{
    assert(old(by_url)@.registration_wf(url@));
    assert(final(transport)@.clients.dom() =~= old(transport)@.clients.dom());
    assert(final(by_url)@.clients.dom() =~= old(by_url)@.clients.dom());
}

/// No client is handed out where there is none: for a generation without a client, and for a URL
/// without an open one. Then nothing changes.
pub proof fn law_none_is_handed_out_where_none_is(
    transport: &mut Transport,
    generation: u64,
    by_url: &mut Transport,
    url: &str,
)
    requires
        call_ensures(Transport::client_mut, (transport, generation), None),
        old(by_url)@.wf(),
        call_ensures(Transport::live_mut, (by_url, url), None),
    ensures
        !old(transport)@.clients.dom().contains(generation),
        final(transport)@ == old(transport)@,
        old(by_url)@.registry.dom().contains(url@)
            ==> old(by_url)@.clients[old(by_url)@.registry[url@]].closed,
        final(by_url)@ == old(by_url)@,
{
}

} // verus!
