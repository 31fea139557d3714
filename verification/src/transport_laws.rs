//! What holds of the registry whatever is acquired, dropped or closed.

use vstd::prelude::*;
use vstd::utf8::encode_utf8;

use crate::client_laws::{law_fresh_client_is_well_formed, law_open_client_can_connect};
use crate::client_view::ClientView;
use crate::events::Dialed;
use crate::lifecycle::TASKS_PER_CLIENT;
use crate::raw::{RawView, MAX_URL_BYTES};
use crate::transport::{TransportView, MAX_CLIENTS, MAX_SCOPE_CLIENTS};

verus! {

/// An acquisition that is refused changes nothing: no client is made, closed or cancelled.
pub proof fn law_refused_acquisition_changes_nothing(
    transport: TransportView,
    active: u64,
    url: Seq<char>,
    now: i64,
)
    requires
        transport.acquisition(active, url) is Err,
    ensures
        transport.acquired(active, url, now) == transport,
{
}

/// What is acquired is open, is for the URL, and belongs to the owner that asked; and asking again
/// gives the same client.
pub proof fn law_acquired_client_is_live(
    transport: TransportView,
    active: u64,
    url: Seq<char>,
    now: i64,
    later: i64,
)
    requires
        transport.wf(),
        transport.next_generation < u64::MAX,
        transport.acquisition(active, url) is Ok,
    ensures
        ({
            let generation = transport.acquisition(active, url)->Ok_0;
            let after = transport.acquired(active, url, now);
            &&& after.live(url) == Some(generation)
            &&& after.clients[generation].url == url
            &&& after.clients[generation].scope_id == active
            &&& after.acquisition(active, url) == Ok::<u64, Seq<char>>(generation)
            &&& after.acquired(active, url, later) == after
        }),
{
    if transport.registry.dom().contains(url) {
        assert(transport.registration_wf(url));
    }
}

/// Whoever has an open client gets that very client again, as it is, however often it asks, even
/// where no new client could be had.
pub proof fn law_open_client_is_reused(
    transport: TransportView,
    active: u64,
    url: Seq<char>,
    generation: u64,
    now: i64,
)
    requires
        transport.wf(),
        transport.live(url) == Some(generation),
        transport.clients[generation].scope_id == active,
    ensures
        transport.acquisition(active, url) == Ok::<u64, Seq<char>>(generation),
        transport.acquired(active, url, now) == transport,
{
    assert(transport.registration_wf(url));
    if active != 0 {
        assert(transport.scope_wf(active));
        let owned = transport.scopes[active].clients;
        let k = choose|k: int| 0 <= k < owned.len() && owned[k] == generation;
        assert(transport.clients.dom().contains(owned[k]));
    }
}

/// Connecting twice is connecting once: the second time the same client is acquired, it is
/// connected already, and it still has the tasks of one connection.
pub proof fn law_connecting_is_idempotent(
    transport: TransportView,
    active: u64,
    url: Seq<char>,
    now: i64,
    connected_at: i64,
    later: i64,
)
    requires
        transport.wf(),
        transport.next_generation < u64::MAX,
        transport.acquisition(active, url) is Ok,
        !transport.acquired(active, url, now).clients[transport.acquisition(
            active,
            url,
        )->Ok_0].connected,
    ensures
        ({
            let generation = transport.acquisition(active, url)->Ok_0;
            let client = transport.acquired(active, url, now).clients[generation];
            let after = transport.acquired(active, url, now).with_client(
                generation,
                client.connect(connected_at),
            );
            &&& client.connect_refusal(Dialed::Opened) is None
            &&& after.acquisition(active, url) == Ok::<u64, Seq<char>>(generation)
            &&& after.acquired(active, url, later) == after
            &&& after.clients[generation].connected && !after.clients[generation].closed
            &&& after.clients[generation].connect_refusal(Dialed::Opened) is Some
            &&& after.clients[generation].tasks.pending == TASKS_PER_CLIENT
        }),
{
    let generation = transport.acquisition(active, url)->Ok_0;
    law_acquired_client_is_live(transport, active, url, now, later);
    if transport.registry.dom().contains(url) {
        assert(transport.registration_wf(url));
    }
    let client = transport.acquired(active, url, now).clients[generation];
    law_fresh_client_is_well_formed(url, generation, active, now);
    law_open_client_can_connect(client, connected_at);
}

/// An open client is kept, with all its state. Otherwise the client that comes is a new one, later
/// than every client before it, that nothing has happened to.
pub proof fn law_replacement_is_later_and_clean(
    transport: TransportView,
    active: u64,
    url: Seq<char>,
    now: i64,
    earlier: u64,
)
    requires
        transport.wf(),
        transport.next_generation < u64::MAX,
        transport.acquisition(active, url) is Ok,
        transport.clients.dom().contains(earlier),
    ensures
        ({
            let generation = transport.acquisition(active, url)->Ok_0;
            let after = transport.acquired(active, url, now);
            match transport.live(url) {
                Some(open) => generation == open && after == transport,
                None => {
                    &&& generation > earlier
                    &&& after.live(url) == Some(generation)
                    &&& after.clients[generation] == ClientView::fresh(url, generation, active, now)
                },
            }
        }),
{
    if transport.registry.dom().contains(url) {
        assert(transport.registration_wf(url));
    }
}

/// Asking for the URL of another owner is refused, with a text that says whose it is not, and
/// leaves the client registered and as it is, and what the asking owner has.
pub proof fn law_foreign_url_is_refused(
    transport: TransportView,
    active: u64,
    url: Seq<char>,
    now: i64,
)
    requires
        transport.wf(),
        transport.registry.dom().contains(url),
        transport.clients[transport.registry[url]].scope_id != active,
        active != 0 ==> transport.scopes.dom().contains(active)
            && !transport.scopes[active].closed,
    ensures
        active != 0 ==> transport.acquisition(active, url) == Err::<u64, Seq<char>>(
            "[NetworkError] WebSocket URL belongs to another owner"@,
        ),
        active == 0 ==> transport.acquisition(active, url) == Err::<u64, Seq<char>>(
            "[NetworkError] WebSocket URL belongs to a scoped owner"@,
        ),
        transport.acquired(active, url, now) == transport,
        transport.acquired(active, url, now).owned(active) == transport.owned(active),
        transport.acquired(active, url, now).live(url) == transport.live(url),
{
    assert(transport.registration_wf(url));
}

/// A URL is never shared: while one owner has it, or nobody in particular, every other is refused.
pub proof fn law_url_is_never_shared(transport: TransportView, active: u64, url: Seq<char>)
    requires
        transport.registry.dom().contains(url),
        transport.clients[transport.registry[url]].scope_id != active,
    ensures
        transport.acquisition(active, url) is Err,
{
}

/// A new generation is one that no client had.
pub proof fn law_generations_are_not_reused(
    transport: TransportView,
    active: u64,
    url: Seq<char>,
    now: i64,
)
    requires
        transport.wf(),
        transport.next_generation < u64::MAX,
    ensures
        !transport.clients.dom().contains(transport.next_generation),
        transport.acquired(active, url, now).next_generation >= transport.next_generation,
        forall|generation: u64|
            transport.clients.dom().contains(generation) ==> #[trigger] transport.acquired(
                active,
                url,
                now,
            ).clients.dom().contains(generation),
{
}

/// A client can remove its own registration and no other: one that took its place stays.
pub proof fn law_old_generation_cannot_remove_replacement(
    transport: TransportView,
    old: u64,
    url: Seq<char>,
)
    requires
        transport.wf(),
        transport.registry.dom().contains(url),
        transport.registry[url] != old,
    ensures
        transport.without_exact(old).registry.dom().contains(url),
        transport.without_exact(old).registry[url] == transport.registry[url],
        transport.without_exact(old).clients == transport.clients,
{
}

/// Dropping the client of a URL touches nothing that another owner has.
pub proof fn law_drop_is_for_the_owner(transport: TransportView, active: u64, url: Seq<char>)
    requires
        transport.registry.dom().contains(url),
        transport.clients[transport.registry[url]].scope_id != active,
    ensures
        transport.dropped(active, url) == transport,
{
}

/// An owner that was closed acquires nothing any more, and all that it has is closed.
pub proof fn law_closed_owner_acquires_nothing(
    transport: TransportView,
    id: u64,
    url: Seq<char>,
    i: int,
)
    requires
        transport.wf(),
        transport.scopes.dom().contains(id),
    ensures
        transport.scope_closed(id).acquisition(id, url) is Err,
        0 <= i < transport.owned(id).len() ==> transport.scope_closed(
            id,
        ).clients[transport.owned(id)[i]].closed,
{
    assert(transport.scope_wf(id));
    let owned = transport.owned(id);
    if 0 <= i < owned.len() {
        assert(transport.clients.dom().contains(owned[i]));
        assert(owned.contains(owned[i]));
    }
}

impl TransportView {
    /// Whether `id` is an owner that was counted once and is not open: it closed, or it is gone.
    pub open spec fn is_barred(self, id: u64) -> bool {
        &&& 0 < id < self.next_scope
        &&& !(self.scopes.dom().contains(id) && !self.scopes[id].closed)
    }

    /// The registry once something has happened. A new owner comes while owners can be counted.
    pub open spec fn changed(self, change: Change) -> TransportView {
        match change {
            Change::Acquire(active, url, now) => self.acquired(active, url, now),
            Change::Drop(active, url) => self.dropped(active, url),
            Change::Unregister(generation) => self.without_exact(generation),
            Change::UnregisterEach(generations) => self.without_each(generations),
            Change::Reclaim(counts) => self.reclaimed(counts),
            Change::Close(generations) => self.closing(generations),
            Change::Client(generation, client) => self.with_client(generation, client),
            Change::Receive(generation, client, raw) => self.with_received(generation, client, raw),
            Change::Observe(raw) => TransportView { raw, ..self },
            Change::OpenScope => if self.next_scope < u64::MAX {
                self.with_scope()
            } else {
                self
            },
            Change::CloseScope(id) => self.scope_closed(id),
            Change::DropScope(id) => self.scope_dropped(id),
            Change::Retire(generation) => TransportView {
                clients: self.clients.remove(generation),
                ..self
            },
        }
    }

    /// The registry once all of it has happened, one after the other.
    pub open spec fn changed_by(self, changes: Seq<Change>) -> TransportView
        decreases changes.len(),
    {
        if changes.len() == 0 {
            self
        } else {
            self.changed_by(changes.drop_last()).changed(changes.last())
        }
    }
}

/// Everything that can happen to the registry.
pub enum Change {
    Acquire(u64, Seq<char>, i64),
    Drop(u64, Seq<char>),
    Unregister(u64),
    UnregisterEach(Seq<u64>),
    Reclaim(Map<Seq<char>, nat>),
    Close(Seq<u64>),
    Client(u64, ClientView),
    Receive(u64, ClientView, RawView),
    Observe(RawView),
    OpenScope,
    CloseScope(u64),
    DropScope(u64),
    Retire(u64),
}

proof fn lemma_without_each_keeps_owners(transport: TransportView, generations: Seq<u64>)
    ensures
        transport.without_each(generations).scopes == transport.scopes,
        transport.without_each(generations).next_scope == transport.next_scope,
    decreases generations.len(),
{
    if generations.len() > 0 {
        lemma_without_each_keeps_owners(transport, generations.drop_last());
    }
}

/// An owner that is not open acquires nothing, and whatever happens next it is still not open.
pub proof fn law_barred_owner_stays_barred(
    transport: TransportView,
    id: u64,
    url: Seq<char>,
    change: Change,
)
    requires
        transport.is_barred(id),
    ensures
        transport.acquisition(id, url) == Err::<u64, Seq<char>>(
            if encode_utf8(url).len() > MAX_URL_BYTES {
                "[NetworkError] WebSocket URL exceeds limit"@
            } else {
                "[NetworkError] WebSocket owner is closed"@
            },
        ),
        transport.changed(change).is_barred(id),
{
    match change {
        Change::UnregisterEach(generations) => lemma_without_each_keeps_owners(
            transport,
            generations,
        ),
        Change::DropScope(other) => lemma_without_each_keeps_owners(
            transport.scope_closed(other),
            transport.owned(other),
        ),
        _ => {},
    }
}

/// Closing is for good: once an owner is closed, or gone, no sequence of events lets it acquire
/// again.
pub proof fn law_closing_is_permanent(
    transport: TransportView,
    id: u64,
    url: Seq<char>,
    changes: Seq<Change>,
)
    requires
        transport.is_barred(id),
    ensures
        transport.changed_by(changes).is_barred(id),
        transport.changed_by(changes).acquisition(id, url) is Err,
    decreases changes.len(),
{
    if changes.len() > 0 {
        let fewer = changes.drop_last();
        law_closing_is_permanent(transport, id, url, fewer);
        let before = transport.changed_by(fewer);
        law_barred_owner_stays_barred(before, id, url, changes.last());
    }
}

/// An owner is barred by closing it, and by letting go of it.
pub proof fn law_closing_bars(transport: TransportView, id: u64)
    requires
        transport.wf(),
        transport.scopes.dom().contains(id),
    ensures
        transport.scope_closed(id).is_barred(id),
        transport.scope_dropped(id).is_barred(id),
{
    assert(transport.scope_wf(id));
    lemma_without_each_keeps_owners(transport.scope_closed(id), transport.owned(id));
}

/// Closing an owner leaves the clients of every other as they are, and every registration.
pub proof fn law_closing_an_owner_is_local(
    transport: TransportView,
    id: u64,
    generation: u64,
)
    requires
        transport.wf(),
        transport.clients.dom().contains(generation),
        transport.clients[generation].scope_id != id,
    ensures
        transport.scope_closed(id).clients[generation] == transport.clients[generation],
        transport.scope_closed(id).registry == transport.registry,
{
    if transport.scopes.dom().contains(id) {
        assert(transport.scope_wf(id));
        let owned = transport.scopes[id].clients;
        if owned.contains(generation) {
            let k = choose|k: int| 0 <= k < owned.len() && owned[k] == generation;
            assert(transport.clients[owned[k]].scope_id == id);
        }
    }
}

/// A registry that is full, and an owner that has acquired all it may, refuse a new client.
pub proof fn law_limits_are_refusals(transport: TransportView, active: u64, url: Seq<char>)
    requires
        transport.wf(),
        encode_utf8(url).len() <= MAX_URL_BYTES,
        !transport.registry.dom().contains(url),
        active != 0 ==> transport.scopes.dom().contains(active)
            && !transport.scopes[active].closed,
    ensures
        active != 0 && transport.scopes[active].clients.len() == MAX_SCOPE_CLIENTS
            ==> transport.acquisition(active, url) == Err::<u64, Seq<char>>(
            "[NetworkError] WebSocket owner generation limit"@,
        ),
        (active == 0 || transport.scopes[active].clients.len() < MAX_SCOPE_CLIENTS)
            && transport.registry.dom().len() == MAX_CLIENTS ==> transport.acquisition(active, url)
            == Err::<u64, Seq<char>>("[NetworkError] WebSocket registry limit"@),
        (active == 0 || transport.scopes[active].clients.len() < MAX_SCOPE_CLIENTS)
            && transport.registry.dom().len() < MAX_CLIENTS ==> transport.acquisition(active, url)
            == Ok::<u64, Seq<char>>(transport.next_generation),
{
}

/// Letting go of an owner leaves none of its clients registered, and every registration of others,
/// whose clients stay as they are.
pub proof fn law_dropped_owner_leaves_others(transport: TransportView, id: u64, url: Seq<char>)
    requires
        transport.wf(),
        id != 0,
    ensures
        ({
            let after = transport.scope_dropped(id);
            let client = transport.clients[transport.registry[url]];
            &&& after.registry.dom().contains(url) == (transport.registry.dom().contains(url)
                && client.scope_id != id)
            &&& after.registry.dom().contains(url) ==> after.registry[url]
                == transport.registry[url] && after.clients[transport.registry[url]] == client
            &&& !after.scopes.dom().contains(id)
        }),
{
    transport.lemma_scope_closed_wf(id);
    let closed = transport.scope_closed(id);
    let owned = transport.owned(id);
    closed.lemma_without_each(owned);
    if transport.registry.dom().contains(url) {
        assert(transport.registration_wf(url));
        let generation = transport.registry[url];
        if transport.clients[generation].scope_id != id {
            law_closing_an_owner_is_local(transport, id, generation);
            if owned.contains(generation) {
                assert(transport.scope_wf(id));
                let k = choose|k: int| 0 <= k < owned.len() && owned[k] == generation;
                assert(transport.clients[owned[k]].scope_id == id);
            }
        }
    }
}

/// Observers outlive clients: neither acquiring nor closing nor removing a client touches a raw
/// channel.
pub proof fn law_replacement_keeps_observers(
    transport: TransportView,
    active: u64,
    url: Seq<char>,
    now: i64,
    generation: u64,
)
    ensures
        transport.acquired(active, url, now).raw == transport.raw,
        transport.dropped(active, url).raw == transport.raw,
        transport.without_exact(generation).raw == transport.raw,
        transport.closing(seq![generation]).raw == transport.raw,
        transport.scope_closed(active).raw == transport.raw,
{
}

} // verus!
