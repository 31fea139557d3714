//! The registry of clients: who is behind a URL, and who owns it.

use std::collections::hash_map::Entry;
use std::collections::HashMap;
use std::time::Instant;

use vstd::prelude::*;
use vstd::string::*;
use vstd::utf8::encode_utf8;

use crate::bounds::{chargeable, decoding};
use crate::client::ClientState;
use crate::client_laws::{law_close_is_idempotent, law_closed_is_final};
use crate::client_laws::{law_every_operation_keeps_well_formed, law_identity_is_fixed, Operation};
use crate::client_view::ClientView;
use crate::clock::{is_reading, now_ms};
use crate::events::{Dialed, Inbound};
use crate::inbound::{handled, received};
use crate::lifecycle::FailureSource;
use crate::outgoing::Frame;
use crate::raw::{reclaim_raw_buses, RawBuses, RawView, MAX_URL_BYTES};
use crate::table::Table;

verus! {

/// How many URLs can have a client.
pub const MAX_CLIENTS: usize = 1024;

/// How many generations one owner can acquire.
pub const MAX_SCOPE_CLIENTS: usize = 256;

/// An owner: whether it may still acquire, and what it acquired.
struct Scope {
    closed: bool,
    clients: Vec<u64>,
}

/// What an owner is.
#[verifier::ext_equal]
pub struct ScopeView {
    pub closed: bool,
    /// The generations that it acquired, in order.
    pub clients: Seq<u64>,
}

impl View for Scope {
    type V = ScopeView;

    closed spec fn view(&self) -> ScopeView {
        ScopeView { closed: self.closed, clients: self.clients@ }
    }
}

/// Every client that is in use, which of them is behind which URL, who owns them, and who observes
/// them.
pub struct Transport {
    clients: HashMap<u64, ClientState>,
    registry: Table<u64>,
    scopes: HashMap<u64, Scope>,
    raw: RawBuses,
    next_generation: u64,
    next_scope: u64,
}

/// What a [`Transport`] holds.
#[verifier::ext_equal]
pub struct TransportView {
    /// Generation to client.
    pub clients: Map<u64, ClientView>,
    /// URL to generation.
    pub registry: Map<Seq<char>, u64>,
    pub scopes: Map<u64, ScopeView>,
    pub raw: RawView,
    pub next_generation: u64,
    pub next_scope: u64,
}

impl View for Transport {
    type V = TransportView;

    closed spec fn view(&self) -> TransportView {
        TransportView {
            clients: self.clients@.map_values(|client: ClientState| client@),
            registry: self.registry@,
            scopes: self.scopes@.map_values(|scope: Scope| scope@),
            raw: self.raw@,
            next_generation: self.next_generation,
            next_scope: self.next_scope,
        }
    }
}

impl TransportView {
    /// Nothing has happened yet. Owners and generations count from one.
    pub open spec fn fresh() -> TransportView {
        TransportView {
            clients: Map::empty(),
            registry: Map::empty(),
            scopes: Map::empty(),
            raw: RawView::empty(),
            next_generation: 1,
            next_scope: 1,
        }
    }

    /// The registered client of `url`, if there is one and it is open.
    pub open spec fn live(self, url: Seq<char>) -> Option<u64> {
        if self.registry.dom().contains(url) && !self.clients[self.registry[url]].closed {
            Some(self.registry[url])
        } else {
            None
        }
    }

    /// Whether the registration of `url` stands: the URL is no longer than it may be, its client is
    /// there, is for this URL, and belongs to nobody or to an owner that knows it.
    pub open spec fn registration_wf(self, url: Seq<char>) -> bool {
        let generation = self.registry[url];
        let owner = self.clients[generation].scope_id;
        &&& encode_utf8(url).len() <= MAX_URL_BYTES
        &&& self.clients.dom().contains(generation)
        &&& self.clients[generation].url == url
        &&& owner != 0 ==> self.scopes.dom().contains(owner)
            && self.scopes[owner].clients.contains(generation)
    }

    /// Whether an owner stands: what it acquired is there and belongs to it, and is closed where
    /// the owner is.
    pub open spec fn scope_wf(self, id: u64) -> bool {
        let scope = self.scopes[id];
        &&& 0 < id < self.next_scope
        &&& scope.clients.len() <= MAX_SCOPE_CLIENTS
        &&& scope.clients.no_duplicates()
        &&& forall|i: int|
            0 <= i < scope.clients.len() ==> {
                &&& self.clients.dom().contains(#[trigger] scope.clients[i])
                &&& self.clients[scope.clients[i]].scope_id == id
                &&& scope.closed ==> self.clients[scope.clients[i]].closed
            }
    }

    /// What always holds of the registry.
    pub open spec fn wf(self) -> bool {
        &&& self.next_generation > 0
        &&& self.next_scope > 0
        &&& forall|generation: u64| #[trigger]
            self.clients.dom().contains(generation) ==> {
                &&& generation < self.next_generation
                &&& self.clients[generation].generation == generation
                &&& self.clients[generation].wf()
            }
        &&& self.registry.dom().finite()
        &&& self.registry.dom().len() <= MAX_CLIENTS
        &&& forall|url: Seq<char>| #[trigger]
            self.registry.dom().contains(url) ==> self.registration_wf(url)
        &&& forall|id: u64| #[trigger] self.scopes.dom().contains(id) ==> self.scope_wf(id)
    }

    /// Who gets `url`, on behalf of the owner `active` or of nobody: the open client that is
    /// registered, a new generation, or an error.
    pub open spec fn acquisition(self, active: u64, url: Seq<char>) -> Result<u64, Seq<char>> {
        let registered = self.registry.dom().contains(url);
        let current = self.clients[self.registry[url]];
        if encode_utf8(url).len() > MAX_URL_BYTES {
            Err("[NetworkError] WebSocket URL exceeds limit"@)
        } else if active != 0 && !(self.scopes.dom().contains(active)
            && !self.scopes[active].closed) {
            Err("[NetworkError] WebSocket owner is closed"@)
        } else if registered && current.scope_id != active {
            if active != 0 {
                Err("[NetworkError] WebSocket URL belongs to another owner"@)
            } else {
                Err("[NetworkError] WebSocket URL belongs to a scoped owner"@)
            }
        } else if registered && !current.closed {
            Ok(self.registry[url])
        } else if active != 0 && self.scopes[active].clients.len() >= MAX_SCOPE_CLIENTS {
            Err("[NetworkError] WebSocket owner generation limit"@)
        } else if !registered && self.registry.dom().len() >= MAX_CLIENTS {
            Err("[NetworkError] WebSocket registry limit"@)
        } else {
            Ok(self.next_generation)
        }
    }

    /// A new client takes the place of the one that is registered for `url`, if any.
    pub open spec fn replaced(self, active: u64, url: Seq<char>, now: i64) -> TransportView {
        let generation = self.next_generation;
        let closed = if active == 0 && self.registry.dom().contains(url) {
            self.clients.insert(
                self.registry[url],
                self.clients[self.registry[url]].request_close(),
            )
        } else {
            self.clients
        };
        TransportView {
            clients: closed.insert(generation, ClientView::fresh(url, generation, active, now)),
            registry: self.registry.insert(url, generation),
            scopes: if active == 0 {
                self.scopes
            } else {
                self.scopes.insert(
                    active,
                    ScopeView {
                        clients: self.scopes[active].clients.push(generation),
                        ..self.scopes[active]
                    },
                )
            },
            next_generation: (generation + 1) as u64,
            ..self
        }
    }

    /// What acquiring `url` leaves. An error leaves everything as it was.
    pub open spec fn acquired(self, active: u64, url: Seq<char>, now: i64) -> TransportView {
        match self.acquisition(active, url) {
            Ok(generation) => if generation == self.next_generation {
                self.replaced(active, url, now)
            } else {
                self
            },
            Err(_) => self,
        }
    }

    /// The client of a generation changes.
    pub open spec fn with_client(self, generation: u64, client: ClientView) -> TransportView {
        TransportView { clients: self.clients.insert(generation, client), ..self }
    }
}

impl Transport {
    /// Nothing has happened yet.
    pub fn new() -> (transport: Transport)
        ensures
            transport@ == TransportView::fresh(),
            transport@.wf(),
    {
        broadcast use vstd::std_specs::hash::group_hash_axioms;

        let transport = Transport {
            clients: HashMap::new(),
            registry: Table::new(),
            scopes: HashMap::new(),
            raw: RawBuses::new(),
            next_generation: 1,
            next_scope: 1,
        };
        assert(transport@.clients =~= Map::empty());
        assert(transport@.scopes =~= Map::empty());
        transport
    }

    /// The client of a generation.
    pub fn client(&self, generation: u64) -> (found: Option<&ClientState>)
        ensures
            match found {
                Some(client) => self@.clients.dom().contains(generation) && client@
                    == self@.clients[generation],
                None => !self@.clients.dom().contains(generation),
            },
    {
        broadcast use vstd::std_specs::hash::group_hash_axioms;

        self.clients.get(&generation)
    }

    /// The client of a generation, to change it.
    pub fn client_mut(&mut self, generation: u64) -> (found: Option<&mut ClientState>)
        ensures
            match found {
                Some(client) => {
                    &&& old(self)@.clients.dom().contains(generation)
                    &&& client@ == old(self)@.clients[generation]
                    &&& final(self)@ == old(self)@.with_client(generation, final(client)@)
                },
                None => !old(self)@.clients.dom().contains(generation) && final(self)@ == old(
                    self,
                )@,
            },
    {
        broadcast use vstd::std_specs::hash::group_hash_axioms;

        match self.clients.entry(generation) {
            Entry::Occupied(entry) => Some(entry.into_mut()),
            Entry::Vacant(_) => None,
        }
    }
}

/// The open client that is registered for `url`.
pub fn get_client<'a>(transport: &'a Transport, url: &str) -> (found: Option<&'a ClientState>)
    requires
        transport@.wf(),
    ensures
        match found {
            Some(client) => match transport@.live(url@) {
                Some(generation) => client@ == transport@.clients[generation],
                None => false,
            },
            None => transport@.live(url@) is None,
        },
{
    match transport.registry.get(url) {
        Some(generation) => match transport.client(*generation) {
            Some(client) => if client.is_closed() {
                None
            } else {
                Some(client)
            },
            None => None,
        },
        None => None,
    }
}

/// The generation of the open client that is registered for `url`.
pub fn client_generation(transport: &Transport, url: &str) -> (generation: Option<u64>)
    requires
        transport@.wf(),
    ensures
        generation == transport@.live(url@),
{
    match get_client(transport, url) {
        Some(client) => Some(client.generation()),
        None => None,
    }
}

impl Transport {
    /// A new generation of a client for `url`.
    fn new_slot(&mut self, url: &str, scope_id: u64, now: i64) -> (client: ClientState)
        requires
            old(self)@.next_generation < u64::MAX,
        ensures
            client@ == ClientView::fresh(url@, old(self)@.next_generation, scope_id, now),
            final(self)@ == (TransportView {
                next_generation: (old(self)@.next_generation + 1) as u64,
                ..old(self)@
            }),
    {
        let generation = self.next_generation;
        self.next_generation = generation + 1;
        ClientState::new(url, generation, scope_id, now)
    }

    /// Registers a client, in the place of whatever is registered for its URL.
    fn register(&mut self, url: &str, client: ClientState)
        ensures
            final(self)@ == (TransportView {
                clients: old(self)@.clients.insert(client@.generation, client@),
                registry: old(self)@.registry.insert(url@, client@.generation),
                ..old(self)@
            }),
    {
        broadcast use vstd::std_specs::hash::group_hash_axioms;

        let generation = client.generation();
        self.registry.insert(url, generation);
        self.clients.insert(generation, client);
        assert(self@.clients =~= old(self)@.clients.insert(generation, client@));
    }

    /// An owner acquires a generation.
    fn own(&mut self, id: u64, generation: u64)
        requires
            old(self)@.scopes.dom().contains(id),
        ensures
            final(self)@ == (TransportView {
                scopes: old(self)@.scopes.insert(
                    id,
                    ScopeView {
                        clients: old(self)@.scopes[id].clients.push(generation),
                        ..old(self)@.scopes[id]
                    },
                ),
                ..old(self)@
            }),
    {
        broadcast use vstd::std_specs::hash::group_hash_axioms;

        if let Some(scope) = self.scopes.remove(&id) {
            let mut scope = scope;
            scope.clients.push(generation);
            self.scopes.insert(id, scope);
            assert(self@.scopes =~= old(self)@.scopes.insert(id, scope@));
        }
    }

    /// Whether an owner can still acquire, and how much it has acquired.
    fn scope_state(&self, id: u64) -> (state: Option<(bool, usize)>)
        ensures
            match state {
                Some((closed, acquired)) => {
                    &&& self@.scopes.dom().contains(id)
                    &&& closed == self@.scopes[id].closed
                    &&& acquired == self@.scopes[id].clients.len()
                },
                None => !self@.scopes.dom().contains(id),
            },
    {
        broadcast use vstd::std_specs::hash::group_hash_axioms;

        match self.scopes.get(&id) {
            Some(scope) => Some((scope.closed, scope.clients.len())),
            None => None,
        }
    }

    /// Whether another owner can be counted.
    pub fn has_scopes(&self) -> (more: bool)
        ensures
            more == (self@.next_scope < u64::MAX),
    {
        self.next_scope < u64::MAX
    }

    /// Whether another generation can be counted.
    pub fn has_generations(&self) -> (more: bool)
        ensures
            more == (self@.next_generation < u64::MAX),
    {
        self.next_generation < u64::MAX
    }
}

/// Whether an answer is the one that is owed.
pub open spec fn acquires(answer: Result<u64, String>, owed: Result<u64, Seq<char>>) -> bool {
    match (answer, owed) {
        (Ok(generation), Ok(expected)) => generation == expected,
        (Err(message), Err(text)) => message@ == text,
        _ => false,
    }
}

/// Acquires `url` at `now`, on behalf of the owner `active` or of nobody.
pub fn acquire_slot_at(transport: &mut Transport, active: u64, url: &str, now: i64) -> (answer:
    Result<u64, String>)
    requires
        old(transport)@.wf(),
        old(transport)@.next_generation < u64::MAX,
    ensures
        acquires(answer, old(transport)@.acquisition(active, url@)),
        final(transport)@ == old(transport)@.acquired(active, url@, now),
        final(transport)@.wf(),
        answer matches Ok(generation) ==> final(transport)@.clients.dom().contains(generation),
{
    if url.as_bytes().len() > MAX_URL_BYTES {
        return Err("[NetworkError] WebSocket URL exceeds limit".to_owned());
    }
    let mut acquired: usize = 0;
    if active != 0 {
        match transport.scope_state(active) {
            Some((false, count)) => {
                acquired = count;
            },
            _ => {
                return Err("[NetworkError] WebSocket owner is closed".to_owned());
            },
        }
    }
    let mut registered = false;
    if let Some(generation) = transport.registry.get(url) {
        registered = true;
        let generation = *generation;
        if let Some(client) = transport.client(generation) {
            if client.scope_id() != active {
                if active != 0 {
                    return Err("[NetworkError] WebSocket URL belongs to another owner".to_owned());
                }
                return Err("[NetworkError] WebSocket URL belongs to a scoped owner".to_owned());
            }
            if !client.is_closed() {
                return Ok(generation);
            }
        }
    }
    if active != 0 && acquired >= MAX_SCOPE_CLIENTS {
        return Err("[NetworkError] WebSocket owner generation limit".to_owned());
    }
    if !registered && transport.registry.len() >= MAX_CLIENTS {
        return Err("[NetworkError] WebSocket registry limit".to_owned());
    }
    if active == 0 && registered {
        if let Some(generation) = transport.registry.get(url) {
            let generation = *generation;
            if let Some(client) = transport.client_mut(generation) {
                client.request_close();
            }
        }
    }
    let client = transport.new_slot(url, active, now);
    let generation = client.generation();
    transport.register(url, client);
    if active != 0 {
        transport.own(active, generation);
    }
    proof {
        old(transport)@.lemma_replaced_wf(active, url@, now);
        assert(transport@ =~= old(transport)@.replaced(active, url@, now));
    }
    Ok(generation)
}

impl TransportView {
    proof fn lemma_replaced_wf(self, active: u64, url: Seq<char>, now: i64)
        requires
            self.wf(),
            self.next_generation < u64::MAX,
            self.acquisition(active, url) == Ok::<u64, Seq<char>>(self.next_generation),
        ensures
            self.replaced(active, url, now).wf(),
    {
        let after = self.replaced(active, url, now);
        assert forall|id: u64| #[trigger] after.scopes.dom().contains(id) implies after.scope_wf(
            id,
        ) by {
            assert(self.scope_wf(id));
            let scope = after.scopes[id];
            assert forall|i: int| 0 <= i < scope.clients.len() implies {
                &&& after.clients.dom().contains(#[trigger] scope.clients[i])
                &&& after.clients[scope.clients[i]].scope_id == id
                &&& scope.closed ==> after.clients[scope.clients[i]].closed
            } by {
                if i < self.scopes[id].clients.len() {
                    assert(scope.clients[i] == self.scopes[id].clients[i]);
                    assert(self.clients.dom().contains(self.scopes[id].clients[i]));
                }
            }
        }
        assert forall|other: Seq<char>| #[trigger] after.registry.dom().contains(
            other,
        ) implies after.registration_wf(other) by {
            if other == url {
                if active != 0 {
                    let owned = after.scopes[active].clients;
                    assert(owned[owned.len() - 1] == self.next_generation);
                }
            } else {
                assert(self.registration_wf(other));
                let generation = self.registry[other];
                let owner = self.clients[generation].scope_id;
                if owner != 0 && owner == active {
                    let k = choose|k: int|
                        0 <= k < self.scopes[owner].clients.len() && self.scopes[owner].clients[k]
                            == generation;
                    assert(after.scopes[owner].clients[k] == generation);
                }
            }
        }
    }
}

/// Acquires `url` now, on behalf of the owner `active` or of nobody.
pub fn acquire_slot(transport: &mut Transport, active: u64, url: &str) -> (answer: Result<
    u64,
    String,
>)
    requires
        old(transport)@.wf(),
        old(transport)@.next_generation < u64::MAX,
    ensures
        acquires(answer, old(transport)@.acquisition(active, url@)),
        exists|now: i64|
            is_reading(now) && final(transport)@ == #[trigger] old(transport)@.acquired(active, url@, now),
        final(transport)@.wf(),
        answer matches Ok(generation) ==> final(transport)@.clients.dom().contains(generation),
{
    let now = now_ms();
    acquire_slot_at(transport, active, url, now)
}

/// The client for `url`, which is made where there is no open one, without connecting.
pub fn ensure_slot(transport: &mut Transport, active: u64, url: &str) -> (answer: Result<
    u64,
    String,
>)
    requires
        old(transport)@.wf(),
        old(transport)@.next_generation < u64::MAX,
    ensures
        acquires(answer, old(transport)@.acquisition(active, url@)),
        exists|now: i64|
            is_reading(now) && final(transport)@ == #[trigger] old(transport)@.acquired(active, url@, now),
        final(transport)@.wf(),
        answer matches Ok(generation) ==> final(transport)@.clients.dom().contains(generation),
{
    acquire_slot(transport, active, url)
}

impl TransportView {
    /// The registration of a client's URL is removed, if it is this client's.
    pub open spec fn without_exact(self, generation: u64) -> TransportView {
        let url = self.clients[generation].url;
        if self.clients.dom().contains(generation) && self.registry.dom().contains(url)
            && self.registry[url] == generation {
            TransportView { registry: self.registry.remove(url), ..self }
        } else {
            self
        }
    }

    /// The registered client of `url`, where the owner `active` has it, is removed and closed.
    pub open spec fn dropped(self, active: u64, url: Seq<char>) -> TransportView {
        let generation = self.registry[url];
        if self.registry.dom().contains(url) && self.clients[generation].scope_id == active {
            TransportView {
                registry: self.registry.remove(url),
                ..self.with_client(generation, self.clients[generation].request_close())
            }
        } else {
            self
        }
    }

    /// Only the URLs whose raw channels answer that they have receivers keep them.
    pub open spec fn reclaimed(self, counts: Map<Seq<char>, nat>) -> TransportView {
        TransportView { raw: self.raw.reclaimed(counts), ..self }
    }

    /// A client that changed in a way that keeps it well formed keeps the registry so.
    pub proof fn lemma_with_client_wf(self, generation: u64, client: ClientView)
        requires
            self.wf(),
            self.clients.dom().contains(generation),
            client.wf(),
            client.same_client(self.clients[generation]),
            self.clients[generation].closed ==> client.closed,
        ensures
            self.with_client(generation, client).wf(),
    {
        let after = self.with_client(generation, client);
        assert forall|id: u64| #[trigger] after.scopes.dom().contains(id) implies after.scope_wf(
            id,
        ) by {
            assert(self.scope_wf(id));
            let scope = self.scopes[id];
            assert forall|i: int| 0 <= i < scope.clients.len() implies {
                &&& after.clients.dom().contains(#[trigger] scope.clients[i])
                &&& after.clients[scope.clients[i]].scope_id == id
                &&& scope.closed ==> after.clients[scope.clients[i]].closed
            } by {
                assert(self.clients.dom().contains(scope.clients[i]));
            }
        }
        assert forall|url: Seq<char>| #[trigger] after.registry.dom().contains(
            url,
        ) implies after.registration_wf(url) by {
            assert(self.registration_wf(url));
        }
    }

    /// Whatever happens to a client keeps the registry well formed.
    pub proof fn lemma_operation_wf(self, generation: u64, operation: Operation)
        requires
            self.wf(),
            self.clients.dom().contains(generation),
            self.clients[generation].allows(operation),
        ensures
            self.with_client(generation, self.clients[generation].after(operation)).wf(),
    {
        let client = self.clients[generation];
        law_every_operation_keeps_well_formed(client, operation);
        law_identity_is_fixed(client, operation);
        if client.closed {
            law_closed_is_final(client, operation);
        }
        self.lemma_with_client_wf(generation, client.after(operation));
    }

    proof fn lemma_unregistered_wf(self, url: Seq<char>)
        requires
            self.wf(),
        ensures
            (TransportView { registry: self.registry.remove(url), ..self }).wf(),
    {
        let after = TransportView { registry: self.registry.remove(url), ..self };
        vstd::set_lib::lemma_len_subset(after.registry.dom(), self.registry.dom());
        assert forall|other: Seq<char>| #[trigger] after.registry.dom().contains(
            other,
        ) implies after.registration_wf(other) by {
            assert(self.registration_wf(other));
        }
        assert forall|id: u64| #[trigger] after.scopes.dom().contains(id) implies after.scope_wf(
            id,
        ) by {
            assert(self.scope_wf(id));
        }
    }

    /// The raw channels have no part in it.
    proof fn lemma_raw_wf(self, raw: RawView)
        requires
            self.wf(),
        ensures
            (TransportView { raw, ..self }).wf(),
    {
        let after = TransportView { raw, ..self };
        assert forall|other: Seq<char>| #[trigger] after.registry.dom().contains(
            other,
        ) implies after.registration_wf(other) by {
            assert(self.registration_wf(other));
        }
        assert forall|id: u64| #[trigger] after.scopes.dom().contains(id) implies after.scope_wf(
            id,
        ) by {
            assert(self.scope_wf(id));
        }
    }
}

/// Removes the registration of a client, if it is still this client's. A client that took its
/// place stays.
pub fn remove_exact(transport: &mut Transport, generation: u64)
    requires
        old(transport)@.wf(),
    ensures
        final(transport)@ == old(transport)@.without_exact(generation),
        final(transport)@.wf(),
{
    let url = match transport.client(generation) {
        Some(client) => client.url().clone(),
        None => {
            return;
        },
    };
    let current = match transport.registry.get(url.as_str()) {
        Some(current) => *current,
        None => {
            return;
        },
    };
    if current == generation {
        transport.registry.remove(url.as_str());
        proof {
            old(transport)@.lemma_unregistered_wf(url@);
        }
    }
}

impl Transport {
    /// The raw channels.
    pub fn raw(&self) -> (raw: &RawBuses)
        ensures
            raw@ == self@.raw,
    {
        &self.raw
    }

    /// The raw channels, to change them.
    pub fn raw_mut(&mut self) -> (raw: &mut RawBuses)
        ensures
            raw@ == old(self)@.raw,
            final(self)@ == (TransportView { raw: final(raw)@, ..old(self)@ }),
    {
        &mut self.raw
    }

    /// Drops the raw channels that nobody observes.
    pub(crate) fn reclaim(&mut self) -> (counts: Ghost<Map<Seq<char>, nat>>)
        requires
            old(self)@.wf(),
        ensures
            final(self)@ == old(self)@.reclaimed(counts@),
            old(self)@.raw.loses_unobserved(final(self)@.raw),
            final(self)@.wf(),
    {
        reclaim_raw_buses(&mut self.raw);
        let ghost counts = choose|counts: Map<Seq<char>, nat>|
            self.raw@ == #[trigger] old(self)@.raw.reclaimed(counts);
        proof {
            old(self)@.lemma_raw_wf(self.raw@);
        }
        Ghost(counts)
    }
}

/// Requests the cancellation of the client of `url` and removes it, where the owner `active` has
/// it. That is no evidence that its tasks are gone.
pub fn drop_client(transport: &mut Transport, active: u64, url: &str)
    requires
        old(transport)@.wf(),
    ensures
        exists|counts: Map<Seq<char>, nat>|
            final(transport)@ == #[trigger] old(transport)@.dropped(active, url@).reclaimed(
                counts,
            ),
        old(transport)@.raw.loses_unobserved(final(transport)@.raw),
        final(transport)@.wf(),
{
    if let Some(generation) = transport.registry.get(url) {
        let generation = *generation;
        proof {
            assert(transport@.registration_wf(url@));
        }
        let owner = match transport.client(generation) {
            Some(client) => Some(client.scope_id()),
            None => None,
        };
        if owner == Some(active) {
            proof {
                transport@.lemma_operation_wf(generation, Operation::RequestClose);
            }
            if let Some(client) = transport.client_mut(generation) {
                client.request_close();
            }
            proof {
                transport@.lemma_unregistered_wf(url@);
            }
            transport.registry.remove(url);
        }
    }
    let counts = transport.reclaim();
    assert(transport@ == old(transport)@.dropped(active, url@).reclaimed(counts@));
}

impl TransportView {
    /// A new owner, which has acquired nothing.
    pub open spec fn with_scope(self) -> TransportView {
        TransportView {
            scopes: self.scopes.insert(
                self.next_scope,
                ScopeView { closed: false, clients: Seq::empty() },
            ),
            next_scope: (self.next_scope + 1) as u64,
            ..self
        }
    }

    /// What an owner has acquired; nothing where it is unknown.
    pub open spec fn owned(self, id: u64) -> Seq<u64> {
        if self.scopes.dom().contains(id) {
            self.scopes[id].clients
        } else {
            Seq::empty()
        }
    }

    /// The clients of these generations close.
    pub open spec fn closing(self, generations: Seq<u64>) -> TransportView {
        TransportView {
            clients: Map::new(
                |generation: u64| self.clients.dom().contains(generation),
                |generation: u64|
                    if generations.contains(generation) {
                        self.clients[generation].request_close()
                    } else {
                        self.clients[generation]
                    },
            ),
            ..self
        }
    }

    /// An owner closes: it acquires nothing any more, and what it has acquired closes.
    pub open spec fn scope_closed(self, id: u64) -> TransportView {
        if self.scopes.dom().contains(id) {
            TransportView {
                scopes: self.scopes.insert(id, ScopeView { closed: true, ..self.scopes[id] }),
                ..self.closing(self.scopes[id].clients)
            }
        } else {
            self
        }
    }

    /// The registrations of these clients are removed, each where it is still this client's.
    pub open spec fn without_each(self, generations: Seq<u64>) -> TransportView
        decreases generations.len(),
    {
        if generations.len() == 0 {
            self
        } else {
            self.without_each(generations.drop_last()).without_exact(generations.last())
        }
    }

    /// An owner is gone: what it acquired is closed and no longer registered.
    pub open spec fn scope_dropped(self, id: u64) -> TransportView {
        let removed = self.scope_closed(id).without_each(self.owned(id));
        TransportView { scopes: removed.scopes.remove(id), ..removed }
    }

    /// Taking registrations back touches no raw channel.
    pub proof fn lemma_without_each_keeps_raw(self, generations: Seq<u64>)
        ensures
            self.without_each(generations).raw == self.raw,
        decreases generations.len(),
    {
        if generations.len() > 0 {
            self.lemma_without_each_keeps_raw(generations.drop_last());
        }
    }

    /// Closing clients keeps the registry well formed.
    pub proof fn lemma_closing_wf(self, generations: Seq<u64>)
        requires
            self.wf(),
        ensures
            self.closing(generations).wf(),
    {
        let after = self.closing(generations);
        assert forall|generation: u64| #[trigger] after.clients.dom().contains(
            generation,
        ) implies after.clients[generation].wf() by {
            law_every_operation_keeps_well_formed(
                self.clients[generation],
                Operation::RequestClose,
            );
        }
        assert forall|id: u64| #[trigger] after.scopes.dom().contains(id) implies after.scope_wf(
            id,
        ) by {
            assert(self.scope_wf(id));
            let scope = self.scopes[id];
            assert forall|i: int| 0 <= i < scope.clients.len() implies {
                &&& after.clients.dom().contains(#[trigger] scope.clients[i])
                &&& after.clients[scope.clients[i]].scope_id == id
                &&& scope.closed ==> after.clients[scope.clients[i]].closed
            } by {
                assert(self.clients.dom().contains(scope.clients[i]));
            }
        }
        assert forall|url: Seq<char>| #[trigger] after.registry.dom().contains(
            url,
        ) implies after.registration_wf(url) by {
            assert(self.registration_wf(url));
        }
    }

    /// Closing an owner keeps the registry well formed.
    pub proof fn lemma_scope_closed_wf(self, id: u64)
        requires
            self.wf(),
        ensures
            self.scope_closed(id).wf(),
    {
        if self.scopes.dom().contains(id) {
            let generations = self.scopes[id].clients;
            self.lemma_closing_wf(generations);
            let closing = self.closing(generations);
            let after = self.scope_closed(id);
            assert forall|other: u64| #[trigger] after.scopes.dom().contains(
                other,
            ) implies after.scope_wf(other) by {
                assert(closing.scope_wf(other));
                let scope = after.scopes[other];
                assert forall|i: int| 0 <= i < scope.clients.len() implies {
                    &&& after.clients.dom().contains(#[trigger] scope.clients[i])
                    &&& after.clients[scope.clients[i]].scope_id == other
                    &&& scope.closed ==> after.clients[scope.clients[i]].closed
                } by {
                    assert(closing.clients.dom().contains(closing.scopes[other].clients[i]));
                    if other == id {
                        assert(generations.contains(scope.clients[i]));
                    }
                }
            }
            assert forall|url: Seq<char>| #[trigger] after.registry.dom().contains(
                url,
            ) implies after.registration_wf(url) by {
                assert(closing.registration_wf(url));
            }
        }
    }

    proof fn lemma_without_exact_wf(self, generation: u64)
        requires
            self.wf(),
        ensures
            self.without_exact(generation).wf(),
    {
        self.lemma_unregistered_wf(self.clients[generation].url);
    }

    /// Removing registrations leaves the clients and the owners, and exactly the registrations of
    /// other clients.
    pub proof fn lemma_without_each(self, generations: Seq<u64>)
        requires
            self.wf(),
        ensures
            self.without_each(generations).wf(),
            self.without_each(generations) == (TransportView {
                registry: self.without_each(generations).registry,
                ..self
            }),
            forall|url: Seq<char>|
                #![trigger self.without_each(generations).registry.dom().contains(url)]
                self.without_each(generations).registry.dom().contains(url) == (
                self.registry.dom().contains(url) && !generations.contains(self.registry[url])),
            forall|url: Seq<char>|
                #![trigger self.without_each(generations).registry[url]]
                self.without_each(generations).registry.dom().contains(url)
                    ==> self.without_each(generations).registry[url] == self.registry[url],
        decreases generations.len(),
    {
        if generations.len() > 0 {
            let fewer = generations.drop_last();
            self.lemma_without_each(fewer);
            let before = self.without_each(fewer);
            before.lemma_without_exact_wf(generations.last());
            let after = self.without_each(generations);
            assert forall|url: Seq<char>|
                #![trigger after.registry.dom().contains(url)]
                after.registry.dom().contains(url) == (self.registry.dom().contains(url)
                    && !generations.contains(self.registry[url])) by {
                let last = generations.last();
                assert(generations.contains(self.registry[url]) == (fewer.contains(
                    self.registry[url],
                ) || self.registry[url] == last)) by {
                    assert(generations[generations.len() - 1] == last);
                    if fewer.contains(self.registry[url]) {
                        let k = choose|k: int|
                            0 <= k < fewer.len() && fewer[k] == self.registry[url];
                        assert(generations[k] == self.registry[url]);
                    }
                    if generations.contains(self.registry[url]) {
                        let k = choose|k: int|
                            0 <= k < generations.len() && generations[k] == self.registry[url];
                        if k < fewer.len() {
                            assert(fewer[k] == self.registry[url]);
                        }
                    }
                }
                if before.registry.dom().contains(url) {
                    assert(before.registration_wf(url));
                }
            }
        }
    }

    proof fn lemma_scope_dropped_wf(self, id: u64)
        requires
            self.wf(),
        ensures
            self.scope_dropped(id).wf(),
    {
        self.lemma_scope_closed_wf(id);
        let closed = self.scope_closed(id);
        let owned = self.owned(id);
        closed.lemma_without_each(owned);
        let removed = closed.without_each(owned);
        let after = self.scope_dropped(id);
        assert forall|other: u64| #[trigger] after.scopes.dom().contains(
            other,
        ) implies after.scope_wf(other) by {
            assert(removed.scope_wf(other));
        }
        assert forall|url: Seq<char>| #[trigger] after.registry.dom().contains(
            url,
        ) implies after.registration_wf(url) by {
            assert(removed.registration_wf(url));
            assert(closed.registration_wf(url));
            let generation = removed.registry[url];
            let owner = removed.clients[generation].scope_id;
            if owner == id && id != 0 {
                assert(closed.scopes[id].clients.contains(generation));
                assert(closed.scopes[id].clients == owned);
            }
        }
    }
}

impl Transport {
    /// A new owner.
    pub(crate) fn open_scope(&mut self) -> (id: u64)
        requires
            old(self)@.wf(),
            old(self)@.next_scope < u64::MAX,
        ensures
            id == old(self)@.next_scope,
            final(self)@ == old(self)@.with_scope(),
            final(self)@.wf(),
    {
        broadcast use vstd::std_specs::hash::group_hash_axioms;

        let id = self.next_scope;
        let scope = Scope { closed: false, clients: Vec::new() };
        self.scopes.insert(id, scope);
        self.next_scope = id + 1;
        proof {
            assert(self@.scopes =~= old(self)@.scopes.insert(id, scope@));
            assert(scope@.clients =~= Seq::empty());
            let before = old(self)@;
            let after = self@;
            assert forall|other: u64| #[trigger] after.scopes.dom().contains(
                other,
            ) implies after.scope_wf(other) by {
                if other != id {
                    assert(before.scope_wf(other));
                }
            }
            assert forall|url: Seq<char>| #[trigger] after.registry.dom().contains(
                url,
            ) implies after.registration_wf(url) by {
                assert(before.registration_wf(url));
                let owner = before.clients[before.registry[url]].scope_id;
                if owner != 0 {
                    assert(before.scope_wf(owner));
                }
            }
        }
        id
    }

    /// What an owner has acquired.
    pub(crate) fn scope_clients(&self, id: u64) -> (generations: Vec<u64>)
        ensures
            generations@ == self@.owned(id),
    {
        broadcast use vstd::std_specs::hash::group_hash_axioms;

        match self.scopes.get(&id) {
            Some(scope) => {
                let generations = scope.clients.clone();
                assert(generations@ =~= scope.clients@);
                generations
            },
            None => Vec::new(),
        }
    }

    /// The clients of these generations close.
    pub(crate) fn close_each(&mut self, generations: &Vec<u64>)
        ensures
            final(self)@ == old(self)@.closing(generations@),
    {
        assert(self@.closing(generations@.take(0)) =~= self@);
        let mut i: usize = 0;
        while i < generations.len()
            invariant
                i <= generations@.len(),
                self@ == old(self)@.closing(generations@.take(i as int)),
            decreases generations@.len() - i,
        {
            let generation = generations[i];
            if let Some(client) = self.client_mut(generation) {
                client.request_close();
            }
            proof {
                let longer = generations@.take(i + 1);
                assert(longer =~= generations@.take(i as int).push(generation));
                assert forall|other: u64| longer.contains(other) == (generations@.take(
                    i as int,
                ).contains(other) || other == generation) by {
                    assert(longer[i as int] == generation);
                    if generations@.take(i as int).contains(other) {
                        let k = choose|k: int|
                            0 <= k < i && generations@.take(i as int)[k] == other;
                        assert(longer[k] == other);
                    }
                }
                if old(self)@.clients.dom().contains(generation) {
                    law_close_is_idempotent(old(self)@.clients[generation]);
                }
                assert(self@.clients =~= old(self)@.closing(longer).clients);
            }
            i = i + 1;
        }
        assert(generations@.take(i as int) =~= generations@);
    }

    /// An owner closes.
    pub(crate) fn close_scope(&mut self, id: u64)
        requires
            old(self)@.wf(),
        ensures
            final(self)@ == old(self)@.scope_closed(id),
            final(self)@.wf(),
    {
        broadcast use vstd::std_specs::hash::group_hash_axioms;

        proof {
            self@.lemma_scope_closed_wf(id);
        }
        let generations = self.scope_clients(id);
        if let Some(scope) = self.scopes.remove(&id) {
            let mut scope = scope;
            scope.closed = true;
            self.scopes.insert(id, scope);
            assert(self@.scopes =~= old(self)@.scopes.insert(id, scope@));
            self.close_each(&generations);
            assert(self@ =~= old(self)@.scope_closed(id));
        } else {
            assert(self@.scopes =~= old(self)@.scopes);
        }
    }

    /// An owner is gone.
    pub(crate) fn drop_scope(&mut self, id: u64)
        requires
            old(self)@.wf(),
        ensures
            final(self)@ == old(self)@.scope_dropped(id),
            final(self)@.wf(),
    {
        broadcast use vstd::std_specs::hash::group_hash_axioms;

        proof {
            self@.lemma_scope_dropped_wf(id);
        }
        let generations = self.scope_clients(id);
        self.close_scope(id);
        let ghost closed = self@;
        let mut i: usize = 0;
        while i < generations.len()
            invariant
                i <= generations@.len(),
                self@ == closed.without_each(generations@.take(i as int)),
                self@.wf(),
            decreases generations@.len() - i,
        {
            remove_exact(self, generations[i]);
            proof {
                let longer = generations@.take(i + 1);
                assert(longer.drop_last() =~= generations@.take(i as int));
            }
            i = i + 1;
        }
        assert(generations@.take(i as int) =~= generations@);
        let ghost removed = self@;
        self.scopes.remove(&id);
        assert(self@.scopes =~= removed.scopes.remove(id));
    }

    /// Lets go of a client that is registered nowhere and that no owner knows. Answers whether it
    /// did.
    pub fn retire(&mut self, generation: u64) -> (gone: bool)
        requires
            old(self)@.wf(),
        ensures
            gone == old(self)@.is_unreferenced(generation),
            final(self)@ == if gone {
                TransportView { clients: old(self)@.clients.remove(generation), ..old(self)@ }
            } else {
                old(self)@
            },
            final(self)@.wf(),
    {
        broadcast use vstd::std_specs::hash::group_hash_axioms;

        let (url, owner) = match self.client(generation) {
            Some(client) => (client.url().clone(), client.scope_id()),
            None => {
                return false;
            },
        };
        if let Some(current) = self.registry.get(url.as_str()) {
            if *current == generation {
                return false;
            }
        }
        if owner != 0 && self.scope_state(owner).is_some() {
            return false;
        }
        self.clients.remove(&generation);
        proof {
            let before = old(self)@;
            let after = self@;
            assert(after.clients =~= before.clients.remove(generation));
            assert forall|id: u64| #[trigger] after.scopes.dom().contains(
                id,
            ) implies after.scope_wf(id) by {
                assert(before.scope_wf(id));
                let scope = before.scopes[id];
                assert forall|i: int| 0 <= i < scope.clients.len() implies {
                    &&& after.clients.dom().contains(#[trigger] scope.clients[i])
                    &&& after.clients[scope.clients[i]].scope_id == id
                    &&& scope.closed ==> after.clients[scope.clients[i]].closed
                } by {
                    assert(before.clients.dom().contains(scope.clients[i]));
                }
            }
            assert forall|other: Seq<char>| #[trigger] after.registry.dom().contains(
                other,
            ) implies after.registration_wf(other) by {
                assert(before.registration_wf(other));
            }
        }
        true
    }
}

impl TransportView {
    /// Whether nothing refers to a client any more: neither its URL nor its owner.
    pub open spec fn is_unreferenced(self, generation: u64) -> bool {
        let client = self.clients[generation];
        &&& self.clients.dom().contains(generation)
        &&& !(self.registry.dom().contains(client.url) && self.registry[client.url] == generation)
        &&& !(client.scope_id != 0 && self.scopes.dom().contains(client.scope_id))
    }
}

impl TransportView {
    /// A client and the raw channels change together.
    pub open spec fn with_received(
        self,
        generation: u64,
        client: ClientView,
        raw: RawView,
    ) -> TransportView {
        TransportView { raw, ..self.with_client(generation, client) }
    }

    /// Receiving a payload keeps the registry well formed.
    proof fn lemma_received_wf(
        self,
        generation: u64,
        payload: Seq<u8>,
        is_binary: bool,
        at: Instant,
        ms: i64,
        client: ClientView,
        raw: RawView,
    )
        requires
            self.wf(),
            self.clients.dom().contains(generation),
            received(
                self.clients[generation],
                self.raw,
                payload,
                is_binary,
                at,
                ms,
                client,
                raw,
            ),
        ensures
            self.with_received(generation, client, raw).wf(),
    {
        let before = self.clients[generation];
        if before.closed {
            self.lemma_with_client_wf(generation, client);
        } else {
            match decoding(payload, is_binary) {
                Ok(tree) => {
                    let charge = choose|charge: nat| #[trigger]
                        chargeable(tree, charge) && client == before.push_incoming(tree, charge);
                    self.lemma_operation_wf(generation, Operation::PushIncoming(tree, charge));
                },
                Err(message) => {
                    self.lemma_operation_wf(
                        generation,
                        Operation::Fail(FailureSource::Internal, message),
                    );
                },
            }
        }
        self.with_client(generation, client).lemma_raw_wf(raw);
    }

    /// Whatever the socket brings keeps the registry well formed.
    proof fn lemma_handled_wf(
        self,
        generation: u64,
        inbound: Inbound,
        client: ClientView,
        raw: RawView,
    )
        requires
            self.wf(),
            self.clients.dom().contains(generation),
            handled(self.clients[generation], self.raw, inbound, client, raw),
        ensures
            self.with_received(generation, client, raw).wf(),
    {
        let before = self.clients[generation];
        match inbound {
            Inbound::Text(payload) => {
                let (at, ms) = choose|at: Instant, ms: i64|
                    is_reading(ms) && #[trigger] received(
                        before,
                        self.raw,
                        payload@,
                        false,
                        at,
                        ms,
                        client,
                        raw,
                    );
                self.lemma_received_wf(generation, payload@, false, at, ms, client, raw);
            },
            Inbound::Binary(payload) => {
                let (at, ms) = choose|at: Instant, ms: i64|
                    is_reading(ms) && #[trigger] received(
                        before,
                        self.raw,
                        payload@,
                        true,
                        at,
                        ms,
                        client,
                        raw,
                    );
                self.lemma_received_wf(generation, payload@, true, at, ms, client, raw);
            },
            Inbound::Ping(payload) => {
                let retained = choose|retained: nat|
                    retained >= payload@.len() && client == #[trigger] before.send(
                        Frame::Pong(payload@),
                        retained,
                    );
                self.lemma_operation_wf(
                    generation,
                    Operation::Send(Frame::Pong(payload@), retained),
                );
                self.with_client(generation, client).lemma_raw_wf(raw);
            },
            Inbound::Pong => {
                let now = choose|now: i64|
                    is_reading(now) && client == #[trigger] before.pong(now);
                self.lemma_operation_wf(generation, Operation::Pong(now));
                self.with_client(generation, client).lemma_raw_wf(raw);
            },
            Inbound::Close => {
                self.lemma_operation_wf(generation, Operation::RequestClose);
                self.with_client(generation, client).lemma_raw_wf(raw);
            },
            Inbound::Other => {
                self.lemma_with_client_wf(generation, client);
                self.with_client(generation, client).lemma_raw_wf(raw);
            },
            Inbound::Failed(error, detail) => {
                let source = if error.is_terminal() {
                    FailureSource::TransportTerminal
                } else {
                    FailureSource::Internal
                };
                self.lemma_operation_wf(
                    generation,
                    Operation::Fail(source, "[NetworkError] reader: "@ + detail@),
                );
                self.with_client(generation, client).lemma_raw_wf(raw);
            },
            Inbound::End => {
                self.lemma_operation_wf(
                    generation,
                    Operation::Fail(
                        FailureSource::TransportTerminal,
                        "[NetworkError] reader reached EOF"@,
                    ),
                );
                self.with_client(generation, client).lemma_raw_wf(raw);
            },
        }
    }
}

impl Transport {
    /// Takes what the socket of a client brings. False where reading is over.
    pub fn on_inbound(&mut self, generation: u64, inbound: Inbound) -> (goes_on: bool)
        requires
            old(self)@.wf(),
        ensures
            if old(self)@.clients.dom().contains(generation) {
                let client = final(self)@.clients[generation];
                &&& handled(
                    old(self)@.clients[generation],
                    old(self)@.raw,
                    inbound,
                    client,
                    final(self)@.raw,
                )
                &&& goes_on == !client.closed
                &&& final(self)@ == old(self)@.with_received(generation, client, final(self)@.raw)
            } else {
                !goes_on && final(self)@ == old(self)@
            },
            old(self)@.raw.loses_unobserved(final(self)@.raw),
            final(self)@.wf(),
    {
        broadcast use vstd::std_specs::hash::group_hash_axioms;

        match self.clients.remove(&generation) {
            Some(client) => {
                let mut client = client;
                let goes_on = client.on_inbound(&mut self.raw, inbound);
                self.clients.insert(generation, client);
                proof {
                    assert(self@ =~= old(self)@.with_received(generation, client@, self.raw@));
                    old(self)@.lemma_handled_wf(generation, inbound, client@, self.raw@);
                }
                goes_on
            },
            None => {
                assert(self@ =~= old(self)@);
                false
            },
        }
    }

    /// Injects a payload into a client as its socket would bring it.
    pub fn mock_inject_raw(&mut self, generation: u64, payload: Vec<u8>, is_binary: bool)
        requires
            old(self)@.wf(),
        ensures
            if old(self)@.clients.dom().contains(generation) {
                let client = final(self)@.clients[generation];
                &&& exists|at: Instant, ms: i64|
                    is_reading(ms) && #[trigger] received(
                        old(self)@.clients[generation],
                        old(self)@.raw,
                        payload@,
                        is_binary,
                        at,
                        ms,
                        client,
                        final(self)@.raw,
                    )
                &&& final(self)@ == old(self)@.with_received(generation, client, final(self)@.raw)
            } else {
                final(self)@ == old(self)@
            },
            old(self)@.raw.loses_unobserved(final(self)@.raw),
            final(self)@.wf(),
    {
        broadcast use vstd::std_specs::hash::group_hash_axioms;

        match self.clients.remove(&generation) {
            Some(client) => {
                let mut client = client;
                client.mock_inject_raw(&mut self.raw, payload, is_binary);
                self.clients.insert(generation, client);
                proof {
                    let before = old(self)@;
                    assert(self@ =~= before.with_received(generation, client@, self.raw@));
                    let (at, ms) = choose|at: Instant, ms: i64|
                        is_reading(ms) && #[trigger] received(
                            before.clients[generation],
                            before.raw,
                            payload@,
                            is_binary,
                            at,
                            ms,
                            client@,
                            self.raw@,
                        );
                    before.lemma_received_wf(
                        generation,
                        payload@,
                        is_binary,
                        at,
                        ms,
                        client@,
                        self.raw@,
                    );
                }
            },
            None => {
                assert(self@ =~= old(self)@);
            },
        }
    }
}

impl TransportView {
    /// The open client of `url` changes, if there is one.
    pub open spec fn on_live(
        self,
        url: Seq<char>,
        change: spec_fn(ClientView) -> ClientView,
    ) -> TransportView {
        match self.live(url) {
            Some(generation) => self.with_client(generation, change(self.clients[generation])),
            None => self,
        }
    }
}

impl Transport {
    /// The open client that is registered for `url`, to change it.
    pub fn live_mut(&mut self, url: &str) -> (found: Option<&mut ClientState>)
        requires
            old(self)@.wf(),
        ensures
            match found {
                Some(client) => match old(self)@.live(url@) {
                    Some(generation) => {
                        &&& old(self)@.clients.dom().contains(generation)
                        &&& client@ == old(self)@.clients[generation]
                        &&& final(self)@ == old(self)@.with_client(generation, final(client)@)
                    },
                    None => false,
                },
                None => old(self)@.live(url@) is None && final(self)@ == old(self)@,
            },
    {
        match client_generation(self, url) {
            Some(generation) => {
                proof {
                    assert(self@.registration_wf(url@));
                }
                self.client_mut(generation)
            },
            None => None,
        }
    }

    /// Takes note of how an attempt to connect a client ended.
    pub fn finish_connect(&mut self, generation: u64, dialed: Dialed) -> (answer: Result<
        (),
        String,
    >)
        requires
            old(self)@.wf(),
        ensures
            if old(self)@.clients.dom().contains(generation) {
                let client = old(self)@.clients[generation];
                match client.connect_refusal(dialed) {
                    Some(reason) => answer is Err && answer->Err_0@ == reason && final(self)@
                        == old(self)@,
                    None => answer is Ok && exists|now: i64|
                        is_reading(now) && final(self)@ == old(self)@.with_client(
                            generation,
                            #[trigger] client.connect(now),
                        ),
                }
            } else {
                &&& answer is Err
                &&& answer->Err_0@ == "[NetworkError] client closed during connect"@
                &&& final(self)@ == old(self)@
            },
            final(self)@.wf(),
    {
        let now = now_ms();
        let ghost before = self@;
        match self.client_mut(generation) {
            Some(client) => {
                let answer = client.finish_connect(dialed, now);
                proof {
                    let state = before.clients[generation];
                    if state.connect_refusal(dialed) is None {
                        before.lemma_operation_wf(generation, Operation::Connect(now));
                    } else {
                        before.lemma_with_client_wf(generation, state);
                        assert(before.with_client(generation, state) =~= before);
                    }
                }
                answer
            },
            None => Err("[NetworkError] client closed during connect".to_owned()),
        }
    }
}

} // verus!
