//! Clients as values: the handles that message handlers get, and what they do through them.
//!
//! A handle carries the reference to the client that it was made for. Only while that very client
//! is registered and open, and only on behalf of its owner, does an operation reach it.

use vstd::prelude::*;

use crate::client::ClientState;
use crate::client_laws::Operation;
use crate::client_view::{future_handle, subscription_reference, tag_reads_back, ClientView};
use crate::clock::is_reading;
use crate::json::{json_document, json_form, json_rendering, read_document};
use crate::reference::{law_reference_holds_its_url, reference_url, url_of_reference};
use crate::transport::{ensure_slot, get_client, Transport, TransportView};
use crate::value::{entry_map, lemma_entry_map_put, lemma_lookup_put, lookup, put, Dict, Tree, Value};

verus! {

/// The text of a string value.
pub fn hash_str(value: &Value) -> (hash: Option<String>)
    ensures
        match hash {
            Some(hash) => value@ == Tree::Str(hash@),
            None => !(value@ is Str),
        },
{
    match value {
        Value::Str(text) => Some(text.clone()),
        _ => None,
    }
}

/// The URL that a handle carries.
pub fn url_of(client: &Value) -> (url: Option<String>)
    ensures
        match url {
            Some(url) => client@.text_field("url"@) == Some(url@),
            None => client@.text_field("url"@) is None,
        },
{
    client.text_field("url")
}

/// The hash that a future handle resolves or rejects.
pub fn future_hash_of(client: &Value) -> (hash: Option<String>)
    ensures
        match hash {
            Some(hash) => client@.text_field("__ws_future_hash"@) == Some(hash@),
            None => client@.text_field("__ws_future_hash"@) is None,
        },
{
    client.text_field("__ws_future_hash")
}

/// The hash of the flight that a handle refers to. A future handle refers to one too.
pub open spec fn flight_hash(handle: Tree) -> Option<Seq<char>> {
    match handle.text_field("__ws_flight_hash"@) {
        Some(hash) => Some(hash),
        None => handle.text_field("__ws_future_hash"@),
    }
}

/// The hash of the flight that a handle refers to.
pub fn flight_hash_of(handle: &Value) -> (hash: Option<String>)
    ensures
        match hash {
            Some(hash) => flight_hash(handle@) == Some(hash@),
            None => flight_hash(handle@) is None,
        },
{
    match handle.text_field("__ws_flight_hash") {
        Some(hash) => Some(hash),
        None => handle.text_field("__ws_future_hash"),
    }
}

impl TransportView {
    /// The client that a reference reaches on behalf of the owner `active` or of nobody: the
    /// registered and open one that the reference is to, where that owner has it.
    pub open spec fn routed(self, active: u64, reference: Seq<char>) -> Option<u64> {
        match url_of_reference(reference) {
            Some(url) => match self.live(url) {
                Some(generation) => if self.clients[generation].scope_id == active
                    && self.clients[generation].reference() == reference {
                    Some(generation)
                } else {
                    None
                },
                None => None,
            },
            None => None,
        }
    }

    /// The client that a handle reaches.
    pub open spec fn handled_by(self, active: u64, handle: Tree) -> Option<u64> {
        match handle.text_field("__ws_client_ref"@) {
            Some(reference) => self.routed(active, reference),
            None => None,
        }
    }

    /// The client that is reached changes, if one is.
    pub open spec fn on_routed(
        self,
        routed: Option<u64>,
        change: spec_fn(ClientView) -> ClientView,
    ) -> TransportView {
        match routed {
            Some(generation) => self.with_client(generation, change(self.clients[generation])),
            None => self,
        }
    }
}

/// The client that a reference reaches.
fn route(transport: &Transport, active: u64, reference: &str) -> (generation: Option<u64>)
    requires
        transport@.wf(),
    ensures
        generation == transport@.routed(active, reference@),
        generation is Some ==> transport@.clients.dom().contains(generation->0),
{
    match reference_url(reference) {
        Some(url) => match get_client(transport, url.as_str()) {
            Some(client) => {
                proof {
                    assert(transport@.registration_wf(url@));
                }
                let wanted = reference.to_owned();
                if client.scope_id() == active && client.reference() == wanted {
                    Some(client.generation())
                } else {
                    None
                }
            },
            None => None,
        },
        None => None,
    }
}

/// The client that a handle reaches.
pub(crate) fn route_handle(transport: &Transport, active: u64, handle: &Value) -> (generation: Option<u64>)
    requires
        transport@.wf(),
    ensures
        generation == transport@.handled_by(active, handle@),
        generation is Some ==> transport@.clients.dom().contains(generation->0),
{
    match handle.text_field("__ws_client_ref") {
        Some(reference) => route(transport, active, reference.as_str()),
        None => None,
    }
}

/// A reference reaches the client that it was made for while that client is registered and open
/// and its owner asks, and no other.
pub proof fn law_reference_reaches_its_client(
    transport: TransportView,
    active: u64,
    generation: u64,
)
    requires
        transport.wf(),
        transport.clients.dom().contains(generation),
        transport.live(transport.clients[generation].url) == Some(generation),
        transport.clients[generation].scope_id == active,
    ensures
        transport.routed(active, transport.clients[generation].reference()) == Some(generation),
{
    let client = transport.clients[generation];
    law_reference_holds_its_url(client.generation, client.scope_id, client.url);
}

/// A reference to a client that is closed, or that another took the place of, reaches nothing: in
/// particular not the replacement.
pub proof fn law_stale_reference_reaches_nothing(
    transport: TransportView,
    active: u64,
    stale: ClientView,
)
    requires
        transport.wf(),
        transport.live(stale.url) != Some(stale.generation),
    ensures
        transport.routed(active, stale.reference()) is None,
{
    law_reference_holds_its_url(stale.generation, stale.scope_id, stale.url);
    if let Some(generation) = transport.live(stale.url) {
        assert(transport.registration_wf(stale.url));
        let client = transport.clients[generation];
        if client.reference() == stale.reference() {
            crate::reference::law_reference_is_identity(
                client.generation,
                client.scope_id,
                client.url,
                stale.generation,
                stale.scope_id,
                stale.url,
            );
        }
    }
}

/// A reference reaches nothing on behalf of anyone but the owner of its client.
pub proof fn law_foreign_reference_reaches_nothing(
    transport: TransportView,
    active: u64,
    client: ClientView,
)
    requires
        transport.wf(),
        client.scope_id != active,
    ensures
        transport.routed(active, client.reference()) is None,
{
    law_reference_holds_its_url(client.generation, client.scope_id, client.url);
    if let Some(generation) = transport.live(client.url) {
        assert(transport.registration_wf(client.url));
        let current = transport.clients[generation];
        if current.reference() == client.reference() {
            crate::reference::law_reference_is_identity(
                current.generation,
                current.scope_id,
                current.url,
                client.generation,
                client.scope_id,
                client.url,
            );
        }
    }
}

/// The argument at a position, null where it is missing.
pub open spec fn argument(args: Seq<Value>, i: int) -> Tree {
    if 0 <= i < args.len() {
        args[i]@
    } else {
        Tree::Null
    }
}

fn argument_at(args: &[Value], i: usize) -> (value: Value)
    ensures
        value@ == argument(args@, i as int),
{
    if i < args.len() {
        args[i].clone()
    } else {
        Value::Null
    }
}

/// The hash that a settlement is for: the one that a future handle carries, else the second
/// argument where that is a text.
pub open spec fn settled_hash(handle: Tree, args: Seq<Value>) -> Option<Seq<char>> {
    match handle.text_field("__ws_future_hash"@) {
        Some(hash) => Some(hash),
        None => match argument(args, 1) {
            Tree::Str(hash) => Some(hash),
            _ => None,
        },
    }
}

fn settled_hash_of(handle: &Value, args: &[Value]) -> (hash: Option<String>)
    ensures
        match hash {
            Some(hash) => settled_hash(handle@, args@) == Some(hash@),
            None => settled_hash(handle@, args@) is None,
        },
{
    match future_hash_of(handle) {
        Some(hash) => Some(hash),
        None => if args.len() > 1 {
            hash_str(&args[1])
        } else {
            None
        },
    }
}

/// Resolves a hash with the first argument, at the client that the handle reaches. Gives the value
/// back.
pub fn value_resolve(
    transport: &mut Transport,
    active: u64,
    client: &Value,
    args: &[Value],
) -> (value: Value)
    requires
        old(transport)@.wf(),
    ensures
        value@ == argument(args@, 0),
        final(transport)@ == match settled_hash(client@, args@) {
            Some(hash) => old(transport)@.on_routed(
                old(transport)@.handled_by(active, client@),
                |state: ClientView| state.resolve(hash, argument(args@, 0)),
            ),
            None => old(transport)@,
        },
        final(transport)@.wf(),
{
    let value = argument_at(args, 0);
    if let Some(hash) = settled_hash_of(client, args) {
        if let Some(generation) = route_handle(transport, active, client) {
            proof {
                transport@.lemma_operation_wf(generation, Operation::Resolve(hash@, value@));
            }
            if let Some(state) = transport.client_mut(generation) {
                state.resolve(hash.as_str(), value.clone());
            }
        }
    }
    value
}

/// Rejects a hash with the first argument, at the client that the handle reaches; without a hash,
/// every hash that someone waits on. Gives the error back.
pub fn value_reject(
    transport: &mut Transport,
    active: u64,
    client: &Value,
    args: &[Value],
) -> (error: Value)
    requires
        old(transport)@.wf(),
    ensures
        error@ == argument(args@, 0),
        final(transport)@ == old(transport)@.on_routed(
            old(transport)@.handled_by(active, client@),
            |state: ClientView|
                match settled_hash(client@, args@) {
                    Some(hash) => state.reject(hash, argument(args@, 0)),
                    None => state.reject_each(state.futures, argument(args@, 0)),
                },
        ),
        final(transport)@.wf(),
{
    let error = argument_at(args, 0);
    if let Some(generation) = route_handle(transport, active, client) {
        match settled_hash_of(client, args) {
            Some(hash) => {
                proof {
                    transport@.lemma_operation_wf(generation, Operation::Reject(hash@, error@));
                }
                if let Some(state) = transport.client_mut(generation) {
                    state.reject(hash.as_str(), error.clone());
                }
            },
            None => {
                proof {
                    let futures = transport@.clients[generation].futures;
                    transport@.lemma_operation_wf(
                        generation,
                        Operation::RejectEach(futures, error@),
                    );
                }
                if let Some(state) = transport.client_mut(generation) {
                    state.reject_pending_futures(error.clone());
                }
            },
        }
    }
    error
}

/// The text that a value is sent as: a text as it is, anything else as JSON, nothing as nothing.
pub open spec fn sent_text(args: Seq<Value>) -> Seq<char> {
    if args.len() == 0 {
        Seq::empty()
    } else {
        match args[0]@ {
            Tree::Str(text) => text,
            other => json_rendering(json_form(other)),
        }
    }
}

/// Sends the first argument, at the client that the handle reaches.
pub fn value_send(
    transport: &mut Transport,
    active: u64,
    client: &Value,
    args: &[Value],
) -> (nothing: Value)
    requires
        old(transport)@.wf(),
    ensures
        nothing@ is Null,
        match old(transport)@.handled_by(active, client@) {
            Some(generation) => {
                let state = old(transport)@.clients[generation];
                exists|charge: nat| #[trigger]
                    state.text_charge(sent_text(args@), charge) && final(transport)@ == old(
                        transport,
                    )@.with_client(generation, state.send_text(sent_text(args@), charge))
            },
            None => final(transport)@ == old(transport)@,
        },
        final(transport)@.wf(),
{
    if let Some(generation) = route_handle(transport, active, client) {
        let payload = if args.len() == 0 {
            String::new()
        } else {
            match &args[0] {
                Value::Str(text) => text.clone(),
                other => other.json_text(),
            }
        };
        assert(payload@ =~= sent_text(args@));
        let ghost before = transport@;
        if let Some(state) = transport.client_mut(generation) {
            let ghost text = payload@;
            state.send_text(payload);
            proof {
                let earlier = before.clients[generation];
                let charge = choose|charge: nat| #[trigger]
                    earlier.text_charge(text, charge) && state@ == earlier.send_text(text, charge);
                before.lemma_operation_wf(generation, Operation::SendText(text, charge));
            }
        }
    }
    Value::Null
}

/// Forgets the state of the client that the handle reaches.
pub fn value_reset(transport: &mut Transport, active: u64, client: &Value) -> (nothing: Value)
    requires
        old(transport)@.wf(),
    ensures
        nothing@ is Null,
        final(transport)@ == old(transport)@.on_routed(
            old(transport)@.handled_by(active, client@),
            |state: ClientView| state.reset(),
        ),
        final(transport)@.wf(),
{
    if let Some(generation) = route_handle(transport, active, client) {
        proof {
            transport@.lemma_operation_wf(generation, Operation::Reset);
        }
        if let Some(state) = transport.client_mut(generation) {
            state.reset();
        }
    }
    Value::Null
}

/// Notes a pong at the client that the handle reaches.
pub fn value_on_pong(transport: &mut Transport, active: u64, client: &Value) -> (nothing: Value)
    requires
        old(transport)@.wf(),
    ensures
        nothing@ is Null,
        match old(transport)@.handled_by(active, client@) {
            Some(generation) => exists|now: i64|
                is_reading(now) && final(transport)@ == old(transport)@.with_client(
                    generation,
                    #[trigger] old(transport)@.clients[generation].pong(now),
                ),
            None => final(transport)@ == old(transport)@,
        },
        final(transport)@.wf(),
{
    if let Some(generation) = route_handle(transport, active, client) {
        let ghost before = transport@;
        if let Some(state) = transport.client_mut(generation) {
            state.on_pong();
            proof {
                let now = choose|now: i64|
                    is_reading(now) && state@ == #[trigger] before.clients[generation].pong(now);
                before.lemma_operation_wf(generation, Operation::Pong(now));
            }
        }
    }
    Value::Null
}

/// Sets a subscription of the client that the reference reaches.
pub fn value_subs_insert(
    transport: &mut Transport,
    active: u64,
    reference: &str,
    key: &str,
    value: Value,
)
    requires
        old(transport)@.wf(),
    ensures
        final(transport)@ == old(transport)@.on_routed(
            old(transport)@.routed(active, reference@),
            |state: ClientView| state.subscribe(key@, value@),
        ),
        final(transport)@.wf(),
{
    if let Some(generation) = route(transport, active, reference) {
        proof {
            transport@.lemma_operation_wf(generation, Operation::Subscribe(key@, value@));
        }
        if let Some(state) = transport.client_mut(generation) {
            state.set_subscription(key, value);
        }
    }
}

/// Removes a subscription of the client that the reference reaches.
pub fn value_subs_remove(transport: &mut Transport, active: u64, reference: &str, key: &str)
    requires
        old(transport)@.wf(),
    ensures
        final(transport)@ == old(transport)@.on_routed(
            old(transport)@.routed(active, reference@),
            |state: ClientView| state.unsubscribe(key@),
        ),
        final(transport)@.wf(),
{
    if let Some(generation) = route(transport, active, reference) {
        proof {
            transport@.lemma_operation_wf(generation, Operation::Unsubscribe(key@));
        }
        if let Some(state) = transport.client_mut(generation) {
            state.remove_subscription(key);
        }
    }
}

/// The client and the hash that a document refers to, where it is a reference to a subscription.
pub open spec fn subscription_target(document: Option<Tree>) -> Option<(Seq<char>, Seq<char>)> {
    match document {
        Some(Tree::Arr(items)) => if items.len() == 2 {
            match (items[0], items[1]) {
                (Tree::Str(reference), Tree::Str(hash)) => Some((reference, hash)),
                _ => None,
            }
        } else {
            None
        },
        _ => None,
    }
}

/// The client and the hash that a document refers to.
pub fn subscription_target_of(document: Option<Value>) -> (target: Option<(String, String)>)
    ensures
        match (target, subscription_target(
            match document {
                Some(value) => Some(value@),
                None => None,
            },
        )) {
            (Some((reference, hash)), Some((owner, key))) => reference@ == owner && hash@ == key,
            (None, None) => true,
            _ => false,
        },
{
    match document {
        Some(Value::Arr(items)) => {
            proof {
                crate::value::lemma_array_tree(items);
            }
            if items.len() != 2 {
                return None;
            }
            match (&items[0], &items[1]) {
                (Value::Str(reference), Value::Str(hash)) => {
                    Some((reference.clone(), hash.clone()))
                },
                _ => None,
            }
        },
        _ => None,
    }
}

/// Sets a field of a subscription of the client that the target reaches.
pub fn write_sub_field(
    transport: &mut Transport,
    active: u64,
    target: Option<(String, String)>,
    key: &str,
    value: Value,
)
    requires
        old(transport)@.wf(),
    ensures
        final(transport)@ == match target {
            Some((reference, hash)) => old(transport)@.on_routed(
                old(transport)@.routed(active, reference@),
                |state: ClientView| state.set_subscription_field(hash@, key@, value@),
            ),
            None => old(transport)@,
        },
        final(transport)@.wf(),
{
    if let Some((reference, hash)) = target {
        if let Some(generation) = route(transport, active, reference.as_str()) {
            proof {
                transport@.lemma_operation_wf(
                    generation,
                    Operation::SetSubscriptionField(hash@, key@, value@),
                );
            }
            if let Some(state) = transport.client_mut(generation) {
                state.set_subscription_field(hash.as_str(), key, value);
            }
        }
    }
}

/// Sets a field of the subscription that a text refers to: a JSON array of the reference to its
/// client and of its hash.
pub fn value_sub_field_write(
    transport: &mut Transport,
    active: u64,
    subref: &str,
    key: &str,
    value: Value,
)
    requires
        old(transport)@.wf(),
    ensures
        final(transport)@ == match subscription_target(json_document(subref@)) {
            Some((reference, hash)) => old(transport)@.on_routed(
                old(transport)@.routed(active, reference),
                |state: ClientView| state.set_subscription_field(hash, key@, value@),
            ),
            None => old(transport)@,
        },
        final(transport)@.wf(),
{
    let target = subscription_target_of(read_document(subref));
    write_sub_field(transport, active, target, key, value);
}

/// What a subscription's tag says is where it came from: it refers to the client and the hash.
pub proof fn law_subscription_reference_is_read_back(reference: Seq<char>, hash: Seq<char>)
    ensures
        subscription_target(Some(subscription_reference(reference, hash))) == Some(
            (reference, hash),
        ),
{
}

/// Whether a tree is a dictionary that shows exactly this map.
pub open spec fn shows(tree: Option<Tree>, map: Map<Seq<char>, Tree>) -> bool {
    match tree {
        Some(Tree::Dict(entries)) => entry_map(entries) == map,
        _ => false,
    }
}

/// Whether a tree is the handle of a client: its URL, the reference to it, and what it shows of its
/// subscriptions and futures.
pub open spec fn is_client_handle(handle: Tree, client: ClientView) -> bool {
    &&& handle is Dict
    &&& entry_map(handle->Dict_0).dom() == set![
        "url"@,
        "__ws_client_ref"@,
        "subscriptions"@,
        "futures"@,
    ]
    &&& handle.text_field("url"@) == Some(client.url)
    &&& handle.text_field("__ws_client_ref"@) == Some(client.reference())
    &&& shows(handle.field("subscriptions"@), client.subscriptions_shown())
    &&& shows(handle.field("futures"@), client.futures_shown())
}

pub proof fn lemma_handle_keys()
    ensures
        "url"@ != "__ws_client_ref"@,
        "url"@ != "subscriptions"@,
        "url"@ != "futures"@,
        "__ws_client_ref"@ != "subscriptions"@,
        "__ws_client_ref"@ != "futures"@,
        "subscriptions"@ != "futures"@,
        "url"@ != "__ws_flight_hash"@,
        "url"@ != "__ws_flight_led"@,
        "__ws_client_ref"@ != "__ws_flight_hash"@,
        "__ws_client_ref"@ != "__ws_flight_led"@,
        "__ws_flight_hash"@ != "__ws_flight_led"@,
        "url"@ != "__ws_future_hash"@,
        "__ws_client_ref"@ != "__ws_future_hash"@,
        "__ws_flight_hash"@ != "__ws_future_hash"@,
{
    reveal_strlit("url");
    reveal_strlit("__ws_client_ref");
    reveal_strlit("subscriptions");
    reveal_strlit("futures");
    reveal_strlit("__ws_flight_hash");
    reveal_strlit("__ws_flight_led");
    reveal_strlit("__ws_future_hash");
    assert("url"@.len() == 3);
    assert("__ws_client_ref"@.len() == 15);
    assert("subscriptions"@.len() == 13);
    assert("futures"@.len() == 7);
    assert("__ws_flight_hash"@.len() == 16);
    assert("__ws_flight_led"@.len() == 15);
    assert("__ws_future_hash"@.len() == 16);
    assert("__ws_client_ref"@[5] != "__ws_flight_led"@[5]);
    assert("__ws_flight_hash"@[6] != "__ws_future_hash"@[6]);
}

/// The handle of a client.
fn client_handle(client: &ClientState) -> (handle: Value)
    ensures
        is_client_handle(handle@, client@),
{
    let subscriptions = client.subscriptions_value();
    let futures = client.futures_value();
    let mut dict = Dict::new();
    let ghost none = dict@;
    assert(entry_map(none) =~= Map::empty());
    dict.insert("url".to_owned(), Value::Str(client.url().clone()));
    let ghost one = dict@;
    dict.insert("__ws_client_ref".to_owned(), Value::Str(client.reference()));
    let ghost two = dict@;
    let ghost shown_subscriptions = subscriptions@;
    dict.insert("subscriptions".to_owned(), subscriptions);
    let ghost three = dict@;
    let ghost shown_futures = futures@;
    dict.insert("futures".to_owned(), futures);
    proof {
        lemma_handle_keys();
        lemma_entry_map_put(none, "url"@, Tree::Str(client@.url));
        lemma_entry_map_put(one, "__ws_client_ref"@, Tree::Str(client@.reference()));
        lemma_entry_map_put(two, "subscriptions"@, shown_subscriptions);
        lemma_entry_map_put(three, "futures"@, shown_futures);
        let map = entry_map(dict@);
        assert(map.dom() =~= set![
            "url"@,
            "__ws_client_ref"@,
            "subscriptions"@,
            "futures"@,
        ]);
        assert(map["url"@] == Tree::Str(client@.url));
        assert(map["__ws_client_ref"@] == Tree::Str(client@.reference()));
        assert(map["subscriptions"@] == shown_subscriptions);
        assert(map["futures"@] == shown_futures);
        assert(map.dom().contains("url"@) && lookup(dict@, "url"@) is Some);
        assert(map.dom().contains("__ws_client_ref"@) && lookup(dict@, "__ws_client_ref"@) is Some);
        assert(map.dom().contains("subscriptions"@) && lookup(dict@, "subscriptions"@) is Some);
        assert(map.dom().contains("futures"@) && lookup(dict@, "futures"@) is Some);
    }
    Value::dict(dict)
}

/// The handle of the client for `url`, which is made where there is no open one: what is written
/// on the handle before the socket connects persists.
pub fn client_value(transport: &mut Transport, active: u64, url: &str) -> (answer: Result<
    Value,
    String,
>)
    requires
        old(transport)@.wf(),
        old(transport)@.next_generation < u64::MAX,
    ensures
        exists|now: i64|
            is_reading(now) && final(transport)@ == #[trigger] old(transport)@.acquired(active, url@, now),
        match (answer, old(transport)@.acquisition(active, url@)) {
            (Ok(handle), Ok(generation)) => is_client_handle(
                handle@,
                final(transport)@.clients[generation],
            ),
            (Err(message), Err(text)) => message@ == text,
            _ => false,
        },
        final(transport)@.wf(),
{
    match ensure_slot(transport, active, url) {
        Ok(generation) => match transport.client(generation) {
            Some(client) => Ok(client_handle(client)),
            None => Err(String::new()),
        },
        Err(message) => Err(message),
    }
}

/// Reads the subscriptions or the futures of the client that the reference reaches, as they are
/// now. A reference that reaches nothing shows nothing.
pub fn client_field_live(
    transport: &Transport,
    active: u64,
    reference: &str,
    field: &str,
) -> (shown: Value)
    requires
        transport@.wf(),
    ensures
        match transport@.routed(active, reference@) {
            Some(generation) => shows(
                Some(shown@),
                if field@ == "futures"@ {
                    transport@.clients[generation].futures_shown()
                } else {
                    transport@.clients[generation].subscriptions_shown()
                },
            ),
            None => shown@ == Tree::Dict(Seq::empty()),
        },
{
    match route(transport, active, reference) {
        Some(generation) => match transport.client(generation) {
            Some(client) => if field.to_owned() == "futures".to_owned() {
                client.futures_value()
            } else {
                client.subscriptions_value()
            },
            None => Value::dict(Dict::new()),
        },
        None => Value::dict(Dict::new()),
    }
}

/// The entries of the handle of a flight: where it is, which one, and whether the holder leads it.
pub open spec fn flight_handle_entries(
    url: Seq<char>,
    reference: Option<Seq<char>>,
    hash: Seq<char>,
    led: bool,
) -> Seq<(Seq<char>, Tree)> {
    let at = put(Seq::empty(), "url"@, Tree::Str(url));
    let by = match reference {
        Some(reference) => put(at, "__ws_client_ref"@, Tree::Str(reference)),
        None => at,
    };
    put(put(by, "__ws_flight_hash"@, Tree::Str(hash)), "__ws_flight_led"@, Tree::Bool(led))
}

fn flight_handle_value(url: &str, reference: Option<String>, hash: &str, led: bool) -> (handle:
    Value)
    ensures
        handle@ == Tree::Dict(
            flight_handle_entries(
                url@,
                match reference {
                    Some(reference) => Some(reference@),
                    None => None,
                },
                hash@,
                led,
            ),
        ),
{
    let mut dict = Dict::new();
    dict.insert("url".to_owned(), Value::text(url));
    if let Some(reference) = reference {
        dict.insert("__ws_client_ref".to_owned(), Value::Str(reference));
    }
    dict.insert("__ws_flight_hash".to_owned(), Value::text(hash));
    dict.insert("__ws_flight_led".to_owned(), Value::Bool(led));
    Value::dict(dict)
}

/// The handle of the flight for `hash` at the open client of `url`. Without such a client it carries
/// no reference: whoever waits on it waits at the client that the URL has by then.
pub fn flight_handle(transport: &Transport, url: &str, hash: &str, led: bool) -> (handle: Value)
    requires
        transport@.wf(),
    ensures
        handle@ == Tree::Dict(
            flight_handle_entries(
                url@,
                match transport@.live(url@) {
                    Some(generation) => Some(transport@.clients[generation].reference()),
                    None => None,
                },
                hash@,
                led,
            ),
        ),
{
    let reference = match get_client(transport, url) {
        Some(client) => Some(client.reference()),
        None => None,
    };
    flight_handle_value(url, reference, hash, led)
}

proof fn lemma_unbound_handle_is_read_back(url: Seq<char>, hash: Seq<char>, led: bool)
    ensures
        ({
            let handle = Tree::Dict(flight_handle_entries(url, None, hash, led));
            &&& handle.text_field("url"@) == Some(url)
            &&& handle.text_field("__ws_client_ref"@) is None
            &&& handle.text_field("__ws_flight_hash"@) == Some(hash)
            &&& flight_hash(handle) == Some(hash)
            &&& handle.field("__ws_flight_led"@) == Some(Tree::Bool(led))
            &&& is_led(handle) == led
        }),
{
    lemma_handle_keys();
    let one = put(Seq::empty(), "url"@, Tree::Str(url));
    let two = put(one, "__ws_flight_hash"@, Tree::Str(hash));
    lemma_lookup_put(Seq::empty(), "url"@, Tree::Str(url), "url"@);
    lemma_lookup_put(one, "__ws_flight_hash"@, Tree::Str(hash), "url"@);
    lemma_lookup_put(two, "__ws_flight_led"@, Tree::Bool(led), "url"@);
    lemma_lookup_put(Seq::empty(), "url"@, Tree::Str(url), "__ws_client_ref"@);
    lemma_lookup_put(one, "__ws_flight_hash"@, Tree::Str(hash), "__ws_client_ref"@);
    lemma_lookup_put(two, "__ws_flight_led"@, Tree::Bool(led), "__ws_client_ref"@);
    lemma_lookup_put(one, "__ws_flight_hash"@, Tree::Str(hash), "__ws_flight_hash"@);
    lemma_lookup_put(two, "__ws_flight_led"@, Tree::Bool(led), "__ws_flight_hash"@);
    lemma_lookup_put(two, "__ws_flight_led"@, Tree::Bool(led), "__ws_flight_led"@);
}

/// A flight handle says what it was made with.
pub proof fn law_flight_handle_is_read_back(
    url: Seq<char>,
    reference: Seq<char>,
    hash: Seq<char>,
    led: bool,
)
    ensures
        ({
            let handle = Tree::Dict(flight_handle_entries(url, Some(reference), hash, led));
            &&& handle.text_field("url"@) == Some(url)
            &&& handle.text_field("__ws_client_ref"@) == Some(reference)
            &&& handle.text_field("__ws_flight_hash"@) == Some(hash)
            &&& flight_hash(handle) == Some(hash)
            &&& handle.field("__ws_flight_led"@) == Some(Tree::Bool(led))
            &&& is_led(handle) == led
        }),
        ({
            let handle = Tree::Dict(flight_handle_entries(url, None, hash, led));
            &&& handle.text_field("url"@) == Some(url)
            &&& handle.text_field("__ws_client_ref"@) is None
            &&& handle.text_field("__ws_flight_hash"@) == Some(hash)
            &&& flight_hash(handle) == Some(hash)
            &&& handle.field("__ws_flight_led"@) == Some(Tree::Bool(led))
            &&& is_led(handle) == led
        }),
{
    lemma_handle_keys();
    lemma_unbound_handle_is_read_back(url, hash, led);
    let one = put(Seq::empty(), "url"@, Tree::Str(url));
    let two = put(one, "__ws_client_ref"@, Tree::Str(reference));
    let three = put(two, "__ws_flight_hash"@, Tree::Str(hash));
    lemma_lookup_put(Seq::empty(), "url"@, Tree::Str(url), "url"@);
    lemma_lookup_put(one, "__ws_client_ref"@, Tree::Str(reference), "url"@);
    lemma_lookup_put(two, "__ws_flight_hash"@, Tree::Str(hash), "url"@);
    lemma_lookup_put(three, "__ws_flight_led"@, Tree::Bool(led), "url"@);
    lemma_lookup_put(one, "__ws_client_ref"@, Tree::Str(reference), "__ws_client_ref"@);
    lemma_lookup_put(two, "__ws_flight_hash"@, Tree::Str(hash), "__ws_client_ref"@);
    lemma_lookup_put(three, "__ws_flight_led"@, Tree::Bool(led), "__ws_client_ref"@);
    lemma_lookup_put(two, "__ws_flight_hash"@, Tree::Str(hash), "__ws_flight_hash"@);
    lemma_lookup_put(three, "__ws_flight_led"@, Tree::Bool(led), "__ws_flight_hash"@);
    lemma_lookup_put(three, "__ws_flight_led"@, Tree::Bool(led), "__ws_flight_led"@);
}

/// Opens the flight for `hash` at the client for `url`, or joins it. The client is made where
/// there is no open one: a flight may be parked on a URL that is never dialed. True means that the
/// caller leads.
pub fn begin_flight(transport: &mut Transport, active: u64, url: &str, hash: &str) -> (answer:
    Result<bool, String>)
    requires
        old(transport)@.wf(),
        old(transport)@.next_generation < u64::MAX,
    ensures
        exists|now: i64|
            is_reading(now) && #[trigger] flight_begun(
                old(transport)@,
                active,
                url@,
                hash@,
                now,
                answer,
                final(transport)@,
            ),
        final(transport)@.wf(),
{
    match ensure_slot(transport, active, url) {
        Ok(generation) => {
            let ghost slot = transport@;
            let ghost now = choose|now: i64|
                is_reading(now) && slot == #[trigger] old(transport)@.acquired(active, url@, now);
            proof {
                slot.lemma_operation_wf(generation, Operation::BeginFlight(hash@));
            }
            let mut leads = false;
            if let Some(client) = transport.client_mut(generation) {
                leads = client.flight_begin(hash);
            }
            let answer = Ok(leads);
            assert(flight_begun(
                old(transport)@,
                active,
                url@,
                hash@,
                now,
                answer,
                transport@,
            ));
            answer
        },
        Err(message) => {
            let ghost now = choose|now: i64|
                is_reading(now) && transport@ == #[trigger] old(transport)@.acquired(active, url@, now);
            let answer = Err(message);
            assert(flight_begun(
                old(transport)@,
                active,
                url@,
                hash@,
                now,
                answer,
                transport@,
            ));
            answer
        },
    }
}

/// What beginning a flight answers, and what it leaves.
pub open spec fn flight_begun(
    before: TransportView,
    active: u64,
    url: Seq<char>,
    hash: Seq<char>,
    now: i64,
    answer: Result<bool, String>,
    after: TransportView,
) -> bool {
    let acquired = before.acquired(active, url, now);
    match before.acquisition(active, url) {
        Ok(generation) => {
            let client = acquired.clients[generation];
            &&& answer is Ok
            &&& answer->Ok_0 == !client.flight_open(hash)
            &&& after == acquired.with_client(generation, client.begin_flight(hash))
        },
        Err(text) => answer is Err && answer->Err_0@ == text && after == before,
    }
}

/// Opens a flight at the client that the handle reaches, or joins it, and gives the flight's
/// handle. Where the handle reaches nothing, or the hash is no text, nothing is opened.
pub fn value_open_flight(
    transport: &mut Transport,
    active: u64,
    client: &Value,
    hash: &Value,
) -> (handle: Value)
    requires
        old(transport)@.wf(),
    ensures
        match (old(transport)@.handled_by(active, client@), hash@) {
            (Some(generation), Tree::Str(hash)) => {
                let state = old(transport)@.clients[generation];
                &&& handle@ == Tree::Dict(
                    flight_handle_entries(
                        state.url,
                        Some(state.reference()),
                        hash,
                        !state.flight_open(hash),
                    ),
                )
                &&& final(transport)@ == old(transport)@.with_client(
                    generation,
                    state.begin_flight(hash),
                )
            },
            _ => handle@ is Null && final(transport)@ == old(transport)@,
        },
        final(transport)@.wf(),
{
    let hash = match hash_str(hash) {
        Some(hash) => hash,
        None => {
            return Value::Null;
        },
    };
    match route_handle(transport, active, client) {
        Some(generation) => {
            proof {
                transport@.lemma_operation_wf(generation, Operation::BeginFlight(hash@));
            }
            match transport.client_mut(generation) {
                Some(state) => {
                    let led = state.flight_begin(hash.as_str());
                    flight_handle_value(
                        state.url().as_str(),
                        Some(state.reference()),
                        hash.as_str(),
                        led,
                    )
                },
                None => Value::Null,
            }
        },
        None => Value::Null,
    }
}

/// Whether the holder of a flight handle leads the flight.
pub open spec fn is_led(handle: Tree) -> bool {
    handle.field("__ws_flight_led"@) == Some(Tree::Bool(true))
}

/// The handle of a client reaches it while it is registered and open and its owner asks.
pub proof fn law_handle_reaches_its_client(
    transport: TransportView,
    active: u64,
    generation: u64,
    made_for: ClientView,
    handle: Tree,
)
    requires
        transport.wf(),
        transport.clients.dom().contains(generation),
        transport.live(transport.clients[generation].url) == Some(generation),
        transport.clients[generation].scope_id == active,
        is_client_handle(handle, made_for),
        made_for.same_client(transport.clients[generation]),
    ensures
        transport.handled_by(active, handle) == Some(generation),
{
    law_reference_reaches_its_client(transport, active, generation);
}

/// A handle of a client that is closed, or that another took the place of, changes nothing,
/// whatever is done through it.
pub proof fn law_stale_handle_changes_nothing(
    transport: TransportView,
    active: u64,
    stale: ClientView,
    handle: Tree,
    change: spec_fn(ClientView) -> ClientView,
)
    requires
        transport.wf(),
        transport.live(stale.url) != Some(stale.generation),
        handle.text_field("__ws_client_ref"@) == Some(stale.reference()),
    ensures
        transport.handled_by(active, handle) is None,
        transport.on_routed(transport.handled_by(active, handle), change) == transport,
{
    law_stale_reference_reaches_nothing(transport, active, stale);
}

/// A handle changes nothing on behalf of anyone but the owner of its client.
pub proof fn law_foreign_handle_changes_nothing(
    transport: TransportView,
    active: u64,
    client: ClientView,
    handle: Tree,
    change: spec_fn(ClientView) -> ClientView,
)
    requires
        transport.wf(),
        client.scope_id != active,
        handle.text_field("__ws_client_ref"@) == Some(client.reference()),
    ensures
        transport.handled_by(active, handle) is None,
        transport.on_routed(transport.handled_by(active, handle), change) == transport,
{
    law_foreign_reference_reaches_nothing(transport, active, client);
}

/// A future handle says what it was made with.
pub proof fn law_future_handle_is_read_back(
    url: Seq<char>,
    reference: Seq<char>,
    hash: Seq<char>,
)
    ensures
        ({
            let handle = Tree::Dict(future_handle(url, reference, hash));
            &&& handle.text_field("url"@) == Some(url)
            &&& handle.text_field("__ws_client_ref"@) == Some(reference)
            &&& handle.text_field("__ws_future_hash"@) == Some(hash)
            &&& flight_hash(handle) == Some(hash)
        }),
{
    lemma_handle_keys();
    let one = put(Seq::empty(), "url"@, Tree::Str(url));
    let two = put(one, "__ws_client_ref"@, Tree::Str(reference));
    lemma_lookup_put(Seq::empty(), "url"@, Tree::Str(url), "url"@);
    lemma_lookup_put(one, "__ws_client_ref"@, Tree::Str(reference), "url"@);
    lemma_lookup_put(two, "__ws_future_hash"@, Tree::Str(hash), "url"@);
    lemma_lookup_put(one, "__ws_client_ref"@, Tree::Str(reference), "__ws_client_ref"@);
    lemma_lookup_put(two, "__ws_future_hash"@, Tree::Str(hash), "__ws_client_ref"@);
    lemma_lookup_put(two, "__ws_future_hash"@, Tree::Str(hash), "__ws_future_hash"@);
    lemma_lookup_put(Seq::empty(), "url"@, Tree::Str(url), "__ws_flight_hash"@);
    lemma_lookup_put(one, "__ws_client_ref"@, Tree::Str(reference), "__ws_flight_hash"@);
    lemma_lookup_put(two, "__ws_future_hash"@, Tree::Str(hash), "__ws_flight_hash"@);
}

/// A field that is written on a subscription taken from a snapshot reaches that subscription: its
/// tag names the client and the hash, and the client is reached while it is registered and open
/// and its owner asks.
pub proof fn law_tagged_write_finds_its_way_back(
    transport: TransportView,
    active: u64,
    generation: u64,
    hash: Seq<char>,
)
    requires
        transport.wf(),
        transport.clients.dom().contains(generation),
        transport.live(transport.clients[generation].url) == Some(generation),
        transport.clients[generation].scope_id == active,
        tag_reads_back(transport.clients[generation].reference(), hash),
    ensures
        ({
            let reference = transport.clients[generation].reference();
            let tag = json_rendering(subscription_reference(reference, hash));
            &&& subscription_target(json_document(tag)) == Some((reference, hash))
            &&& transport.routed(active, reference) == Some(generation)
        }),
{
    law_reference_reaches_its_client(transport, active, generation);
}

} // verus!
