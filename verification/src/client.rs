//! One client: the state behind a URL.

use vstd::prelude::*;
use vstd::string::*;
use vstd::utf8::encode_utf8;

use crate::bounds::{chargeable, charged, clamp, estimate_value_bytes, held_bytes};
use crate::bounds::{lemma_chargeable, string_has_room};
use crate::bounds::ParsedQueue;
use crate::bounds::{MAX_PAYLOAD_BYTES, OUTGOING_BYTES, OUTGOING_CAPACITY};
use crate::capture::{captured, Capture};
use crate::client_view::{first_in, future_handle, subscription_reference, tag_reads_back, tagged};
use crate::client_view::{ClientView, FlightView};
use crate::clock::{is_reading, now_ms};
use crate::events::{Dial, Dialed, NextMessage};
use crate::json::{json_document, json_form, parse_text, text_tree};
use crate::lifecycle::{panic_text, FailureSource, FailureView, ScopeFailure, ScopeJoinReport};
use crate::lifecycle::{SocketError, TaskOutcome, Tasks, MOCK_MESSAGE_BUDGET_MS, TASKS_PER_CLIENT};
use crate::outgoing::{Frame, Message, OutgoingQueue, Refusal};
use crate::reference::reference_to;
use crate::table::Table;
use crate::value::{entry_map, lemma_entry_map_put, trees, Dict, Tree, Value};

verus! {

/// One single-flight slot. `settled` stays after the flight closes, so that waiters that come late
/// still observe the result.
struct FlightSlot {
    open: bool,
    settled: Option<Result<Value, Value>>,
}

/// The trees of an outcome.
pub open spec fn outcome_tree(outcome: Result<Value, Value>) -> Result<Tree, Tree> {
    match outcome {
        Ok(value) => Ok(value@),
        Err(error) => Err(error@),
    }
}

/// The trees of an outcome, if there is one.
pub open spec fn maybe_outcome(outcome: Option<Result<Value, Value>>) -> Option<Result<Tree, Tree>> {
    match outcome {
        Some(outcome) => Some(outcome_tree(outcome)),
        None => None,
    }
}

impl View for FlightSlot {
    type V = FlightView;

    closed spec fn view(&self) -> FlightView {
        FlightView { open: self.open, settled: maybe_outcome(self.settled) }
    }
}

fn clone_outcome(outcome: &Option<Result<Value, Value>>) -> (copy: Option<Result<Value, Value>>)
    ensures
        copy == *outcome,
{
    match outcome {
        Some(Ok(value)) => Some(Ok(value.clone())),
        Some(Err(error)) => Some(Err(error.clone())),
        None => None,
    }
}

/// The state of one connection, shared by its tasks and by those who watch it.
pub struct ClientState {
    url: String,
    generation: u64,
    scope_id: u64,
    outgoing: OutgoingQueue,
    writer_ready: bool,
    tasks: Tasks,
    error: Option<ScopeFailure>,
    incoming: ParsedQueue,
    resolved: Table<Value>,
    rejections: Table<Value>,
    subscriptions: Table<Value>,
    futures: Table<()>,
    flights: Table<FlightSlot>,
    connected: bool,
    closed: bool,
    last_pong_ms: i64,
    mock: bool,
    capture: Capture,
    completed: bool,
}

/// What a failure says, if there is one.
pub open spec fn maybe_failure(failure: Option<ScopeFailure>) -> Option<FailureView> {
    match failure {
        Some(failure) => Some(failure@),
        None => None,
    }
}

impl View for ClientState {
    type V = ClientView;

    closed spec fn view(&self) -> ClientView {
        ClientView {
            url: self.url@,
            generation: self.generation,
            scope_id: self.scope_id,
            resolved: self.resolved@,
            rejections: self.rejections@,
            subscriptions: self.subscriptions@,
            futures: self.futures@.dom(),
            flights: self.flights@,
            incoming: self.incoming@,
            outgoing: self.outgoing@,
            writer_ready: self.writer_ready,
            tasks: self.tasks@,
            error: maybe_failure(self.error),
            connected: self.connected,
            closed: self.closed,
            last_pong_ms: self.last_pong_ms,
            mock: self.mock,
            capture: self.capture@,
            completed: self.completed,
        }
    }
}

/// One more item of a sequence is one more element of the set.
proof fn lemma_take_one_more(order: Seq<Seq<char>>, i: int)
    requires
        0 <= i < order.len(),
    ensures
        order.take(i + 1).to_set() == order.take(i).to_set().insert(order[i]),
{
    let longer = order.take(i + 1);
    assert forall|hash: Seq<char>| longer.contains(hash) == (order.take(i).contains(hash) || hash
        == order[i]) by {
        assert(longer[i] == order[i]);
        if order.take(i).contains(hash) {
            let k = choose|k: int| 0 <= k < i && order.take(i)[k] == hash;
            assert(longer[k] == hash);
        }
    }
    assert(longer.to_set() =~= order.take(i).to_set().insert(order[i]));
}

/// A subscription as a snapshot shows it.
fn tag_subscription(reference: &String, hash: &String, subscription: &Value) -> (shown: Value)
    ensures
        shown@ == tagged(reference@, hash@, subscription@),
        subscription@ is Dict ==> tag_reads_back(reference@, hash@),
{
    match subscription {
        Value::Dict(dict) => {
            let mut parts: Vec<Value> = Vec::new();
            parts.push(Value::Str(reference.clone()));
            parts.push(Value::Str(hash.clone()));
            let array = Value::array(parts);
            proof {
                assert(array@->Arr_0 =~= subscription_reference(reference@, hash@)->Arr_0);
                reveal_with_fuel(json_form, 2);
                assert(json_form(array@)->Arr_0 =~= array@->Arr_0);
            }
            let mut inner = dict.duplicate();
            inner.insert("__ws_sub_ref".to_owned(), Value::Str(array.json_text()));
            Value::dict(inner)
        },
        other => other.clone(),
    }
}

/// Whether a text is empty.
fn is_blank(text: &str) -> (blank: bool)
    ensures
        blank == (text@.len() == 0),
{
    text.unicode_len() == 0
}

/// The views of a list of texts.
pub open spec fn texts(list: Seq<String>) -> Seq<Seq<char>> {
    Seq::new(list.len(), |i: int| list[i]@)
}

impl ClientState {
    /// A client that nothing has happened to.
    pub fn new(url: &str, generation: u64, scope_id: u64, now: i64) -> (client: ClientState)
        ensures
            client@ == ClientView::fresh(url@, generation, scope_id, now),
    {
        let client = ClientState {
            url: url.to_owned(),
            generation,
            scope_id,
            outgoing: OutgoingQueue::new(),
            writer_ready: true,
            tasks: Tasks::new(),
            error: None,
            incoming: ParsedQueue::new(),
            resolved: Table::new(),
            rejections: Table::new(),
            subscriptions: Table::new(),
            futures: Table::new(),
            flights: Table::new(),
            connected: false,
            closed: false,
            last_pong_ms: now,
            mock: false,
            capture: Capture::new(),
            completed: false,
        };
        assert(client@.futures =~= Set::empty());
        client
    }

    /// The URL that the client is for.
    pub fn url(&self) -> (url: &String)
        ensures
            url@ == self@.url,
    {
        &self.url
    }

    /// Which of the clients that this URL had it is.
    pub fn generation(&self) -> (generation: u64)
        ensures
            generation == self@.generation,
    {
        self.generation
    }

    /// The owner, zero where there is none.
    pub fn scope_id(&self) -> (scope_id: u64)
        ensures
            scope_id == self@.scope_id,
    {
        self.scope_id
    }

    /// The text that identifies this client.
    pub fn reference(&self) -> (reference: String)
        ensures
            reference@ == self@.reference(),
    {
        reference_to(self.generation, self.scope_id, self.url.as_str())
    }

    /// Whether the client is closed.
    pub fn is_closed(&self) -> (closed: bool)
        ensures
            closed == self@.closed,
    {
        self.closed
    }

    /// The first terminal failure's text, if there is one.
    pub fn terminal_error(&self) -> (error: Option<String>)
        ensures
            match error {
                Some(message) => self@.error is Some && self@.error->0.message == message@,
                None => self@.error is None,
            },
    {
        match &self.error {
            Some(failure) => Some(failure.message.clone()),
            None => None,
        }
    }

    /// Requests cancellation. Idempotent; no other client is affected.
    pub fn request_close(&mut self)
        ensures
            final(self)@ == old(self)@.request_close(),
    {
        self.closed = true;
        self.connected = false;
        self.writer_ready = false;
        self.outgoing.clear();
    }

    /// Ends the client with a failure.
    pub fn fail(&mut self, source: FailureSource, message: String)
        ensures
            final(self)@ == old(self)@.fail(source, message@),
    {
        if self.error.is_none() {
            self.error = Some(ScopeFailure { source, message });
        } else if source == FailureSource::Internal {
            self.tasks.retain(message);
        }
        self.incoming.clear();
        self.request_close();
    }

    /// Settles an open flight. Answers false, and does nothing, where `hash` names none.
    pub fn flight_settle(&mut self, hash: &str, outcome: Result<Value, Value>) -> (settled: bool)
        ensures
            settled == old(self)@.flight_open(hash@),
            final(self)@ == old(self)@.settle(hash@, outcome_tree(outcome)),
    {
        if !self.flight_is_open(hash) {
            return false;
        }
        self.flights.insert(hash, FlightSlot { open: false, settled: Some(outcome) });
        self.futures.remove(hash);
        assert(self@.futures =~= old(self)@.futures.remove(hash@));
        true
    }

    /// Whether a flight for `hash` is open.
    pub fn flight_is_open(&self, hash: &str) -> (open: bool)
        ensures
            open == self@.flight_open(hash@),
    {
        match self.flights.get(hash) {
            Some(slot) => slot.open,
            None => false,
        }
    }

    /// The flight's last outcome, if it has one. It is not consumed: every waiter observes the
    /// same result.
    pub fn flight_peek(&self, hash: &str) -> (outcome: Option<Result<Value, Value>>)
        ensures
            maybe_outcome(outcome) == self@.flight_outcome(hash@),
    {
        match self.flights.get(hash) {
            Some(slot) => clone_outcome(&slot.settled),
            None => None,
        }
    }

    /// Opens a single flight for `hash`, or joins one in progress. True means that this caller is
    /// the leader and must do the work.
    pub fn flight_begin(&mut self, hash: &str) -> (leads: bool)
        ensures
            leads == !old(self)@.flight_open(hash@),
            final(self)@ == old(self)@.begin_flight(hash@),
    {
        if self.flight_is_open(hash) {
            return false;
        }
        let settled = self.flight_peek(hash);
        self.flights.insert(hash, FlightSlot { open: true, settled });
        self.futures.insert(hash, ());
        assert(self@.futures =~= old(self)@.futures.insert(hash@));
        true
    }

    /// Stores a resolved value for `hash`, and settles an open flight on it.
    pub fn resolve(&mut self, hash: &str, value: Value)
        ensures
            final(self)@ == old(self)@.resolve(hash@, value@),
    {
        self.flight_settle(hash, Ok(value.clone()));
        self.resolved.insert(hash, value);
    }

    /// Stores an error for `hash`, and settles an open flight on it.
    pub fn reject(&mut self, hash: &str, error: Value)
        ensures
            final(self)@ == old(self)@.reject(hash@, error@),
    {
        self.flight_settle(hash, Err(error.clone()));
        self.rejections.insert(hash, error);
    }

    /// If one of `hashes` has a rejection or a resolved value, takes it out. Rejections go first.
    pub fn take_settled(&mut self, hashes: &[String]) -> (taken: Option<Result<Value, Value>>)
        ensures
            maybe_outcome(taken) == old(self)@.settled(texts(hashes@)),
            final(self)@ == old(self)@.take_settled(texts(hashes@)),
    {
        let ghost all = texts(hashes@);
        assert(all.skip(0) =~= all);
        let mut i: usize = 0;
        while i < hashes.len()
            invariant
                i <= hashes@.len(),
                all == texts(hashes@),
                self@ == old(self)@,
                first_in(all, self@.rejections.dom()) == first_in(
                    all.skip(i as int),
                    self@.rejections.dom(),
                ),
            decreases hashes@.len() - i,
        {
            assert(all.skip(i as int)[0] == hashes@[i as int]@);
            assert(all.skip(i as int).drop_first() =~= all.skip(i + 1));
            if let Some(error) = self.rejections.remove(hashes[i].as_str()) {
                return Some(Err(error));
            }
            assert(self@.rejections =~= old(self)@.rejections);
            i = i + 1;
        }
        let mut i: usize = 0;
        while i < hashes.len()
            invariant
                i <= hashes@.len(),
                all == texts(hashes@),
                self@ == old(self)@,
                first_in(all, self@.rejections.dom()) is None,
                first_in(all, self@.resolved.dom()) == first_in(
                    all.skip(i as int),
                    self@.resolved.dom(),
                ),
            decreases hashes@.len() - i,
        {
            assert(all.skip(i as int)[0] == hashes@[i as int]@);
            assert(all.skip(i as int).drop_first() =~= all.skip(i + 1));
            if let Some(value) = self.resolved.remove(hashes[i].as_str()) {
                return Some(Ok(value));
            }
            assert(self@.resolved =~= old(self)@.resolved);
            i = i + 1;
        }
        None
    }

    /// Registers interest in `hashes`.
    pub fn note_futures(&mut self, hashes: &[String])
        ensures
            final(self)@ == old(self)@.note(texts(hashes@)),
    {
        let ghost all = texts(hashes@);
        assert(old(self)@.futures.union(all.take(0).to_set()) =~= old(self)@.futures);
        let mut i: usize = 0;
        while i < hashes.len()
            invariant
                i <= hashes@.len(),
                all == texts(hashes@),
                self@ == (ClientView {
                    futures: old(self)@.futures.union(all.take(i as int).to_set()),
                    ..old(self)@
                }),
            decreases hashes@.len() - i,
        {
            let ghost before = self@.futures;
            self.futures.insert(hashes[i].as_str(), ());
            proof {
                let seen = all.take(i + 1);
                lemma_take_one_more(all, i as int);
                assert(self@.futures =~= before.insert(hashes@[i as int]@));
                assert(self@.futures =~= old(self)@.futures.union(seen.to_set()));
            }
            i = i + 1;
        }
        assert(all.take(i as int) =~= all);
    }

    /// Records a subscription. True the first time, so that the subscribe frame is sent once.
    pub fn subscribe_once(&mut self, subscribe_hash: &str, subscription: Value) -> (first: bool)
        ensures
            first == !old(self)@.subscriptions.dom().contains(subscribe_hash@),
            final(self)@ == old(self)@.subscribe_once(subscribe_hash@, subscription@),
    {
        if self.subscriptions.contains_key(subscribe_hash) {
            return false;
        }
        let stored = match subscription {
            Value::Null => Value::Bool(true),
            other => other,
        };
        self.subscriptions.insert(subscribe_hash, stored);
        true
    }

    /// Sets a subscription.
    pub fn set_subscription(&mut self, subscribe_hash: &str, subscription: Value)
        ensures
            final(self)@ == old(self)@.subscribe(subscribe_hash@, subscription@),
    {
        self.subscriptions.insert(subscribe_hash, subscription);
    }

    /// Removes a subscription.
    pub fn remove_subscription(&mut self, subscribe_hash: &str)
        ensures
            final(self)@ == old(self)@.unsubscribe(subscribe_hash@),
    {
        self.subscriptions.remove(subscribe_hash);
    }

    /// Whether a subscription is recorded.
    pub fn is_subscribed(&self, subscribe_hash: &str) -> (subscribed: bool)
        ensures
            subscribed == self@.subscriptions.dom().contains(subscribe_hash@),
    {
        self.subscriptions.contains_key(subscribe_hash)
    }

    /// Sets a field of a stored subscription, which becomes a dictionary where it is none.
    pub fn set_subscription_field(&mut self, hash: &str, key: &str, value: Value)
        ensures
            final(self)@ == old(self)@.set_subscription_field(hash@, key@, value@),
    {
        let mut inner = match self.subscriptions.get(hash) {
            Some(Value::Dict(dict)) => dict.duplicate(),
            _ => Dict::new(),
        };
        inner.insert(key.to_owned(), value);
        self.subscriptions.insert(hash, Value::dict(inner));
    }

    /// Forgets what was resolved, rejected, subscribed and awaited, so that stale hashes resolve
    /// no new waiters.
    pub fn reset(&mut self)
        ensures
            final(self)@ == old(self)@.reset(),
    {
        self.resolved.clear();
        self.rejections.clear();
        self.subscriptions.clear();
        self.futures.clear();
        self.flights.clear();
        assert(self@.futures =~= Set::empty());
    }

    /// Whether someone waits on a hash.
    pub fn has_pending_futures(&self) -> (pending: bool)
        ensures
            pending == (self@.futures != Set::<Seq<char>>::empty()),
    {
        proof {
            if self.futures@.dom() == Set::<Seq<char>>::empty() {
                assert(self.futures@ =~= Map::<Seq<char>, ()>::empty());
            }
        }
        !self.futures.is_empty()
    }

    /// Rejects every hash that someone waits on.
    pub fn reject_pending_futures(&mut self, error: Value)
        ensures
            final(self)@ == old(self)@.reject_each(old(self)@.futures, error@),
    {
        let keys = self.futures.keys();
        let ghost order = self.futures.order();
        let ghost before = self@;
        assert(order.take(0).to_set() =~= Set::empty());
        assert(before.reject_each(Set::empty(), error@) =~= before);
        let mut i: usize = 0;
        while i < keys.len()
            invariant
                i <= keys@.len(),
                keys@.len() == order.len(),
                forall|j: int| 0 <= j < keys@.len() ==> (#[trigger] keys@[j])@ == order[j],
                self@ == before.reject_each(order.take(i as int).to_set(), error@),
            decreases keys@.len() - i,
        {
            let ghost seen = order.take(i as int).to_set();
            self.reject(keys[i].as_str(), error.clone());
            proof {
                before.lemma_reject_one_more(seen, keys@[i as int]@, error@);
                lemma_take_one_more(order, i as int);
            }
            i = i + 1;
        }
        assert(order.take(i as int) =~= order);
    }

    /// A parsed value that is charged `charge` arrives. A closed client ignores it, and a full
    /// queue ends the client.
    pub fn push_incoming_charged(&mut self, value: Value, charge: usize)
        ensures
            final(self)@ == old(self)@.push_incoming(value@, charge as nat),
    {
        if self.closed {
            return;
        }
        if let Err(message) = self.incoming.push_charged(value, charge) {
            self.fail(FailureSource::Internal, message);
        }
    }

    /// A parsed value arrives.
    pub fn push_incoming(&mut self, value: Value)
        ensures
            exists|charge: nat| #[trigger]
                chargeable(value@, charge) && charged(value, charge) && final(self)@ == old(
                    self,
                )@.push_incoming(value@, charge),
    {
        let charge = estimate_value_bytes(&value);
        assert(chargeable(value@, charge as nat));
        self.push_incoming_charged(value, charge);
    }

    /// What the next inbound message is, or why there is none yet. The backlog of a closed client
    /// is still delivered; a failure is reported instead of an end.
    pub fn next_message(&mut self) -> (next: NextMessage)
        ensures
            match next {
                NextMessage::Failed(message) => old(self)@.error is Some
                    && old(self)@.error->0.message == message@,
                NextMessage::Message(value) => old(self)@.error is None && old(self)@.incoming.len()
                    > 0 && old(self)@.incoming[0].0 == value@,
                NextMessage::Ended => old(self)@.error is None && old(self)@.incoming.len() == 0
                    && old(self)@.closed,
                NextMessage::Wait => old(self)@.error is None && old(self)@.incoming.len() == 0
                    && !old(self)@.closed,
            },
            final(self)@ == old(self)@.consume(),
    {
        if let Some(message) = self.terminal_error() {
            return NextMessage::Failed(message);
        }
        if let Some(value) = self.incoming.pop() {
            return NextMessage::Message(value);
        }
        if self.closed {
            NextMessage::Ended
        } else {
            NextMessage::Wait
        }
    }

    /// How long to wait for a message before there is none: a mock is fed by its fixture and must
    /// not hang on one that is finished, while a socket may be silent for as long as it likes.
    pub fn message_budget_ms(&self) -> (budget: Option<u64>)
        ensures
            budget == if self@.mock {
                Some(MOCK_MESSAGE_BUDGET_MS)
            } else {
                None
            },
    {
        if self.mock {
            Some(MOCK_MESSAGE_BUDGET_MS)
        } else {
            None
        }
    }

    /// Queues a frame that retains `retained` bytes for the writer. True where it is queued; a
    /// refusal ends the client.
    pub fn send_retained(&mut self, message: Message, retained: usize) -> (sent: bool)
        ensures
            sent == old(self)@.sends(message@, retained as nat),
            final(self)@ == old(self)@.send(message@, retained as nat),
    {
        if self.closed {
            return false;
        }
        if message.len() > MAX_PAYLOAD_BYTES {
            self.fail(
                FailureSource::Internal,
                "[NetworkError] outgoing payload exceeds limit".to_owned(),
            );
            return false;
        }
        if retained > OUTGOING_BYTES {
            self.fail(
                FailureSource::Internal,
                "[NetworkError] outgoing byte budget exceeded".to_owned(),
            );
            return false;
        }
        match self.outgoing.push(message, retained) {
            None => true,
            Some(Refusal::Budget) => {
                self.fail(
                    FailureSource::Internal,
                    "[NetworkError] outgoing byte budget exceeded".to_owned(),
                );
                false
            },
            Some(Refusal::Full) => {
                self.fail(
                    FailureSource::Internal,
                    "[NetworkError] outgoing queue full or closed".to_owned(),
                );
                false
            },
        }
    }

    /// Queues a frame for the writer. It is charged the room of its allocation, not its length.
    pub fn send_message(&mut self, message: Message) -> (sent: bool)
        ensures
            exists|retained: nat|
                retained >= message@.len() && message.has_room(retained) && sent
                    == #[trigger] old(self)@.sends(message@, retained) && final(self)@
                        == old(self)@.send(message@, retained),
    {
        let retained = message.retained();
        assert(retained as nat >= message@.len());
        self.send_retained(message, retained)
    }

    /// Sends a keep-alive ping. Its payload is empty and retains nothing. False where the client is
    /// at its end.
    pub fn keep_alive(&mut self) -> (sent: bool)
        ensures
            sent == old(self)@.sends(Frame::Ping(Seq::empty()), 0),
            final(self)@ == old(self)@.send(Frame::Ping(Seq::empty()), 0),
    {
        let payload: Vec<u8> = Vec::new();
        self.send_retained(Message::Ping(payload), 0)
    }

    /// Captures a value that is charged `charge`. True where it is captured; a refusal ends the
    /// client.
    pub fn capture_charged(&mut self, value: Value, charge: usize) -> (kept: bool)
        ensures
            kept == (old(self)@.capture_refusal(charge as nat) is None),
            final(self)@ == old(self)@.capture_value(value@, charge as nat),
    {
        if self.capture.len() >= OUTGOING_CAPACITY {
            self.fail(
                FailureSource::Internal,
                "[NetworkError] mock capture full".to_owned(),
            );
            return false;
        }
        if charge > OUTGOING_BYTES - self.capture.bytes() {
            self.fail(
                FailureSource::Internal,
                "[NetworkError] mock capture byte budget exceeded".to_owned(),
            );
            return false;
        }
        self.capture.push(value, charge);
        true
    }

    /// Sends a text frame, or captures it where the transport is a mock.
    pub fn send_text(&mut self, text: String) -> (sent: bool)
        ensures
            exists|charge: nat| #[trigger]
                old(self)@.text_charge(text@, charge) && sent == old(self)@.sends_text(
                    text@,
                    charge,
                ) && final(self)@ == old(self)@.send_text(text@, charge),
    {
        let ghost least = if self@.mock {
            clamp(held_bytes(text_tree(json_document(text@), text@)))
        } else {
            encode_utf8(text@).len()
        };
        proof {
            lemma_chargeable(text_tree(json_document(text@), text@));
        }
        if self.closed {
            assert(self@.text_charge(text@, least));
            return false;
        }
        if text.as_str().as_bytes().len() > MAX_PAYLOAD_BYTES {
            assert(self@.text_charge(text@, least));
            self.fail(
                FailureSource::Internal,
                "[NetworkError] outgoing payload exceeds limit".to_owned(),
            );
            return false;
        }
        if self.mock {
            let value = parse_text(text.as_str());
            let charge = estimate_value_bytes(&value);
            assert(charged(value, charge as nat));
            assert(self@.text_charge(text@, charge as nat));
            return self.capture_charged(value, charge);
        }
        let message = Message::Text(text);
        let retained = message.retained();
        assert(string_has_room(message->Text_0, retained as nat));
        assert(self@.text_charge(text@, retained as nat));
        self.send_retained(message, retained)
    }

    /// The mock transport takes over: the client counts as connected, and texts are captured.
    pub fn mock_enable(&mut self)
        ensures
            final(self)@ == old(self)@.mock_enable(),
    {
        self.mock = true;
        self.connected = true;
    }

    /// Starts over as a mock. What was captured and what was not consumed is dropped.
    pub fn mock_setup(&mut self)
        ensures
            final(self)@ == old(self)@.mock_setup(),
    {
        self.reset();
        self.mock_enable();
        self.capture = Capture::new();
        self.incoming.clear();
        self.completed = false;
    }

    /// Injects a parsed message into the queue that the socket feeds.
    pub fn mock_inject(&mut self, message: Value)
        ensures
            exists|charge: nat| #[trigger]
                chargeable(message@, charge) && charged(message, charge) && final(self)@ == old(
                    self,
                )@.push_incoming(message@, charge),
    {
        self.push_incoming(message);
    }

    /// Whether the transport is a mock.
    pub fn is_mock(&self) -> (mock: bool)
        ensures
            mock == self@.mock,
    {
        self.mock
    }

    /// The captured messages as an array.
    pub fn mock_sent_value(&self) -> (sent: Value)
        ensures
            sent@ == Tree::Arr(captured(self@.capture)),
    {
        self.capture.as_value()
    }

    /// Whether messages wait to be consumed.
    pub fn has_queued_messages(&self) -> (queued: bool)
        ensures
            queued == (self@.incoming.len() > 0),
    {
        !self.incoming.is_empty()
    }

    /// Marks the watching side as done.
    pub fn mark_ws_test_completed(&mut self)
        ensures
            final(self)@ == old(self)@.complete(),
    {
        self.completed = true;
    }

    /// Whether the watching side is done.
    pub fn is_ws_test_completed(&self) -> (completed: bool)
        ensures
            completed == self@.completed,
    {
        self.completed
    }

    /// A pong came at `now`.
    pub fn on_pong_at(&mut self, now: i64)
        ensures
            final(self)@ == old(self)@.pong(now),
    {
        self.last_pong_ms = now;
    }

    /// A pong came. The wall clock says when.
    pub fn on_pong(&mut self)
        ensures
            exists|now: i64| is_reading(now) && final(self)@ == #[trigger] old(self)@.pong(now),
    {
        let now = now_ms();
        self.on_pong_at(now);
    }

    /// When the last pong came.
    pub fn last_pong_ms(&self) -> (millis: i64)
        ensures
            millis == self@.last_pong_ms,
    {
        self.last_pong_ms
    }

    /// Whether the client counts as connected.
    pub fn is_connected(&self) -> (connected: bool)
        ensures
            connected == self@.connected,
    {
        self.connected
    }

    /// How to connect, where that is still to be done.
    pub fn dial(&self, proxy: Option<String>) -> (dial: Result<Dial, String>)
        ensures
            match dial {
                Err(message) => self@.closed && message@
                    == "[NetworkError] client closed before connect"@,
                Ok(Dial::Ready) => !self@.closed && self@.connected,
                Ok(Dial::Proxy(through)) => !self@.closed && !self@.connected && proxy
                    == Some(through) && through@.len() > 0,
                Ok(Dial::Direct) => !self@.closed && !self@.connected && (proxy is None
                    || proxy->0@.len() == 0),
            },
    {
        if self.closed {
            return Err("[NetworkError] client closed before connect".to_owned());
        }
        if self.connected {
            return Ok(Dial::Ready);
        }
        match proxy {
            Some(through) => if is_blank(through.as_str()) {
                Ok(Dial::Direct)
            } else {
                Ok(Dial::Proxy(through))
            },
            None => Ok(Dial::Direct),
        }
    }

    /// Takes note of how an attempt to connect ended. Where the socket is open, its three tasks
    /// count as started.
    pub fn finish_connect(&mut self, dialed: Dialed, now: i64) -> (answer: Result<(), String>)
        requires
            old(self)@.wf(),
        ensures
            match old(self)@.connect_refusal(dialed) {
                Some(reason) => answer is Err && answer->Err_0@ == reason && final(self)@ == old(
                    self,
                )@,
                None => answer is Ok && final(self)@ == old(self)@.connect(now),
            },
    {
        match dialed {
            Dialed::Closing => Err("[NetworkError] client closed during connect".to_owned()),
            Dialed::DeadlineExceeded => Err("[NetworkError] connect deadline exceeded".to_owned()),
            Dialed::Failed(message) => Err(message),
            Dialed::Opened => {
                if self.closed {
                    return Err("[NetworkError] client closed during connect".to_owned());
                }
                if !self.writer_ready {
                    return Err("[NetworkError] slot has no writer channel".to_owned());
                }
                self.writer_ready = false;
                self.last_pong_ms = now;
                self.connected = true;
                self.tasks.start(TASKS_PER_CLIENT);
                Ok(())
            },
        }
    }

    /// The next frame to write, if one waits. The frame before it is done with.
    pub fn next_outgoing(&mut self) -> (message: Option<Message>)
        ensures
            match message {
                Some(message) => old(self)@.outgoing.waiting.len() > 0 && old(
                    self,
                )@.outgoing.waiting[0].0 == message@,
                None => old(self)@.outgoing.waiting.len() == 0,
            },
            final(self)@ == old(self)@.write_next(),
    {
        self.outgoing.next()
    }

    /// The writer has let go of its frame.
    pub fn release_outgoing(&mut self)
        ensures
            final(self)@ == old(self)@.release(),
    {
        self.outgoing.release();
    }

    /// What is left of the byte budget of the outgoing frames.
    pub fn outgoing_available(&self) -> (bytes: usize)
        ensures
            bytes == self@.outgoing.available(),
    {
        self.outgoing.available()
    }

    /// Writing failed.
    pub fn writer_failed(&mut self, error: SocketError, detail: &str)
        ensures
            final(self)@ == old(self)@.fail(
                if error.is_terminal() {
                    FailureSource::TransportTerminal
                } else {
                    FailureSource::Internal
                },
                "[NetworkError] writer: "@ + detail@,
            ),
    {
        let mut message = "[NetworkError] writer: ".to_owned();
        message.append(detail);
        self.fail(error.source(), message);
    }

    /// Reading failed.
    pub fn reader_failed(&mut self, error: SocketError, detail: &str)
        ensures
            final(self)@ == old(self)@.fail(
                if error.is_terminal() {
                    FailureSource::TransportTerminal
                } else {
                    FailureSource::Internal
                },
                "[NetworkError] reader: "@ + detail@,
            ),
    {
        let mut message = "[NetworkError] reader: ".to_owned();
        message.append(detail);
        self.fail(error.source(), message);
    }

    /// The stream ended without a close.
    pub fn reader_ended(&mut self)
        ensures
            final(self)@ == old(self)@.fail(
                FailureSource::TransportTerminal,
                "[NetworkError] reader reached EOF"@,
            ),
    {
        self.fail(
            FailureSource::TransportTerminal,
            "[NetworkError] reader reached EOF".to_owned(),
        );
    }

    /// How many tasks are still to be awaited.
    pub fn pending_tasks(&self) -> (pending: usize)
        ensures
            pending == self@.tasks.pending,
    {
        self.tasks.pending()
    }

    /// A task of the client was awaited.
    pub fn task_finished(&mut self, outcome: TaskOutcome)
        requires
            old(self)@.tasks.pending > 0,
        ensures
            final(self)@ == old(self)@.finish_task(panic_text(outcome)),
    {
        self.tasks.finish(outcome);
    }

    /// Adds what this client left to a report on a shutdown.
    pub fn report_to(&self, report: &mut ScopeJoinReport, in_time: bool)
        requires
            old(report)@.tasks_joined + TASKS_PER_CLIENT <= usize::MAX,
        ensures
            final(report)@ == old(report)@.with_client(self@.tasks, self@.error, in_time),
    {
        let error = match &self.error {
            Some(failure) => Some(failure.clone()),
            None => None,
        };
        report.add_client(&self.tasks, error, in_time);
    }

    /// A snapshot of the subscriptions, tagged with the reference to this client. Each subscription
    /// that is a dictionary carries the reference to itself, so that a field written on it finds
    /// its way back: each such reference reads back as what it was made of.
    pub fn subscriptions_value(&self) -> (shown: Value)
        ensures
            shown@ is Dict,
            entry_map(shown@->Dict_0) == self@.subscriptions_shown(),
            forall|hash: Seq<char>|
                self@.subscriptions.dom().contains(hash) && self@.subscriptions[hash] is Dict
                    ==> #[trigger] tag_reads_back(self@.reference(), hash),
    {
        let mut dict = Dict::new();
        let reference = self.reference();
        let ghost order = self.subscriptions.order();
        proof {
            lemma_entry_map_put(dict@, "__ws_subs_url"@, Tree::Str(reference@));
        }
        dict.insert("__ws_subs_url".to_owned(), Value::Str(reference.clone()));
        let len = self.subscriptions.len();
        let ghost none = self@.with_subscriptions(order.take(0).to_set());
        assert(entry_map(dict@) =~= none.subscriptions_shown());
        let mut i: usize = 0;
        while i < len
            invariant
                i <= len,
                len == order.len(),
                order == self.subscriptions.order(),
                reference@ == self@.reference(),
                entry_map(dict@) == self@.with_subscriptions(
                    order.take(i as int).to_set(),
                ).subscriptions_shown(),
                forall|j: int|
                    #![trigger order[j]]
                    0 <= j < i && self@.subscriptions[order[j]] is Dict ==> tag_reads_back(
                        self@.reference(),
                        order[j],
                    ),
            decreases len - i,
        {
            let (hash, subscription) = self.subscriptions.entry(i);
            let tagged_value = tag_subscription(&reference, hash, subscription);
            proof {
                lemma_entry_map_put(dict@, hash@, tagged_value@);
                lemma_take_one_more(order, i as int);
            }
            dict.insert(hash.clone(), tagged_value);
            i = i + 1;
            let ghost longer = self@.with_subscriptions(order.take(i as int).to_set());
            assert(entry_map(dict@) =~= longer.subscriptions_shown());
        }
        assert(order.take(i as int) =~= order);
        assert(self@.with_subscriptions(order.to_set()).subscriptions_shown()
            =~= self@.subscriptions_shown());
        assert forall|hash: Seq<char>|
            self@.subscriptions.dom().contains(hash) && self@.subscriptions[hash] is Dict implies
            #[trigger] tag_reads_back(self@.reference(), hash) by {
            assert(order.to_set().contains(hash));
            let j = choose|j: int| 0 <= j < order.len() && order[j] == hash;
            assert(order[j] == hash);
        }
        Value::dict(dict)
    }

    /// A snapshot of the hashes that someone waits on. Each has a handle, which finds its way back
    /// to this client.
    pub fn futures_value(&self) -> (shown: Value)
        ensures
            shown@ is Dict,
            entry_map(shown@->Dict_0) == self@.futures_shown(),
    {
        let mut dict = Dict::new();
        let reference = self.reference();
        let ghost order = self.futures.order();
        let len = self.futures.len();
        assert(entry_map(dict@) =~= Map::empty());
        let ghost none = ClientView { futures: order.take(0).to_set(), ..self@ };
        assert(entry_map(dict@) =~= none.futures_shown());
        let mut i: usize = 0;
        while i < len
            invariant
                i <= len,
                len == order.len(),
                order == self.futures.order(),
                reference@ == self@.reference(),
                entry_map(dict@) == (ClientView {
                    futures: order.take(i as int).to_set(),
                    ..self@
                }).futures_shown(),
            decreases len - i,
        {
            let hash = self.futures.entry(i).0;
            let mut handle = Dict::new();
            handle.insert("url".to_owned(), Value::Str(self.url.clone()));
            handle.insert("__ws_client_ref".to_owned(), Value::Str(reference.clone()));
            handle.insert("__ws_future_hash".to_owned(), Value::Str(hash.clone()));
            assert(handle@ == future_handle(self@.url, self@.reference(), hash@));
            let handle = Value::dict(handle);
            proof {
                lemma_entry_map_put(dict@, hash@, handle@);
                lemma_take_one_more(order, i as int);
            }
            dict.insert(hash.clone(), handle);
            i = i + 1;
            let ghost longer = ClientView { futures: order.take(i as int).to_set(), ..self@ };
            assert(entry_map(dict@) =~= longer.futures_shown());
        }
        assert(order.take(i as int) =~= order);
        Value::dict(dict)
    }
}

} // verus!
