//! What a client is, as mathematics: its state, and how each operation changes it.

use vstd::prelude::*;
use vstd::utf8::encode_utf8;

use crate::bounds::{chargeable, push_refusal, text_has_room, weighed, within_bounds};
use crate::bounds::{MAX_PAYLOAD_BYTES, OUTGOING_BYTES, OUTGOING_CAPACITY};
use crate::capture::capture_within_bounds;
use crate::events::Dialed;
use crate::json::{json_document, json_rendering, text_tree};
use crate::ledger::total_charge;
use crate::lifecycle::{FailureSource, FailureView, TasksView, TASKS_PER_CLIENT};
use crate::outgoing::{Frame, OutgoingView, Refusal};
use crate::reference::reference_text;
use crate::value::{put, Tree};

verus! {

/// A single flight: whether a leader is at work, and what the last one settled.
#[verifier::ext_equal]
pub struct FlightView {
    pub open: bool,
    pub settled: Option<Result<Tree, Tree>>,
}

/// The state of a client.
#[verifier::ext_equal]
pub struct ClientView {
    pub url: Seq<char>,
    pub generation: u64,
    pub scope_id: u64,
    /// Message hash to resolved value.
    pub resolved: Map<Seq<char>, Tree>,
    /// Message hash to error.
    pub rejections: Map<Seq<char>, Tree>,
    /// Subscribe hash to subscription.
    pub subscriptions: Map<Seq<char>, Tree>,
    /// The message hashes that someone waits on.
    pub futures: Set<Seq<char>>,
    pub flights: Map<Seq<char>, FlightView>,
    pub incoming: Seq<(Tree, nat)>,
    pub outgoing: OutgoingView,
    /// Whether a connection may still take the writing end.
    pub writer_ready: bool,
    pub tasks: TasksView,
    /// The first terminal failure.
    pub error: Option<FailureView>,
    pub connected: bool,
    pub closed: bool,
    pub last_pong_ms: i64,
    /// Whether frames are captured rather than sent.
    pub mock: bool,
    pub capture: Seq<(Tree, nat)>,
    pub completed: bool,
}

/// The first of `hashes` that is in `set`.
pub open spec fn first_in(hashes: Seq<Seq<char>>, set: Set<Seq<char>>) -> Option<Seq<char>>
    decreases hashes.len(),
{
    if hashes.len() == 0 {
        None
    } else if set.contains(hashes[0]) {
        Some(hashes[0])
    } else {
        first_in(hashes.drop_first(), set)
    }
}

/// The reference to a subscription: the client and the hash, as a JSON array.
pub open spec fn subscription_reference(reference: Seq<char>, hash: Seq<char>) -> Tree {
    Tree::Arr(seq![Tree::Str(reference), Tree::Str(hash)])
}

/// Whether the text of a reference to a subscription reads back as that reference.
pub open spec fn tag_reads_back(reference: Seq<char>, hash: Seq<char>) -> bool {
    json_document(json_rendering(subscription_reference(reference, hash))) == Some(
        subscription_reference(reference, hash),
    )
}

/// A subscription as a snapshot shows it: a dictionary carries the reference to itself.
pub open spec fn tagged(reference: Seq<char>, hash: Seq<char>, subscription: Tree) -> Tree {
    match subscription {
        Tree::Dict(entries) => Tree::Dict(
            put(
                entries,
                "__ws_sub_ref"@,
                Tree::Str(json_rendering(subscription_reference(reference, hash))),
            ),
        ),
        other => other,
    }
}

/// The entries of the handle of a future.
pub open spec fn future_handle(
    url: Seq<char>,
    reference: Seq<char>,
    hash: Seq<char>,
) -> Seq<(Seq<char>, Tree)> {
    put(
        put(
            put(Seq::empty(), "url"@, Tree::Str(url)),
            "__ws_client_ref"@,
            Tree::Str(reference),
        ),
        "__ws_future_hash"@,
        Tree::Str(hash),
    )
}

impl ClientView {
    /// A client that nothing has happened to.
    pub open spec fn fresh(url: Seq<char>, generation: u64, scope_id: u64, now: i64) -> ClientView {
        ClientView {
            url,
            generation,
            scope_id,
            resolved: Map::empty(),
            rejections: Map::empty(),
            subscriptions: Map::empty(),
            futures: Set::empty(),
            flights: Map::empty(),
            incoming: Seq::empty(),
            outgoing: OutgoingView::idle(),
            writer_ready: true,
            tasks: TasksView::idle(),
            error: None,
            connected: false,
            closed: false,
            last_pong_ms: now,
            mock: false,
            capture: Seq::empty(),
            completed: false,
        }
    }

    /// The text that identifies this client.
    pub open spec fn reference(self) -> Seq<char> {
        reference_text(self.generation, self.scope_id, self.url)
    }

    /// Whether two states are of one client.
    pub open spec fn same_client(self, other: ClientView) -> bool {
        &&& self.url == other.url
        &&& self.generation == other.generation
        &&& self.scope_id == other.scope_id
    }

    /// Whether a flight for `hash` is open.
    pub open spec fn flight_open(self, hash: Seq<char>) -> bool {
        self.flights.dom().contains(hash) && self.flights[hash].open
    }

    /// What the last flight for `hash` settled.
    pub open spec fn flight_outcome(self, hash: Seq<char>) -> Option<Result<Tree, Tree>> {
        if self.flights.dom().contains(hash) {
            self.flights[hash].settled
        } else {
            None
        }
    }

    /// An open flight for `hash` settles, and nobody waits on the hash any more. Without one,
    /// nothing happens.
    pub open spec fn settle(self, hash: Seq<char>, outcome: Result<Tree, Tree>) -> ClientView {
        if self.flight_open(hash) {
            ClientView {
                flights: self.flights.insert(
                    hash,
                    FlightView { open: false, settled: Some(outcome) },
                ),
                futures: self.futures.remove(hash),
                ..self
            }
        } else {
            self
        }
    }

    /// `hash` resolves with `value`.
    pub open spec fn resolve(self, hash: Seq<char>, value: Tree) -> ClientView {
        ClientView {
            resolved: self.resolved.insert(hash, value),
            ..self.settle(hash, Ok(value))
        }
    }

    /// `hash` is rejected with `error`.
    pub open spec fn reject(self, hash: Seq<char>, error: Tree) -> ClientView {
        ClientView {
            rejections: self.rejections.insert(hash, error),
            ..self.settle(hash, Err(error))
        }
    }

    /// Every hash of `hashes` is rejected with `error`.
    pub open spec fn reject_each(self, hashes: Set<Seq<char>>, error: Tree) -> ClientView {
        ClientView {
            rejections: Map::new(
                |hash: Seq<char>| self.rejections.dom().contains(hash) || hashes.contains(hash),
                |hash: Seq<char>|
                    if hashes.contains(hash) {
                        error
                    } else {
                        self.rejections[hash]
                    },
            ),
            flights: Map::new(
                |hash: Seq<char>| self.flights.dom().contains(hash),
                |hash: Seq<char>|
                    if hashes.contains(hash) && self.flights[hash].open {
                        FlightView { open: false, settled: Some(Err(error)) }
                    } else {
                        self.flights[hash]
                    },
            ),
            futures: Set::new(
                |hash: Seq<char>|
                    self.futures.contains(hash) && !(hashes.contains(hash) && self.flight_open(
                        hash,
                    )),
            ),
            ..self
        }
    }

    /// Someone opens a flight for `hash`. An open one is joined; a closed one opens again and
    /// keeps its last outcome.
    pub open spec fn begin_flight(self, hash: Seq<char>) -> ClientView {
        if self.flight_open(hash) {
            self
        } else {
            ClientView {
                flights: self.flights.insert(
                    hash,
                    FlightView { open: true, settled: self.flight_outcome(hash) },
                ),
                futures: self.futures.insert(hash),
                ..self
            }
        }
    }

    /// Someone waits on `hashes`.
    pub open spec fn note(self, hashes: Seq<Seq<char>>) -> ClientView {
        ClientView { futures: self.futures.union(hashes.to_set()), ..self }
    }

    /// What is settled for one of `hashes`: the first rejection, else the first resolved value.
    pub open spec fn settled(self, hashes: Seq<Seq<char>>) -> Option<Result<Tree, Tree>> {
        match first_in(hashes, self.rejections.dom()) {
            Some(hash) => Some(Err(self.rejections[hash])),
            None => match first_in(hashes, self.resolved.dom()) {
                Some(hash) => Some(Ok(self.resolved[hash])),
                None => None,
            },
        }
    }

    /// What [`ClientView::settled`] gives is taken out.
    pub open spec fn take_settled(self, hashes: Seq<Seq<char>>) -> ClientView {
        match first_in(hashes, self.rejections.dom()) {
            Some(hash) => ClientView { rejections: self.rejections.remove(hash), ..self },
            None => match first_in(hashes, self.resolved.dom()) {
                Some(hash) => ClientView { resolved: self.resolved.remove(hash), ..self },
                None => self,
            },
        }
    }

    /// The subscription under `hash` is set.
    pub open spec fn subscribe(self, hash: Seq<char>, subscription: Tree) -> ClientView {
        ClientView { subscriptions: self.subscriptions.insert(hash, subscription), ..self }
    }

    /// The first subscription under `hash` is recorded, `true` standing for none in particular.
    pub open spec fn subscribe_once(self, hash: Seq<char>, subscription: Tree) -> ClientView {
        if self.subscriptions.dom().contains(hash) {
            self
        } else if subscription is Null {
            self.subscribe(hash, Tree::Bool(true))
        } else {
            self.subscribe(hash, subscription)
        }
    }

    /// The subscription under `hash` is removed.
    pub open spec fn unsubscribe(self, hash: Seq<char>) -> ClientView {
        ClientView { subscriptions: self.subscriptions.remove(hash), ..self }
    }

    /// A field of the subscription under `hash` is set. What is no dictionary becomes one.
    pub open spec fn set_subscription_field(
        self,
        hash: Seq<char>,
        key: Seq<char>,
        value: Tree,
    ) -> ClientView {
        let entries = if self.subscriptions.dom().contains(hash) {
            match self.subscriptions[hash] {
                Tree::Dict(entries) => entries,
                _ => Seq::empty(),
            }
        } else {
            Seq::empty()
        };
        self.subscribe(hash, Tree::Dict(put(entries, key, value)))
    }

    /// The client closes: nothing is written any more, and nothing can connect.
    pub open spec fn request_close(self) -> ClientView {
        ClientView {
            closed: true,
            connected: false,
            writer_ready: false,
            outgoing: self.outgoing.dropped(),
            ..self
        }
    }

    /// The client fails: the first failure is kept, one later internal failure is retained beside
    /// it, the inbound queue is dropped, and the client closes.
    pub open spec fn fail(self, source: FailureSource, message: Seq<char>) -> ClientView {
        let recorded = match self.error {
            None => ClientView { error: Some(FailureView { source, message }), ..self },
            Some(_) => if source is Internal {
                ClientView { tasks: self.tasks.suppressed(message), ..self }
            } else {
                self
            },
        };
        ClientView { incoming: Seq::empty(), ..recorded }.request_close()
    }

    /// A parsed value that is charged `charge` arrives.
    pub open spec fn push_incoming(self, value: Tree, charge: nat) -> ClientView {
        if self.closed {
            self
        } else {
            match push_refusal(self.incoming, charge) {
                Some(message) => self.fail(FailureSource::Internal, message),
                None => ClientView { incoming: self.incoming.push((value, charge)), ..self },
            }
        }
    }

    /// The first message is taken out. A failed client delivers none.
    pub open spec fn consume(self) -> ClientView {
        if self.error is None && self.incoming.len() > 0 {
            ClientView { incoming: self.incoming.drop_first(), ..self }
        } else {
            self
        }
    }

    /// Why a frame that retains `retained` bytes is not sent, if it is not.
    pub open spec fn send_refusal(self, frame: Frame, retained: nat) -> Option<Seq<char>> {
        if frame.len() > MAX_PAYLOAD_BYTES {
            Some("[NetworkError] outgoing payload exceeds limit"@)
        } else if retained > OUTGOING_BYTES {
            Some("[NetworkError] outgoing byte budget exceeded"@)
        } else {
            match self.outgoing.refusal(retained) {
                Some(Refusal::Budget) => Some("[NetworkError] outgoing byte budget exceeded"@),
                Some(Refusal::Full) => Some("[NetworkError] outgoing queue full or closed"@),
                None => None,
            }
        }
    }

    /// Whether a frame that retains `retained` bytes is queued for the writer.
    pub open spec fn sends(self, frame: Frame, retained: nat) -> bool {
        !self.closed && self.send_refusal(frame, retained) is None
    }

    /// A frame that retains `retained` bytes is sent. A refusal ends the client.
    pub open spec fn send(self, frame: Frame, retained: nat) -> ClientView {
        if self.closed {
            self
        } else {
            match self.send_refusal(frame, retained) {
                Some(message) => self.fail(FailureSource::Internal, message),
                None => ClientView { outgoing: self.outgoing.queued(frame, retained), ..self },
            }
        }
    }

    /// Why a value that is charged `charge` is not captured, if it is not.
    pub open spec fn capture_refusal(self, charge: nat) -> Option<Seq<char>> {
        if self.capture.len() >= OUTGOING_CAPACITY {
            Some("[NetworkError] mock capture full"@)
        } else if charge > OUTGOING_BYTES - total_charge(self.capture) {
            Some("[NetworkError] mock capture byte budget exceeded"@)
        } else {
            None
        }
    }

    /// A value that is charged `charge` is captured. A refusal ends the client.
    pub open spec fn capture_value(self, value: Tree, charge: nat) -> ClientView {
        match self.capture_refusal(charge) {
            Some(message) => self.fail(FailureSource::Internal, message),
            None => ClientView { capture: self.capture.push((value, charge)), ..self },
        }
    }

    /// Whether a text may be charged `charge` when it is sent: what its captured value retains, or
    /// what the text itself does. Of a text that is looked at, that is what the allocations report
    /// that hold it.
    pub open spec fn text_charge(self, text: Seq<char>, charge: nat) -> bool {
        let is_looked_at = !self.closed && encode_utf8(text).len() <= MAX_PAYLOAD_BYTES;
        if self.mock {
            &&& chargeable(text_tree(json_document(text), text), charge)
            &&& is_looked_at ==> weighed(text_tree(json_document(text), text), charge)
        } else {
            &&& charge >= encode_utf8(text).len()
            &&& is_looked_at ==> text_has_room(text, charge)
        }
    }

    /// Whether a text at `charge` is accepted.
    pub open spec fn sends_text(self, text: Seq<char>, charge: nat) -> bool {
        if self.closed || encode_utf8(text).len() > MAX_PAYLOAD_BYTES {
            false
        } else if self.mock {
            self.capture_refusal(charge) is None
        } else {
            self.send_refusal(Frame::Text(text), charge) is None
        }
    }

    /// A text is sent at `charge`, or captured.
    pub open spec fn send_text(self, text: Seq<char>, charge: nat) -> ClientView {
        if self.closed {
            self
        } else if encode_utf8(text).len() > MAX_PAYLOAD_BYTES {
            self.fail(
                FailureSource::Internal,
                "[NetworkError] outgoing payload exceeds limit"@,
            )
        } else if self.mock {
            self.capture_value(text_tree(json_document(text), text), charge)
        } else {
            self.send(Frame::Text(text), charge)
        }
    }

    /// What was resolved, rejected, subscribed and awaited is forgotten.
    pub open spec fn reset(self) -> ClientView {
        ClientView {
            resolved: Map::empty(),
            rejections: Map::empty(),
            subscriptions: Map::empty(),
            futures: Set::empty(),
            flights: Map::empty(),
            ..self
        }
    }

    /// The mock transport takes over.
    pub open spec fn mock_enable(self) -> ClientView {
        ClientView { mock: true, connected: true, ..self }
    }

    /// The client starts over as a mock.
    pub open spec fn mock_setup(self) -> ClientView {
        ClientView {
            capture: Seq::empty(),
            incoming: Seq::empty(),
            completed: false,
            ..self.reset().mock_enable()
        }
    }

    /// Why a connection does not come about, if it does not: the attempt failed, or the client
    /// closed meanwhile, or a connection took the writing end before.
    pub open spec fn connect_refusal(self, dialed: Dialed) -> Option<Seq<char>> {
        match dialed {
            Dialed::Closing => Some("[NetworkError] client closed during connect"@),
            Dialed::DeadlineExceeded => Some("[NetworkError] connect deadline exceeded"@),
            Dialed::Failed(message) => Some(message@),
            Dialed::Opened => if self.closed {
                Some("[NetworkError] client closed during connect"@)
            } else if !self.writer_ready {
                Some("[NetworkError] slot has no writer channel"@)
            } else {
                None
            },
        }
    }

    /// The socket is open and the tasks that serve it run.
    pub open spec fn connect(self, now: i64) -> ClientView {
        ClientView {
            writer_ready: false,
            connected: true,
            last_pong_ms: now,
            tasks: self.tasks.started(TASKS_PER_CLIENT as nat),
            ..self
        }
    }

    /// The writer is done with its frame and takes the next one.
    pub open spec fn write_next(self) -> ClientView {
        ClientView { outgoing: self.outgoing.advanced(), ..self }
    }

    /// The writer has let go of its frame.
    pub open spec fn release(self) -> ClientView {
        ClientView { outgoing: self.outgoing.released(), ..self }
    }

    /// A task of the client was awaited.
    pub open spec fn finish_task(self, panic: Option<Seq<char>>) -> ClientView {
        ClientView { tasks: self.tasks.finished(panic), ..self }
    }

    /// What always holds of a client.
    pub open spec fn wf(self) -> bool {
        &&& self.error is Some ==> self.closed && self.incoming.len() == 0
        &&& self.tasks.retained ==> self.error is Some
        &&& self.closed ==> !self.writer_ready && self.outgoing.waiting.len() == 0
        &&& self.writer_ready ==> self.tasks.pending + self.tasks.joined == 0
        &&& !self.closed && !self.connected ==> self.writer_ready
        &&& forall|hash: Seq<char>| self.flight_open(hash) ==> #[trigger] self.futures.contains(hash)
        &&& within_bounds(self.incoming)
        &&& self.outgoing.within_bounds()
        &&& capture_within_bounds(self.capture)
        &&& self.tasks.within_bounds()
    }

    /// The watching side is done.
    pub open spec fn complete(self) -> ClientView {
        ClientView { completed: true, ..self }
    }

    /// A pong came at `now`.
    pub open spec fn pong(self, now: i64) -> ClientView {
        ClientView { last_pong_ms: now, ..self }
    }

    /// The client with the subscriptions under `hashes` alone.
    pub open spec fn with_subscriptions(self, hashes: Set<Seq<char>>) -> ClientView {
        ClientView { subscriptions: self.subscriptions.restrict(hashes), ..self }
    }

    /// What a snapshot of the subscriptions shows: each of them, and who they belong to.
    pub open spec fn subscriptions_shown(self) -> Map<Seq<char>, Tree> {
        Map::new(
            |key: Seq<char>| key == "__ws_subs_url"@ || self.subscriptions.dom().contains(key),
            |key: Seq<char>|
                if self.subscriptions.dom().contains(key) {
                    tagged(self.reference(), key, self.subscriptions[key])
                } else {
                    Tree::Str(self.reference())
                },
        )
    }

    /// What a snapshot of the futures shows: a handle for each hash that someone waits on.
    pub open spec fn futures_shown(self) -> Map<Seq<char>, Tree> {
        Map::new(
            |hash: Seq<char>| self.futures.contains(hash),
            |hash: Seq<char>| Tree::Dict(future_handle(self.url, self.reference(), hash)),
        )
    }

    /// Rejecting one more hash extends the rejected set by it.
    pub proof fn lemma_reject_one_more(
        self,
        hashes: Set<Seq<char>>,
        hash: Seq<char>,
        error: Tree,
    )
        ensures
            self.reject_each(hashes, error).reject(hash, error) == self.reject_each(
                hashes.insert(hash),
                error,
            ),
    {
        let left = self.reject_each(hashes, error).reject(hash, error);
        let right = self.reject_each(hashes.insert(hash), error);
        assert(left.rejections =~= right.rejections);
        assert(left.flights =~= right.flights);
        assert(left.futures =~= right.futures);
    }
}

} // verus!
