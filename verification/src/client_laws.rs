//! What holds of a client whatever happens to it.

use vstd::prelude::*;

use crate::bounds::{push_refusal, OUTGOING_BYTES};
use crate::capture::captured;
use crate::client_view::{first_in, tagged, ClientView};
use crate::events::Dialed;
use crate::json::{json_document, text_tree};
use crate::ledger::{lemma_total_front, lemma_total_push};
use crate::lifecycle::{FailureSource, FailureView, TASKS_PER_CLIENT};
use crate::outgoing::{Frame, OutgoingView};
use crate::value::{lemma_lookup_put, Tree};

verus! {

/// Everything that can happen to a client.
pub enum Operation {
    Settle(Seq<char>, Result<Tree, Tree>),
    Resolve(Seq<char>, Tree),
    Reject(Seq<char>, Tree),
    RejectEach(Set<Seq<char>>, Tree),
    BeginFlight(Seq<char>),
    TakeSettled(Seq<Seq<char>>),
    Note(Seq<Seq<char>>),
    SubscribeOnce(Seq<char>, Tree),
    Subscribe(Seq<char>, Tree),
    Unsubscribe(Seq<char>),
    SetSubscriptionField(Seq<char>, Seq<char>, Tree),
    RequestClose,
    Fail(FailureSource, Seq<char>),
    PushIncoming(Tree, nat),
    Consume,
    Send(Frame, nat),
    SendText(Seq<char>, nat),
    Capture(Tree, nat),
    Reset,
    MockEnable,
    MockSetup,
    Complete,
    Pong(i64),
    Connect(i64),
    WriteNext,
    Release,
    FinishTask(Option<Seq<char>>),
}

impl ClientView {
    /// Whether an operation can happen: a connection needs an open client whose writing end is
    /// free, and only a task that runs can finish.
    pub open spec fn allows(self, operation: Operation) -> bool {
        match operation {
            Operation::Connect(_) => !self.closed && self.writer_ready,
            Operation::FinishTask(_) => self.tasks.pending > 0,
            _ => true,
        }
    }

    /// The client once an operation has happened.
    pub open spec fn after(self, operation: Operation) -> ClientView {
        match operation {
            Operation::Settle(hash, outcome) => self.settle(hash, outcome),
            Operation::Resolve(hash, value) => self.resolve(hash, value),
            Operation::Reject(hash, error) => self.reject(hash, error),
            Operation::RejectEach(hashes, error) => self.reject_each(hashes, error),
            Operation::BeginFlight(hash) => self.begin_flight(hash),
            Operation::TakeSettled(hashes) => self.take_settled(hashes),
            Operation::Note(hashes) => self.note(hashes),
            Operation::SubscribeOnce(hash, subscription) => self.subscribe_once(hash, subscription),
            Operation::Subscribe(hash, subscription) => self.subscribe(hash, subscription),
            Operation::Unsubscribe(hash) => self.unsubscribe(hash),
            Operation::SetSubscriptionField(hash, key, value) => self.set_subscription_field(
                hash,
                key,
                value,
            ),
            Operation::RequestClose => self.request_close(),
            Operation::Fail(source, message) => self.fail(source, message),
            Operation::PushIncoming(value, charge) => self.push_incoming(value, charge),
            Operation::Consume => self.consume(),
            Operation::Send(frame, retained) => self.send(frame, retained),
            Operation::SendText(text, charge) => self.send_text(text, charge),
            Operation::Capture(value, charge) => self.capture_value(value, charge),
            Operation::Reset => self.reset(),
            Operation::MockEnable => self.mock_enable(),
            Operation::MockSetup => self.mock_setup(),
            Operation::Complete => self.complete(),
            Operation::Pong(now) => self.pong(now),
            Operation::Connect(now) => self.connect(now),
            Operation::WriteNext => self.write_next(),
            Operation::Release => self.release(),
            Operation::FinishTask(panic) => self.finish_task(panic),
        }
    }
}

/// A new client is well formed.
pub proof fn law_fresh_client_is_well_formed(
    url: Seq<char>,
    generation: u64,
    scope_id: u64,
    now: i64,
)
    ensures
        ClientView::fresh(url, generation, scope_id, now).wf(),
{
}

proof fn lemma_incoming_kept(client: ClientView, value: Tree, charge: nat)
    requires
        client.wf(),
    ensures
        client.push_incoming(value, charge).wf(),
        client.consume().wf(),
{
    lemma_total_push(client.incoming, value, charge);
    if client.incoming.len() > 0 {
        lemma_total_front(client.incoming);
    }
}

proof fn lemma_outgoing_kept(client: ClientView, frame: Frame, retained: nat)
    requires
        client.wf(),
    ensures
        client.send(frame, retained).wf(),
        client.write_next().wf(),
        client.release().wf(),
{
    lemma_total_push(
        client.outgoing.waiting,
        frame,
        OutgoingView::charge(retained),
    );
    if client.outgoing.waiting.len() > 0 {
        lemma_total_front(client.outgoing.waiting);
    }
}

proof fn lemma_capture_kept(client: ClientView, value: Tree, charge: nat)
    requires
        client.wf(),
    ensures
        client.capture_value(value, charge).wf(),
{
    lemma_total_push(client.capture, value, charge);
}

/// Every operation keeps a client well formed: its queues within their bounds, its failures
/// closed, and every open flight among the futures.
pub proof fn law_every_operation_keeps_well_formed(client: ClientView, operation: Operation)
    requires
        client.wf(),
        client.allows(operation),
    ensures
        client.after(operation).wf(),
{
    match operation {
        Operation::PushIncoming(value, charge) => lemma_incoming_kept(client, value, charge),
        Operation::Consume => lemma_incoming_kept(client, Tree::Null, 0),
        Operation::Send(frame, retained) => lemma_outgoing_kept(client, frame, retained),
        Operation::WriteNext => lemma_outgoing_kept(client, Frame::Ping(Seq::empty()), 0),
        Operation::Release => lemma_outgoing_kept(client, Frame::Ping(Seq::empty()), 0),
        Operation::SendText(text, charge) => {
            lemma_outgoing_kept(client, Frame::Text(text), charge);
            lemma_capture_kept(
                client,
                text_tree(json_document(text), text),
                charge,
            );
        },
        Operation::Capture(value, charge) => lemma_capture_kept(client, value, charge),
        _ => {},
    }
}

/// No operation makes another client of it: the URL, the generation and the owner stay.
pub proof fn law_identity_is_fixed(client: ClientView, operation: Operation)
    ensures
        client.after(operation).same_client(client),
{
}

/// A closed client stays closed.
pub proof fn law_closed_is_final(client: ClientView, operation: Operation)
    requires
        client.closed,
        client.allows(operation),
    ensures
        client.after(operation).closed,
{
}

/// The first terminal failure is kept, whatever comes later.
pub proof fn law_first_failure_is_kept(client: ClientView, operation: Operation)
    requires
        client.error is Some,
    ensures
        client.after(operation).error == client.error,
{
}

/// A closed client sends nothing and takes nothing in.
pub proof fn law_closed_client_is_inert(
    client: ClientView,
    value: Tree,
    charge: nat,
    frame: Frame,
    retained: nat,
    text: Seq<char>,
)
    requires
        client.closed,
    ensures
        client.push_incoming(value, charge) == client,
        client.send(frame, retained) == client,
        !client.sends(frame, retained),
        client.send_text(text, charge) == client,
        !client.sends_text(text, charge),
{
}

/// Requesting the close twice is requesting it once.
pub proof fn law_close_is_idempotent(client: ClientView)
    ensures
        client.request_close().request_close() == client.request_close(),
{
}

/// A request to close touches nothing that a watcher reads, and keeps the tasks, so that they can
/// still be joined.
pub proof fn law_close_keeps_the_tasks(client: ClientView)
    ensures
        client.request_close().tasks == client.tasks,
        client.request_close().incoming == client.incoming,
        client.request_close().resolved == client.resolved,
        client.request_close().rejections == client.rejections,
        client.request_close().error == client.error,
{
}

/// Overflow ends the client: a message that the inbound queue refuses leaves a closed client with
/// an empty queue and a failure to report, not an empty success.
pub proof fn law_incoming_overflow_is_terminal(client: ClientView, value: Tree, charge: nat)
    requires
        !client.closed,
        push_refusal(client.incoming, charge) is Some,
    ensures
        client.push_incoming(value, charge).closed,
        client.push_incoming(value, charge).incoming.len() == 0,
        client.push_incoming(value, charge).error is Some,
        client.error is None ==> client.push_incoming(value, charge).error == Some(
            FailureView {
                source: FailureSource::Internal,
                message: push_refusal(client.incoming, charge)->0,
            },
        ),
{
}

/// A frame that is refused ends the client, and gives the budget of the waiting frames back.
pub proof fn law_outgoing_overflow_is_terminal(client: ClientView, frame: Frame, retained: nat)
    requires
        !client.closed,
        !client.sends(frame, retained),
    ensures
        client.send(frame, retained).closed,
        client.send(frame, retained).error is Some,
        client.send(frame, retained).outgoing.waiting.len() == 0,
        client.outgoing.in_flight == 0 ==> client.send(frame, retained).outgoing.available()
            == OUTGOING_BYTES,
{
}

/// A value that the capture refuses ends the client, and leaves what was captured.
pub proof fn law_capture_overflow_is_terminal(client: ClientView, value: Tree, charge: nat)
    requires
        client.capture_refusal(charge) is Some,
    ensures
        client.capture_value(value, charge).closed,
        client.capture_value(value, charge).error is Some,
        client.capture_value(value, charge).capture == client.capture,
{
}

/// One internal failure that comes after the first failure is retained beside it, and only one.
pub proof fn law_one_later_internal_failure_is_retained(
    client: ClientView,
    message: Seq<char>,
    later: Seq<char>,
)
    requires
        client.error is Some,
        !client.tasks.retained,
    ensures
        client.fail(FailureSource::Internal, message).tasks.failures == client.tasks.failures.push(
            FailureView { source: FailureSource::Internal, message },
        ),
        client.fail(FailureSource::Internal, message).fail(FailureSource::Internal, later).tasks
            == client.fail(FailureSource::Internal, message).tasks,
        client.fail(FailureSource::TransportTerminal, message).tasks == client.tasks,
{
}

/// Messages are delivered in the order in which they arrived: an accepted one comes after those
/// that were there, and first where none were.
pub proof fn law_messages_come_in_order(client: ClientView, value: Tree, charge: nat)
    requires
        !client.closed,
        client.error is None,
        push_refusal(client.incoming, charge) is None,
    ensures
        client.incoming.len() == 0 ==> client.push_incoming(value, charge).incoming[0].0 == value,
        client.incoming.len() == 0 ==> client.push_incoming(value, charge).consume() == client,
        client.incoming.len() > 0 ==> client.push_incoming(value, charge).consume().incoming
            == client.consume().incoming.push((value, charge)),
{
    let queue = client.incoming.push((value, charge));
    if client.incoming.len() == 0 {
        assert(queue.drop_first() =~= client.incoming);
    } else {
        assert(queue.drop_first() =~= client.incoming.drop_first().push((value, charge)));
    }
}

/// One caller leads: whoever comes while a flight is open joins it and changes nothing, and finds
/// the hash among the futures.
pub proof fn law_one_leader(client: ClientView, hash: Seq<char>)
    ensures
        client.begin_flight(hash).flight_open(hash),
        client.begin_flight(hash).begin_flight(hash) == client.begin_flight(hash),
        !client.flight_open(hash) ==> client.begin_flight(hash).futures.contains(hash),
{
}

/// Settling a flight closes it, shows the outcome to every waiter, and lets the next caller lead.
pub proof fn law_settled_flight_reelects(
    client: ClientView,
    hash: Seq<char>,
    outcome: Result<Tree, Tree>,
)
    requires
        client.flight_open(hash),
    ensures
        client.settle(hash, outcome).flight_outcome(hash) == Some(outcome),
        !client.settle(hash, outcome).flight_open(hash),
        !client.settle(hash, outcome).futures.contains(hash),
        client.settle(hash, outcome).begin_flight(hash).flight_open(hash),
        client.settle(hash, outcome).begin_flight(hash) != client.settle(hash, outcome),
{
    assert(client.settle(hash, outcome).begin_flight(hash).futures.contains(hash));
}

/// Opening a flight again keeps the last outcome, for a leader that finds nothing to do.
pub proof fn law_reopened_flight_keeps_last_outcome(client: ClientView, hash: Seq<char>)
    ensures
        client.begin_flight(hash).flight_outcome(hash) == client.flight_outcome(hash),
{
}

/// Settling one hash leaves the flights and the waiters of every other.
pub proof fn law_settling_is_local(
    client: ClientView,
    hash: Seq<char>,
    outcome: Result<Tree, Tree>,
    other: Seq<char>,
)
    requires
        other != hash,
    ensures
        client.settle(hash, outcome).flight_open(other) == client.flight_open(other),
        client.settle(hash, outcome).flight_outcome(other) == client.flight_outcome(other),
        client.settle(hash, outcome).futures.contains(other) == client.futures.contains(other),
{
}

/// A resolved value is there for whoever asks for its hash, and is given out once. A rejection
/// goes before it.
pub proof fn law_settlement_is_delivered_once(
    client: ClientView,
    hash: Seq<char>,
    value: Tree,
    error: Tree,
)
    ensures
        !client.rejections.dom().contains(hash) ==> client.resolve(hash, value).settled(seq![hash])
            == Some(Ok::<Tree, Tree>(value)),
        !client.rejections.dom().contains(hash) ==> client.resolve(hash, value).take_settled(
            seq![hash],
        ).settled(seq![hash]) is None,
        client.resolve(hash, value).reject(hash, error).settled(seq![hash]) == Some(
            Err::<Tree, Tree>(error),
        ),
        client.resolve(hash, value).reject(hash, error).take_settled(seq![hash]).settled(seq![hash])
            == Some(Ok::<Tree, Tree>(value)),
{
    reveal_with_fuel(first_in, 2);
}

/// A hash is subscribed once: the second subscription changes nothing, and the first stands.
pub proof fn law_subscribed_once(
    client: ClientView,
    hash: Seq<char>,
    subscription: Tree,
    later: Tree,
)
    ensures
        client.subscribe_once(hash, subscription).subscriptions.dom().contains(hash),
        client.subscribe_once(hash, subscription).subscribe_once(hash, later)
            == client.subscribe_once(hash, subscription),
{
}

/// After a reset no stale hash resolves a new waiter: nothing is settled, subscribed, awaited or
/// in flight.
pub proof fn law_reset_forgets(client: ClientView, hashes: Seq<Seq<char>>, hash: Seq<char>)
    ensures
        client.reset().settled(hashes) is None,
        !client.reset().flight_open(hash),
        client.reset().flight_outcome(hash) is None,
        !client.reset().futures.contains(hash),
        !client.reset().subscriptions.dom().contains(hash),
        client.reset().reset() == client.reset(),
{
    lemma_first_in_nothing(hashes);
}

proof fn lemma_first_in_nothing(hashes: Seq<Seq<char>>)
    ensures
        first_in(hashes, Set::empty()) is None,
    decreases hashes.len(),
{
    if hashes.len() > 0 {
        lemma_first_in_nothing(hashes.drop_first());
    }
    assert(Map::<Seq<char>, Tree>::empty().dom() =~= Set::empty());
}

/// A client connects once: once it has, or once it is closed, no later attempt succeeds, whatever
/// happened in between.
pub proof fn law_connects_once(client: ClientView, operation: Operation)
    requires
        !client.writer_ready,
    ensures
        !client.after(operation).writer_ready,
        client.after(operation).connect_refusal(Dialed::Opened) is Some,
{
}

/// An open client without a connection can connect. The tasks of a connection are then all that it
/// has, it counts as connected, and no second connection starts more.
pub proof fn law_open_client_can_connect(client: ClientView, now: i64)
    requires
        client.wf(),
        !client.closed,
        !client.connected,
    ensures
        client.connect_refusal(Dialed::Opened) is None,
        client.connect(now).connected && !client.connect(now).closed,
        client.connect(now).tasks.pending == TASKS_PER_CLIENT,
        client.connect(now).tasks.joined == 0,
        client.connect(now).connect_refusal(Dialed::Opened) is Some,
{
}

/// A subscription that is written is what a snapshot shows, with its tag, until it is removed; a
/// field that is set on it is there, and its other fields stay.
pub proof fn law_subscription_is_read_back(
    client: ClientView,
    hash: Seq<char>,
    subscription: Tree,
    key: Seq<char>,
    value: Tree,
    other: Seq<char>,
)
    ensures
        ({
            let shown = client.subscribe(hash, subscription).subscriptions_shown();
            shown.dom().contains(hash) && shown[hash] == tagged(
                client.reference(),
                hash,
                subscription,
            )
        }),
        hash != "__ws_subs_url"@ ==> !client.unsubscribe(
            hash,
        ).subscriptions_shown().dom().contains(hash),
        client.set_subscription_field(hash, key, value).subscriptions[hash].field(key) == Some(
            value,
        ),
        other != key && client.subscriptions.dom().contains(hash)
            && client.subscriptions[hash] is Dict ==> client.set_subscription_field(
            hash,
            key,
            value,
        ).subscriptions[hash].field(other) == client.subscriptions[hash].field(other),
{
    let entries = if client.subscriptions.dom().contains(hash) {
        match client.subscriptions[hash] {
            Tree::Dict(entries) => entries,
            _ => Seq::empty(),
        }
    } else {
        Seq::empty()
    };
    lemma_lookup_put(entries, key, value, key);
    lemma_lookup_put(entries, key, value, other);
}

/// Whoever waits on a hash is shown a handle for it, and nobody else is.
pub proof fn law_futures_are_shown(client: ClientView, hash: Seq<char>)
    ensures
        client.futures_shown().dom().contains(hash) == client.futures.contains(hash),
        client.note(seq![hash]).futures_shown().dom().contains(hash),
        !client.flight_open(hash) ==> client.begin_flight(hash).futures_shown().dom().contains(hash),
{
    assert(seq![hash][0] == hash);
    assert(seq![hash].contains(hash));
}

/// What a mock accepts is what it captured, in order.
pub proof fn law_captures_are_read_back(client: ClientView, value: Tree, charge: nat)
    requires
        client.capture_refusal(charge) is None,
    ensures
        captured(client.capture_value(value, charge).capture) == captured(client.capture).push(
            value,
        ),
{
    assert(captured(client.capture.push((value, charge))) =~= captured(client.capture).push(value));
}

} // verus!
