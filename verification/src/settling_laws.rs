//! What settling and waiting do, as a caller sees it: each law speaks of what calls are given and
//! what they give back.

use vstd::prelude::*;

use crate::client::{maybe_outcome, texts, ClientState};
use crate::client_laws::Operation;
use crate::client_view::{first_in, ClientView, FlightView};
use crate::value::{Tree, Value};

verus! {

/// The first hash of a list that is in a set is at some place of the list, and none before it is in
/// the set; where there is none, none of the list is.
pub proof fn law_first_in_is_the_first(hashes: Seq<Seq<char>>, set: Set<Seq<char>>)
    ensures
        match first_in(hashes, set) {
            Some(hash) => set.contains(hash) && exists|i: int|
                0 <= i < hashes.len() && #[trigger] hashes[i] == hash && forall|j: int|
                    0 <= j < i ==> !set.contains(#[trigger] hashes[j]),
            None => forall|i: int| 0 <= i < hashes.len() ==> !set.contains(#[trigger] hashes[i]),
        },
    decreases hashes.len(),
{
    if hashes.len() > 0 && !set.contains(hashes[0]) {
        let rest = hashes.drop_first();
        law_first_in_is_the_first(rest, set);
        match first_in(rest, set) {
            Some(hash) => {
                let i = choose|i: int|
                    0 <= i < rest.len() && #[trigger] rest[i] == hash && forall|j: int|
                        0 <= j < i ==> !set.contains(#[trigger] rest[j]);
                assert(hashes[i + 1] == hash);
                assert forall|j: int| 0 <= j < i + 1 implies !set.contains(#[trigger] hashes[j]) by {
                    if j > 0 {
                        assert(rest[j - 1] == hashes[j]);
                    }
                }
            },
            None => {
                assert forall|i: int| 0 <= i < hashes.len() implies !set.contains(
                    #[trigger] hashes[i],
                ) by {
                    if i > 0 {
                        assert(rest[i - 1] == hashes[i]);
                    }
                }
            },
        }
    }
}

/// Opening a flight makes the caller its leader exactly where none was open, puts the hash among
/// those that are waited on, and touches no other hash and nothing else.
pub proof fn law_begun_flight_is_open(
    client: &mut ClientState,
    hash: &str,
    leads: bool,
    other: Seq<char>,
)
    requires
        call_ensures(ClientState::flight_begin, (client, hash), leads),
    ensures
        ({
            let before = old(client)@;
            let after = final(client)@;
            let was_open = before.flights.dom().contains(hash@) && before.flights[hash@].open;
            &&& leads == !was_open
            &&& after == (ClientView { flights: after.flights, futures: after.futures, ..before })
            &&& after.flights.dom().contains(hash@) && after.flights[hash@].open
            &&& was_open ==> after == before
            &&& leads ==> after.futures == before.futures.insert(hash@)
            &&& leads && before.flights.dom().contains(hash@) ==> after.flights[hash@].settled
                == before.flights[hash@].settled
            &&& leads && !before.flights.dom().contains(hash@) ==> after.flights[hash@].settled
                is None
            &&& other != hash@ ==> after.flights.dom().contains(other)
                == before.flights.dom().contains(other)
            &&& other != hash@ && before.flights.dom().contains(other) ==> after.flights[other]
                == before.flights[other]
            &&& other != hash@ ==> after.futures.contains(other) == before.futures.contains(other)
        }),
{
}

/// Settling closes an open flight with the outcome that is given, and nobody waits on its hash any
/// more; without an open flight nothing happens. No other hash is touched, nor anything else.
pub proof fn law_settled_flight_has_its_outcome(
    client: &mut ClientState,
    hash: &str,
    outcome: Result<Value, Value>,
    settled: bool,
    other: Seq<char>,
)
    requires
        call_ensures(ClientState::flight_settle, (client, hash, outcome), settled),
    ensures
        ({
            let before = old(client)@;
            let after = final(client)@;
            &&& settled == (before.flights.dom().contains(hash@) && before.flights[hash@].open)
            &&& !settled ==> after == before
            &&& after == (ClientView { flights: after.flights, futures: after.futures, ..before })
            &&& settled ==> after.flights.dom() == before.flights.dom()
            &&& settled ==> !after.flights[hash@].open && !after.futures.contains(hash@)
            &&& settled && outcome is Ok ==> after.flights[hash@].settled == Some(
                Ok::<Tree, Tree>(outcome->Ok_0@),
            )
            &&& settled && outcome is Err ==> after.flights[hash@].settled == Some(
                Err::<Tree, Tree>(outcome->Err_0@),
            )
            &&& other != hash@ && before.flights.dom().contains(other) ==> after.flights[other]
                == before.flights[other]
            &&& other != hash@ ==> after.futures.contains(other) == before.futures.contains(other)
        }),
{
    let before = old(client)@;
    let after = final(client)@;
    if settled {
        assert(after.flights.dom() =~= before.flights.dom());
    }
}

/// What is looked up of a flight is what the last settlement left, however often it is asked, and
/// whether it is open.
pub proof fn law_flight_is_read_as_it_is(
    client: ClientState,
    hash: &str,
    outcome: Option<Result<Value, Value>>,
    open: bool,
)
    requires
        call_ensures(ClientState::flight_peek, (&client, hash), outcome),
        call_ensures(ClientState::flight_is_open, (&client, hash), open),
    ensures
        open == (client@.flights.dom().contains(hash@) && client@.flights[hash@].open),
        !client@.flights.dom().contains(hash@) ==> outcome is None,
        client@.flights.dom().contains(hash@) ==> match (outcome, client@.flights[hash@].settled) {
            (Some(Ok(value)), Some(Ok(tree))) => value@ == tree,
            (Some(Err(error)), Some(Err(tree))) => error@ == tree,
            (None, None) => true,
            _ => false,
        },
{
}

/// What a settlement leaves of the flights and of those who wait: the hash's own flight, where one
/// is open, closes with the outcome; every other stays.
pub open spec fn flights_settled(
    before: ClientView,
    after: ClientView,
    hash: Seq<char>,
    outcome: Result<Tree, Tree>,
    other: Seq<char>,
) -> bool {
    let was_open = before.flights.dom().contains(hash) && before.flights[hash].open;
    &&& after.flights.dom() == before.flights.dom()
    &&& was_open ==> after.flights[hash] == (FlightView { open: false, settled: Some(outcome) })
    &&& was_open ==> after.futures == before.futures.remove(hash)
    &&& !was_open ==> after.flights == before.flights && after.futures == before.futures
    &&& other != hash && before.flights.dom().contains(other) ==> after.flights[other]
        == before.flights[other]
}

/// Resolving stores the value for its hash, whatever was there before, and settles the flight on
/// it. Every other value, every rejection and everything else stays.
pub proof fn law_resolved_value_is_stored(
    client: &mut ClientState,
    hash: &str,
    value: Value,
    other: Seq<char>,
)
    requires
        call_ensures(ClientState::resolve, (client, hash, value), ()),
    ensures
        ({
            let before = old(client)@;
            let after = final(client)@;
            &&& after.resolved.dom().contains(hash@) && after.resolved[hash@] == value@
            &&& other != hash@ ==> after.resolved.dom().contains(other)
                == before.resolved.dom().contains(other)
            &&& other != hash@ && before.resolved.dom().contains(other) ==> after.resolved[other]
                == before.resolved[other]
            &&& after.rejections == before.rejections
            &&& flights_settled(before, after, hash@, Ok(value@), other)
            &&& after == (ClientView {
                resolved: after.resolved,
                flights: after.flights,
                futures: after.futures,
                ..before
            })
        }),
{
    assert(final(client)@.flights.dom() =~= old(client)@.flights.dom());
}

/// Rejecting stores the error for its hash, whatever was there before, and settles the flight on
/// it. Every other rejection, every value and everything else stays.
pub proof fn law_rejection_is_stored(
    client: &mut ClientState,
    hash: &str,
    error: Value,
    other: Seq<char>,
)
    requires
        call_ensures(ClientState::reject, (client, hash, error), ()),
    ensures
        ({
            let before = old(client)@;
            let after = final(client)@;
            &&& after.rejections.dom().contains(hash@) && after.rejections[hash@] == error@
            &&& other != hash@ ==> after.rejections.dom().contains(other)
                == before.rejections.dom().contains(other)
            &&& other != hash@ && before.rejections.dom().contains(other)
                ==> after.rejections[other] == before.rejections[other]
            &&& after.resolved == before.resolved
            &&& flights_settled(before, after, hash@, Err(error@), other)
            &&& after == (ClientView {
                rejections: after.rejections,
                flights: after.flights,
                futures: after.futures,
                ..before
            })
        }),
{
    assert(final(client)@.flights.dom() =~= old(client)@.flights.dom());
}

/// Rejecting those who wait rejects every hash that is waited on with the error, and no other, and
/// settles their flights with it. Nobody waits any more on a hash whose flight was open.
pub proof fn law_every_waiter_is_rejected(client: &mut ClientState, error: Value, hash: Seq<char>)
    requires
        call_ensures(ClientState::reject_pending_futures, (client, error), ()),
    ensures
        ({
            let before = old(client)@;
            let after = final(client)@;
            let waited = before.futures.contains(hash);
            let was_open = before.flights.dom().contains(hash) && before.flights[hash].open;
            &&& after == (ClientView {
                rejections: after.rejections,
                flights: after.flights,
                futures: after.futures,
                ..before
            })
            &&& waited ==> after.rejections.dom().contains(hash) && after.rejections[hash]
                == error@
            &&& !waited ==> after.rejections.dom().contains(hash)
                == before.rejections.dom().contains(hash)
            &&& !waited && before.rejections.dom().contains(hash) ==> after.rejections[hash]
                == before.rejections[hash]
            &&& after.flights.dom() == before.flights.dom()
            &&& waited && was_open ==> after.flights[hash] == (FlightView {
                open: false,
                settled: Some(Err(error@)),
            })
            &&& before.flights.dom().contains(hash) && !(waited && was_open)
                ==> after.flights[hash] == before.flights[hash]
            &&& after.futures.contains(hash) == (waited && !was_open)
        }),
{
    assert(final(client)@.flights.dom() =~= old(client)@.flights.dom());
}

/// What is taken is the rejection of the first hash that has one; where none has, the value of the
/// first hash that has one; where none has either, nothing. Exactly what is given is taken out.
pub proof fn law_taken_is_the_first_settlement(
    client: &mut ClientState,
    hashes: &[String],
    taken: Option<Result<Value, Value>>,
)
    requires
        call_ensures(ClientState::take_settled, (client, hashes), taken),
    ensures
        ({
            let before = old(client)@;
            let after = final(client)@;
            match taken {
                Some(Err(error)) => exists|i: int|
                    0 <= i < hashes@.len() && before.rejections.dom().contains(
                        (#[trigger] hashes@[i])@,
                    ) && before.rejections[hashes@[i]@] == error@ && (forall|j: int|
                        0 <= j < i ==> !before.rejections.dom().contains(
                            (#[trigger] hashes@[j])@,
                        )) && after == (ClientView {
                        rejections: before.rejections.remove(hashes@[i]@),
                        ..before
                    }),
                Some(Ok(value)) => (forall|j: int|
                    0 <= j < hashes@.len() ==> !before.rejections.dom().contains(
                        (#[trigger] hashes@[j])@,
                    )) && exists|i: int|
                    0 <= i < hashes@.len() && before.resolved.dom().contains(
                        (#[trigger] hashes@[i])@,
                    ) && before.resolved[hashes@[i]@] == value@ && (forall|j: int|
                        0 <= j < i ==> !before.resolved.dom().contains((#[trigger] hashes@[j])@))
                        && after == (ClientView {
                        resolved: before.resolved.remove(hashes@[i]@),
                        ..before
                    }),
                None => after == before && forall|j: int|
                    0 <= j < hashes@.len() ==> !before.rejections.dom().contains(
                        (#[trigger] hashes@[j])@,
                    ) && !before.resolved.dom().contains(hashes@[j]@),
            }
        }),
{
    let before = old(client)@;
    let list = texts(hashes@);
    law_first_in_is_the_first(list, before.rejections.dom());
    law_first_in_is_the_first(list, before.resolved.dom());
    assert forall|j: int| 0 <= j < hashes@.len() implies list[j] == (#[trigger] hashes@[j])@ by {}
    if let Some(hash) = first_in(list, before.rejections.dom()) {
        let i = choose|i: int|
            0 <= i < list.len() && #[trigger] list[i] == hash && forall|j: int|
                0 <= j < i ==> !before.rejections.dom().contains(#[trigger] list[j]);
        assert(hashes@[i]@ == hash);
        assert forall|j: int| 0 <= j < i implies !before.rejections.dom().contains(
            (#[trigger] hashes@[j])@,
        ) by {
            assert(list[j] == hashes@[j]@);
        }
    } else {
        assert forall|j: int| 0 <= j < hashes@.len() implies !before.rejections.dom().contains(
            (#[trigger] hashes@[j])@,
        ) by {
            assert(list[j] == hashes@[j]@);
        }
        if let Some(hash) = first_in(list, before.resolved.dom()) {
            let i = choose|i: int|
                0 <= i < list.len() && #[trigger] list[i] == hash && forall|j: int|
                    0 <= j < i ==> !before.resolved.dom().contains(#[trigger] list[j]);
            assert(hashes@[i]@ == hash);
            assert forall|j: int| 0 <= j < i implies !before.resolved.dom().contains(
                (#[trigger] hashes@[j])@,
            ) by {
                assert(list[j] == hashes@[j]@);
            }
        } else {
            assert forall|j: int| 0 <= j < hashes@.len() implies !before.resolved.dom().contains(
                (#[trigger] hashes@[j])@,
            ) by {
                assert(list[j] == hashes@[j]@);
            }
        }
    }
}

/// What two clients settle for the same hashes is the same where they agree on these hashes.
proof fn lemma_settled_agrees(a: ClientView, b: ClientView, hashes: Seq<Seq<char>>)
    requires
        forall|i: int|
            0 <= i < hashes.len() ==> {
                let hash = #[trigger] hashes[i];
                &&& a.rejections.dom().contains(hash) == b.rejections.dom().contains(hash)
                &&& a.rejections.dom().contains(hash) ==> a.rejections[hash] == b.rejections[hash]
                &&& a.resolved.dom().contains(hash) == b.resolved.dom().contains(hash)
                &&& a.resolved.dom().contains(hash) ==> a.resolved[hash] == b.resolved[hash]
            },
    ensures
        a.settled(hashes) == b.settled(hashes),
{
    lemma_first_in_agrees(hashes, a.rejections.dom(), b.rejections.dom());
    lemma_first_in_agrees(hashes, a.resolved.dom(), b.resolved.dom());
    law_first_in_is_the_first(hashes, a.rejections.dom());
    law_first_in_is_the_first(hashes, a.resolved.dom());
}

proof fn lemma_first_in_agrees(hashes: Seq<Seq<char>>, a: Set<Seq<char>>, b: Set<Seq<char>>)
    requires
        forall|i: int|
            0 <= i < hashes.len() ==> a.contains(#[trigger] hashes[i]) == b.contains(hashes[i]),
    ensures
        first_in(hashes, a) == first_in(hashes, b),
    decreases hashes.len(),
{
    if hashes.len() > 0 {
        let rest = hashes.drop_first();
        assert forall|i: int| 0 <= i < rest.len() implies a.contains(#[trigger] rest[i])
            == b.contains(rest[i]) by {
            assert(rest[i] == hashes[i + 1]);
        }
        assert(a.contains(hashes[0]) == b.contains(hashes[0]));
        lemma_first_in_agrees(rest, a, b);
    }
}

/// Settling is local for deliveries: whoever takes what is settled for other hashes gets the same
/// after a hash is resolved or rejected as before.
pub proof fn law_settling_leaves_other_deliveries(
    resolved: &mut ClientState,
    rejected: &mut ClientState,
    hash: &str,
    value: Value,
    others: &[String],
    unsettled: &mut ClientState,
    before: Option<Result<Value, Value>>,
    once_resolved: &mut ClientState,
    after_resolving: Option<Result<Value, Value>>,
    once_rejected: &mut ClientState,
    after_rejecting: Option<Result<Value, Value>>,
)
    requires
        forall|i: int| 0 <= i < others@.len() ==> (#[trigger] others@[i])@ != hash@,
        call_ensures(ClientState::resolve, (resolved, hash, value), ()),
        old(rejected)@ == old(resolved)@,
        call_ensures(ClientState::reject, (rejected, hash, value), ()),
        old(unsettled)@ == old(resolved)@,
        call_ensures(ClientState::take_settled, (unsettled, others), before),
        old(once_resolved)@ == final(resolved)@,
        call_ensures(ClientState::take_settled, (once_resolved, others), after_resolving),
        old(once_rejected)@ == final(rejected)@,
        call_ensures(ClientState::take_settled, (once_rejected, others), after_rejecting),
    ensures
        maybe_outcome(after_resolving) == maybe_outcome(before),
        maybe_outcome(after_rejecting) == maybe_outcome(before),
{
    let list = texts(others@);
    assert forall|i: int| 0 <= i < list.len() implies #[trigger] list[i] != hash@ by {
        assert(list[i] == others@[i]@);
    }
    lemma_settled_agrees(old(resolved)@, final(resolved)@, list);
    lemma_settled_agrees(old(rejected)@, final(rejected)@, list);
}

/// What was resolved is delivered to whoever asks for its hash alone, unless the hash was rejected;
/// what was rejected is delivered in any case, before what is resolved later.
pub proof fn law_settlement_is_what_is_taken(
    resolved: &mut ClientState,
    hash: &str,
    value: Value,
    rejected: &mut ClientState,
    error: Value,
    again: &mut ClientState,
    asked: &[String],
    at_resolved: &mut ClientState,
    first: Option<Result<Value, Value>>,
    at_again: &mut ClientState,
    second: Option<Result<Value, Value>>,
)
    requires
        asked@.len() == 1,
        asked@[0]@ == hash@,
        call_ensures(ClientState::resolve, (resolved, hash, value), ()),
        old(at_resolved)@ == final(resolved)@,
        call_ensures(ClientState::take_settled, (at_resolved, asked), first),
        call_ensures(ClientState::reject, (rejected, hash, error), ()),
        old(again)@ == final(rejected)@,
        call_ensures(ClientState::resolve, (again, hash, value), ()),
        old(at_again)@ == final(again)@,
        call_ensures(ClientState::take_settled, (at_again, asked), second),
    ensures
        !old(resolved)@.rejections.dom().contains(hash@) ==> match first {
            Some(Ok(taken)) => taken@ == value@,
            _ => false,
        },
        match second {
            Some(Err(taken)) => taken@ == error@,
            _ => false,
        },
{
    law_taken_is_the_first_settlement(at_resolved, asked, first);
    law_taken_is_the_first_settlement(at_again, asked, second);
    assert(asked@[0]@ == hash@);
}

/// Whether an operation can take a rejection of `hash` away or put another in its place.
pub open spec fn touches_rejection(operation: Operation, hash: Seq<char>) -> bool {
    match operation {
        Operation::TakeSettled(hashes) => hashes.contains(hash),
        Operation::Reject(other, _) => other == hash,
        Operation::RejectEach(hashes, _) => hashes.contains(hash),
        Operation::Reset => true,
        Operation::MockSetup => true,
        _ => false,
    }
}

/// The client once operations have happened, one after the other.
pub open spec fn after_each(client: ClientView, operations: Seq<Operation>) -> ClientView
    decreases operations.len(),
{
    if operations.len() == 0 {
        client
    } else {
        after_each(client, operations.drop_last()).after(operations.last())
    }
}

proof fn lemma_rejection_stays_once(client: ClientView, operation: Operation, hash: Seq<char>)
    requires
        client.rejections.dom().contains(hash),
        !touches_rejection(operation, hash),
    ensures
        client.after(operation).rejections.dom().contains(hash),
        client.after(operation).rejections[hash] == client.rejections[hash],
{
    if let Operation::TakeSettled(hashes) = operation {
        law_first_in_is_the_first(hashes, client.rejections.dom());
    }
}

/// A rejection stays until it is taken, replaced or forgotten, whatever else happens, and goes
/// first: whoever then asks for its hash alone gets that very error.
pub proof fn law_rejection_waits_for_its_watcher(
    client: ClientView,
    operations: Seq<Operation>,
    hash: Seq<char>,
    later: &mut ClientState,
    asked: &[String],
    taken: Option<Result<Value, Value>>,
)
    requires
        client.rejections.dom().contains(hash),
        forall|i: int|
            0 <= i < operations.len() ==> !touches_rejection(#[trigger] operations[i], hash),
        old(later)@ == after_each(client, operations),
        asked@.len() == 1,
        asked@[0]@ == hash,
        call_ensures(ClientState::take_settled, (later, asked), taken),
    ensures
        match taken {
            Some(Err(error)) => error@ == client.rejections[hash],
            _ => false,
        },
{
    lemma_rejection_stays(client, operations, hash);
    law_taken_is_the_first_settlement(later, asked, taken);
    assert(asked@[0]@ == hash);
}

proof fn lemma_rejection_stays(client: ClientView, operations: Seq<Operation>, hash: Seq<char>)
    requires
        client.rejections.dom().contains(hash),
        forall|i: int|
            0 <= i < operations.len() ==> !touches_rejection(#[trigger] operations[i], hash),
    ensures
        after_each(client, operations).rejections.dom().contains(hash),
        after_each(client, operations).rejections[hash] == client.rejections[hash],
    decreases operations.len(),
{
    if operations.len() > 0 {
        let fewer = operations.drop_last();
        assert forall|i: int| 0 <= i < fewer.len() implies !touches_rejection(
            #[trigger] fewer[i],
            hash,
        ) by {
            assert(fewer[i] == operations[i]);
        }
        lemma_rejection_stays(client, fewer, hash);
        assert(operations[operations.len() - 1] == operations.last());
        lemma_rejection_stays_once(after_each(client, fewer), operations.last(), hash);
    }
}

/// Registering interest adds exactly the hashes that are given to those that are waited on.
pub proof fn law_noted_hashes_are_waited_on(
    client: &mut ClientState,
    hashes: &[String],
    hash: Seq<char>,
)
    requires
        call_ensures(ClientState::note_futures, (client, hashes), ()),
    ensures
        final(client)@ == (ClientView { futures: final(client)@.futures, ..old(client)@ }),
        final(client)@.futures.contains(hash) == (old(client)@.futures.contains(hash) || exists|
            i: int,
        |
            0 <= i < hashes@.len() && (#[trigger] hashes@[i])@ == hash),
{
    let list = texts(hashes@);
    if list.contains(hash) {
        let i = choose|i: int| 0 <= i < list.len() && list[i] == hash;
        assert(hashes@[i]@ == hash);
    }
    if exists|i: int| 0 <= i < hashes@.len() && (#[trigger] hashes@[i])@ == hash {
        let i = choose|i: int| 0 <= i < hashes@.len() && (#[trigger] hashes@[i])@ == hash;
        assert(list[i] == hash);
    }
}

/// Someone is waited for exactly where a hash is among those that are waited on.
pub proof fn law_pending_futures_are_seen(client: ClientState, pending: bool, hash: Seq<char>)
    requires
        call_ensures(ClientState::has_pending_futures, (&client,), pending),
    ensures
        client@.futures.contains(hash) ==> pending,
        pending ==> exists|waited: Seq<char>| client@.futures.contains(waited),
{
    if pending {
        if forall|waited: Seq<char>| !client@.futures.contains(waited) {
            assert(client@.futures =~= Set::empty());
        }
    }
}

/// A reset forgets everything that was resolved, rejected, subscribed, awaited and in flight, and
/// nothing else.
pub proof fn law_reset_forgets_settlements_alone(client: &mut ClientState, hash: Seq<char>)
    requires
        call_ensures(ClientState::reset, (client,), ()),
    ensures
        !final(client)@.resolved.dom().contains(hash),
        !final(client)@.rejections.dom().contains(hash),
        !final(client)@.subscriptions.dom().contains(hash),
        !final(client)@.futures.contains(hash),
        !final(client)@.flights.dom().contains(hash),
        final(client)@ == (ClientView {
            resolved: final(client)@.resolved,
            rejections: final(client)@.rejections,
            subscriptions: final(client)@.subscriptions,
            futures: final(client)@.futures,
            flights: final(client)@.flights,
            ..old(client)@
        }),
{
}

} // verus!
