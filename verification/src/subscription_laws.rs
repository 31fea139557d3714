//! What subscribing does, as a caller sees it: each law speaks of what calls are given and what they
//! give back.

use vstd::prelude::*;

use crate::client::ClientState;
use crate::client_laws::Operation;
use crate::client_view::{subscription_reference, ClientView};
use crate::json::{json_document, json_rendering};
use crate::settling_laws::after_each;
use crate::value::{entry_map, lemma_lookup_put, lookup, Tree, Value};

verus! {

/// Recording a subscription answers true exactly where the hash has none yet. Then it has the one
/// that is given, `true` standing for null; a hash that has one keeps it. Every other hash has what
/// it had, and nothing else changes.
pub proof fn law_first_subscription_is_recorded(
    client: &mut ClientState,
    hash: &str,
    subscription: Value,
    first: bool,
    other: Seq<char>,
)
    requires
        call_ensures(ClientState::subscribe_once, (client, hash, subscription), first),
    ensures
        ({
            let before = old(client)@;
            let after = final(client)@;
            &&& first == !before.subscriptions.dom().contains(hash@)
            &&& after.subscriptions.dom().contains(hash@)
            &&& first && subscription@ is Null ==> after.subscriptions[hash@] == Tree::Bool(true)
            &&& first && !(subscription@ is Null) ==> after.subscriptions[hash@] == subscription@
            &&& !first ==> after == before
            &&& other != hash@ ==> after.subscriptions.dom().contains(other)
                == before.subscriptions.dom().contains(other)
            &&& other != hash@ && before.subscriptions.dom().contains(other)
                ==> after.subscriptions[other] == before.subscriptions[other]
            &&& after == (ClientView { subscriptions: after.subscriptions, ..before })
        }),
{
}

/// Setting a subscription puts it under its hash, removing one takes it from its hash. Every other
/// hash has what it had, and nothing else changes.
pub proof fn law_subscription_is_set_and_removed(
    client: &mut ClientState,
    removed: &mut ClientState,
    hash: &str,
    subscription: Value,
    other: Seq<char>,
)
    requires
        call_ensures(ClientState::set_subscription, (client, hash, subscription), ()),
        call_ensures(ClientState::remove_subscription, (removed, hash), ()),
    ensures
        ({
            let before = old(client)@.subscriptions;
            let after = final(client)@.subscriptions;
            &&& after.dom().contains(hash@) && after[hash@] == subscription@
            &&& other != hash@ ==> after.dom().contains(other) == before.dom().contains(other)
            &&& other != hash@ && before.dom().contains(other) ==> after[other] == before[other]
        }),
        ({
            let before = old(removed)@.subscriptions;
            let after = final(removed)@.subscriptions;
            &&& !after.dom().contains(hash@)
            &&& other != hash@ ==> after.dom().contains(other) == before.dom().contains(other)
            &&& other != hash@ && before.dom().contains(other) ==> after[other] == before[other]
        }),
        final(client)@ == (ClientView {
            subscriptions: final(client)@.subscriptions,
            ..old(client)@
        }),
        final(removed)@ == (ClientView {
            subscriptions: final(removed)@.subscriptions,
            ..old(removed)@
        }),
{
}

/// Whether a hash is subscribed is whether it has a subscription.
pub proof fn law_subscribed_is_having_one(client: ClientState, hash: &str, subscribed: bool)
    requires
        call_ensures(ClientState::is_subscribed, (&client, hash), subscribed),
    ensures
        subscribed == client@.subscriptions.dom().contains(hash@),
{
}

/// A field that is written on a subscription is there, its other fields stay where it is a
/// dictionary, and where it is none it becomes one with this field alone. Every other hash has what
/// it had, and nothing else changes.
pub proof fn law_written_field_is_there(
    client: &mut ClientState,
    hash: &str,
    key: &str,
    value: Value,
    field: Seq<char>,
    other: Seq<char>,
)
    requires
        call_ensures(ClientState::set_subscription_field, (client, hash, key, value), ()),
    ensures
        ({
            let before = old(client)@.subscriptions;
            let after = final(client)@.subscriptions;
            &&& after.dom().contains(hash@)
            &&& after[hash@] is Dict
            &&& lookup(after[hash@]->Dict_0, key@) == Some(value@)
            &&& field != key@ && before.dom().contains(hash@) && before[hash@] is Dict ==> lookup(
                after[hash@]->Dict_0,
                field,
            ) == lookup(before[hash@]->Dict_0, field)
            &&& field != key@ && !(before.dom().contains(hash@) && before[hash@] is Dict)
                ==> lookup(after[hash@]->Dict_0, field) is None
            &&& other != hash@ ==> after.dom().contains(other) == before.dom().contains(other)
            &&& other != hash@ && before.dom().contains(other) ==> after[other] == before[other]
        }),
        final(client)@ == (ClientView {
            subscriptions: final(client)@.subscriptions,
            ..old(client)@
        }),
{
    let before = old(client)@.subscriptions;
    let entries = if before.dom().contains(hash@) {
        match before[hash@] {
            Tree::Dict(entries) => entries,
            _ => Seq::empty(),
        }
    } else {
        Seq::empty()
    };
    lemma_lookup_put(entries, key@, value@, key@);
    lemma_lookup_put(entries, key@, value@, field);
}

/// Whether an operation can take the subscription of `hash` away.
pub open spec fn forgets_subscription(operation: Operation, hash: Seq<char>) -> bool {
    match operation {
        Operation::Unsubscribe(other) => other == hash,
        Operation::Reset => true,
        Operation::MockSetup => true,
        _ => false,
    }
}

/// Whether an operation can give `hash` a subscription.
pub open spec fn adds_subscription(operation: Operation, hash: Seq<char>) -> bool {
    match operation {
        Operation::SubscribeOnce(other, _) => other == hash,
        Operation::Subscribe(other, _) => other == hash,
        Operation::SetSubscriptionField(other, _, _) => other == hash,
        _ => false,
    }
}

proof fn lemma_subscription_stays(client: ClientView, operations: Seq<Operation>, hash: Seq<char>)
    requires
        client.subscriptions.dom().contains(hash),
        forall|i: int|
            0 <= i < operations.len() ==> !forgets_subscription(#[trigger] operations[i], hash),
    ensures
        after_each(client, operations).subscriptions.dom().contains(hash),
    decreases operations.len(),
{
    if operations.len() > 0 {
        let fewer = operations.drop_last();
        assert forall|i: int| 0 <= i < fewer.len() implies !forgets_subscription(
            #[trigger] fewer[i],
            hash,
        ) by {
            assert(fewer[i] == operations[i]);
        }
        lemma_subscription_stays(client, fewer, hash);
        assert(operations[operations.len() - 1] == operations.last());
    }
}

proof fn lemma_subscription_stays_away(
    client: ClientView,
    operations: Seq<Operation>,
    hash: Seq<char>,
)
    requires
        !client.subscriptions.dom().contains(hash),
        forall|i: int|
            0 <= i < operations.len() ==> !adds_subscription(#[trigger] operations[i], hash),
    ensures
        !after_each(client, operations).subscriptions.dom().contains(hash),
    decreases operations.len(),
{
    if operations.len() > 0 {
        let fewer = operations.drop_last();
        assert forall|i: int| 0 <= i < fewer.len() implies !adds_subscription(
            #[trigger] fewer[i],
            hash,
        ) by {
            assert(fewer[i] == operations[i]);
        }
        lemma_subscription_stays_away(client, fewer, hash);
        assert(operations[operations.len() - 1] == operations.last());
    }
}

/// The subscribe frame of a hash is sent once: whatever happens after a hash was subscribed, other
/// hashes being subscribed included, recording it again answers false, and it still counts as
/// subscribed, until its subscription is removed or the client is reset.
pub proof fn law_hash_is_subscribed_once(
    client: &mut ClientState,
    hash: &str,
    subscription: Value,
    first: bool,
    operations: Seq<Operation>,
    later: &mut ClientState,
    once_more: Value,
    again: bool,
    subscribed: bool,
)
    requires
        call_ensures(ClientState::subscribe_once, (client, hash, subscription), first),
        forall|i: int|
            0 <= i < operations.len() ==> !forgets_subscription(#[trigger] operations[i], hash@),
        old(later)@ == after_each(final(client)@, operations),
        call_ensures(ClientState::is_subscribed, (&*old(later), hash), subscribed),
        call_ensures(ClientState::subscribe_once, (later, hash, once_more), again),
    ensures
        subscribed,
        !again,
{
    lemma_subscription_stays(final(client)@, operations, hash@);
}

/// A hash that has no subscription, and that nothing gave one since, is subscribed by the next call
/// that records one.
pub proof fn law_unsubscribed_hash_is_subscribed_next(
    client: ClientView,
    operations: Seq<Operation>,
    later: &mut ClientState,
    hash: &str,
    subscription: Value,
    first: bool,
)
    requires
        !client.subscriptions.dom().contains(hash@),
        forall|i: int|
            0 <= i < operations.len() ==> !adds_subscription(#[trigger] operations[i], hash@),
        old(later)@ == after_each(client, operations),
        call_ensures(ClientState::subscribe_once, (later, hash, subscription), first),
    ensures
        first,
{
    lemma_subscription_stays_away(client, operations, hash@);
}

/// A snapshot of the subscriptions shows the reference to the client, and under each hash its
/// subscription: as it is where it is no dictionary, and with a tag beside its own fields where it
/// is one. The tag is the text of the client's reference and the hash. Nothing else is shown.
pub proof fn law_snapshot_shows_the_subscriptions(
    client: ClientState,
    shown: Value,
    hash: Seq<char>,
    field: Seq<char>,
)
    requires
        call_ensures(ClientState::subscriptions_value, (&client,), shown),
    ensures
        shown@ is Dict,
        !client@.subscriptions.dom().contains("__ws_subs_url"@) ==> lookup(
            shown@->Dict_0,
            "__ws_subs_url"@,
        ) == Some(Tree::Str(client@.reference())),
        hash != "__ws_subs_url"@ ==> (lookup(shown@->Dict_0, hash) is Some)
            == client@.subscriptions.dom().contains(hash),
        client@.subscriptions.dom().contains(hash) ==> ({
            let kept = client@.subscriptions[hash];
            let seen = lookup(shown@->Dict_0, hash)->0;
            &&& !(kept is Dict) ==> seen == kept
            &&& kept is Dict ==> seen is Dict
            &&& kept is Dict && field != "__ws_sub_ref"@ ==> lookup(seen->Dict_0, field) == lookup(
                kept->Dict_0,
                field,
            )
            &&& kept is Dict ==> lookup(seen->Dict_0, "__ws_sub_ref"@) == Some(
                Tree::Str(
                    json_rendering(
                        Tree::Arr(seq![Tree::Str(client@.reference()), Tree::Str(hash)]),
                    ),
                ),
            )
            &&& kept is Dict ==> json_document(
                json_rendering(Tree::Arr(seq![Tree::Str(client@.reference()), Tree::Str(hash)])),
            ) == Some(Tree::Arr(seq![Tree::Str(client@.reference()), Tree::Str(hash)]))
        }),
{
    let map = entry_map(shown@->Dict_0);
    assert(map.dom().contains(hash) == (lookup(shown@->Dict_0, hash) is Some));
    assert(map.dom().contains("__ws_subs_url"@));
    assert(map["__ws_subs_url"@] == lookup(shown@->Dict_0, "__ws_subs_url"@)->0);
    assert(map == client@.subscriptions_shown());
    if client@.subscriptions.dom().contains(hash) {
        assert(map.dom().contains(hash));
        assert(map[hash] == lookup(shown@->Dict_0, hash)->0);
        let reference = subscription_reference(client@.reference(), hash);
        if let Tree::Dict(entries) = client@.subscriptions[hash] {
            lemma_lookup_put(
                entries,
                "__ws_sub_ref"@,
                Tree::Str(json_rendering(reference)),
                "__ws_sub_ref"@,
            );
            lemma_lookup_put(
                entries,
                "__ws_sub_ref"@,
                Tree::Str(json_rendering(reference)),
                field,
            );
            assert(crate::client_view::tag_reads_back(client@.reference(), hash));
        }
    }
}

/// A snapshot of the futures shows a handle for each hash that is waited on and for no other. Each
/// says the URL, the reference to the client and the hash.
pub proof fn law_snapshot_shows_the_futures(client: ClientState, shown: Value, hash: Seq<char>)
    requires
        call_ensures(ClientState::futures_value, (&client,), shown),
    ensures
        shown@ is Dict,
        (lookup(shown@->Dict_0, hash) is Some) == client@.futures.contains(hash),
        client@.futures.contains(hash) ==> ({
            let handle = lookup(shown@->Dict_0, hash)->0;
            &&& handle.text_field("url"@) == Some(client@.url)
            &&& handle.text_field("__ws_client_ref"@) == Some(client@.reference())
            &&& handle.text_field("__ws_future_hash"@) == Some(hash)
        }),
{
    let map = entry_map(shown@->Dict_0);
    assert(map.dom().contains(hash) == (lookup(shown@->Dict_0, hash) is Some));
    if client@.futures.contains(hash) {
        assert(map.dom().contains(hash));
        assert(map[hash] == lookup(shown@->Dict_0, hash)->0);
        crate::bridge::law_future_handle_is_read_back(client@.url, client@.reference(), hash);
    }
}

} // verus!
