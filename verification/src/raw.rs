//! The raw handoff: inbound messages as they arrived, for those who observe them.
//!
//! It stands beside the parsed queue and never replaces it. There is a bounded channel for each
//! observed URL, and one for all of them.

use std::time::Instant;

use tokio::sync::broadcast;
use vstd::prelude::*;
use vstd::string::*;
use vstd::utf8::encode_utf8;

use crate::table::{lemma_value_is_held, Table};

verus! {

/// How many messages the channel of a URL retains.
pub const RAW_BUS_CAPACITY: usize = 64;

/// How many messages the channel for all URLs retains.
pub const RAW_ALL_CAPACITY: usize = 256;

/// How many URLs can be observed at once.
pub const MAX_RAW_URLS: usize = 256;

/// How many bytes a URL may have.
pub const MAX_URL_BYTES: usize = 4096;

/// One inbound message as it arrived.
#[derive(Debug)]
pub struct RawFrame {
    /// The URL that it arrived on.
    pub url: String,
    /// The generation of the client that it arrived at. Frames of a client that has been replaced
    /// can be told by it.
    pub generation: u64,
    /// The monotonic instant at which it was read, before parsing.
    pub ingress_at: Instant,
    /// The wall clock at that instant, in milliseconds.
    pub ingress_unix_ms: i64,
    /// Whether it was a binary message.
    pub is_binary: bool,
    /// The bytes of the payload, unconverted.
    pub payload: Vec<u8>,
}

/// What a [`RawFrame`] holds.
#[verifier::ext_equal]
pub struct RawFrameView {
    pub url: Seq<char>,
    pub generation: u64,
    pub ingress_at: Instant,
    pub ingress_unix_ms: i64,
    pub is_binary: bool,
    pub payload: Seq<u8>,
}

impl View for RawFrame {
    type V = RawFrameView;

    open spec fn view(&self) -> RawFrameView {
        RawFrameView {
            url: self.url@,
            generation: self.generation,
            ingress_at: self.ingress_at,
            ingress_unix_ms: self.ingress_unix_ms,
            is_binary: self.is_binary,
            payload: self.payload@,
        }
    }
}

impl Clone for RawFrame {
    fn clone(&self) -> (copy: RawFrame)
        ensures
            copy@ == self@,
    {
        let copy = RawFrame {
            url: self.url.clone(),
            generation: self.generation,
            ingress_at: self.ingress_at,
            ingress_unix_ms: self.ingress_unix_ms,
            is_binary: self.is_binary,
            payload: self.payload.clone(),
        };
        assert(copy@ =~= self@);
        copy
    }
}

/// `tokio::sync::broadcast::Sender`, the sending end of a bounded channel.
#[verifier::external_type_specification]
#[verifier::external_body]
#[verifier::reject_recursive_types(T)]
pub struct ExSender<T>(broadcast::Sender<T>);

/// `tokio::sync::broadcast::Receiver`, a receiving end of a bounded channel.
#[verifier::external_type_specification]
#[verifier::external_body]
#[verifier::reject_recursive_types(T)]
pub struct ExReceiver<T>(broadcast::Receiver<T>);

/// The frames that a channel has taken, in the order in which they were sent.
pub uninterp spec fn channel_sent(sender: broadcast::Sender<RawFrame>) -> Seq<RawFrameView>;

/// The frames that were handed to a channel, taken or not, in order.
pub uninterp spec fn channel_offered(sender: broadcast::Sender<RawFrame>) -> Seq<RawFrameView>;

/// Which channel a sender sends on.
pub uninterp spec fn channel_id(sender: broadcast::Sender<RawFrame>) -> int;

/// Which channel a receiver hears.
pub uninterp spec fn heard_channel(receiver: broadcast::Receiver<RawFrame>) -> int;

/// What a channel answered each time it was asked how many receivers it has, in order.
pub uninterp spec fn channel_counts(sender: broadcast::Sender<RawFrame>) -> Seq<nat>;

/// What a channel answered each time it was asked how many frames are still to be seen, in order.
pub uninterp spec fn channel_lengths(sender: broadcast::Sender<RawFrame>) -> Seq<nat>;

/// How many frames a channel retains for receivers that have not seen them.
pub uninterp spec fn channel_room(sender: broadcast::Sender<RawFrame>) -> nat;

/// The frames that a channel had taken before this receiver came: it gets those after them.
pub uninterp spec fn sent_before(receiver: broadcast::Receiver<RawFrame>) -> Seq<RawFrameView>;

/// `tokio::sync::broadcast::channel`: a channel that nothing was sent on. It retains as many frames
/// as is asked for, rounded up to a power of two, which both capacities that are asked for are.
#[verifier::external_body]
fn open_channel(capacity: usize) -> (sender: broadcast::Sender<RawFrame>)
    requires
        capacity == RAW_BUS_CAPACITY || capacity == RAW_ALL_CAPACITY,
    ensures
        channel_sent(sender) == Seq::<RawFrameView>::empty(),
        channel_offered(sender) == Seq::<RawFrameView>::empty(),
        channel_counts(sender) == Seq::<nat>::empty(),
        channel_lengths(sender) == Seq::<nat>::empty(),
        channel_room(sender) == capacity,
{
    broadcast::channel(capacity).0
}

/// `tokio::sync::broadcast::Sender::receiver_count`. Receivers come and go elsewhere, so nothing is
/// claimed of the number but that it is the answer. Asking changes nothing else.
#[verifier::external_body]
fn channel_receivers(sender: &mut broadcast::Sender<RawFrame>) -> (receivers: usize)
    ensures
        channel_counts(*final(sender)) == channel_counts(*old(sender)).push(receivers as nat),
        channel_lengths(*final(sender)) == channel_lengths(*old(sender)),
        channel_sent(*final(sender)) == channel_sent(*old(sender)),
        channel_offered(*final(sender)) == channel_offered(*old(sender)),
        channel_room(*final(sender)) == channel_room(*old(sender)),
        channel_id(*final(sender)) == channel_id(*old(sender)),
{
    sender.receiver_count()
}

/// `tokio::sync::broadcast::Sender::len`: how many frames some receiver has still to see. That is
/// for the receivers to say; it is never more than were sent, nor than the channel retains. Asking
/// changes nothing else.
#[verifier::external_body]
fn channel_queued(sender: &mut broadcast::Sender<RawFrame>) -> (queued: usize)
    ensures
        queued <= channel_sent(*old(sender)).len(),
        queued <= channel_room(*old(sender)),
        channel_lengths(*final(sender)) == channel_lengths(*old(sender)).push(queued as nat),
        channel_counts(*final(sender)) == channel_counts(*old(sender)),
        channel_sent(*final(sender)) == channel_sent(*old(sender)),
        channel_offered(*final(sender)) == channel_offered(*old(sender)),
        channel_room(*final(sender)) == channel_room(*old(sender)),
        channel_id(*final(sender)) == channel_id(*old(sender)),
{
    sender.len()
}

/// `tokio::sync::broadcast::Sender::send`: the channel takes the frame, unless it has no receiver.
/// It answers whether it did. A full channel gives its oldest frame up. Either way the frame was
/// handed to it, and it stays the same channel with the same room.
#[verifier::external_body]
fn channel_send(sender: &mut broadcast::Sender<RawFrame>, frame: RawFrame) -> (taken: bool)
    ensures
        channel_sent(*final(sender)) == if taken {
            channel_sent(*old(sender)).push(frame@)
        } else {
            channel_sent(*old(sender))
        },
        channel_offered(*final(sender)) == channel_offered(*old(sender)).push(frame@),
        channel_counts(*final(sender)) == channel_counts(*old(sender)),
        channel_lengths(*final(sender)) == channel_lengths(*old(sender)),
        channel_room(*final(sender)) == channel_room(*old(sender)),
        channel_id(*final(sender)) == channel_id(*old(sender)),
{
    sender.send(frame).is_ok()
}

/// `tokio::sync::broadcast::Sender::subscribe`: a receiver on the sender's own channel, for what is
/// sent from now on. It gives up only where there are more receivers than memory could hold.
#[verifier::external_body]
fn channel_subscribe(sender: &broadcast::Sender<RawFrame>) -> (receiver: broadcast::Receiver<
    RawFrame,
>)
    ensures
        sent_before(receiver) == channel_sent(*sender),
        heard_channel(receiver) == channel_id(*sender),
{
    sender.subscribe()
}

/// A bounded channel, and how often it was full when something was sent.
pub(crate) struct RawBus {
    sender: broadcast::Sender<RawFrame>,
    overflow: u64,
}

/// Which channel it is, what was handed to it and what it has taken, what it answered on its
/// receivers and on what they have still to see, how many frames it retains, and how often it was
/// full.
#[verifier::ext_equal]
pub struct BusView {
    pub channel: int,
    pub offered: Seq<RawFrameView>,
    pub sent: Seq<RawFrameView>,
    pub counts: Seq<nat>,
    pub lengths: Seq<nat>,
    pub room: nat,
    pub overflow: u64,
}

/// How a channel stood when a frame was sent on it: how many frames were still to be seen, and
/// whether there was a receiver.
pub struct Delivery {
    pub queued: nat,
    pub taken: bool,
}

impl BusView {
    /// A channel that nothing was sent on.
    pub open spec fn fresh(channel: int, room: nat) -> BusView {
        BusView {
            channel,
            offered: Seq::empty(),
            sent: Seq::empty(),
            counts: Seq::empty(),
            lengths: Seq::empty(),
            room,
            overflow: 0,
        }
    }

    /// The channel once it was asked how many receivers it has.
    pub open spec fn counted(self, receivers: nat) -> BusView {
        BusView { counts: self.counts.push(receivers), ..self }
    }

    /// The channel once it was asked how many frames are still to be seen, and a frame was handed to
    /// it. Where it was full, that is counted.
    pub open spec fn published(self, frame: RawFrameView, delivery: Delivery) -> BusView {
        BusView {
            channel: self.channel,
            offered: self.offered.push(frame),
            counts: self.counts,
            lengths: self.lengths.push(delivery.queued),
            room: self.room,
            sent: if delivery.taken {
                self.sent.push(frame)
            } else {
                self.sent
            },
            overflow: if delivery.queued >= self.room {
                self.overflow.wrapping_add(1)
            } else {
                self.overflow
            },
        }
    }

    /// Whether the channel can have stood like this: it cannot hold more than was sent, nor more
    /// than it has room for.
    pub open spec fn allows(self, delivery: Delivery) -> bool {
        delivery.queued <= self.sent.len() && delivery.queued <= self.room
    }
}

impl View for RawBus {
    type V = BusView;

    closed spec fn view(&self) -> BusView {
        BusView {
            channel: channel_id(self.sender),
            offered: channel_offered(self.sender),
            sent: channel_sent(self.sender),
            counts: channel_counts(self.sender),
            lengths: channel_lengths(self.sender),
            room: channel_room(self.sender),
            overflow: self.overflow,
        }
    }
}

/// Whether some channel stands like this.
pub open spec fn stands(bus: BusView) -> bool {
    exists|sender: broadcast::Sender<RawFrame>|
        #![trigger channel_counts(sender)]
        {
            &&& channel_id(sender) == bus.channel
            &&& channel_offered(sender) == bus.offered
            &&& channel_sent(sender) == bus.sent
            &&& channel_counts(sender) == bus.counts
            &&& channel_lengths(sender) == bus.lengths
            &&& channel_room(sender) == bus.room
        }
}

/// The overflow count after a frame is sent while `queued` frames are still to be seen.
pub fn overflow_after(overflow: u64, queued: usize, room: usize) -> (count: u64)
    ensures
        count == if queued >= room {
            overflow.wrapping_add(1)
        } else {
            overflow
        },
{
    if queued >= room {
        overflow.wrapping_add(1)
    } else {
        overflow
    }
}

impl RawBus {
    fn new(capacity: usize) -> (bus: RawBus)
        requires
            capacity == RAW_BUS_CAPACITY || capacity == RAW_ALL_CAPACITY,
        ensures
            bus@ == BusView::fresh(bus@.channel, capacity as nat),
    {
        RawBus { sender: open_channel(capacity), overflow: 0 }
    }

    fn publish(&mut self, frame: RawFrame, room: usize) -> (delivery: Ghost<Delivery>)
        requires
            old(self)@.room == room,
        ensures
            old(self)@.allows(delivery@),
            final(self)@ == old(self)@.published(frame@, delivery@),
    {
        let queued = channel_queued(&mut self.sender);
        self.overflow = overflow_after(self.overflow, queued, room);
        let taken = channel_send(&mut self.sender, frame);
        Ghost(Delivery { queued: queued as nat, taken })
    }
}

/// The channels of the observed URLs, and the one for all URLs once someone asked for it.
///
/// They stand apart from the clients, so that a client that replaces another cannot detach an
/// observer.
pub struct RawBuses {
    buses: Table<RawBus>,
    all: Option<RawBus>,
}

/// What [`RawBuses`] holds.
#[verifier::ext_equal]
pub struct RawView {
    pub buses: Map<Seq<char>, BusView>,
    pub all: Option<BusView>,
}

impl RawView {
    /// Nothing is observed.
    pub open spec fn empty() -> RawView {
        RawView { buses: Map::empty(), all: None }
    }

    /// The channels keep their sizes, and there are no more of them than there may be.
    pub open spec fn within_bounds(self) -> bool {
        &&& self.buses.dom().finite()
        &&& self.buses.dom().len() <= MAX_RAW_URLS
        &&& forall|url: Seq<char>| #[trigger]
            self.buses.dom().contains(url) ==> self.buses[url].room == RAW_BUS_CAPACITY
        &&& self.all is Some ==> self.all->0.room == RAW_ALL_CAPACITY
    }

    /// Only these URLs keep their channels.
    pub open spec fn retained(self, observed: Set<Seq<char>>) -> RawView {
        RawView { buses: self.buses.restrict(observed), ..self }
    }

    /// The channel of each URL was asked how many receivers it has.
    pub open spec fn counted(self, counts: Map<Seq<char>, nat>) -> RawView {
        RawView {
            buses: Map::new(
                |url: Seq<char>| self.buses.dom().contains(url),
                |url: Seq<char>| self.buses[url].counted(counts[url]),
            ),
            ..self
        }
    }

    /// The channel of each URL was asked how many receivers it has, and only those that have some
    /// are kept.
    pub open spec fn reclaimed(self, counts: Map<Seq<char>, nat>) -> RawView {
        RawView {
            buses: Map::new(
                |url: Seq<char>| self.buses.dom().contains(url) && counts[url] != 0,
                |url: Seq<char>| self.buses[url].counted(counts[url]),
            ),
            ..self
        }
    }

    /// The channels that are not kept then: those that answered that they have no receiver.
    pub open spec fn swept(self, counts: Map<Seq<char>, nat>) -> Map<Seq<char>, BusView> {
        Map::new(
            |url: Seq<char>| self.buses.dom().contains(url) && counts[url] == 0,
            |url: Seq<char>| self.buses[url].counted(0),
        )
    }

    /// Every URL that has a channel still has it after that, but for those whose channel, when it
    /// was asked, answered that it has no receiver.
    pub open spec fn loses_unobserved(self, after: RawView) -> bool {
        forall|url: Seq<char>| #[trigger]
            self.buses.dom().contains(url) ==> {
                ||| after.buses.dom().contains(url) && after.buses[url].channel
                    == self.buses[url].channel
                ||| stands(self.buses[url].counted(0))
            }
    }

    /// A frame was handed to the channel of its URL, and to the one for all URLs, as far as there
    /// are any. No URL gets a channel by that.
    pub open spec fn published(
        self,
        frame: RawFrameView,
        at_url: Delivery,
        at_all: Delivery,
    ) -> RawView {
        RawView {
            buses: if self.buses.dom().contains(frame.url) {
                self.buses.insert(frame.url, self.buses[frame.url].published(frame, at_url))
            } else {
                self.buses
            },
            all: match self.all {
                Some(bus) => Some(bus.published(frame, at_all)),
                None => None,
            },
        }
    }

    /// Whether the channels can have stood like this when a frame for `url` was sent.
    pub open spec fn allows(self, url: Seq<char>, at_url: Delivery, at_all: Delivery) -> bool {
        &&& self.buses.dom().contains(url) ==> self.buses[url].allows(at_url)
        &&& self.all is Some ==> self.all->0.allows(at_all)
    }

    /// `url` has a channel, where it had none this new one.
    pub open spec fn with_url(self, url: Seq<char>, channel: int) -> RawView {
        if self.buses.dom().contains(url) {
            self
        } else {
            RawView {
                buses: self.buses.insert(url, BusView::fresh(channel, RAW_BUS_CAPACITY as nat)),
                ..self
            }
        }
    }

    /// There is a channel for all URLs, where there was none this new one.
    pub open spec fn with_all(self, channel: int) -> RawView {
        match self.all {
            Some(_) => self,
            None => RawView {
                all: Some(BusView::fresh(channel, RAW_ALL_CAPACITY as nat)),
                ..self
            },
        }
    }

    /// Whether one more URL than those that are left can be observed.
    pub open spec fn has_place_for(self, url: Seq<char>) -> bool {
        self.buses.dom().contains(url) || self.buses.dom().len() < MAX_RAW_URLS
    }

    /// What is counted for all URLs; nothing before someone observes them all.
    pub open spec fn all_overflow(self) -> u64 {
        match self.all {
            Some(bus) => bus.overflow,
            None => 0,
        }
    }

    /// What is counted for `url`; nothing where it has no channel.
    pub open spec fn overflow_of(self, url: Seq<char>) -> u64 {
        if self.buses.dom().contains(url) {
            self.buses[url].overflow
        } else {
            0
        }
    }
}

impl View for RawBuses {
    type V = RawView;

    closed spec fn view(&self) -> RawView {
        RawView {
            buses: self.buses@,
            all: match self.all {
                Some(bus) => Some(bus@),
                None => None,
            },
        }
    }
}

/// The URLs among `order` whose channel has a receiver.
pub open spec fn observed_urls(order: Seq<Seq<char>>, receivers: Seq<usize>) -> Set<Seq<char>> {
    Set::new(
        |url: Seq<char>|
            exists|i: int|
                0 <= i < order.len() && #[trigger] order[i] == url && receivers[i] != 0,
    )
}

/// What the channels of the URLs among `order` answered.
pub open spec fn readings(order: Seq<Seq<char>>, receivers: Seq<usize>) -> Map<Seq<char>, nat> {
    Map::new(
        |url: Seq<char>| order.contains(url),
        |url: Seq<char>| receivers[order.index_of(url)] as nat,
    )
}

/// The channels that were taken out after they had been asked are those that answered that they have
/// no receiver.
proof fn lemma_swept(raw: RawView, counts: Map<Seq<char>, nat>, swept: Table<RawBus>)
    requires
        swept@ == raw.swept(counts),
    ensures
        raw.loses_unobserved(raw.reclaimed(counts)),
{
    assert forall|url: Seq<char>| #[trigger] raw.buses.dom().contains(url) && counts[url]
        == 0 implies stands(raw.buses[url].counted(0)) by {
        assert(swept@.dom().contains(url));
        lemma_value_is_held(swept, url);
        let bus = choose|bus: RawBus| #[trigger] bus@ == swept@[url];
        assert(channel_counts(bus.sender) == raw.buses[url].counted(0).counts);
    }
}

impl RawBuses {
    #[verifier::type_invariant]
    spec fn inv(self) -> bool {
        self@.within_bounds()
    }

    /// The URLs that have a channel, in some order.
    pub closed spec fn order(self) -> Seq<Seq<char>> {
        self.buses.order()
    }

    /// Nothing is observed.
    pub fn new() -> (raw: RawBuses)
        ensures
            raw@ == RawView::empty(),
    {
        let buses: Table<RawBus> = Table::new();
        assert(buses@.dom() =~= Set::empty());
        RawBuses { buses, all: None }
    }

    /// Whether a URL has a channel.
    pub fn has_url(&self, url: &str) -> (found: bool)
        ensures
            found == self@.buses.dom().contains(url@),
    {
        self.buses.contains_key(url)
    }

    /// How many URLs have a channel.
    pub fn len(&self) -> (len: usize)
        ensures
            len == self@.buses.dom().len(),
            len == self.order().len(),
            self.order().to_set() == self@.buses.dom(),
            self@.within_bounds(),
    {
        proof {
            use_type_invariant(self);
        }
        self.buses.len()
    }

    /// Drops the channel of every URL without receivers, given how many each has.
    pub fn retain_observed(&mut self, receivers: &Vec<usize>)
        requires
            receivers@.len() == old(self).order().len(),
        ensures
            final(self)@ == old(self)@.retained(observed_urls(old(self).order(), receivers@)),
    {
        self.split(receivers);
    }

    /// Takes the channel of every URL without receivers out, given how many each has.
    fn split(&mut self, receivers: &Vec<usize>) -> (swept: Table<RawBus>)
        requires
            receivers@.len() == old(self).order().len(),
        ensures
            final(self)@ == old(self)@.retained(observed_urls(old(self).order(), receivers@)),
            swept@ == old(self)@.buses.remove_keys(observed_urls(old(self).order(), receivers@)),
    {
        proof {
            use_type_invariant(&*self);
        }
        let ghost before = self@.buses;
        let ghost order = self.buses.order();
        let ghost observed = observed_urls(order, receivers@);
        let mut taken = RawBuses::new();
        core::mem::swap(self, &mut taken);
        let RawBuses { mut buses, all } = taken;
        let len = buses.len();
        let mut kept: Table<RawBus> = Table::new();
        let mut swept: Table<RawBus> = Table::new();
        let mut i: usize = 0;
        while i < len
            invariant
                i <= len,
                len == order.len(),
                len == receivers@.len(),
                order.no_duplicates(),
                order.to_set() == before.dom(),
                buses.order() == order.skip(i as int),
                forall|j: int|
                    i <= j < len ==> buses@.dom().contains(#[trigger] order[j]) && buses@[order[j]]
                        == before[order[j]],
                forall|j: int|
                    0 <= j < i ==> {
                        let url = #[trigger] order[j];
                        &&& kept@.dom().contains(url) == (receivers@[j] != 0)
                        &&& swept@.dom().contains(url) == (receivers@[j] == 0)
                        &&& receivers@[j] != 0 ==> kept@[url] == before[url]
                        &&& receivers@[j] == 0 ==> swept@[url] == before[url]
                    },
                forall|url: Seq<char>|
                    #![trigger kept@.dom().contains(url)]
                    #![trigger swept@.dom().contains(url)]
                    kept@.dom().contains(url) || swept@.dom().contains(url) ==> order.contains(url),
                forall|j: int|
                    i <= j < len ==> !kept@.dom().contains(#[trigger] order[j])
                        && !swept@.dom().contains(order[j]),
            decreases len - i,
        {
            assert(order.skip(i as int)[0] == order[i as int]);
            assert(order.skip(i as int).drop_first() =~= order.skip(i + 1));
            if let Some((url, bus)) = buses.take_first() {
                if receivers[i] == 0 {
                    swept.insert(url.as_str(), bus);
                } else {
                    kept.insert(url.as_str(), bus);
                }
            }
            i = i + 1;
        }
        proof {
            assert forall|j: int| 0 <= j < len implies observed.contains(#[trigger] order[j]) == (
            receivers@[j] != 0) by {}
            assert forall|url: Seq<char>| #[trigger] before.dom().contains(url) implies {
                &&& kept@.dom().contains(url) == observed.contains(url)
                &&& swept@.dom().contains(url) == !observed.contains(url)
                &&& observed.contains(url) ==> kept@[url] == before[url]
                &&& !observed.contains(url) ==> swept@[url] == before[url]
            } by {
                let j = choose|j: int| 0 <= j < len && order[j] == url;
                assert(order[j] == url);
            }
            assert forall|url: Seq<char>| order.contains(url) implies before.dom().contains(url) by {
                assert(order.to_set().contains(url));
            }
            assert(kept@ =~= before.restrict(observed));
            assert(swept@ =~= before.remove_keys(observed));
            assert(kept@.dom().subset_of(before.dom()));
            vstd::set_lib::lemma_len_subset(kept@.dom(), before.dom());
        }
        *self = RawBuses { buses: kept, all };
        swept
    }
}

impl RawBuses {
    /// How many receivers the channel of each URL has. They come and go elsewhere, so nothing is
    /// claimed of the numbers but that the channels answered them.
    fn receivers(&mut self) -> (receivers: Vec<usize>)
        ensures
            receivers@.len() == old(self).order().len(),
            final(self).order() == old(self).order(),
            final(self)@ == old(self)@.counted(readings(old(self).order(), receivers@)),
    {
        proof {
            use_type_invariant(&*self);
        }
        let ghost before = self@.buses;
        let ghost order = self.buses.order();
        let mut taken = RawBuses::new();
        core::mem::swap(self, &mut taken);
        let RawBuses { mut buses, all } = taken;
        let len = buses.len();
        let mut counted: Table<RawBus> = Table::new();
        let mut receivers: Vec<usize> = Vec::new();
        let mut i: usize = 0;
        while i < len
            invariant
                i <= len,
                len == order.len(),
                len == before.dom().len(),
                receivers@.len() == i,
                order.no_duplicates(),
                order.to_set() == before.dom(),
                buses.order() == order.skip(i as int),
                counted.order() == order.take(i as int),
                forall|j: int|
                    i <= j < len ==> buses@.dom().contains(#[trigger] order[j]) && buses@[order[j]]
                        == before[order[j]] && !counted@.dom().contains(order[j]),
                forall|j: int|
                    0 <= j < i ==> counted@.dom().contains(#[trigger] order[j])
                        && counted@[order[j]] == before[order[j]].counted(receivers@[j] as nat),
                forall|url: Seq<char>| #[trigger]
                    counted@.dom().contains(url) ==> order.contains(url),
            decreases len - i,
        {
            assert(order.skip(i as int)[0] == order[i as int]);
            assert(order.skip(i as int).drop_first() =~= order.skip(i + 1));
            assert(order.take(i as int).push(order[i as int]) =~= order.take(i + 1));
            if let Some((url, bus)) = buses.take_first() {
                let mut bus = bus;
                receivers.push(channel_receivers(&mut bus.sender));
                counted.insert(url.as_str(), bus);
            }
            i = i + 1;
        }
        proof {
            assert(order.take(i as int) =~= order);
            let counts = readings(order, receivers@);
            assert forall|url: Seq<char>| #[trigger] before.dom().contains(url) implies {
                &&& counted@.dom().contains(url)
                &&& counted@[url] == before[url].counted(counts[url])
            } by {
                assert(order.to_set().contains(url));
                let j = order.index_of(url);
                assert(order[j] == url);
                assert(counts.dom().contains(url));
            }
            assert forall|url: Seq<char>| order.contains(url) implies before.dom().contains(url) by {
                assert(order.to_set().contains(url));
            }
            assert(counted@ =~= old(self)@.counted(counts).buses);
            assert(counted@.dom() =~= before.dom());
        }
        *self = RawBuses { buses: counted, all };
        receivers
    }

    /// Drops the channel of every URL that nobody observes any more: of every one that answers that
    /// it has no receiver. Gives the answers, and what was dropped.
    fn reclaim(&mut self) -> (reclaimed: (Ghost<Map<Seq<char>, nat>>, Table<RawBus>))
        ensures
            final(self)@ == old(self)@.reclaimed(reclaimed.0@),
            reclaimed.1@ == old(self)@.swept(reclaimed.0@),
            old(self)@.loses_unobserved(final(self)@),
            final(self)@.within_bounds(),
    {
        let len = self.buses.len();
        let receivers = self.receivers();
        let ghost order = old(self).buses.order();
        let ghost counts = readings(order, receivers@);
        let ghost observed = observed_urls(order, receivers@);
        let swept = self.split(&receivers);
        proof {
            use_type_invariant(&*self);
            let before = old(self)@.buses;
            assert forall|url: Seq<char>| #[trigger] before.dom().contains(url) implies (
            counts[url] != 0) == observed.contains(url) by {
                assert(order.to_set().contains(url));
                let j = order.index_of(url);
                assert(order[j] == url);
                assert(counts.dom().contains(url));
            }
            assert(self@.buses =~= old(self)@.reclaimed(counts).buses);
            assert(swept@ =~= old(self)@.swept(counts));
            lemma_swept(old(self)@, counts, swept);
        }
        (Ghost(counts), swept)
    }

    /// Gives `url` a channel where it has none, and a receiver on it.
    fn attach(&mut self, url: &str) -> (receiver: broadcast::Receiver<RawFrame>)
        requires
            old(self)@.has_place_for(url@),
        ensures
            final(self)@ == old(self)@.with_url(url@, heard_channel(receiver)),
            heard_channel(receiver) == final(self)@.buses[url@].channel,
            sent_before(receiver) == final(self)@.buses[url@].sent,
    {
        proof {
            use_type_invariant(&*self);
        }
        let mut taken = RawBuses::new();
        core::mem::swap(self, &mut taken);
        let RawBuses { mut buses, all } = taken;
        let ghost before = buses@;
        let bus = match buses.remove(url) {
            Some(bus) => bus,
            None => RawBus::new(RAW_BUS_CAPACITY),
        };
        let receiver = channel_subscribe(&bus.sender);
        buses.insert(url, bus);
        proof {
            if before.dom().contains(url@) {
                assert(buses@ =~= before);
            } else {
                assert(buses@ =~= before.insert(
                    url@,
                    BusView::fresh(heard_channel(receiver), RAW_BUS_CAPACITY as nat),
                ));
            }
        }
        *self = RawBuses { buses, all };
        receiver
    }

    /// Opens the channel for all URLs where it is not open, and gives a receiver on it.
    fn attach_all(&mut self) -> (receiver: broadcast::Receiver<RawFrame>)
        ensures
            final(self)@ == old(self)@.with_all(heard_channel(receiver)),
            heard_channel(receiver) == final(self)@.all->0.channel,
            sent_before(receiver) == final(self)@.all->0.sent,
    {
        proof {
            use_type_invariant(&*self);
        }
        let mut taken = RawBuses::new();
        core::mem::swap(self, &mut taken);
        let RawBuses { buses, all } = taken;
        let bus = match all {
            Some(bus) => bus,
            None => RawBus::new(RAW_ALL_CAPACITY),
        };
        let receiver = channel_subscribe(&bus.sender);
        *self = RawBuses { buses, all: Some(bus) };
        receiver
    }

    /// Sends a frame to those who observe its URL, and to those who observe all.
    fn send(&mut self, frame: RawFrame) -> (deliveries: Ghost<(Delivery, Delivery)>)
        ensures
            old(self)@.allows(frame@.url, deliveries@.0, deliveries@.1),
            final(self)@ == old(self)@.published(frame@, deliveries@.0, deliveries@.1),
    {
        proof {
            use_type_invariant(&*self);
        }
        let mut taken = RawBuses::new();
        core::mem::swap(self, &mut taken);
        let RawBuses { mut buses, all } = taken;
        let ghost before = buses@;
        let ghost mut at_url = Delivery { queued: 0, taken: false };
        let ghost mut at_all = Delivery { queued: 0, taken: false };
        let url = frame.url.clone();
        match buses.remove(url.as_str()) {
            Some(bus) => {
                let mut bus = bus;
                let delivery = bus.publish(frame.clone(), RAW_BUS_CAPACITY);
                proof {
                    at_url = delivery@;
                }
                buses.insert(url.as_str(), bus);
                assert(buses@ =~= before.insert(
                    frame@.url,
                    before[frame@.url].published(frame@, at_url),
                ));
                assert(buses@.dom() =~= before.dom());
            },
            None => {
                assert(buses@ =~= before);
            },
        }
        match all {
            Some(bus) => {
                let mut bus = bus;
                let delivery = bus.publish(frame, RAW_ALL_CAPACITY);
                proof {
                    at_all = delivery@;
                }
                *self = RawBuses { buses, all: Some(bus) };
            },
            None => {
                *self = RawBuses { buses, all: None };
            },
        }
        Ghost((at_url, at_all))
    }

    /// Sends a frame to its observers. URLs that nobody observes any more lose their channels
    /// first, and a frame for a URL without a channel gives it none.
    pub fn publish(&mut self, frame: RawFrame)
        ensures
            raw_published(old(self)@, frame@, final(self)@),
            old(self)@.loses_unobserved(final(self)@),
    {
        let (counts, _) = self.reclaim();
        let deliveries = self.send(frame);
        proof {
            assert(published_by(
                old(self)@,
                frame@,
                final(self)@,
                counts@,
                deliveries@.0,
                deliveries@.1,
            ));
        }
    }
}

/// Whether `after` can come of sending `frame`: the URLs whose channels answer that they have
/// receivers keep them, and the frame goes to them.
pub open spec fn raw_published(before: RawView, frame: RawFrameView, after: RawView) -> bool {
    exists|counts: Map<Seq<char>, nat>, at_url: Delivery, at_all: Delivery|
        published_by(before, frame, after, counts, at_url, at_all)
}

/// Whether `after` comes of sending `frame` while the channels answered and stood like this.
pub open spec fn published_by(
    before: RawView,
    frame: RawFrameView,
    after: RawView,
    counts: Map<Seq<char>, nat>,
    at_url: Delivery,
    at_all: Delivery,
) -> bool {
    &&& before.reclaimed(counts).allows(frame.url, at_url, at_all)
    &&& after == before.reclaimed(counts).published(frame, at_url, at_all)
}

/// Drops the channel of every URL that nobody observes any more. Observers keep theirs.
pub fn reclaim_raw_buses(raw: &mut RawBuses)
    ensures
        exists|counts: Map<Seq<char>, nat>| final(raw)@ == #[trigger] old(raw)@.reclaimed(counts),
        old(raw)@.loses_unobserved(final(raw)@),
{
    let (counts, _) = raw.reclaim();
    assert(raw@ == old(raw)@.reclaimed(counts@));
}

/// What asking for a receiver on `url` answers, and what it leaves, while the channels answer that
/// they have so many receivers.
pub open spec fn raw_attached(
    before: RawView,
    url: Seq<char>,
    counts: Map<Seq<char>, nat>,
    answer: Result<broadcast::Receiver<RawFrame>, String>,
    after: RawView,
) -> bool {
    let left = before.reclaimed(counts);
    if left.has_place_for(url) {
        &&& answer is Ok
        &&& after == left.with_url(url, heard_channel(answer->Ok_0))
        &&& heard_channel(answer->Ok_0) == after.buses[url].channel
        &&& sent_before(answer->Ok_0) == after.buses[url].sent
    } else {
        &&& answer is Err
        &&& answer->Err_0@ == "[NetworkError] raw observer URL registry is full"@
        &&& after == left
    }
}

/// A receiver on the channel of `url`, which is opened where there is none.
pub fn raw_bus(raw: &mut RawBuses, url: &str) -> (answer: Result<
    broadcast::Receiver<RawFrame>,
    String,
>)
    ensures
        if encode_utf8(url@).len() > MAX_URL_BYTES {
            &&& answer is Err
            &&& answer->Err_0@ == "[NetworkError] raw observer URL exceeds limit"@
            &&& final(raw)@ == old(raw)@
        } else {
            exists|counts: Map<Seq<char>, nat>|
                raw_attached(old(raw)@, url@, counts, answer, final(raw)@)
        },
        old(raw)@.loses_unobserved(final(raw)@),
{
    if url.as_bytes().len() > MAX_URL_BYTES {
        return Err("[NetworkError] raw observer URL exceeds limit".to_owned());
    }
    let (counts, _) = raw.reclaim();
    if !raw.has_url(url) && raw.len() >= MAX_RAW_URLS {
        let answer = Err("[NetworkError] raw observer URL registry is full".to_owned());
        assert(raw_attached(old(raw)@, url@, counts@, answer, raw@));
        return answer;
    }
    let answer = Ok(raw.attach(url));
    assert(raw_attached(old(raw)@, url@, counts@, answer, raw@));
    answer
}

/// Attaches an observer to `url`.
///
/// The channel is that of the URL and outlives single clients: an observer that comes before the
/// first connection misses nothing, and a reconnect does not detach it.
pub fn subscribe_raw(raw: &mut RawBuses, url: &str) -> (answer: Result<
    broadcast::Receiver<RawFrame>,
    String,
>)
    ensures
        if encode_utf8(url@).len() > MAX_URL_BYTES {
            &&& answer is Err
            &&& answer->Err_0@ == "[NetworkError] raw observer URL exceeds limit"@
            &&& final(raw)@ == old(raw)@
        } else {
            exists|counts: Map<Seq<char>, nat>|
                raw_attached(old(raw)@, url@, counts, answer, final(raw)@)
        },
        old(raw)@.loses_unobserved(final(raw)@),
{
    raw_bus(raw, url)
}

/// How often the channel of `url` was full when a frame was sent on it. A receiver that lags hears
/// of it from the channel as well.
pub fn raw_overflow_count(raw: &RawBuses, url: &str) -> (count: u64)
    ensures
        count == raw@.overflow_of(url@),
{
    match raw.buses.get(url) {
        Some(bus) => bus.overflow,
        None => 0,
    }
}

/// Attaches an observer to every URL. Frames say which URL and generation they are of, so that an
/// observer can tell those that it wants.
pub fn subscribe_raw_all(raw: &mut RawBuses) -> (receiver: broadcast::Receiver<RawFrame>)
    ensures
        final(raw)@ == old(raw)@.with_all(heard_channel(receiver)),
        heard_channel(receiver) == final(raw)@.all->0.channel,
        sent_before(receiver) == final(raw)@.all->0.sent,
{
    raw.attach_all()
}

/// How often the channel for all URLs was full when a frame was sent on it.
pub fn raw_all_overflow_count(raw: &RawBuses) -> (count: u64)
    ensures
        count == raw@.all_overflow(),
{
    match &raw.all {
        Some(bus) => bus.overflow,
        None => 0,
    }
}

/// Traffic alone gives no URL a channel, and loses none that answers that it is observed.
pub proof fn law_traffic_creates_no_channel(
    before: RawView,
    frame: RawFrameView,
    after: RawView,
    counts: Map<Seq<char>, nat>,
    at_url: Delivery,
    at_all: Delivery,
    url: Seq<char>,
)
    requires
        published_by(before, frame, after, counts, at_url, at_all),
    ensures
        after.buses.dom().contains(url) == (before.buses.dom().contains(url) && counts[url] != 0),
        (after.all is Some) == (before.all is Some),
{
}

/// A frame that is given up is counted: the count goes up exactly where the channel was full, and
/// it cannot have been full before it had taken as many frames as it has room for.
pub proof fn law_overflow_is_counted(bus: BusView, frame: RawFrameView, delivery: Delivery)
    requires
        bus.allows(delivery),
    ensures
        bus.sent.len() < bus.room ==> bus.published(frame, delivery).overflow == bus.overflow,
        delivery.queued == bus.room ==> bus.published(frame, delivery).overflow
            == bus.overflow.wrapping_add(1),
        delivery.queued < bus.room ==> bus.published(frame, delivery).overflow == bus.overflow,
{
}

/// Whatever is observed and whatever is sent, no more URLs have a channel than may, and every
/// channel keeps its size.
pub proof fn law_channels_stay_within_bounds(
    raw: RawView,
    observed: Set<Seq<char>>,
    counts: Map<Seq<char>, nat>,
    url: Seq<char>,
    channel: int,
    frame: RawFrameView,
    at_url: Delivery,
    at_all: Delivery,
)
    requires
        raw.within_bounds(),
    ensures
        raw.retained(observed).within_bounds(),
        raw.reclaimed(counts).within_bounds(),
        raw.has_place_for(url) ==> raw.with_url(url, channel).within_bounds(),
        raw.with_all(channel).within_bounds(),
        raw.published(frame, at_url, at_all).within_bounds(),
{
    let left = raw.retained(observed);
    assert(left.buses.dom().subset_of(raw.buses.dom()));
    vstd::set_lib::lemma_len_subset(left.buses.dom(), raw.buses.dom());
    let kept = raw.reclaimed(counts);
    assert(kept.buses.dom().subset_of(raw.buses.dom()));
    vstd::set_lib::lemma_len_subset(kept.buses.dom(), raw.buses.dom());
    if raw.buses.dom().contains(frame.url) {
        assert(raw.published(frame, at_url, at_all).buses.dom() =~= raw.buses.dom());
    }
}

/// Every frame that is published is handed once to the channel of its URL, where that is kept, and
/// once to the channel for all URLs, where there is one; no other channel gets it.
pub proof fn law_frame_is_handed_to_its_observers(
    before: RawView,
    frame: RawFrameView,
    after: RawView,
    counts: Map<Seq<char>, nat>,
    at_url: Delivery,
    at_all: Delivery,
    url: Seq<char>,
)
    requires
        published_by(before, frame, after, counts, at_url, at_all),
        after.buses.dom().contains(url),
    ensures
        url == frame.url ==> after.buses[url].offered == before.buses[url].offered.push(frame),
        url != frame.url ==> after.buses[url] == before.buses[url].counted(counts[url]),
        after.buses[url].channel == before.buses[url].channel,
        before.all is Some ==> after.all->0.offered == before.all->0.offered.push(frame),
        before.all is Some ==> after.all->0.channel == before.all->0.channel,
{
}

/// A reclaim keeps exactly the channels that answer that they have a receiver. A channel that is
/// kept is the same channel, with the frames that it took and what was counted; a URL that loses its
/// channel has nothing counted.
pub proof fn law_reclaim_is_exact(raw: RawView, counts: Map<Seq<char>, nat>, url: Seq<char>)
    ensures
        ({
            let left = raw.reclaimed(counts);
            &&& left.buses.dom().contains(url) == (raw.buses.dom().contains(url) && counts[url] > 0)
            &&& left.buses.dom().contains(url) ==> {
                &&& left.buses[url].counts == raw.buses[url].counts.push(counts[url])
                &&& left.buses[url].counts.last() > 0
                &&& left.buses[url].channel == raw.buses[url].channel
                &&& left.buses[url].offered == raw.buses[url].offered
                &&& left.buses[url].sent == raw.buses[url].sent
                &&& left.buses[url].room == raw.buses[url].room
                &&& left.overflow_of(url) == raw.overflow_of(url)
            }
            &&& !left.buses.dom().contains(url) ==> left.overflow_of(url) == 0
            &&& left.all == raw.all
        }),
{
}

/// Reclaiming again while the same observers are there changes nothing: every URL that has a
/// channel keeps it, with all that it holds, and nothing is dropped.
pub proof fn law_reclaiming_again_changes_nothing(
    raw: RawView,
    counts: Map<Seq<char>, nat>,
    again: Map<Seq<char>, nat>,
)
    requires
        forall|url: Seq<char>| #[trigger]
            raw.reclaimed(counts).buses.dom().contains(url) ==> again[url] > 0,
    ensures
        raw.reclaimed(counts).reclaimed(again) == raw.reclaimed(counts).counted(again),
        raw.reclaimed(counts).reclaimed(again).buses.dom() == raw.reclaimed(counts).buses.dom(),
        raw.reclaimed(counts).swept(again) == Map::<Seq<char>, BusView>::empty(),
{
    let left = raw.reclaimed(counts);
    assert(left.reclaimed(again).buses =~= left.counted(again).buses);
    assert(left.reclaimed(again).buses.dom() =~= left.buses.dom());
    assert(left.swept(again) =~= Map::empty());
}

impl BusView {
    /// The channel once `frames` were sent on it, while a receiver that came before them all reads
    /// none: so many are still to be seen as were sent, up to its room.
    pub open spec fn unread(self, frames: Seq<RawFrameView>) -> BusView
        decreases frames.len(),
    {
        if frames.len() == 0 {
            self
        } else {
            self.unread(frames.drop_last()).published(
                frames.last(),
                unread_delivery((frames.len() - 1) as nat, self.room),
            )
        }
    }
}

/// Of frames that nobody reads, as many are counted as the channel has no room for.
pub proof fn law_unread_frames_overflow(bus: BusView, frames: Seq<RawFrameView>)
    requires
        bus.overflow + frames.len() <= u64::MAX,
    ensures
        bus.unread(frames).overflow == bus.overflow + if frames.len() > bus.room {
            frames.len() - bus.room
        } else {
            0
        },
        bus.unread(frames).sent == bus.sent + frames,
        bus.unread(frames).offered == bus.offered + frames,
        bus.unread(frames).room == bus.room,
    decreases frames.len(),
{
    if frames.len() == 0 {
        assert(bus.sent + frames =~= bus.sent);
        assert(bus.offered + frames =~= bus.offered);
    } else {
        let fewer = frames.drop_last();
        law_unread_frames_overflow(bus, fewer);
        assert((bus.sent + fewer).push(frames.last()) =~= bus.sent + frames);
        assert((bus.offered + fewer).push(frames.last()) =~= bus.offered + frames);
    }
}

/// How a channel with this room stands when the frame after `earlier` others is sent, while an
/// observer that came before them all is there and reads none.
pub open spec fn unread_delivery(earlier: nat, room: nat) -> Delivery {
    Delivery {
        queued: if earlier < room {
            earlier
        } else {
            room
        },
        taken: true,
    }
}

/// Whether `after` can come of sending `frame` after `earlier` others of which nobody has read what
/// goes to all URLs.
pub open spec fn published_after(
    before: RawView,
    frame: RawFrameView,
    after: RawView,
    earlier: nat,
) -> bool {
    exists|counts: Map<Seq<char>, nat>, at_url: Delivery, at_all: Delivery|
        at_all == unread_delivery(earlier, RAW_ALL_CAPACITY as nat) && published_by(
            before,
            frame,
            after,
            counts,
            at_url,
            at_all,
        )
}

/// Whether `states` are what publishing `frames` one after the other goes through, at whatever URLs,
/// while nobody reads what goes to all of them.
pub open spec fn published_unread(states: Seq<RawView>, frames: Seq<RawFrameView>) -> bool {
    &&& states.len() == frames.len() + 1
    &&& forall|k: int|
        0 <= k < frames.len() ==> published_after(
            states[k],
            #[trigger] frames[k],
            states[k + 1],
            k as nat,
        )
}

/// The count for all URLs, over all the frames that are published from when its first observer comes
/// and while that one reads none: nothing while there is room for them, and one for each beyond. The
/// observer's channel was handed every one of them.
pub proof fn law_unread_frames_overflow_for_all(
    raw: RawView,
    channel: int,
    states: Seq<RawView>,
    frames: Seq<RawFrameView>,
)
    requires
        raw.all is None,
        published_unread(states, frames),
        states[0] == raw.with_all(channel),
        frames.len() <= u64::MAX,
    ensures
        states[frames.len() as int].all_overflow() == if frames.len() > RAW_ALL_CAPACITY {
            frames.len() - RAW_ALL_CAPACITY
        } else {
            0
        },
        states[frames.len() as int].all == Some(
            BusView::fresh(channel, RAW_ALL_CAPACITY as nat).unread(frames),
        ),
{
    let fresh = BusView::fresh(channel, RAW_ALL_CAPACITY as nat);
    lemma_unread_at_all(fresh, states, frames, frames.len());
    assert(frames.take(frames.len() as int) =~= frames);
    law_unread_frames_overflow(fresh, frames);
}

proof fn lemma_unread_at_all(
    bus: BusView,
    states: Seq<RawView>,
    frames: Seq<RawFrameView>,
    k: nat,
)
    requires
        published_unread(states, frames),
        states[0].all == Some(bus),
        bus.room == RAW_ALL_CAPACITY,
        k <= frames.len(),
    ensures
        states[k as int].all == Some(bus.unread(frames.take(k as int))),
    decreases k,
{
    if k > 0 {
        let earlier = (k - 1) as nat;
        lemma_unread_at_all(bus, states, frames, earlier);
        let sent = frames.take(k as int);
        assert(sent.drop_last() =~= frames.take(earlier as int));
        assert(sent.last() == frames[earlier as int]);
        assert(published_after(
            states[earlier as int],
            frames[earlier as int],
            states[k as int],
            earlier,
        ));
    }
}

/// While nobody observes all URLs nothing is counted for them, whatever is published or reclaimed.
pub proof fn law_nothing_is_counted_without_an_observer_of_all(
    raw: RawView,
    counts: Map<Seq<char>, nat>,
    frame: RawFrameView,
    at_url: Delivery,
    at_all: Delivery,
    url: Seq<char>,
    channel: int,
)
    requires
        raw.all is None,
    ensures
        RawView::empty().all is None,
        raw.all_overflow() == 0,
        raw.reclaimed(counts).all is None,
        raw.with_url(url, channel).all is None,
        raw.published(frame, at_url, at_all).all is None,
{
}

/// No count goes down, short of wrapping round, while its channel is kept.
pub proof fn law_overflow_never_decreases(
    before: RawView,
    frame: RawFrameView,
    after: RawView,
    counts: Map<Seq<char>, nat>,
    at_url: Delivery,
    at_all: Delivery,
    url: Seq<char>,
)
    requires
        published_by(before, frame, after, counts, at_url, at_all),
    ensures
        before.all_overflow() < u64::MAX ==> after.all_overflow() >= before.all_overflow(),
        after.buses.dom().contains(url) && before.overflow_of(url) < u64::MAX
            ==> after.overflow_of(url) >= before.overflow_of(url),
{
}

/// What is counted is what the channel answered: a frame that is published is counted exactly where
/// the channel then answered that it is full.
pub proof fn law_count_follows_the_answer(bus: BusView, frame: RawFrameView, delivery: Delivery)
    ensures
        ({
            let after = bus.published(frame, delivery);
            &&& after.lengths == bus.lengths.push(delivery.queued)
            &&& after.overflow == if after.lengths.last() >= bus.room {
                bus.overflow.wrapping_add(1)
            } else {
                bus.overflow
            }
        }),
{
}

} // verus!
