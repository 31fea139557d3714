//! Frames on their way to the socket.

use vstd::prelude::*;
use vstd::utf8::encode_utf8;

use crate::bounds::{bytes_have_room, bytes_room, string_has_room, text_room};
use crate::bounds::{OUTGOING_BYTES, OUTGOING_CAPACITY};
use crate::ledger::{lemma_total_front, lemma_total_push, total_charge, Ledger};

verus! {

/// A frame to send.
pub enum Message {
    Text(String),
    Binary(Vec<u8>),
    Ping(Vec<u8>),
    Pong(Vec<u8>),
}

/// What a frame to send holds.
pub enum Frame {
    Text(Seq<char>),
    Binary(Seq<u8>),
    Ping(Seq<u8>),
    Pong(Seq<u8>),
}

impl Frame {
    /// The length of the payload in bytes.
    pub open spec fn len(self) -> nat {
        match self {
            Frame::Text(text) => encode_utf8(text).len(),
            Frame::Binary(bytes) => bytes.len(),
            Frame::Ping(bytes) => bytes.len(),
            Frame::Pong(bytes) => bytes.len(),
        }
    }
}

impl View for Message {
    type V = Frame;

    open spec fn view(&self) -> Frame {
        match self {
            Message::Text(text) => Frame::Text(text@),
            Message::Binary(bytes) => Frame::Binary(bytes@),
            Message::Ping(bytes) => Frame::Ping(bytes@),
            Message::Pong(bytes) => Frame::Pong(bytes@),
        }
    }
}

impl Message {
    /// Whether this many bytes are what the allocation of this very frame reports.
    pub open spec fn has_room(self, room: nat) -> bool {
        match self {
            Message::Text(text) => string_has_room(text, room),
            Message::Binary(bytes) => bytes_have_room(bytes, room),
            Message::Ping(bytes) => bytes_have_room(bytes, room),
            Message::Pong(bytes) => bytes_have_room(bytes, room),
        }
    }

    /// The length of the payload in bytes.
    pub fn len(&self) -> (len: usize)
        ensures
            len == self@.len(),
    {
        match self {
            Message::Text(text) => text.as_str().as_bytes().len(),
            Message::Binary(bytes) => bytes.len(),
            Message::Ping(bytes) => bytes.len(),
            Message::Pong(bytes) => bytes.len(),
        }
    }

    /// The bytes that the frame retains: the room of its allocation, at least its length. A short
    /// payload can come with a very large reservation.
    pub fn retained(&self) -> (bytes: usize)
        ensures
            bytes >= self@.len(),
            self.has_room(bytes as nat),
    {
        match self {
            Message::Text(text) => text_room(text),
            Message::Binary(bytes) => bytes_room(bytes),
            Message::Ping(bytes) => bytes_room(bytes),
            Message::Pong(bytes) => bytes_room(bytes),
        }
    }
}

/// Why a frame is not queued.
#[derive(PartialEq, Eq, Structural)]
pub enum Refusal {
    /// The byte budget does not cover it.
    Budget,
    /// As many frames wait as may.
    Full,
}

/// The frames that wait for the writer, and the budget that they share with the frame being
/// written.
pub struct OutgoingQueue {
    waiting: Ledger<Message>,
    in_flight: usize,
}

/// The waiting frames with what each is charged, and what the frame being written is charged.
#[verifier::ext_equal]
pub struct OutgoingView {
    pub waiting: Seq<(Frame, nat)>,
    pub in_flight: nat,
}

impl OutgoingView {
    /// A queue that nothing waits in.
    pub open spec fn idle() -> OutgoingView {
        OutgoingView { waiting: Seq::empty(), in_flight: 0 }
    }

    /// What is left of the byte budget.
    pub open spec fn available(self) -> int {
        OUTGOING_BYTES - total_charge(self.waiting) - self.in_flight
    }

    /// Whether the queue keeps both bounds.
    pub open spec fn within_bounds(self) -> bool {
        self.waiting.len() <= OUTGOING_CAPACITY && self.available() >= 0
    }

    /// What a frame that retains `retained` bytes is charged: at least one byte.
    pub open spec fn charge(retained: nat) -> nat {
        if retained == 0 {
            1
        } else {
            retained
        }
    }

    /// Why a frame that retains `retained` bytes is refused, if it is.
    pub open spec fn refusal(self, retained: nat) -> Option<Refusal> {
        if Self::charge(retained) > self.available() {
            Some(Refusal::Budget)
        } else if self.waiting.len() >= OUTGOING_CAPACITY {
            Some(Refusal::Full)
        } else {
            None
        }
    }

    /// The queue with one more frame.
    pub open spec fn queued(self, frame: Frame, retained: nat) -> OutgoingView {
        OutgoingView { waiting: self.waiting.push((frame, Self::charge(retained))), ..self }
    }

    /// The queue once the writer has moved on to the next frame, if there is one.
    pub open spec fn advanced(self) -> OutgoingView {
        if self.waiting.len() == 0 {
            OutgoingView { in_flight: 0, ..self }
        } else {
            OutgoingView { waiting: self.waiting.drop_first(), in_flight: self.waiting[0].1 }
        }
    }

    /// The queue without its waiting frames.
    pub open spec fn dropped(self) -> OutgoingView {
        OutgoingView { waiting: Seq::empty(), ..self }
    }

    /// The queue once the writer has let go of its frame.
    pub open spec fn released(self) -> OutgoingView {
        OutgoingView { in_flight: 0, ..self }
    }
}

impl View for OutgoingQueue {
    type V = OutgoingView;

    closed spec fn view(&self) -> OutgoingView {
        OutgoingView { waiting: self.waiting@, in_flight: self.in_flight as nat }
    }
}

impl OutgoingQueue {
    #[verifier::type_invariant]
    spec fn inv(self) -> bool {
        self@.within_bounds()
    }

    /// A queue that nothing waits in.
    pub fn new() -> (queue: OutgoingQueue)
        ensures
            queue@ == OutgoingView::idle(),
    {
        OutgoingQueue { waiting: Ledger::new(), in_flight: 0 }
    }

    /// What is left of the byte budget.
    pub fn available(&self) -> (bytes: usize)
        ensures
            bytes == self@.available(),
            self@.within_bounds(),
    {
        proof {
            use_type_invariant(self);
        }
        OUTGOING_BYTES - self.waiting.bytes() - self.in_flight
    }

    /// How many frames wait.
    pub fn len(&self) -> (len: usize)
        ensures
            len == self@.waiting.len(),
    {
        self.waiting.len()
    }

    /// Queues a frame that retains `retained` bytes, if both bounds leave room for it.
    pub fn push(&mut self, message: Message, retained: usize) -> (refused: Option<Refusal>)
        ensures
            refused == old(self)@.refusal(retained as nat),
            final(self)@ == match refused {
                Some(_) => old(self)@,
                None => old(self)@.queued(message@, retained as nat),
            },
            final(self)@.within_bounds(),
    {
        proof {
            use_type_invariant(&*self);
        }
        let charge = if retained == 0 {
            1
        } else {
            retained
        };
        if charge > self.available() {
            return Some(Refusal::Budget);
        }
        if self.waiting.len() >= OUTGOING_CAPACITY {
            return Some(Refusal::Full);
        }
        let mut taken = OutgoingQueue::new();
        core::mem::swap(self, &mut taken);
        let OutgoingQueue { mut waiting, in_flight } = taken;
        proof {
            lemma_total_push(waiting@, message@, charge as nat);
        }
        waiting.push(message, charge);
        *self = OutgoingQueue { waiting, in_flight };
        None
    }

    /// The next frame to write. The frame that was being written is done with.
    pub fn next(&mut self) -> (message: Option<Message>)
        ensures
            match message {
                Some(message) => old(self)@.waiting.len() > 0 && old(self)@.waiting[0].0
                    == message@,
                None => old(self)@.waiting.len() == 0,
            },
            final(self)@ == old(self)@.advanced(),
            final(self)@.within_bounds(),
    {
        proof {
            use_type_invariant(&*self);
        }
        let mut taken = OutgoingQueue::new();
        core::mem::swap(self, &mut taken);
        let OutgoingQueue { mut waiting, in_flight: _ } = taken;
        proof {
            if waiting@.len() > 0 {
                lemma_total_front(waiting@);
            }
        }
        match waiting.pop() {
            Some((message, charge)) => {
                *self = OutgoingQueue { waiting, in_flight: charge };
                Some(message)
            },
            None => {
                *self = OutgoingQueue { waiting, in_flight: 0 };
                None
            },
        }
    }

    /// Drops the waiting frames.
    pub fn clear(&mut self)
        ensures
            final(self)@ == old(self)@.dropped(),
            final(self)@.within_bounds(),
    {
        proof {
            use_type_invariant(&*self);
        }
        *self = OutgoingQueue { waiting: Ledger::new(), in_flight: self.in_flight };
    }

    /// The writer has let go of its frame.
    pub fn release(&mut self)
        ensures
            final(self)@ == old(self)@.released(),
            final(self)@.within_bounds(),
    {
        proof {
            use_type_invariant(&*self);
        }
        self.in_flight = 0;
    }
}

/// Every frame that is accepted is written once the frames before it are, in the order in which
/// they were accepted.
pub proof fn law_frames_leave_in_order(queue: OutgoingView, frame: Frame, retained: nat)
    ensures
        queue.waiting.len() == 0 ==> queue.queued(frame, retained).waiting[0].0 == frame,
        queue.waiting.len() > 0 ==> queue.queued(frame, retained).advanced()
            == queue.advanced().queued(frame, retained),
{
    if queue.waiting.len() > 0 {
        assert(queue.queued(frame, retained).waiting.drop_first() =~= queue.waiting.drop_first().push(
            (frame, OutgoingView::charge(retained)),
        ));
    }
}

/// A frame is charged from when it is accepted until the writer is done with it: the whole budget
/// is back once nothing waits and nothing is being written.
pub proof fn law_budget_comes_back(queue: OutgoingView)
    ensures
        queue.dropped().released().available() == OUTGOING_BYTES,
        queue.waiting.len() > 0 ==> queue.advanced().available() == queue.available()
            + queue.in_flight,
{
    if queue.waiting.len() > 0 {
        lemma_total_front(queue.waiting);
    }
}

} // verus!
