//! What happens around a client, and what it asks for in turn.

use vstd::prelude::*;

use crate::lifecycle::SocketError;
use crate::value::Value;

verus! {

/// What comes next on the inbound side of a client.
pub enum NextMessage {
    /// The client failed, with this text.
    Failed(String),
    /// The next message.
    Message(Value),
    /// The client is closed and its backlog is drained.
    Ended,
    /// Nothing has arrived yet.
    Wait,
}

/// How to reach the peer.
pub enum Dial {
    /// There is a connection already.
    Ready,
    /// Straight to the URL.
    Direct,
    /// Through this proxy.
    Proxy(String),
}

/// How an attempt to connect ended.
pub enum Dialed {
    /// The client was closed meanwhile.
    Closing,
    /// It took too long.
    DeadlineExceeded,
    /// It failed, with this text.
    Failed(String),
    /// The socket is open.
    Opened,
}

/// What the socket brings.
pub enum Inbound {
    /// A text message. Its payload is looked at before it is believed.
    Text(Vec<u8>),
    /// A binary message.
    Binary(Vec<u8>),
    /// A ping, which asks for a pong with the same payload.
    Ping(Vec<u8>),
    /// A pong.
    Pong,
    /// The peer closes.
    Close,
    /// A frame of no interest.
    Other,
    /// The socket failed, with this text.
    Failed(SocketError, String),
    /// The stream is at its end.
    End,
}

} // verus!
