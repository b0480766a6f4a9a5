//! The WebSocket-facing interface contracts.  The host implements
//! these against its transport; the cores only consume the events and
//! hand back frames to send.

use vstd::prelude::*;

verus! {

/// What a WebSocket reports to its owner.
#[derive(Debug, Clone)]
pub enum WSMessage {
    /// A text frame arrived, as raw bytes.
    MessageString(Vec<u8>),
    /// The socket closed, with a reason.
    Closed(Vec<u8>),
    /// The socket finished opening.
    Opened(Vec<u8>),
    /// The transport failed; treated as closed, with a description.
    Error(Vec<u8>),
}

/// Mathematical model of a [`WSMessage`].
#[verifier::ext_equal]
pub enum WSMessageV {
    MessageString(Seq<u8>),
    Closed(Seq<u8>),
    Opened(Seq<u8>),
    Error(Seq<u8>),
}

impl View for WSMessage {
    type V = WSMessageV;

    open spec fn view(&self) -> WSMessageV {
        match self {
            WSMessage::MessageString(s) => WSMessageV::MessageString(s@),
            WSMessage::Closed(s) => WSMessageV::Closed(s@),
            WSMessage::Opened(s) => WSMessageV::Opened(s@),
            WSMessage::Error(s) => WSMessageV::Error(s@),
        }
    }
}

/// A client-side WebSocket connection, as the cores see it.
pub trait WebSocketConnection {
    /// Queues one text frame towards the server.
    fn send(&mut self, msg: Vec<u8>) -> Result<(), String>;
}

/// A WebSocket connection usable across threads.
pub trait WebSocketConnectionSend: Send {
    /// Queues one text frame towards the remote end.
    fn send(&mut self, msg: Vec<u8>) -> Result<(), String>;
}

} // verus!
