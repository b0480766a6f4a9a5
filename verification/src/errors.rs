//! The error kinds the cores surface.  The cores never panic on
//! remote-originated input.  The WebSocket dispatchers decode
//! themselves and silently drop a malformed frame (the connection
//! stays up), as spec'd for the signalling path; a handshake envelope
//! naming two other nodes is alien and dropped without creating any
//! state.  Where the library is itself the caller — the REST client,
//! the identity store — failures come back as one of these.

use vstd::prelude::*;

verus! {

/// Why a core refused an input or could not make progress.
#[derive(Debug, Clone, Copy, PartialEq, Eq, Structural)]
pub enum SignalError {
    /// A reply that does not decode to the expected shape.
    DecodeFailed,
    /// A handshake frame the protocol does not allow here: the slot
    /// stays as it was and nothing is emitted back.
    ProtocolViolation,
    /// The underlying transport refused a call or a send.
    Transport,
    /// A frame addressed to a destination this server does not know.
    NoRoute,
    /// The identity store failed to load or save, or holds data that
    /// is not an identity.
    Storage,
}

} // verus!
