//! The host-facing interface contracts for storage, logging and a
//! call-style WebRTC binding.  The cores depend on nothing but these
//! signatures; the host implements them outside.

use vstd::prelude::*;

verus! {

/// A small key/value store, used only for the node's identity
/// configuration.
pub trait DataStorage {
    /// Loads the value stored under `key`.
    fn load(&self, key: &str) -> Result<Vec<u8>, String>;

    /// Stores `value` under `key`.
    fn save(&mut self, key: &str, value: &[u8]) -> Result<(), String>;
}

/// A plain message logger.
pub trait Logger {
    fn info(&self, s: &str);

    fn warn(&self, s: &str);

    fn error(&self, s: &str);
}

/// The operations of a call-style WebRTC binding.
#[derive(Debug, Clone, Copy, PartialEq, Eq, Structural)]
pub enum WebRTCMethod {
    MakeOffer,
    MakeAnswer,
    UseAnswer,
    WaitGathering,
    IceString,
    IcePut,
    MsgReceive,
    MsgSend,
    PrintStates,
}

/// A WebRTC connection behind one generic call entry.
pub trait WebRTCConnection {
    /// Performs one operation, with an optional argument, and yields
    /// the operation's optional result.
    fn call(&mut self, call: WebRTCMethod, input: Option<Vec<u8>>) -> Result<
        Option<Vec<u8>>,
        String,
    >;
}

/// The role a node plays in one WebRTC handshake.
#[derive(Debug, Clone, Copy, PartialEq, Eq, Structural)]
pub enum WebRTCConnectionState {
    Initializer,
    Follower,
}

} // verus!
