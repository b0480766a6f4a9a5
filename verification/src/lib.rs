//! Signalling and peer-connection orchestration for a small peer-to-peer
//! overlay.
//!
//! Nodes register with a rendez-vous server over a WebSocket, learn the
//! roster of other nodes, and negotiate direct WebRTC data channels with
//! each other through relayed signalling frames.  This crate holds the
//! verified core of that protocol: the wire codec, the per-peer handshake
//! state machine, the per-peer connection container with its message
//! queue, the client-side dispatcher and the server-side router.  All
//! I/O (sockets, the WebRTC stack, storage) stays outside, behind the
//! narrow interfaces of `ext_interface` and `websocket`; the cores here
//! consume plain events and return the actions the host must perform.

#![verifier::loop_isolation(false)]

pub mod codec;
pub mod config;
pub mod errors;
pub mod ext_interface;
pub mod handshake;
pub mod network;
pub mod node;
pub mod rest;
pub mod server;
pub mod types;
pub mod web_rtc;
pub mod websocket;
