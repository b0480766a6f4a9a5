//! The REST flavour of the rendez-vous exchange: the request and
//! reply shapes, and a thin client over a host-provided caller.

use vstd::prelude::*;

use crate::codec::{decode_id, decode_roster, encode_registration, wf_node_info};
use crate::config::NodeInfo;
use crate::errors::SignalError;
use crate::types::U256;

verus! {

/// How a REST request is made.
#[derive(Debug, Clone, Copy, PartialEq, Eq, Structural)]
pub enum RestMethod {
    Get,
    Post,
    Delete,
}

/// A host-provided HTTP caller.
pub trait RestCaller {
    /// Performs one call against the rendez-vous server.
    fn call(&mut self, method: RestMethod, path: &str, body: Option<Vec<u8>>) -> Result<
        Vec<u8>,
        String,
    >;
}

/// Registers a node under a list id.
#[derive(Debug, Clone, PartialEq)]
pub struct PostWebRTC {
    pub list_id: U256,
    pub node: NodeInfo,
}

/// A fresh list id handed out by the server.
#[derive(Debug, Clone, PartialEq)]
pub struct GetListID {
    pub new_id: U256,
}

/// The roster of registered nodes.
#[derive(Debug, Clone, PartialEq)]
pub struct GetWebRTC {
    pub list: Vec<NodeInfo>,
}

/// Asks to connect to a node.
#[derive(Debug, Clone, PartialEq)]
pub struct PostConnectNode {
    pub node: U256,
}

/// Fetches a node to connect to.
#[derive(Debug, Clone, PartialEq)]
pub struct GetConnectNode {
    pub node: U256,
}

/// The nodes available to connect to.
#[derive(Debug, Clone, PartialEq)]
pub struct GetConnectNodeReply {
    pub nodes: Vec<U256>,
}

/// One handshake artefact posted towards a peer.
#[derive(Debug, Clone, PartialEq)]
pub struct PostPeerSend {
    pub to: U256,
    pub offer: Option<Vec<u8>>,
    pub candidate: Option<Vec<u8>>,
    pub answer: Option<Vec<u8>>,
}

/// One handshake artefact fetched from a peer.
#[derive(Debug, Clone, PartialEq)]
pub struct PostPeerReceive {
    pub from: U256,
    pub offer: Option<Vec<u8>>,
    pub candidate: Option<Vec<u8>>,
    pub answer: Option<Vec<u8>>,
}

/// A thin client around a [`RestCaller`].  The caller decides what
/// comes back over the wire; what this client computes around each
/// call — the bytes it posts and how it reads a reply — is verified:
/// requests are built by [`encode_registration`] and replies are read
/// by [`decode_id`] and [`decode_roster`], each with an exact
/// contract.
pub struct RestClient<R: RestCaller> {
    pub rest: R,
}

impl<R: RestCaller> RestClient<R> {
    /// Wraps a caller.
    pub fn new(rest: R) -> (r: RestClient<R>) {
        RestClient { rest }
    }

    /// Asks the server to drop every registered node.
    pub fn clear_nodes(&mut self) -> (r: Result<(), SignalError>) {
        match self.rest.call(RestMethod::Delete, "clearNodes", None) {
            Ok(_) => Ok(()),
            Err(_) => Err(SignalError::Transport),
        }
    }

    /// Asks the server for a fresh list id.  The reply bytes are read
    /// by [`decode_id`]: whatever the caller returned, the result is
    /// the id those bytes hold, or a decode failure.
    pub fn new_id(&mut self) -> (r: Result<U256, SignalError>) {
        let reply = match self.rest.call(RestMethod::Get, "newID", None) {
            Ok(reply) => reply,
            Err(_) => {
                return Err(SignalError::Transport);
            },
        };
        match decode_id(&reply) {
            Ok(id) => Ok(id),
            Err(_) => Err(SignalError::DecodeFailed),
        }
    }

    /// Registers a node under a list id.  The posted bytes are built
    /// by [`encode_registration`].
    pub fn add_id(&mut self, id: U256, ni: &NodeInfo) -> (r: Result<(), SignalError>)
        requires
            wf_node_info(ni@),
    {
        let body = encode_registration(&id, ni);
        match self.rest.call(RestMethod::Post, "addNode", Some(body)) {
            Ok(_) => Ok(()),
            Err(_) => Err(SignalError::Transport),
        }
    }

    /// Fetches the roster of registered nodes.  The reply bytes are
    /// read by [`decode_roster`]: whatever the caller returned, the
    /// result is the roster those bytes hold, or a decode failure.
    pub fn list_ids(&mut self) -> (r: Result<Vec<NodeInfo>, SignalError>) {
        let reply = match self.rest.call(RestMethod::Get, "listIDs", None) {
            Ok(reply) => reply,
            Err(_) => {
                return Err(SignalError::Transport);
            },
        };
        match decode_roster(&reply) {
            Ok(list) => Ok(list),
            Err(_) => Err(SignalError::DecodeFailed),
        }
    }
}

} // verus!
