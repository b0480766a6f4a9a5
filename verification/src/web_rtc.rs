//! Signalling frames and the WebRTC-facing interface contracts.

use vstd::prelude::*;

use crate::config::{NodeInfo, NodeInfoV};
use crate::types::U256;

verus! {

/// The role a node plays in one WebRTC handshake: the `Initializer`
/// creates the offer, the `Follower` answers it.
#[derive(PartialEq, Eq, Structural, Debug, Clone, Copy)]
pub enum WebRTCConnectionState {
    Initializer,
    Follower,
}

/// One step of the peer-to-peer handshake, carried inside a
/// [`PeerInfo`] envelope.  `Init` is a local trigger only and must
/// never be emitted on the wire.
#[derive(Debug, Clone, PartialEq)]
pub enum PeerMessage {
    Init,
    Offer(Vec<u8>),
    Answer(Vec<u8>),
    IceInit(Vec<u8>),
    IceFollow(Vec<u8>),
    Done,
}

/// Mathematical model of a [`PeerMessage`].
#[verifier::ext_equal]
pub enum PeerMessageV {
    Init,
    Offer(Seq<u8>),
    Answer(Seq<u8>),
    IceInit(Seq<u8>),
    IceFollow(Seq<u8>),
    Done,
}

impl View for PeerMessage {
    type V = PeerMessageV;

    open spec fn view(&self) -> PeerMessageV {
        match self {
            PeerMessage::Init => PeerMessageV::Init,
            PeerMessage::Offer(s) => PeerMessageV::Offer(s@),
            PeerMessage::Answer(s) => PeerMessageV::Answer(s@),
            PeerMessage::IceInit(s) => PeerMessageV::IceInit(s@),
            PeerMessage::IceFollow(s) => PeerMessageV::IceFollow(s@),
            PeerMessage::Done => PeerMessageV::Done,
        }
    }
}

/// The envelope for every handshake step between two nodes: the pair
/// (`id_init`, `id_follow`) names the handshake, `message` is the step.
#[derive(Debug, Clone, PartialEq)]
pub struct PeerInfo {
    pub id_init: U256,
    pub id_follow: U256,
    pub message: PeerMessage,
}

/// Mathematical model of a [`PeerInfo`].
#[verifier::ext_equal]
pub struct PeerInfoV {
    pub id_init: Seq<u8>,
    pub id_follow: Seq<u8>,
    pub message: PeerMessageV,
}

impl View for PeerInfo {
    type V = PeerInfoV;

    open spec fn view(&self) -> PeerInfoV {
        PeerInfoV { id_init: self.id_init@, id_follow: self.id_follow@, message: self.message@ }
    }
}

/// Which of the two endpoints named by a [`PeerInfo`] is the remote
/// one, seen from `local`: the other id if `local` is one of the pair,
/// nothing if the frame does not concern `local` at all.
pub open spec fn spec_remote_of(pi: PeerInfoV, local: Seq<u8>) -> Option<Seq<u8>> {
    if pi.id_init == local {
        Some(pi.id_follow)
    } else if pi.id_follow == local {
        Some(pi.id_init)
    } else {
        None
    }
}

impl PeerInfo {
    /// A fresh envelope for the handshake `init` starts towards
    /// `follow`, with the local `Init` trigger as its first message.
    pub fn new(init: &U256, follow: &U256) -> (r: PeerInfo)
        ensures
            r@ == (PeerInfoV { id_init: init@, id_follow: follow@, message: PeerMessageV::Init }),
    {
        PeerInfo { id_init: *init, id_follow: *follow, message: PeerMessage::Init }
    }

    /// The remote end of this handshake as seen from `local`, or
    /// `None` when the envelope names two other nodes.
    pub fn get_remote(&self, local: &U256) -> (r: Option<U256>)
        ensures
            match r {
                Some(id) => spec_remote_of(self@, local@) == Some(id@),
                None => spec_remote_of(self@, local@) is None,
            },
    {
        if self.id_init == *local {
            return Some(self.id_follow);
        }
        if self.id_follow == *local {
            return Some(self.id_init);
        }
        None
    }
}

/// For an envelope whose two ids differ, the remote of either named id
/// is the other named id, and any id outside the pair has no remote.
pub proof fn lemma_remote_of(pi: PeerInfoV, x: Seq<u8>)
    requires
        pi.id_init != pi.id_follow,
    ensures
        x == pi.id_init || x == pi.id_follow ==> {
            &&& spec_remote_of(pi, x) is Some
            &&& (spec_remote_of(pi, x) == Some(pi.id_init) || spec_remote_of(pi, x) == Some(
                pi.id_follow,
            ))
            &&& spec_remote_of(pi, x) != Some(x)
        },
        x != pi.id_init && x != pi.id_follow ==> spec_remote_of(pi, x) is None,
{
}

/// A message between a node and the signalling server.  A new
/// connection is greeted with a `Challenge`; the node announces itself
/// by echoing the challenge; `ListIDs*` fetch the roster; `ClearNodes`
/// empties the server's roster while debugging; `PeerSetup` carries
/// one handshake step and is relayed by the server; `Done` is a no-op
/// acknowledgement.
#[derive(Debug, Clone, PartialEq)]
pub enum WSSignalMessage {
    Challenge(U256),
    Announce(MessageAnnounce),
    ListIDsRequest,
    ListIDsReply(Vec<NodeInfo>),
    ClearNodes,
    PeerSetup(PeerInfo),
    Done,
}

/// A node's reply to a `Challenge`: the challenge echoed back together
/// with the node's identity.
#[derive(Debug, Clone, PartialEq)]
pub struct MessageAnnounce {
    pub challenge: U256,
    pub node_info: NodeInfo,
}

/// Mathematical model of a [`MessageAnnounce`].
#[verifier::ext_equal]
pub struct MessageAnnounceV {
    pub challenge: Seq<u8>,
    pub node_info: NodeInfoV,
}

impl View for MessageAnnounce {
    type V = MessageAnnounceV;

    open spec fn view(&self) -> MessageAnnounceV {
        MessageAnnounceV { challenge: self.challenge@, node_info: self.node_info@ }
    }
}

/// Mathematical model of a [`WSSignalMessage`].
#[verifier::ext_equal]
pub enum WSSignalMessageV {
    Challenge(Seq<u8>),
    Announce(MessageAnnounceV),
    ListIDsRequest,
    ListIDsReply(Seq<NodeInfoV>),
    ClearNodes,
    PeerSetup(PeerInfoV),
    Done,
}

impl View for WSSignalMessage {
    type V = WSSignalMessageV;

    open spec fn view(&self) -> WSSignalMessageV {
        match self {
            WSSignalMessage::Challenge(c) => WSSignalMessageV::Challenge(c@),
            WSSignalMessage::Announce(a) => WSSignalMessageV::Announce(a@),
            WSSignalMessage::ListIDsRequest => WSSignalMessageV::ListIDsRequest,
            WSSignalMessage::ListIDsReply(l) => WSSignalMessageV::ListIDsReply(
                l@.map_values(|ni: NodeInfo| ni@),
            ),
            WSSignalMessage::ClearNodes => WSSignalMessageV::ClearNodes,
            WSSignalMessage::PeerSetup(pi) => WSSignalMessageV::PeerSetup(pi@),
            WSSignalMessage::Done => WSSignalMessageV::Done,
        }
    }
}

/// One frame of the WebSocket wire protocol: a signalling message in
/// its envelope.
#[derive(Debug, Clone, PartialEq)]
pub struct WebSocketMessage {
    pub msg: WSSignalMessage,
}

impl View for WebSocketMessage {
    type V = WSSignalMessageV;

    open spec fn view(&self) -> WSSignalMessageV {
        self.msg@
    }
}

/// One side of a WebRTC connection in the making.  The host implements
/// this against its WebRTC stack; every call may suspend there.
pub trait WebRTCConnectionSetup {
    /// The data-channel type the finished setup yields.
    type Channel: WebRTCConnection;

    /// Produces the offer to send to the `Follower` node.
    fn make_offer(&mut self) -> Result<Vec<u8>, String>;

    /// Takes the remote offer and produces the answer for it.
    fn make_answer(&mut self, offer: Vec<u8>) -> Result<Vec<u8>, String>;

    /// Installs the remote answer, completing the SDP exchange.
    fn use_answer(&mut self, answer: Vec<u8>) -> Result<(), String>;

    /// Waits until ICE gathering has left its initial state.
    fn wait_gathering(&mut self) -> Result<(), String>;

    /// Waits for an own ICE candidate to become available.
    fn ice_string(&mut self) -> Result<Vec<u8>, String>;

    /// Hands a remote ICE candidate to the WebRTC stack.
    fn ice_put(&mut self, ice: Vec<u8>) -> Result<(), String>;

    /// Returns the data channel once the setup has completed.
    fn get_connection(&mut self) -> Result<Self::Channel, String>;
}

/// A live WebRTC data channel.
pub trait WebRTCConnection {
    /// Queues a message towards the remote node.
    fn send(&self, s: Vec<u8>) -> Result<(), String>;
}

} // verus!
