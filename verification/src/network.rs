//! The node-side networking core.
//!
//! A [`Network`] owns the node's view of the overlay: one
//! [`NodeConnection`](node_connection::NodeConnection) per remote
//! peer, the last received roster, and the node's own identity.  It
//! consumes WebSocket events and handshake completions, and returns
//! the actions its host must perform: frames for the signalling
//! server, calls into the WebRTC stack, payloads for live channels,
//! and received payloads for the application.

pub mod node_connection;

use vstd::prelude::*;

use crate::codec::{
    decode, lemma_codec_unique_wire_form, spec_decode, wf_blob, wf_msg, wf_node_info, wf_peer_msg,
};
use crate::config::{NodeInfo, NodeInfoV};
use crate::handshake::{HandshakeEvent, HandshakeEventV, PeerHandshakeV, StepResult, StepResultV};
use crate::types::U256;
use crate::web_rtc::{
    spec_remote_of, MessageAnnounce, MessageAnnounceV, PeerInfo, PeerInfoV, PeerMessage,
    PeerMessageV, WSSignalMessage, WSSignalMessageV,
};
use crate::websocket::{WSMessage, WSMessageV};
use crate::handshake::ice_replay;
use crate::web_rtc::WebRTCConnectionState;
use node_connection::{
    fresh_handshake, has_live, spec_process_incoming, spec_process_outgoing, spec_slot_step,
    wf_conn, ChannelDirection, NodeConnection, NodeConnectionV, SendOutcome,
};

verus! {

/// One remote peer and the connection state towards it.
#[derive(Debug)]
pub struct ConnEntry {
    /// The remote node's public id.
    pub remote: U256,
    /// The connection state towards it.
    pub conn: NodeConnection,
}

/// Mathematical model of a [`ConnEntry`].
#[verifier::ext_equal]
pub struct ConnEntryV {
    pub remote: Seq<u8>,
    pub conn: NodeConnectionV,
}

impl View for ConnEntry {
    type V = ConnEntryV;

    open spec fn view(&self) -> ConnEntryV {
        ConnEntryV { remote: self.remote@, conn: self.conn@ }
    }
}

/// What the node core asks its host to do.
#[derive(Debug, PartialEq)]
pub enum NetAction {
    /// Send this frame to the signalling server.
    WsSend(WSSignalMessage),
    /// Perform this WebRTC setup call for the handshake of this
    /// remote peer and direction, and feed the completion back
    /// through [`Network::setup_event`].
    Setup(U256, ChannelDirection, StepResult),
    /// Write this payload to the live channel of this remote peer
    /// and direction.
    ChannelSend(U256, ChannelDirection, Vec<u8>),
    /// Hand this payload, received from this remote peer, to the
    /// application.
    Deliver(U256, Vec<u8>),
}

/// Mathematical model of a [`NetAction`].
#[verifier::ext_equal]
pub enum NetActionV {
    WsSend(WSSignalMessageV),
    Setup(Seq<u8>, ChannelDirection, StepResultV),
    ChannelSend(Seq<u8>, ChannelDirection, Seq<u8>),
    Deliver(Seq<u8>, Seq<u8>),
}

impl View for NetAction {
    type V = NetActionV;

    open spec fn view(&self) -> NetActionV {
        match self {
            NetAction::WsSend(m) => NetActionV::WsSend(m@),
            NetAction::Setup(r, d, a) => NetActionV::Setup(r@, *d, a@),
            NetAction::ChannelSend(r, d, p) => NetActionV::ChannelSend(r@, *d, p@),
            NetAction::Deliver(r, p) => NetActionV::Deliver(r@, p@),
        }
    }
}

/// The node-side core: own identity, per-peer connections, and the
/// last received roster.
#[derive(Debug)]
pub struct Network {
    /// The node's own identity.
    pub node_info: NodeInfo,
    /// The connection state per remote peer, keyed by public id.
    pub connections: Vec<ConnEntry>,
    /// The last received roster, without this node itself.
    pub list: Vec<NodeInfo>,
}

/// Mathematical model of a [`Network`].
#[verifier::ext_equal]
pub struct NetworkV {
    pub info: NodeInfoV,
    pub connections: Seq<ConnEntryV>,
    pub list: Seq<NodeInfoV>,
}

impl View for Network {
    type V = NetworkV;

    open spec fn view(&self) -> NetworkV {
        NetworkV {
            info: self.node_info@,
            connections: self.connections@.map_values(|e: ConnEntry| e@),
            list: self.list@.map_values(|ni: NodeInfo| ni@),
        }
    }
}

// ---------------------------------------------------------------------
// The connection table, as mathematics.
// ---------------------------------------------------------------------
/// Whether a connection towards this remote exists.
pub open spec fn conns_has(s: Seq<ConnEntryV>, id: Seq<u8>) -> bool
    decreases s.len(),
{
    if s.len() == 0 {
        false
    } else {
        s[0].remote == id || conns_has(s.drop_first(), id)
    }
}

/// The connection towards this remote, if one exists.
pub open spec fn conns_find(s: Seq<ConnEntryV>, id: Seq<u8>) -> Option<NodeConnectionV>
    decreases s.len(),
{
    if s.len() == 0 {
        None
    } else if s[0].remote == id {
        Some(s[0].conn)
    } else {
        conns_find(s.drop_first(), id)
    }
}

/// The table with the connection towards this remote replaced.
pub open spec fn conns_update(s: Seq<ConnEntryV>, id: Seq<u8>, c: NodeConnectionV) -> Seq<
    ConnEntryV,
>
    decreases s.len(),
{
    if s.len() == 0 {
        Seq::empty()
    } else if s[0].remote == id {
        seq![ConnEntryV { remote: id, conn: c }] + s.drop_first()
    } else {
        seq![s[0]] + conns_update(s.drop_first(), id, c)
    }
}

/// Whether the table keys are pairwise distinct.
pub open spec fn distinct_conns(s: Seq<ConnEntryV>) -> bool
    decreases s.len(),
{
    if s.len() == 0 {
        true
    } else {
        !conns_has(s.drop_first(), s[0].remote) && distinct_conns(s.drop_first())
    }
}

/// A fresh, empty connection.
pub open spec fn empty_conn() -> NodeConnectionV {
    NodeConnectionV {
        outgoing: false,
        outgoing_setup: None,
        outgoing_queue: Seq::empty(),
        incoming: false,
        incoming_setup: None,
    }
}

/// A proper core: an identity fit for the wire, pairwise distinct
/// connection keys, each connection proper, and a roster that never
/// contains this node itself.
pub open spec fn wf_network(n: NetworkV) -> bool {
    &&& wf_node_info(n.info)
    &&& distinct_conns(n.connections)
    &&& forall|i: int| 0 <= i < n.connections.len() ==> wf_conn((#[trigger] n.connections[i]).conn)
    &&& forall|i: int| 0 <= i < n.list.len() ==> (#[trigger] n.list[i]).public != n.info.public
}

// ---------------------------------------------------------------------
// The core's transitions, as mathematics.
// ---------------------------------------------------------------------
/// The envelope for a handshake step towards `remote`: for the
/// outgoing slot this node is the initializer, for the incoming slot
/// the remote node is.
pub open spec fn wrap_peer_info(
    me: Seq<u8>,
    remote: Seq<u8>,
    dir: ChannelDirection,
    pm: PeerMessageV,
) -> PeerInfoV {
    match dir {
        ChannelDirection::Outgoing => PeerInfoV { id_init: me, id_follow: remote, message: pm },
        ChannelDirection::Incoming => PeerInfoV { id_init: remote, id_follow: me, message: pm },
    }
}

/// The queued payloads as channel writes, in submission order.
pub open spec fn spec_flush(remote: Seq<u8>, dir: ChannelDirection, queue: Seq<Seq<u8>>) -> Seq<
    NetActionV,
> {
    queue.map_values(|p: Seq<u8>| NetActionV::ChannelSend(remote, dir, p))
}

/// What the host must do for one slot's step actions, in order:
/// WebRTC calls stay addressed calls, emitted steps become wire
/// frames, a live verdict flushes the queue, the rest is internal.
pub open spec fn spec_translate(
    me: Seq<u8>,
    remote: Seq<u8>,
    dir: ChannelDirection,
    acts: Seq<StepResultV>,
    queue: Seq<Seq<u8>>,
) -> Seq<NetActionV>
    decreases acts.len(),
{
    if acts.len() == 0 {
        Seq::empty()
    } else {
        let tail_queue = if acts[0] is Live {
            Seq::<Seq<u8>>::empty()
        } else {
            queue
        };
        let rest = spec_translate(me, remote, dir, acts.drop_first(), tail_queue);
        match acts[0] {
            StepResultV::Emit(pm) => seq![
                NetActionV::WsSend(WSSignalMessageV::PeerSetup(wrap_peer_info(me, remote, dir, pm))),
            ] + rest,
            StepResultV::Live => spec_flush(remote, dir, queue) + rest,
            StepResultV::Ignore => rest,
            StepResultV::Fail => rest,
            _ => seq![NetActionV::Setup(remote, dir, acts[0])] + rest,
        }
    }
}

/// The roster as the client keeps it: everything but this node.
pub open spec fn spec_filter_roster(l: Seq<NodeInfoV>, me: Seq<u8>) -> Seq<NodeInfoV>
    decreases l.len(),
{
    if l.len() == 0 {
        Seq::empty()
    } else {
        let rest = spec_filter_roster(l.drop_first(), me);
        if l[0].public == me {
            rest
        } else {
            seq![l[0]] + rest
        }
    }
}

/// How one relayed handshake envelope changes the core.  An envelope
/// that does not name this node is alien: nothing changes, nothing is
/// created.  Otherwise the frame reaches the connection towards the
/// remote end — created on demand — in the slot that matches who
/// initiated, and the slot's answer is translated for the host.  A
/// protocol violation leaves the freshly looked-up state in place and
/// answers nothing.
pub open spec fn spec_peer_setup(n: NetworkV, pi: PeerInfoV) -> (NetworkV, Seq<NetActionV>) {
    if pi.message is Init {
        // `Init` is a local trigger only; received on the wire it is
        // rejected, so a forged frame cannot make this node open a
        // handshake towards an arbitrary id.
        (n, Seq::empty())
    } else {
        spec_peer_setup_checked(n, pi)
    }
}

/// [`spec_peer_setup`] for an envelope whose message may appear on
/// the wire.
pub open spec fn spec_peer_setup_checked(n: NetworkV, pi: PeerInfoV) -> (NetworkV, Seq<NetActionV>) {
    match spec_remote_of(pi, n.info.public) {
        None => (n, Seq::empty()),
        Some(remote) => {
            let remote_init = pi.id_init == remote;
            let dir = if remote_init {
                ChannelDirection::Incoming
            } else {
                ChannelDirection::Outgoing
            };
            let conn0 = match conns_find(n.connections, remote) {
                Some(c) => c,
                None => empty_conn(),
            };
            let table = if conns_has(n.connections, remote) {
                n.connections
            } else {
                n.connections.push(ConnEntryV { remote, conn: empty_conn() })
            };
            let stepped = if remote_init {
                spec_process_incoming(conn0, pi.message)
            } else {
                spec_process_outgoing(conn0, pi.message)
            };
            match stepped {
                Err(_) => (NetworkV { connections: table, ..n }, Seq::empty()),
                Ok((c2, acts)) => {
                    let c3 = if has_live(acts) {
                        NodeConnectionV { outgoing_queue: Seq::empty(), ..c2 }
                    } else {
                        c2
                    };
                    (
                        NetworkV { connections: conns_update(table, remote, c3), ..n },
                        spec_translate(n.info.public, remote, dir, acts, conn0.outgoing_queue),
                    )
                },
            }
        },
    }
}

/// How the core answers one decoded signalling frame: a challenge is
/// answered with exactly one announce; a roster reply replaces the
/// kept roster, without this node; a handshake envelope goes to its
/// connection; everything else is ignored.
pub open spec fn spec_client_handle(n: NetworkV, m: WSSignalMessageV) -> (NetworkV, Seq<NetActionV>) {
    match m {
        WSSignalMessageV::Challenge(c) => (
            n,
            seq![
                NetActionV::WsSend(
                    WSSignalMessageV::Announce(
                        MessageAnnounceV { challenge: c, node_info: n.info },
                    ),
                ),
            ],
        ),
        WSSignalMessageV::ListIDsReply(l) => (
            NetworkV { list: spec_filter_roster(l, n.info.public), ..n },
            Seq::empty(),
        ),
        WSSignalMessageV::PeerSetup(pi) => spec_peer_setup(n, pi),
        _ => (n, Seq::empty()),
    }
}

/// How one application send changes the core: out through a live
/// channel when one exists — the outgoing one preferred —, into the
/// queue behind a running handshake otherwise, and starting a fresh
/// outgoing handshake first when none is under way.  The connection
/// towards the destination is created on demand.
pub open spec fn spec_client_send(n: NetworkV, dst: Seq<u8>, msg: Seq<u8>) -> (
    NetworkV,
    Seq<NetActionV>,
) {
    let conn0 = match conns_find(n.connections, dst) {
        Some(c) => c,
        None => empty_conn(),
    };
    let table = if conns_has(n.connections, dst) {
        n.connections
    } else {
        n.connections.push(ConnEntryV { remote: dst, conn: empty_conn() })
    };
    if conn0.outgoing {
        (
            NetworkV { connections: table, ..n },
            seq![NetActionV::ChannelSend(dst, ChannelDirection::Outgoing, msg)],
        )
    } else if conn0.incoming {
        (
            NetworkV { connections: table, ..n },
            seq![NetActionV::ChannelSend(dst, ChannelDirection::Incoming, msg)],
        )
    } else if conn0.outgoing_setup is Some || conn0.incoming_setup is Some {
        (
            NetworkV {
                connections: conns_update(
                    table,
                    dst,
                    NodeConnectionV { outgoing_queue: conn0.outgoing_queue.push(msg), ..conn0 },
                ),
                ..n
            },
            Seq::empty(),
        )
    } else {
        (
            NetworkV {
                connections: conns_update(
                    table,
                    dst,
                    NodeConnectionV {
                        outgoing_setup: Some(
                            fresh_handshake(WebRTCConnectionState::Initializer),
                        ),
                        outgoing_queue: conn0.outgoing_queue.push(msg),
                        ..conn0
                    },
                ),
                ..n
            },
            seq![
                NetActionV::Setup(
                    dst,
                    ChannelDirection::Outgoing,
                    StepResultV::CallMakeOffer,
                ),
            ],
        )
    }
}

/// How a handshake completion from the host changes the core: it
/// steps the addressed slot of the addressed connection and
/// translates the slot's answer.  A completion for an unknown peer
/// changes nothing.
pub open spec fn spec_setup_event(
    n: NetworkV,
    remote: Seq<u8>,
    dir: ChannelDirection,
    ev: HandshakeEventV,
) -> (NetworkV, Seq<NetActionV>) {
    match conns_find(n.connections, remote) {
        None => (n, Seq::empty()),
        Some(c0) => {
            let (c2, acts) = match dir {
                ChannelDirection::Incoming => {
                    let (chan, slot, acts) = spec_slot_step(c0.incoming, c0.incoming_setup, ev);
                    (NodeConnectionV { incoming: chan, incoming_setup: slot, ..c0 }, acts)
                },
                ChannelDirection::Outgoing => {
                    let (chan, slot, acts) = spec_slot_step(c0.outgoing, c0.outgoing_setup, ev);
                    (NodeConnectionV { outgoing: chan, outgoing_setup: slot, ..c0 }, acts)
                },
            };
            let c3 = if has_live(acts) {
                NodeConnectionV { outgoing_queue: Seq::empty(), ..c2 }
            } else {
                c2
            };
            (
                NetworkV { connections: conns_update(n.connections, remote, c3), ..n },
                spec_translate(n.info.public, remote, dir, acts, c0.outgoing_queue),
            )
        },
    }
}

/// An event payload fit for the wire, so that an emitted frame is.
pub open spec fn wf_event(ev: HandshakeEventV) -> bool {
    match ev {
        HandshakeEventV::LocalSdp(s) => wf_blob(s),
        HandshakeEventV::LocalIce(c) => wf_blob(c),
        _ => true,
    }
}

/// A host action whose wire frame, if it carries one, is fit to be
/// encoded.
pub open spec fn wf_net_action(a: NetActionV) -> bool {
    match a {
        NetActionV::WsSend(m) => wf_msg(m),
        _ => true,
    }
}

/// Step actions whose emitted frames are fit for the wire.
pub open spec fn wf_acts(acts: Seq<StepResultV>) -> bool {
    forall|i: int|
        0 <= i < acts.len() ==> match #[trigger] acts[i] {
            StepResultV::Emit(pm) => wf_peer_msg(pm),
            _ => true,
        }
}

// ---------------------------------------------------------------------
// Facts about the table and the transitions.
// ---------------------------------------------------------------------
/// Appending a fresh connection keeps exactly the old keys plus the
/// new one.
proof fn lemma_conns_has_push(s: Seq<ConnEntryV>, e: ConnEntryV, id: Seq<u8>)
    ensures
        conns_has(s.push(e), id) <==> (conns_has(s, id) || e.remote == id),
    decreases s.len(),
{
    if s.len() == 0 {
        assert(s.push(e).len() == 1);
        assert(s.push(e)[0] == e);
        assert(s.push(e).drop_first() =~= Seq::<ConnEntryV>::empty());
        assert(!conns_has(Seq::<ConnEntryV>::empty(), id));
    } else {
        assert(s.push(e).len() == s.len() + 1);
        assert(s.push(e)[0] == s[0]);
        assert(s.push(e).drop_first() =~= s.drop_first().push(e));
        lemma_conns_has_push(s.drop_first(), e, id);
    }
}

/// Appending a connection with a fresh key keeps the keys distinct.
proof fn lemma_distinct_conns_push(s: Seq<ConnEntryV>, e: ConnEntryV)
    requires
        distinct_conns(s),
        !conns_has(s, e.remote),
    ensures
        distinct_conns(s.push(e)),
    decreases s.len(),
{
    if s.len() == 0 {
        assert(s.push(e)[0] == e);
        assert(s.push(e).drop_first() =~= Seq::<ConnEntryV>::empty());
        assert(distinct_conns(Seq::<ConnEntryV>::empty()));
    } else {
        assert(s.push(e)[0] == s[0]);
        assert(s.push(e).drop_first() =~= s.drop_first().push(e));
        lemma_conns_has_push(s.drop_first(), e, s[0].remote);
        lemma_distinct_conns_push(s.drop_first(), e);
        assert(!conns_has(s.drop_first().push(e), s[0].remote));
    }
}

/// A connection is found exactly when its key is present.
proof fn lemma_conns_find_has(s: Seq<ConnEntryV>, id: Seq<u8>)
    ensures
        conns_has(s, id) <==> conns_find(s, id) is Some,
    decreases s.len(),
{
    if s.len() != 0 {
        lemma_conns_find_has(s.drop_first(), id);
    }
}

/// Where the first match sits, finding and updating work index-wise.
proof fn lemma_conns_at(s: Seq<ConnEntryV>, id: Seq<u8>, c: NodeConnectionV, i: int)
    requires
        0 <= i < s.len(),
        s[i].remote == id,
        forall|j: int| 0 <= j < i ==> (#[trigger] s[j]).remote != id,
    ensures
        conns_has(s, id),
        conns_find(s, id) == Some(s[i].conn),
        conns_update(s, id, c) == s.update(i, ConnEntryV { remote: id, conn: c }),
    decreases i,
{
    if i == 0 {
        assert(conns_update(s, id, c) =~= s.update(0, ConnEntryV { remote: id, conn: c }));
    } else {
        assert(forall|j: int|
            0 <= j < i - 1 ==> (#[trigger] s.drop_first()[j]).remote != id && s.drop_first()[j]
                == s[j + 1]);
        assert(s.drop_first()[i - 1] == s[i]);
        lemma_conns_at(s.drop_first(), id, c, i - 1);
        assert(conns_update(s, id, c) =~= s.update(i, ConnEntryV { remote: id, conn: c }));
    }
}

/// Updating one connection in place keeps the keys and key
/// distinctness, and keeps the other connections.
proof fn lemma_update_keeps(s: Seq<ConnEntryV>, i: int, c: NodeConnectionV, id2: Seq<u8>)
    requires
        0 <= i < s.len(),
        distinct_conns(s),
    ensures
        conns_has(s.update(i, ConnEntryV { remote: s[i].remote, conn: c }), id2) == conns_has(
            s,
            id2,
        ),
        distinct_conns(s.update(i, ConnEntryV { remote: s[i].remote, conn: c })),
    decreases s.len(),
{
    let s2 = s.update(i, ConnEntryV { remote: s[i].remote, conn: c });
    if i == 0 {
        assert(s2[0].remote == s[0].remote);
        assert(s2.drop_first() =~= s.drop_first());
    } else {
        assert(s2[0] == s[0]);
        assert(s2.drop_first() =~= s.drop_first().update(
            i - 1,
            ConnEntryV { remote: s.drop_first()[i - 1].remote, conn: c },
        ));
        lemma_update_keeps(s.drop_first(), i - 1, c, id2);
        lemma_update_keeps(s.drop_first(), i - 1, c, s[0].remote);
    }
}

/// Appending one action adds at most its own live verdict.
proof fn lemma_has_live_push(acts: Seq<StepResultV>, a: StepResultV)
    ensures
        has_live(acts.push(a)) == (has_live(acts) || a is Live),
{
    if has_live(acts) {
        let k = choose|k: int| 0 <= k < acts.len() && acts[k] is Live;
        assert(acts.push(a)[k] is Live);
    }
    if a is Live {
        assert(acts.push(a)[acts.len() as int] is Live);
    }
    if has_live(acts.push(a)) {
        let k = choose|k: int| 0 <= k < acts.push(a).len() && acts.push(a)[k] is Live;
        if k < acts.len() {
            assert(acts[k] is Live);
        }
    }
}

/// Translated actions are fit for the host when every emitted step
/// is fit for the wire.
proof fn lemma_translate_wf(
    me: Seq<u8>,
    remote: Seq<u8>,
    dir: ChannelDirection,
    acts: Seq<StepResultV>,
    queue: Seq<Seq<u8>>,
)
    requires
        me.len() == 32,
        remote.len() == 32,
        wf_acts(acts),
    ensures
        forall|i: int|
            0 <= i < spec_translate(me, remote, dir, acts, queue).len() ==> wf_net_action(
                #[trigger] spec_translate(me, remote, dir, acts, queue)[i],
            ),
    decreases acts.len(),
{
    if acts.len() != 0 {
        let tail_queue = if acts[0] is Live {
            Seq::<Seq<u8>>::empty()
        } else {
            queue
        };
        assert(forall|j: int|
            0 <= j < acts.drop_first().len() ==> acts.drop_first()[j] == acts[j + 1]);
        lemma_translate_wf(me, remote, dir, acts.drop_first(), tail_queue);
        let r = spec_translate(me, remote, dir, acts, queue);
        let rest = spec_translate(me, remote, dir, acts.drop_first(), tail_queue);
        match acts[0] {
            StepResultV::Emit(pm) => {
                assert forall|i: int| 0 <= i < r.len() implies wf_net_action(#[trigger] r[i]) by {
                    if i > 0 {
                        assert(r[i] == rest[i - 1]);
                    }
                };
            },
            StepResultV::Live => {
                let f = spec_flush(remote, dir, queue);
                assert forall|i: int| 0 <= i < r.len() implies wf_net_action(#[trigger] r[i]) by {
                    if i < f.len() {
                        assert(r[i] == f[i]);
                        assert(f[i] == NetActionV::ChannelSend(remote, dir, queue[i]));
                    } else {
                        assert(r[i] == rest[i - f.len()]);
                    }
                };
            },
            StepResultV::Ignore => {},
            StepResultV::Fail => {},
            _ => {
                assert forall|i: int| 0 <= i < r.len() implies wf_net_action(#[trigger] r[i]) by {
                    if i > 0 {
                        assert(r[i] == rest[i - 1]);
                    }
                };
            },
        }
    }
}

impl Network {
    /// A fresh core around the node's own identity: no connections,
    /// an empty roster.
    pub fn new(node_info: NodeInfo) -> (r: Network)
        requires
            wf_node_info(node_info@),
        ensures
            r@ == (NetworkV {
                info: node_info@,
                connections: Seq::empty(),
                list: Seq::empty(),
            }),
            wf_network(r@),
    {
        let r = Network { node_info, connections: Vec::new(), list: Vec::new() };
        proof {
            assert(r.connections@.map_values(|e: ConnEntry| e@) =~= Seq::<ConnEntryV>::empty());
            assert(r.list@.map_values(|ni: NodeInfo| ni@) =~= Seq::<NodeInfoV>::empty());
        }
        r
    }

    /// The index of the connection towards `remote`, creating an
    /// empty one at the back when none exists yet.
    fn conn_index(&mut self, remote: &U256) -> (i: usize)
        requires
            wf_network(old(self)@),
        ensures
            wf_network(final(self)@),
            final(self)@.info == old(self)@.info,
            final(self)@.list == old(self)@.list,
            i < final(self)@.connections.len(),
            final(self)@.connections[i as int].remote == remote@,
            forall|j: int|
                0 <= j < i ==> (#[trigger] final(self)@.connections[j]).remote != remote@,
            conns_has(old(self)@.connections, remote@) ==> final(self)@ == old(self)@
                && conns_find(old(self)@.connections, remote@) == Some(
                final(self)@.connections[i as int].conn,
            ),
            !conns_has(old(self)@.connections, remote@) ==> final(self)@.connections == old(
                self,
            )@.connections.push(ConnEntryV { remote: remote@, conn: empty_conn() }) && i == old(
                self,
            )@.connections.len() && final(self)@.connections[i as int].conn == empty_conn()
                && conns_find(old(self)@.connections, remote@) is None,
    {
        proof {
            lemma_conns_find_has(self@.connections, remote@);
        }
        let ghost sv = self@.connections;
        proof {
            assert(sv.skip(0) =~= sv);
        }
        let mut i: usize = 0;
        while i < self.connections.len()
            invariant
                i <= self.connections.len(),
                conns_has(sv, remote@) == conns_has(sv.skip(i as int), remote@),
                forall|j: int| 0 <= j < i ==> (#[trigger] sv[j]).remote != remote@,
            decreases self.connections.len() - i,
        {
            proof {
                assert(sv.skip(i as int)[0] == sv[i as int]);
                assert(sv.skip(i as int).drop_first() =~= sv.skip(i as int + 1));
            }
            if self.connections[i].remote.same(remote) {
                proof {
                    lemma_conns_at(sv, remote@, sv[i as int].conn, i as int);
                }
                return i;
            }
            i += 1;
        }
        proof {
            assert(sv.skip(self.connections.len() as int) =~= Seq::<ConnEntryV>::empty());
        }
        let idx = self.connections.len();
        self.connections.push(ConnEntry { remote: *remote, conn: NodeConnection::new() });
        proof {
            let e = ConnEntryV { remote: remote@, conn: empty_conn() };
            assert(self.connections@.map_values(|x: ConnEntry| x@) =~= sv.push(e));
            lemma_distinct_conns_push(sv, e);
            assert forall|k: int| 0 <= k < self@.connections.len() implies wf_conn(
                (#[trigger] self@.connections[k]).conn,
            ) by {
                if k < sv.len() {
                    assert(self@.connections[k] == sv[k]);
                }
            };
            assert(forall|j: int| 0 <= j < idx ==> (#[trigger] sv.push(e)[j]) == sv[j]);
        }
        idx
    }

    /// Performs the host-facing translation of one slot's step
    /// actions, flushing the queue when the slot went live.
    fn apply_actions(&mut self, i: usize, dir: ChannelDirection, acts: Vec<StepResult>) -> (r:
        Vec<NetAction>)
        requires
            wf_network(old(self)@),
            i < old(self)@.connections.len(),
        ensures
            wf_network(final(self)@),
            final(self)@.info == old(self)@.info,
            final(self)@.list == old(self)@.list,
            ({
                let actsv = acts@.map_values(|a: StepResult| a@);
                let old_entry = old(self)@.connections[i as int];
                let new_conn = if has_live(actsv) {
                    NodeConnectionV { outgoing_queue: Seq::empty(), ..old_entry.conn }
                } else {
                    old_entry.conn
                };
                &&& final(self)@.connections == old(self)@.connections.update(
                    i as int,
                    ConnEntryV { remote: old_entry.remote, conn: new_conn },
                )
                &&& r@.map_values(|a: NetAction| a@) == spec_translate(
                    old(self)@.info.public,
                    old_entry.remote,
                    dir,
                    actsv,
                    old_entry.conn.outgoing_queue,
                )
            }),
    {
        let ghost me = self@.info.public;
        let ghost table0 = self@.connections;
        let ghost remote0 = table0[i as int].remote;
        let ghost c0 = table0[i as int].conn;
        let ghost q0 = c0.outgoing_queue;
        let ghost acts0 = acts@.map_values(|a: StepResult| a@);
        let remote = self.connections[i].remote;
        let mut out: Vec<NetAction> = Vec::new();
        let mut acts = acts;
        let ghost mut flushed = false;
        let ghost mut consumed: Seq<StepResultV> = Seq::empty();
        proof {
            assert(consumed + acts0 =~= acts0);
        }
        proof {
            assert(out@.map_values(|a: NetAction| a@) =~= Seq::<NetActionV>::empty());
            assert(table0.update(i as int, ConnEntryV { remote: remote0, conn: c0 }) =~= table0);
        }
        while acts.len() > 0
            invariant
                i < self.connections@.len(),
                self.connections@.len() == table0.len(),
                self@.info == old(self)@.info,
                self@.list == old(self)@.list,
                remote@ == remote0,
                me == old(self)@.info.public,
                wf_conn(self@.connections[i as int].conn),
                self@.connections == table0.update(
                    i as int,
                    ConnEntryV { remote: remote0, conn: self@.connections[i as int].conn },
                ),
                self@.connections[i as int].conn == (if flushed {
                    NodeConnectionV { outgoing_queue: Seq::empty(), ..c0 }
                } else {
                    c0
                }),
                acts0 == consumed + acts@.map_values(|a: StepResult| a@),
                flushed == has_live(consumed),
                out@.map_values(|a: NetAction| a@) + spec_translate(
                    me,
                    remote0,
                    dir,
                    acts@.map_values(|a: StepResult| a@),
                    self@.connections[i as int].conn.outgoing_queue,
                ) == spec_translate(me, remote0, dir, acts0, q0),
            decreases acts.len(),
        {
            let ghost actsv_before = acts@.map_values(|a: StepResult| a@);
            let ghost qcur = self@.connections[i as int].conn.outgoing_queue;
            let a = acts.remove(0);
            let ghost av = a@;
            proof {
                let actsv_after = acts@.map_values(|x: StepResult| x@);
                assert(actsv_after =~= actsv_before.drop_first());
                assert(av == actsv_before[0]);
                lemma_has_live_push(consumed, av);
                assert(consumed + actsv_before =~= consumed.push(av) + actsv_after);
                consumed = consumed.push(av);
            }
            match a {
                StepResult::Emit(pm) => {
                    let pi = match dir {
                        ChannelDirection::Outgoing => PeerInfo {
                            id_init: self.node_info.public,
                            id_follow: remote,
                            message: pm,
                        },
                        ChannelDirection::Incoming => PeerInfo {
                            id_init: remote,
                            id_follow: self.node_info.public,
                            message: pm,
                        },
                    };
                    out.push(NetAction::WsSend(WSSignalMessage::PeerSetup(pi)));
                    proof {
                        assert(out@.map_values(|x: NetAction| x@) + spec_translate(
                            me,
                            remote0,
                            dir,
                            acts@.map_values(|x: StepResult| x@),
                            qcur,
                        ) =~= spec_translate(me, remote0, dir, acts0, q0));
                    }
                },
                StepResult::Live => {
                    let mut flushed_q = self.connections[i].conn.on_channel_open();
                    let ghost fq0 = flushed_q@.map_values(|p: Vec<u8>| p@);
                    let ghost base = out@.map_values(|x: NetAction| x@);
                    proof {
                        flushed = true;
                        assert(fq0 == qcur);
                        assert(self.connections@.map_values(|e: ConnEntry| e@) =~= table0.update(
                            i as int,
                            ConnEntryV {
                                remote: remote0,
                                conn: self@.connections[i as int].conn,
                            },
                        ));
                    }
                    while flushed_q.len() > 0
                        invariant
                            base + spec_flush(remote0, dir, fq0) == out@.map_values(
                                |x: NetAction| x@,
                            ) + spec_flush(
                                remote0,
                                dir,
                                flushed_q@.map_values(|p: Vec<u8>| p@),
                            ),
                            remote@ == remote0,
                        decreases flushed_q.len(),
                    {
                        let ghost fqv = flushed_q@.map_values(|p: Vec<u8>| p@);
                        let p = flushed_q.remove(0);
                        out.push(NetAction::ChannelSend(remote, dir, p));
                        proof {
                            assert(flushed_q@.map_values(|x: Vec<u8>| x@) =~= fqv.drop_first());
                            assert(spec_flush(remote0, dir, fqv) =~= seq![
                                NetActionV::ChannelSend(remote0, dir, fqv[0]),
                            ] + spec_flush(remote0, dir, fqv.drop_first()));
                            assert(base + spec_flush(remote0, dir, fq0) =~= out@.map_values(
                                |x: NetAction| x@,
                            ) + spec_flush(remote0, dir, fqv.drop_first()));
                        }
                    }
                    proof {
                        assert(flushed_q@.map_values(|p: Vec<u8>| p@) =~= Seq::<Seq<u8>>::empty());
                        assert(spec_flush(remote0, dir, Seq::<Seq<u8>>::empty()) =~= Seq::<
                            NetActionV,
                        >::empty());
                        assert(out@.map_values(|x: NetAction| x@) =~= base + spec_flush(
                            remote0,
                            dir,
                            fq0,
                        ));
                        assert(out@.map_values(|x: NetAction| x@) + spec_translate(
                            me,
                            remote0,
                            dir,
                            acts@.map_values(|x: StepResult| x@),
                            Seq::<Seq<u8>>::empty(),
                        ) =~= spec_translate(me, remote0, dir, acts0, q0));
                    }
                },
                StepResult::Ignore => {
                    proof {
                        assert(out@.map_values(|x: NetAction| x@) + spec_translate(
                            me,
                            remote0,
                            dir,
                            acts@.map_values(|x: StepResult| x@),
                            qcur,
                        ) =~= spec_translate(me, remote0, dir, acts0, q0));
                    }
                },
                StepResult::Fail => {
                    proof {
                        assert(out@.map_values(|x: NetAction| x@) + spec_translate(
                            me,
                            remote0,
                            dir,
                            acts@.map_values(|x: StepResult| x@),
                            qcur,
                        ) =~= spec_translate(me, remote0, dir, acts0, q0));
                    }
                },
                other => {
                    out.push(NetAction::Setup(remote, dir, other));
                    proof {
                        assert(out@.map_values(|x: NetAction| x@) + spec_translate(
                            me,
                            remote0,
                            dir,
                            acts@.map_values(|x: StepResult| x@),
                            qcur,
                        ) =~= spec_translate(me, remote0, dir, acts0, q0));
                    }
                },
            }
        }
        proof {
            assert(acts@.map_values(|x: StepResult| x@) =~= Seq::<StepResultV>::empty());
            assert(spec_translate(
                me,
                remote0,
                dir,
                Seq::<StepResultV>::empty(),
                self@.connections[i as int].conn.outgoing_queue,
            ) =~= Seq::<NetActionV>::empty());
            assert(out@.map_values(|x: NetAction| x@) =~= out@.map_values(|x: NetAction| x@)
                + Seq::<NetActionV>::empty());
            assert(acts0 =~= consumed);
            assert(flushed == has_live(acts0));
            lemma_update_keeps(table0, i as int, self@.connections[i as int].conn, remote0);
            assert forall|k: int| 0 <= k < self@.connections.len() implies wf_conn(
                (#[trigger] self@.connections[k]).conn,
            ) by {
                if k != i {
                    assert(self@.connections[k] == table0[k]);
                }
            };
        }
        out
    }
}

/// One handshake step emits only frames whose payload came from the
/// event itself, so a fit event yields fit emissions.
proof fn lemma_step_acts_wf(h: PeerHandshakeV, ev: HandshakeEventV)
    requires
        wf_event(ev),
    ensures
        wf_acts(crate::handshake::spec_step(h, ev).1),
{
    let acts = crate::handshake::spec_step(h, ev).1;
    assert forall|k: int| 0 <= k < acts.len() implies (match #[trigger] acts[k] {
        StepResultV::Emit(pm) => wf_peer_msg(pm),
        _ => true,
    }) by {
        match ev {
            HandshakeEventV::LocalSdp(sdp) => {
                if h.role is Follower && h.phase is Idle && h.remote_sdp_applied {
                    let rep = ice_replay(h.pending_ice);
                    if k < rep.len() {
                        assert(acts[k] == StepResultV::CallIcePut(h.pending_ice[k]));
                    } else {
                        assert(acts[k] == StepResultV::Emit(PeerMessageV::Answer(sdp)));
                    }
                }
            },
            HandshakeEventV::AnswerApplied => {
                if h.role is Initializer && h.phase is OfferSent {
                    assert(acts[k] == StepResultV::CallIcePut(h.pending_ice[k]));
                }
            },
            _ => {},
        }
    };
}

/// Whatever one slot answers to a fit event is fit to translate.
proof fn lemma_slot_acts_wf(chan: bool, slot: Option<PeerHandshakeV>, ev: HandshakeEventV)
    requires
        wf_event(ev),
    ensures
        wf_acts(spec_slot_step(chan, slot, ev).2),
{
    match slot {
        None => {
            assert(wf_acts(Seq::<StepResultV>::empty()));
        },
        Some(h) => {
            lemma_step_acts_wf(h, ev);
        },
    }
}

/// The kept roster never contains the own id.
proof fn lemma_filter_roster(l: Seq<NodeInfoV>, me: Seq<u8>)
    ensures
        forall|i: int|
            0 <= i < spec_filter_roster(l, me).len() ==> (#[trigger] spec_filter_roster(l, me)[i])
                .public != me,
    decreases l.len(),
{
    if l.len() != 0 {
        lemma_filter_roster(l.drop_first(), me);
        let r = spec_filter_roster(l, me);
        let rest = spec_filter_roster(l.drop_first(), me);
        if l[0].public != me {
            assert forall|i: int| 0 <= i < r.len() implies (#[trigger] r[i]).public != me by {
                if i > 0 {
                    assert(r[i] == rest[i - 1]);
                }
            };
        }
    }
}

impl Network {
    /// The index of the connection towards `remote`, if one exists.
    fn find_conn(&self, remote: &U256) -> (r: Option<usize>)
        ensures
            match r {
                Some(i) => i < self@.connections.len() && self@.connections[i as int].remote
                    == remote@ && (forall|j: int|
                    0 <= j < i ==> (#[trigger] self@.connections[j]).remote != remote@)
                    && conns_has(self@.connections, remote@) && conns_find(
                    self@.connections,
                    remote@,
                ) == Some(self@.connections[i as int].conn),
                None => !conns_has(self@.connections, remote@) && conns_find(
                    self@.connections,
                    remote@,
                ) is None,
            },
    {
        let ghost sv = self@.connections;
        proof {
            assert(sv.skip(0) =~= sv);
        }
        let mut i: usize = 0;
        while i < self.connections.len()
            invariant
                i <= self.connections.len(),
                conns_has(sv, remote@) == conns_has(sv.skip(i as int), remote@),
                conns_find(sv, remote@) == conns_find(sv.skip(i as int), remote@),
                forall|j: int| 0 <= j < i ==> (#[trigger] sv[j]).remote != remote@,
            decreases self.connections.len() - i,
        {
            proof {
                assert(sv.skip(i as int)[0] == sv[i as int]);
                assert(sv.skip(i as int).drop_first() =~= sv.skip(i as int + 1));
            }
            if self.connections[i].remote.same(remote) {
                return Some(i);
            }
            i += 1;
        }
        proof {
            assert(sv.skip(self.connections.len() as int) =~= Seq::<ConnEntryV>::empty());
        }
        None
    }

    /// Sends one payload towards `dst`: out through a live channel if
    /// one exists, into the queue otherwise — starting an outgoing
    /// handshake first when none is under way.  Payloads queued
    /// before the channel opened leave it in submission order.
    pub fn send(&mut self, dst: &U256, msg: Vec<u8>) -> (r: Vec<NetAction>)
        requires
            wf_network(old(self)@),
            wf_blob(msg@),
        ensures
            wf_network(final(self)@),
            final(self)@ == spec_client_send(old(self)@, dst@, msg@).0,
            r@.map_values(|a: NetAction| a@) == spec_client_send(old(self)@, dst@, msg@).1,
            forall|i: int| 0 <= i < r@.len() ==> wf_net_action(#[trigger] r@[i]@),
    {
        let ghost n0 = self@;
        let ghost mv = msg@;
        let i = self.conn_index(dst);
        let ghost table = self@.connections;
        let ghost conn0 = self@.connections[i as int].conn;
        let outcome = self.connections[i].conn.send(msg);
        proof {
            assert(self@.connections =~= table.update(
                i as int,
                ConnEntryV { remote: dst@, conn: self@.connections[i as int].conn },
            ));
        }
        match outcome {
            SendOutcome::Channel(d, p) => {
                proof {
                    assert(self@.connections =~= table);
                }
                let mut out: Vec<NetAction> = Vec::new();
                out.push(NetAction::ChannelSend(*dst, d, p));
                proof {
                    assert(out@.map_values(|a: NetAction| a@) =~= spec_client_send(
                        n0,
                        dst@,
                        mv,
                    ).1);
                    assert(self@ =~~= spec_client_send(n0, dst@, mv).0);
                    assert forall|k: int| 0 <= k < out@.len() implies wf_net_action(
                        #[trigger] out@[k]@,
                    ) by {
                        assert(out@[k]@ is ChannelSend);
                    };
                }
                out
            },
            SendOutcome::Queued => {
                proof {
                    lemma_conns_at(table, dst@, self@.connections[i as int].conn, i as int);
                    lemma_update_keeps(table, i as int, self@.connections[i as int].conn, dst@);
                    assert forall|k: int| 0 <= k < self@.connections.len() implies wf_conn(
                        (#[trigger] self@.connections[k]).conn,
                    ) by {
                        if k != i {
                            assert(self@.connections[k] == table[k]);
                        }
                    };
                }
                let out: Vec<NetAction> = Vec::new();
                proof {
                    assert(out@.map_values(|a: NetAction| a@) =~= Seq::<NetActionV>::empty());
                    assert(self@ =~~= spec_client_send(n0, dst@, mv).0);
                }
                out
            },
            SendOutcome::QueuedAndStarted => {
                let ghost c1 = self@.connections[i as int].conn;
                let acts = self.connections[i].conn.handle_setup_event(
                    ChannelDirection::Outgoing,
                    HandshakeEvent::Start,
                );
                proof {
                    assert(self@.connections =~= table.update(
                        i as int,
                        ConnEntryV { remote: dst@, conn: self@.connections[i as int].conn },
                    ));
                    assert(self@.connections[i as int].conn == c1);
                    assert(acts@.map_values(|a: StepResult| a@) =~= seq![
                        StepResultV::CallMakeOffer,
                    ]);
                    lemma_update_keeps(table, i as int, c1, dst@);
                    assert forall|k: int| 0 <= k < self@.connections.len() implies wf_conn(
                        (#[trigger] self@.connections[k]).conn,
                    ) by {
                        if k != i {
                            assert(self@.connections[k] == table[k]);
                        }
                    };
                }
                let r = self.apply_actions(i, ChannelDirection::Outgoing, acts);
                proof {
                    let actsv = seq![StepResultV::CallMakeOffer];
                    assert(!has_live(actsv));
                    lemma_conns_at(table, dst@, c1, i as int);
                    assert(table.update(i as int, ConnEntryV { remote: dst@, conn: c1 }).update(
                        i as int,
                        ConnEntryV { remote: dst@, conn: c1 },
                    ) =~= conns_update(table, dst@, c1));
                    assert(actsv.drop_first() =~= Seq::<StepResultV>::empty());
                    assert(spec_translate(
                        n0.info.public,
                        dst@,
                        ChannelDirection::Outgoing,
                        Seq::<StepResultV>::empty(),
                        c1.outgoing_queue,
                    ) =~= Seq::<NetActionV>::empty());
                    assert(spec_translate(n0.info.public, dst@, ChannelDirection::Outgoing, actsv, c1.outgoing_queue)
                        =~~= seq![
                        NetActionV::Setup(
                            dst@,
                            ChannelDirection::Outgoing,
                            StepResultV::CallMakeOffer,
                        ),
                    ]);
                    lemma_update_keeps(table, i as int, c1, dst@);
                    assert forall|k: int| 0 <= k < self@.connections.len() implies wf_conn(
                        (#[trigger] self@.connections[k]).conn,
                    ) by {
                        if k != i {
                            assert(self@.connections[k] == table[k]);
                        }
                    };
                    assert(table == (if conns_has(n0.connections, dst@) {
                        n0.connections
                    } else {
                        n0.connections.push(ConnEntryV { remote: dst@, conn: empty_conn() })
                    }));
                    assert(conn0 == (match conns_find(n0.connections, dst@) {
                        Some(c) => c,
                        None => empty_conn(),
                    }));
                    assert(!conn0.outgoing && !conn0.incoming && conn0.outgoing_setup is None
                        && conn0.incoming_setup is None);
                    assert(c1 == (NodeConnectionV {
                        outgoing_setup: Some(fresh_handshake(WebRTCConnectionState::Initializer)),
                        outgoing_queue: conn0.outgoing_queue.push(mv),
                        ..conn0
                    }));
                    assert(self@.connections == conns_update(table, dst@, c1));
                    assert(self@ =~~= spec_client_send(n0, dst@, mv).0);
                    assert(r@.map_values(|a: NetAction| a@) =~~= spec_client_send(
                        n0,
                        dst@,
                        mv,
                    ).1);
                    assert forall|k: int| 0 <= k < r@.len() implies wf_net_action(
                        #[trigger] r@[k]@,
                    ) by {
                        assert(r@[k]@ == r@.map_values(|a: NetAction| a@)[k]);
                    };
                }
                r
            },
        }
    }

    /// Steps one handshake slot with a completion from the host and
    /// translates the slot's answer.  A completion for an unknown
    /// peer changes nothing.
    pub fn setup_event(&mut self, remote: &U256, dir: ChannelDirection, ev: HandshakeEvent) -> (r:
        Vec<NetAction>)
        requires
            wf_network(old(self)@),
            wf_event(ev@),
        ensures
            wf_network(final(self)@),
            final(self)@ == spec_setup_event(old(self)@, remote@, dir, ev@).0,
            r@.map_values(|a: NetAction| a@) == spec_setup_event(old(self)@, remote@, dir, ev@).1,
            forall|i: int| 0 <= i < r@.len() ==> wf_net_action(#[trigger] r@[i]@),
    {
        let ghost n0 = self@;
        let i = match self.find_conn(remote) {
            None => {
                let out: Vec<NetAction> = Vec::new();
                proof {
                    assert(out@.map_values(|a: NetAction| a@) =~= Seq::<NetActionV>::empty());
                }
                return out;
            },
            Some(i) => i,
        };
        let ghost table = self@.connections;
        let ghost c0 = table[i as int].conn;
        let ghost evv = ev@;
        let acts = self.connections[i].conn.handle_setup_event(dir, ev);
        let ghost actsv = acts@.map_values(|a: StepResult| a@);
        proof {
            assert(self@.connections =~= table.update(
                i as int,
                ConnEntryV { remote: remote@, conn: self@.connections[i as int].conn },
            ));
            match dir {
                ChannelDirection::Incoming => {
                    lemma_slot_acts_wf(c0.incoming, c0.incoming_setup, evv);
                },
                ChannelDirection::Outgoing => {
                    lemma_slot_acts_wf(c0.outgoing, c0.outgoing_setup, evv);
                },
            }
            lemma_update_keeps(
                table,
                i as int,
                self@.connections[i as int].conn,
                remote@,
            );
            assert forall|k: int| 0 <= k < self@.connections.len() implies wf_conn(
                (#[trigger] self@.connections[k]).conn,
            ) by {
                if k != i {
                    assert(self@.connections[k] == table[k]);
                }
            };
        }
        let r = self.apply_actions(i, dir, acts);
        proof {
            let c2 = match dir {
                ChannelDirection::Incoming => {
                    let (chan, slot, a) = spec_slot_step(c0.incoming, c0.incoming_setup, evv);
                    NodeConnectionV { incoming: chan, incoming_setup: slot, ..c0 }
                },
                ChannelDirection::Outgoing => {
                    let (chan, slot, a) = spec_slot_step(c0.outgoing, c0.outgoing_setup, evv);
                    NodeConnectionV { outgoing: chan, outgoing_setup: slot, ..c0 }
                },
            };
            let c3 = if has_live(actsv) {
                NodeConnectionV { outgoing_queue: Seq::empty(), ..c2 }
            } else {
                c2
            };
            lemma_conns_at(table, remote@, c3, i as int);
            assert(table.update(i as int, ConnEntryV { remote: remote@, conn: c2 }).update(
                i as int,
                ConnEntryV { remote: remote@, conn: c3 },
            ) =~= conns_update(table, remote@, c3));
            lemma_update_keeps(table, i as int, c3, remote@);
            assert forall|k: int| 0 <= k < self@.connections.len() implies wf_conn(
                (#[trigger] self@.connections[k]).conn,
            ) by {
                if k != i {
                    assert(self@.connections[k] == table[k]);
                }
            };
            lemma_translate_wf(n0.info.public, remote@, dir, actsv, c0.outgoing_queue);
            assert(self@ =~~= spec_setup_event(n0, remote@, dir, evv).0);
            assert(r@.map_values(|a: NetAction| a@) =~~= spec_setup_event(
                n0,
                remote@,
                dir,
                evv,
            ).1);
            assert forall|k: int| 0 <= k < r@.len() implies wf_net_action(
                #[trigger] r@[k]@,
            ) by {
                assert(r@[k]@ == r@.map_values(|a: NetAction| a@)[k]);
            };
        }
        r
    }

    /// Answers one decoded signalling frame; see [`spec_client_handle`].
    pub fn process_msg(&mut self, msg: WSSignalMessage) -> (r: Vec<NetAction>)
        requires
            wf_network(old(self)@),
            wf_msg(msg@),
        ensures
            wf_network(final(self)@),
            final(self)@ == spec_client_handle(old(self)@, msg@).0,
            r@.map_values(|a: NetAction| a@) == spec_client_handle(old(self)@, msg@).1,
            forall|i: int| 0 <= i < r@.len() ==> wf_net_action(#[trigger] r@[i]@),
    {
        let ghost n0 = self@;
        let ghost mv = msg@;
        match msg {
            WSSignalMessage::Challenge(c) => {
                let mut out: Vec<NetAction> = Vec::new();
                out.push(
                    NetAction::WsSend(
                        WSSignalMessage::Announce(
                            MessageAnnounce { challenge: c, node_info: self.node_info.clone() },
                        ),
                    ),
                );
                proof {
                    assert(out@.map_values(|a: NetAction| a@) =~= spec_client_handle(
                        n0,
                        mv,
                    ).1);
                    assert forall|k: int| 0 <= k < out@.len() implies wf_net_action(
                        #[trigger] out@[k]@,
                    ) by {
                        assert(out@[k]@ == out@.map_values(|a: NetAction| a@)[0]);
                    };
                }
                out
            },
            WSSignalMessage::ListIDsReply(l) => {
                let ghost lv = l@.map_values(|ni: NodeInfo| ni@);
                let ghost me = self@.info.public;
                let mut out: Vec<NodeInfo> = Vec::new();
                proof {
                    assert(lv.skip(0) =~= lv);
                    assert(out@.map_values(|ni: NodeInfo| ni@) =~= Seq::<NodeInfoV>::empty());
                }
                let mut i: usize = 0;
                while i < l.len()
                    invariant
                        i <= l.len(),
                        lv == l@.map_values(|ni: NodeInfo| ni@),
                        me == n0.info.public,
                        self@ == n0,
                        spec_filter_roster(lv, me) == out@.map_values(|ni: NodeInfo| ni@)
                            + spec_filter_roster(lv.skip(i as int), me),
                    decreases l.len() - i,
                {
                    proof {
                        assert(lv.skip(i as int)[0] == lv[i as int]);
                        assert(lv.skip(i as int).drop_first() =~= lv.skip(i as int + 1));
                    }
                    if !l[i].public.same(&self.node_info.public) {
                        out.push(l[i].clone());
                    }
                    proof {
                        assert(spec_filter_roster(lv, me) =~= out@.map_values(
                            |ni: NodeInfo| ni@,
                        ) + spec_filter_roster(lv.skip(i as int + 1), me));
                    }
                    i += 1;
                }
                proof {
                    assert(lv.skip(l@.len() as int) =~= Seq::<NodeInfoV>::empty());
                    assert(out@.map_values(|ni: NodeInfo| ni@) =~= out@.map_values(
                        |ni: NodeInfo| ni@,
                    ) + Seq::<NodeInfoV>::empty());
                    lemma_filter_roster(lv, me);
                }
                self.list = out;
                let r: Vec<NetAction> = Vec::new();
                proof {
                    assert(r@.map_values(|a: NetAction| a@) =~= Seq::<NetActionV>::empty());
                    assert(self@ =~~= spec_client_handle(n0, mv).0);
                }
                r
            },
            WSSignalMessage::PeerSetup(pi) => {
                if matches!(pi.message, PeerMessage::Init) {
                    let out: Vec<NetAction> = Vec::new();
                    proof {
                        assert(out@.map_values(|a: NetAction| a@) =~= Seq::<NetActionV>::empty());
                    }
                    return out;
                }
                let id_init = pi.id_init;
                let remote = match pi.get_remote(&self.node_info.public) {
                    None => {
                        let out: Vec<NetAction> = Vec::new();
                        proof {
                            assert(out@.map_values(|a: NetAction| a@) =~= Seq::<
                                NetActionV,
                            >::empty());
                        }
                        return out;
                    },
                    Some(remote) => remote,
                };
                let remote_init = remote == id_init;
                let dir = if remote_init {
                    ChannelDirection::Incoming
                } else {
                    ChannelDirection::Outgoing
                };
                let i = self.conn_index(&remote);
                let ghost table = self@.connections;
                let ghost conn0 = self@.connections[i as int].conn;
                let res = self.connections[i].conn.process_peer_setup(pi.message, remote_init);
                proof {
                    assert(self@.connections =~= table.update(
                        i as int,
                        ConnEntryV { remote: remote@, conn: self@.connections[i as int].conn },
                    ));
                }
                match res {
                    Err(_) => {
                        proof {
                            assert(self@.connections =~= table);
                        }
                        let out: Vec<NetAction> = Vec::new();
                        proof {
                            assert(out@.map_values(|a: NetAction| a@) =~= Seq::<
                                NetActionV,
                            >::empty());
                        }
                        out
                    },
                    Ok(acts) => {
                        let ghost actsv = acts@.map_values(|a: StepResult| a@);
                        let ghost c2 = self@.connections[i as int].conn;
                        proof {
                            if remote_init {
                                match conn0.incoming_setup {
                                    Some(h) => lemma_step_acts_wf(
                                        h,
                                        HandshakeEventV::Remote(mv->PeerSetup_0.message),
                                    ),
                                    None => {},
                                }
                                lemma_step_acts_wf(
                                    fresh_handshake(WebRTCConnectionState::Follower),
                                    HandshakeEventV::Remote(mv->PeerSetup_0.message),
                                );
                            } else {
                                match conn0.outgoing_setup {
                                    Some(h) => lemma_step_acts_wf(
                                        h,
                                        HandshakeEventV::Remote(mv->PeerSetup_0.message),
                                    ),
                                    None => {},
                                }
                                lemma_step_acts_wf(
                                    fresh_handshake(WebRTCConnectionState::Initializer),
                                    HandshakeEventV::Start,
                                );
                            }
                            assert(wf_acts(actsv));
                            lemma_update_keeps(table, i as int, c2, remote@);
                            assert forall|k: int| 0 <= k < self@.connections.len() implies wf_conn(
                                (#[trigger] self@.connections[k]).conn,
                            ) by {
                                if k != i {
                                    assert(self@.connections[k] == table[k]);
                                }
                            };
                        }
                        let r = self.apply_actions(i, dir, acts);
                        proof {
                            let c3 = if has_live(actsv) {
                                NodeConnectionV { outgoing_queue: Seq::empty(), ..c2 }
                            } else {
                                c2
                            };
                            lemma_conns_at(table, remote@, c3, i as int);
                            assert(table.update(
                                i as int,
                                ConnEntryV { remote: remote@, conn: c2 },
                            ).update(i as int, ConnEntryV { remote: remote@, conn: c3 }) =~= conns_update(
                                table,
                                remote@,
                                c3,
                            ));
                            lemma_update_keeps(table, i as int, c3, remote@);
                            assert forall|k: int| 0 <= k < self@.connections.len() implies wf_conn(
                                (#[trigger] self@.connections[k]).conn,
                            ) by {
                                if k != i {
                                    assert(self@.connections[k] == table[k]);
                                }
                            };
                            lemma_translate_wf(
                                n0.info.public,
                                remote@,
                                dir,
                                actsv,
                                conn0.outgoing_queue,
                            );
                            assert(self@ =~~= spec_client_handle(n0, mv).0);
                            assert(r@.map_values(|a: NetAction| a@) =~~= spec_client_handle(
                                n0,
                                mv,
                            ).1);
                            assert forall|k: int| 0 <= k < r@.len() implies wf_net_action(
                                #[trigger] r@[k]@,
                            ) by {
                                assert(r@[k]@ == r@.map_values(|a: NetAction| a@)[k]);
                            };
                        }
                        r
                    },
                }
            },
            _ => {
                let r: Vec<NetAction> = Vec::new();
                proof {
                    assert(r@.map_values(|a: NetAction| a@) =~= Seq::<NetActionV>::empty());
                }
                r
            },
        }
    }

    /// Answers one WebSocket event: a text frame is decoded and
    /// dispatched — a malformed one is dropped and the connection
    /// stays —; opening, closure and transport errors change nothing
    /// here.
    pub fn cb_msg(&mut self, msg: WSMessage) -> (r: Vec<NetAction>)
        requires
            wf_network(old(self)@),
        ensures
            wf_network(final(self)@),
            forall|i: int| 0 <= i < r@.len() ==> wf_net_action(#[trigger] r@[i]@),
            match msg@ {
                WSMessageV::MessageString(bytes) => match spec_decode(bytes) {
                    Some(m) => final(self)@ == spec_client_handle(old(self)@, m).0
                        && r@.map_values(|a: NetAction| a@) == spec_client_handle(
                        old(self)@,
                        m,
                    ).1,
                    None => final(self)@ == old(self)@ && r@.len() == 0,
                },
                _ => final(self)@ == old(self)@ && r@.len() == 0,
            },
    {
        match msg {
            WSMessage::MessageString(bytes) => {
                match decode(&bytes) {
                    Ok(wsm) => {
                        proof {
                            lemma_codec_unique_wire_form(bytes@);
                            assert(wf_msg(wsm.msg@));
                        }
                        self.process_msg(wsm.msg)
                    },
                    Err(_) => Vec::new(),
                }
            },
            _ => Vec::new(),
        }
    }

    /// The frame that asks the server for the roster.
    pub fn update_node_list(&self) -> (r: NetAction)
        ensures
            r@ == NetActionV::WsSend(WSSignalMessageV::ListIDsRequest),
            wf_net_action(r@),
    {
        NetAction::WsSend(WSSignalMessage::ListIDsRequest)
    }

    /// The frame that asks the server to drop its whole roster.
    pub fn clear_nodes(&self) -> (r: NetAction)
        ensures
            r@ == NetActionV::WsSend(WSSignalMessageV::ClearNodes),
            wf_net_action(r@),
    {
        NetAction::WsSend(WSSignalMessage::ClearNodes)
    }

    /// Addresses one frame to the signalling server.
    pub fn send_ws(&self, msg: WSSignalMessage) -> (r: NetAction)
        requires
            wf_msg(msg@),
        ensures
            r@ == NetActionV::WsSend(msg@),
            wf_net_action(r@),
    {
        NetAction::WsSend(msg)
    }

    /// A payload received on a live channel, handed on to the
    /// application.
    pub fn channel_message(&self, remote: &U256, payload: Vec<u8>) -> (r: NetAction)
        ensures
            r@ == NetActionV::Deliver(remote@, payload@),
    {
        NetAction::Deliver(*remote, payload)
    }

    /// The roster as last received, which never contains this node
    /// itself.
    pub fn get_list(&self) -> (r: Vec<NodeInfo>)
        requires
            wf_network(self@),
        ensures
            r@.map_values(|ni: NodeInfo| ni@) == self@.list,
            forall|i: int|
                0 <= i < r@.len() ==> (#[trigger] r@[i]@).public != self@.info.public,
    {
        let ghost lv = self@.list;
        let mut out: Vec<NodeInfo> = Vec::new();
        proof {
            assert(out@.map_values(|ni: NodeInfo| ni@) =~= lv.subrange(0, 0));
        }
        let mut i: usize = 0;
        while i < self.list.len()
            invariant
                i <= self.list.len(),
                lv == self@.list,
                out@.map_values(|ni: NodeInfo| ni@) == lv.subrange(0, i as int),
            decreases self.list.len() - i,
        {
            out.push(self.list[i].clone());
            proof {
                assert(out@.map_values(|ni: NodeInfo| ni@) =~= lv.subrange(0, i + 1));
            }
            i += 1;
        }
        proof {
            assert(lv.subrange(0, self.list@.len() as int) =~= lv);
            assert forall|k: int| 0 <= k < out@.len() implies (#[trigger] out@[k]@).public
                != self@.info.public by {
                assert(out@[k]@ == lv[k]);
            };
        }
        out
    }
}

/// Updating one key changes exactly that key's connection.
proof fn lemma_find_after_update(s: Seq<ConnEntryV>, id: Seq<u8>, c: NodeConnectionV)
    ensures
        conns_find(conns_update(s, id, c), id) == (if conns_has(s, id) {
            Some(c)
        } else {
            None::<NodeConnectionV>
        }),
    decreases s.len(),
{
    if s.len() != 0 {
        if s[0].remote == id {
            let r = seq![ConnEntryV { remote: id, conn: c }] + s.drop_first();
            assert(r[0] == ConnEntryV { remote: id, conn: c });
        } else {
            let r = seq![s[0]] + conns_update(s.drop_first(), id, c);
            assert(r[0] == s[0]);
            assert(r.drop_first() =~= conns_update(s.drop_first(), id, c));
            lemma_find_after_update(s.drop_first(), id, c);
        }
    }
}

/// A key appended to a table without it is found at the appended
/// entry.
proof fn lemma_find_push(s: Seq<ConnEntryV>, e: ConnEntryV)
    requires
        !conns_has(s, e.remote),
    ensures
        conns_find(s.push(e), e.remote) == Some(e.conn),
        conns_has(s.push(e), e.remote),
    decreases s.len(),
{
    if s.len() == 0 {
        assert(s.push(e)[0] == e);
    } else {
        assert(s.push(e)[0] == s[0]);
        assert(s.push(e).drop_first() =~= s.drop_first().push(e));
        lemma_find_push(s.drop_first(), e);
    }
}

/// Payloads sent towards one peer while no channel is live yet wait
/// in that connection's queue in submission order, and the queue
/// leaves for the channel in exactly that order when it opens: later
/// sends never overtake earlier ones.
pub proof fn lemma_queue_flush_order(
    n: NetworkV,
    dst: Seq<u8>,
    p1: Seq<u8>,
    p2: Seq<u8>,
    dir: ChannelDirection,
)
    requires
        wf_network(n),
        match conns_find(n.connections, dst) {
            Some(c) => !c.outgoing && !c.incoming,
            None => true,
        },
    ensures
        ({
            let n1 = spec_client_send(n, dst, p1).0;
            let n2 = spec_client_send(n1, dst, p2).0;
            match conns_find(n2.connections, dst) {
                Some(c2) => {
                    let q = c2.outgoing_queue;
                    let flush = spec_flush(dst, dir, q);
                    &&& q.len() >= 2
                    &&& q[q.len() - 2] == p1
                    &&& q[q.len() - 1] == p2
                    &&& flush.len() == q.len()
                    &&& forall|i: int|
                        0 <= i < q.len() ==> flush[i] == NetActionV::ChannelSend(
                            dst,
                            dir,
                            q[i],
                        )
                },
                None => false,
            }
        }),
{
    let conn0 = match conns_find(n.connections, dst) {
        Some(c) => c,
        None => empty_conn(),
    };
    let table = if conns_has(n.connections, dst) {
        n.connections
    } else {
        n.connections.push(ConnEntryV { remote: dst, conn: empty_conn() })
    };
    lemma_conns_find_has(n.connections, dst);
    if !conns_has(n.connections, dst) {
        lemma_find_push(n.connections, ConnEntryV { remote: dst, conn: empty_conn() });
    }
    let c1 = if conn0.outgoing_setup is Some || conn0.incoming_setup is Some {
        NodeConnectionV { outgoing_queue: conn0.outgoing_queue.push(p1), ..conn0 }
    } else {
        NodeConnectionV {
            outgoing_setup: Some(fresh_handshake(WebRTCConnectionState::Initializer)),
            outgoing_queue: conn0.outgoing_queue.push(p1),
            ..conn0
        }
    };
    let n1 = spec_client_send(n, dst, p1).0;
    if !conns_has(table, dst) {
        lemma_conns_has_push(n.connections, ConnEntryV { remote: dst, conn: empty_conn() }, dst);
    }
    lemma_find_after_update(table, dst, c1);
    assert(conns_find(n1.connections, dst) == Some(c1));
    let c2 = NodeConnectionV { outgoing_queue: c1.outgoing_queue.push(p2), ..c1 };
    lemma_find_after_update(n1.connections, dst, c2);
    lemma_conns_find_has(n1.connections, dst);
    let n2 = spec_client_send(n1, dst, p2).0;
    assert(conns_find(n2.connections, dst) == Some(c2));
    let q = c2.outgoing_queue;
    assert(q =~= conn0.outgoing_queue.push(p1).push(p2));
}

} // verus!
