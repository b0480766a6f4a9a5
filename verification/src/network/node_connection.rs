//! The per-remote-peer connection container.
//!
//! Both nodes of a pair may try to set up a connection at the same
//! time; that race is deliberate.  A [`NodeConnection`] therefore
//! keeps up to two half-sessions: the outgoing slot for the attempt
//! this node started, the incoming slot for the attempt the remote
//! node started.  Each slot holds at most one of a handshake in
//! progress or a live channel — never both.  Payloads sent before any
//! channel is live wait in `outgoing_queue` and flush in arrival
//! order once a channel opens.

use vstd::prelude::*;

use crate::errors::SignalError;
use crate::handshake::{
    spec_step, HandshakeEvent, HandshakeEventV, HandshakePhase, PeerHandshake, PeerHandshakeV,
    StepResult, StepResultV,
};
use crate::web_rtc::{PeerMessage, PeerMessageV, WebRTCConnectionState};

verus! {

/// Which slot of a [`NodeConnection`] a channel belongs to.
#[derive(Debug, Clone, Copy, PartialEq, Eq, Structural)]
pub enum ChannelDirection {
    Outgoing,
    Incoming,
}

/// What a [`NodeConnection`] currently offers for sending: a live
/// channel in some direction, or only a setup in progress.
#[derive(Debug, Clone, Copy, PartialEq, Eq, Structural)]
pub enum ConnectionType {
    Setup,
    Connection(ChannelDirection),
}

/// What became of one `send`: the payload goes out on a live channel
/// now, or it waits in the queue — behind a handshake that was
/// already running or one that this very send started.
#[derive(Debug, Clone, PartialEq)]
pub enum SendOutcome {
    Channel(ChannelDirection, Vec<u8>),
    Queued,
    QueuedAndStarted,
}

/// Mathematical model of a [`SendOutcome`].
#[verifier::ext_equal]
pub enum SendOutcomeV {
    Channel(ChannelDirection, Seq<u8>),
    Queued,
    QueuedAndStarted,
}

impl View for SendOutcome {
    type V = SendOutcomeV;

    open spec fn view(&self) -> SendOutcomeV {
        match self {
            SendOutcome::Channel(d, p) => SendOutcomeV::Channel(*d, p@),
            SendOutcome::Queued => SendOutcomeV::Queued,
            SendOutcome::QueuedAndStarted => SendOutcomeV::QueuedAndStarted,
        }
    }
}

/// The connections to one remote peer: an outgoing and an incoming
/// half-session, and the queue of payloads awaiting a live channel.
#[derive(Debug)]
pub struct NodeConnection {
    /// Whether the outgoing data channel is live.
    pub outgoing: bool,
    /// The outgoing handshake, while one is in progress.
    pub outgoing_setup: Option<PeerHandshake>,
    /// Payloads awaiting a live channel, in submission order.
    pub outgoing_queue: Vec<Vec<u8>>,
    /// Whether the incoming data channel is live.
    pub incoming: bool,
    /// The incoming handshake, while one is in progress.
    pub incoming_setup: Option<PeerHandshake>,
}

/// Mathematical model of a [`NodeConnection`].
#[verifier::ext_equal]
pub struct NodeConnectionV {
    pub outgoing: bool,
    pub outgoing_setup: Option<PeerHandshakeV>,
    pub outgoing_queue: Seq<Seq<u8>>,
    pub incoming: bool,
    pub incoming_setup: Option<PeerHandshakeV>,
}

impl View for NodeConnection {
    type V = NodeConnectionV;

    open spec fn view(&self) -> NodeConnectionV {
        NodeConnectionV {
            outgoing: self.outgoing,
            outgoing_setup: match &self.outgoing_setup {
                Some(h) => Some(h@),
                None => None,
            },
            outgoing_queue: self.outgoing_queue@.map_values(|p: Vec<u8>| p@),
            incoming: self.incoming,
            incoming_setup: match &self.incoming_setup {
                Some(h) => Some(h@),
                None => None,
            },
        }
    }
}

/// Each slot holds at most one of a handshake or a live channel: a
/// channel supersedes its handshake.
pub open spec fn wf_conn(s: NodeConnectionV) -> bool {
    &&& !(s.outgoing && s.outgoing_setup is Some)
    &&& !(s.incoming && s.incoming_setup is Some)
}

/// Whether a step's actions adopt a live channel.
pub open spec fn has_live(acts: Seq<StepResultV>) -> bool {
    exists|i: int| 0 <= i < acts.len() && acts[i] is Live
}

/// Whether a step's actions abandon the handshake.
pub open spec fn has_fail(acts: Seq<StepResultV>) -> bool {
    exists|i: int| 0 <= i < acts.len() && acts[i] is Fail
}

/// How one slot evolves under a handshake event: the handshake steps;
/// a `Live` outcome replaces it by the channel, a `Fail` outcome
/// clears the slot.
pub open spec fn spec_slot_step(chan: bool, slot: Option<PeerHandshakeV>, ev: HandshakeEventV) -> (
    bool,
    Option<PeerHandshakeV>,
    Seq<StepResultV>,
) {
    match slot {
        None => (chan, None, Seq::empty()),
        Some(h) => {
            let (h2, acts) = spec_step(h, ev);
            if has_live(acts) {
                (true, None, acts)
            } else if has_fail(acts) {
                (chan, None, acts)
            } else {
                (chan, Some(h2), acts)
            }
        },
    }
}

/// A fresh, not yet started handshake of the given role.
pub open spec fn fresh_handshake(role: WebRTCConnectionState) -> PeerHandshakeV {
    PeerHandshakeV {
        role,
        phase: HandshakePhase::Idle,
        remote_sdp_applied: false,
        pending_ice: Seq::empty(),
    }
}

/// How the incoming slot answers a relayed handshake frame.  A first
/// `Offer` creates the follower handshake; a later `Offer` replaces a
/// stale one; any other frame without a handshake in place is a
/// protocol violation — nothing is created and nothing emitted.
pub open spec fn spec_process_incoming(s: NodeConnectionV, m: PeerMessageV) -> Result<
    (NodeConnectionV, Seq<StepResultV>),
    SignalError,
> {
    if m is Offer {
        let (chan, slot, acts) = spec_slot_step(
            false,
            Some(fresh_handshake(WebRTCConnectionState::Follower)),
            HandshakeEventV::Remote(m),
        );
        Ok((NodeConnectionV { incoming: chan, incoming_setup: slot, ..s }, acts))
    } else if s.incoming_setup is Some {
        let (chan, slot, acts) = spec_slot_step(
            s.incoming,
            s.incoming_setup,
            HandshakeEventV::Remote(m),
        );
        Ok((NodeConnectionV { incoming: chan, incoming_setup: slot, ..s }, acts))
    } else {
        Err(SignalError::ProtocolViolation)
    }
}

/// How the outgoing slot answers a frame, or the local `Init`
/// trigger.  `Init` without a handshake starts one; any other frame
/// without a handshake is a protocol violation.
pub open spec fn spec_process_outgoing(s: NodeConnectionV, m: PeerMessageV) -> Result<
    (NodeConnectionV, Seq<StepResultV>),
    SignalError,
> {
    if s.outgoing_setup is Some {
        let (chan, slot, acts) = spec_slot_step(
            s.outgoing,
            s.outgoing_setup,
            HandshakeEventV::Remote(m),
        );
        Ok((NodeConnectionV { outgoing: chan, outgoing_setup: slot, ..s }, acts))
    } else if m is Init {
        let (chan, slot, acts) = spec_slot_step(
            false,
            Some(fresh_handshake(WebRTCConnectionState::Initializer)),
            HandshakeEventV::Start,
        );
        Ok((NodeConnectionV { outgoing: chan, outgoing_setup: slot, ..s }, acts))
    } else {
        Err(SignalError::ProtocolViolation)
    }
}

/// Whether any action in the list is `Live`.
fn contains_live(v: &Vec<StepResult>) -> (r: bool)
    ensures
        r == has_live(v@.map_values(|a: StepResult| a@)),
{
    let ghost av = v@.map_values(|a: StepResult| a@);
    let mut i: usize = 0;
    while i < v.len()
        invariant
            i <= v.len(),
            forall|j: int| 0 <= j < i ==> !(av[j] is Live),
        decreases v.len() - i,
    {
        if matches!(v[i], StepResult::Live) {
            assert(av[i as int] is Live);
            return true;
        }
        i += 1;
    }
    false
}

/// Whether any action in the list is `Fail`.
fn contains_fail(v: &Vec<StepResult>) -> (r: bool)
    ensures
        r == has_fail(v@.map_values(|a: StepResult| a@)),
{
    let ghost av = v@.map_values(|a: StepResult| a@);
    let mut i: usize = 0;
    while i < v.len()
        invariant
            i <= v.len(),
            forall|j: int| 0 <= j < i ==> !(av[j] is Fail),
        decreases v.len() - i,
    {
        if matches!(v[i], StepResult::Fail) {
            assert(av[i as int] is Fail);
            return true;
        }
        i += 1;
    }
    false
}

impl NodeConnection {
    /// A fresh container: no channels, no handshakes, empty queue.
    pub fn new() -> (r: NodeConnection)
        ensures
            r@ == (NodeConnectionV {
                outgoing: false,
                outgoing_setup: None,
                outgoing_queue: Seq::empty(),
                incoming: false,
                incoming_setup: None,
            }),
            wf_conn(r@),
    {
        let r = NodeConnection {
            outgoing: false,
            outgoing_setup: None,
            outgoing_queue: Vec::new(),
            incoming: false,
            incoming_setup: None,
        };
        proof {
            assert(r.outgoing_queue@.map_values(|p: Vec<u8>| p@) =~= Seq::<Seq<u8>>::empty());
        }
        r
    }

    /// What this connection offers for sending right now: the
    /// outgoing channel first, then the incoming one, then a mere
    /// setup, then nothing.
    pub fn get_connection(&self) -> (r: Option<ConnectionType>)
        ensures
            r == (if self@.outgoing {
                Some(ConnectionType::Connection(ChannelDirection::Outgoing))
            } else if self@.incoming {
                Some(ConnectionType::Connection(ChannelDirection::Incoming))
            } else if self@.outgoing_setup is Some || self@.incoming_setup is Some {
                Some(ConnectionType::Setup)
            } else {
                None
            }),
    {
        if self.outgoing {
            return Some(ConnectionType::Connection(ChannelDirection::Outgoing));
        }
        if self.incoming {
            return Some(ConnectionType::Connection(ChannelDirection::Incoming));
        }
        if self.outgoing_setup.is_some() || self.incoming_setup.is_some() {
            return Some(ConnectionType::Setup);
        }
        None
    }

    /// A fresh handshake of the given role, ready to be put into a
    /// slot.
    pub fn get_setup(&self, state: WebRTCConnectionState) -> (r: PeerHandshake)
        ensures
            r@ == fresh_handshake(state),
    {
        PeerHandshake::new(state)
    }

    /// Sends one payload: out through a live channel if one exists
    /// (outgoing preferred), otherwise into the queue — starting an
    /// outgoing handshake first if none is under way.
    pub fn send(&mut self, msg: Vec<u8>) -> (r: SendOutcome)
        requires
            wf_conn(old(self)@),
        ensures
            wf_conn(final(self)@),
            old(self)@.outgoing ==> final(self)@ == old(self)@ && r@ == SendOutcomeV::Channel(
                ChannelDirection::Outgoing,
                msg@,
            ),
            !old(self)@.outgoing && old(self)@.incoming ==> final(self)@ == old(self)@ && r@
                == SendOutcomeV::Channel(ChannelDirection::Incoming, msg@),
            !old(self)@.outgoing && !old(self)@.incoming && (old(self)@.outgoing_setup is Some
                || old(self)@.incoming_setup is Some) ==> final(self)@ == (NodeConnectionV {
                outgoing_queue: old(self)@.outgoing_queue.push(msg@),
                ..old(self)@
            }) && r@ == SendOutcomeV::Queued,
            !old(self)@.outgoing && !old(self)@.incoming && old(self)@.outgoing_setup is None && old(
                self,
            )@.incoming_setup is None ==> final(self)@ == (NodeConnectionV {
                outgoing_setup: Some(fresh_handshake(WebRTCConnectionState::Initializer)),
                outgoing_queue: old(self)@.outgoing_queue.push(msg@),
                ..old(self)@
            }) && r@ == SendOutcomeV::QueuedAndStarted,
    {
        let ghost mv = msg@;
        if self.outgoing {
            return SendOutcome::Channel(ChannelDirection::Outgoing, msg);
        }
        if self.incoming {
            return SendOutcome::Channel(ChannelDirection::Incoming, msg);
        }
        let started = if self.outgoing_setup.is_none() && self.incoming_setup.is_none() {
            self.outgoing_setup = Some(
                PeerHandshake::new(WebRTCConnectionState::Initializer),
            );
            true
        } else {
            false
        };
        self.outgoing_queue.push(msg);
        proof {
            assert(self.outgoing_queue@.map_values(|p: Vec<u8>| p@) =~= old(
                self,
            )@.outgoing_queue.push(mv));
        }
        if started {
            SendOutcome::QueuedAndStarted
        } else {
            SendOutcome::Queued
        }
    }

    /// Steps the handshake in one slot with an event from the host or
    /// the WebRTC stack.  A `Live` outcome adopts the channel, a
    /// `Fail` outcome clears only this slot; the queue stays.
    pub fn handle_setup_event(&mut self, dir: ChannelDirection, ev: HandshakeEvent) -> (r: Vec<
        StepResult,
    >)
        requires
            wf_conn(old(self)@),
        ensures
            wf_conn(final(self)@),
            dir is Incoming ==> ({
                let (chan, slot, acts) = spec_slot_step(
                    old(self)@.incoming,
                    old(self)@.incoming_setup,
                    ev@,
                );
                final(self)@ == (NodeConnectionV {
                    incoming: chan,
                    incoming_setup: slot,
                    ..old(self)@
                }) && r@.map_values(|a: StepResult| a@) == acts
            }),
            dir is Outgoing ==> ({
                let (chan, slot, acts) = spec_slot_step(
                    old(self)@.outgoing,
                    old(self)@.outgoing_setup,
                    ev@,
                );
                final(self)@ == (NodeConnectionV {
                    outgoing: chan,
                    outgoing_setup: slot,
                    ..old(self)@
                }) && r@.map_values(|a: StepResult| a@) == acts
            }),
    {
        match dir {
            ChannelDirection::Incoming => {
                let acts = match self.incoming_setup.as_mut() {
                    None => {
                        let empty: Vec<StepResult> = Vec::new();
                        proof {
                            assert(empty@.map_values(|a: StepResult| a@) =~= Seq::<
                                StepResultV,
                            >::empty());
                        }
                        return empty;
                    },
                    Some(h) => h.step(ev),
                };
                if contains_live(&acts) {
                    self.incoming_setup = None;
                    self.incoming = true;
                } else if contains_fail(&acts) {
                    self.incoming_setup = None;
                }
                acts
            },
            ChannelDirection::Outgoing => {
                let acts = match self.outgoing_setup.as_mut() {
                    None => {
                        let empty: Vec<StepResult> = Vec::new();
                        proof {
                            assert(empty@.map_values(|a: StepResult| a@) =~= Seq::<
                                StepResultV,
                            >::empty());
                        }
                        return empty;
                    },
                    Some(h) => h.step(ev),
                };
                if contains_live(&acts) {
                    self.outgoing_setup = None;
                    self.outgoing = true;
                } else if contains_fail(&acts) {
                    self.outgoing_setup = None;
                }
                acts
            },
        }
    }

    /// Answers a relayed handshake frame, routed to the incoming slot
    /// when the remote node initiated this handshake, to the outgoing
    /// slot otherwise.
    pub fn process_peer_setup(&mut self, pi_message: PeerMessage, remote: bool) -> (r: Result<
        Vec<StepResult>,
        SignalError,
    >)
        requires
            wf_conn(old(self)@),
        ensures
            wf_conn(final(self)@),
            ({
                let spec_r = if remote {
                    spec_process_incoming(old(self)@, pi_message@)
                } else {
                    spec_process_outgoing(old(self)@, pi_message@)
                };
                match r {
                    Ok(acts) => spec_r is Ok && final(self)@ == spec_r->Ok_0.0
                        && acts@.map_values(|a: StepResult| a@) == spec_r->Ok_0.1,
                    Err(e) => spec_r == Err::<(NodeConnectionV, Seq<StepResultV>), SignalError>(e)
                        && final(self)@ == old(self)@,
                }
            }),
    {
        if remote {
            self.process_peer_setup_incoming(pi_message)
        } else {
            self.process_peer_setup_outgoing(pi_message)
        }
    }

    /// Answers a frame for the incoming (remote-initiated) handshake.
    /// An `Offer` always installs a fresh follower handshake: a
    /// handshake already in the slot is stale and is replaced, and a
    /// previously live incoming channel is superseded as well.  Any
    /// other frame without a handshake in place is a protocol
    /// violation: nothing is created and nothing is emitted back.
    pub fn process_peer_setup_incoming(&mut self, pi_message: PeerMessage) -> (r: Result<
        Vec<StepResult>,
        SignalError,
    >)
        requires
            wf_conn(old(self)@),
        ensures
            wf_conn(final(self)@),
            ({
                let spec_r = spec_process_incoming(old(self)@, pi_message@);
                match r {
                    Ok(acts) => spec_r is Ok && final(self)@ == spec_r->Ok_0.0
                        && acts@.map_values(|a: StepResult| a@) == spec_r->Ok_0.1,
                    Err(e) => spec_r == Err::<(NodeConnectionV, Seq<StepResultV>), SignalError>(e)
                        && final(self)@ == old(self)@,
                }
            }),
    {
        if matches!(pi_message, PeerMessage::Offer(_)) {
            self.incoming = false;
            self.incoming_setup = Some(PeerHandshake::new(WebRTCConnectionState::Follower));
            Ok(self.handle_setup_event(
                ChannelDirection::Incoming,
                HandshakeEvent::Remote(pi_message),
            ))
        } else if self.incoming_setup.is_some() {
            Ok(self.handle_setup_event(
                ChannelDirection::Incoming,
                HandshakeEvent::Remote(pi_message),
            ))
        } else {
            Err(SignalError::ProtocolViolation)
        }
    }

    /// Answers a frame for the outgoing (locally initiated)
    /// handshake.  The local `Init` trigger starts a fresh one when no
    /// handshake is under way, superseding a previously live outgoing
    /// channel; any other frame without a handshake is a protocol
    /// violation.
    pub fn process_peer_setup_outgoing(&mut self, pi_message: PeerMessage) -> (r: Result<
        Vec<StepResult>,
        SignalError,
    >)
        requires
            wf_conn(old(self)@),
        ensures
            wf_conn(final(self)@),
            ({
                let spec_r = spec_process_outgoing(old(self)@, pi_message@);
                match r {
                    Ok(acts) => spec_r is Ok && final(self)@ == spec_r->Ok_0.0
                        && acts@.map_values(|a: StepResult| a@) == spec_r->Ok_0.1,
                    Err(e) => spec_r == Err::<(NodeConnectionV, Seq<StepResultV>), SignalError>(e)
                        && final(self)@ == old(self)@,
                }
            }),
    {
        if self.outgoing_setup.is_some() {
            Ok(self.handle_setup_event(
                ChannelDirection::Outgoing,
                HandshakeEvent::Remote(pi_message),
            ))
        } else if matches!(pi_message, PeerMessage::Init) {
            self.outgoing = false;
            self.outgoing_setup = Some(
                PeerHandshake::new(WebRTCConnectionState::Initializer),
            );
            Ok(self.handle_setup_event(ChannelDirection::Outgoing, HandshakeEvent::Start))
        } else {
            Err(SignalError::ProtocolViolation)
        }
    }

    /// Flushes the queue into the now-live channel: returns every
    /// queued payload in submission order and clears the queue.
    pub fn on_channel_open(&mut self) -> (r: Vec<Vec<u8>>)
        requires
            wf_conn(old(self)@),
        ensures
            wf_conn(final(self)@),
            r@.map_values(|p: Vec<u8>| p@) == old(self)@.outgoing_queue,
            final(self)@ == (NodeConnectionV { outgoing_queue: Seq::empty(), ..old(self)@ }),
    {
        let mut q: Vec<Vec<u8>> = Vec::new();
        core::mem::swap(&mut q, &mut self.outgoing_queue);
        proof {
            assert(self.outgoing_queue@.map_values(|p: Vec<u8>| p@) =~= Seq::<Seq<u8>>::empty());
        }
        q
    }
}

} // verus!
