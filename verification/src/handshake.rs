//! One side of the WebRTC setup state machine.
//!
//! A [`PeerHandshake`] consumes events — handshake frames from the
//! remote node and completions from the local WebRTC stack — and
//! returns the actions the host must perform: calls into the WebRTC
//! stack, frames to emit towards the remote node, or the verdict that
//! the channel is live or the handshake failed.  The machine itself
//! performs no I/O; [`spec_step`] is its complete transition table.

use vstd::prelude::*;

use crate::web_rtc::{PeerMessage, PeerMessageV, WebRTCConnectionState};

verus! {

/// Where a handshake stands.
#[derive(Debug, Clone, Copy, PartialEq, Eq, Structural)]
pub enum HandshakePhase {
    Idle,
    OfferSent,
    AnswerSent,
    IceExchange,
    Live,
    Failed,
}

/// What a handshake reacts to: a frame from the remote node, or a
/// completion from the local WebRTC stack.
#[derive(Debug, Clone, PartialEq)]
pub enum HandshakeEvent {
    /// The local decision to start an outgoing handshake.
    Start,
    /// A handshake frame relayed from the remote node.
    Remote(PeerMessage),
    /// The own SDP the WebRTC stack produced (offer or answer).
    LocalSdp(Vec<u8>),
    /// The remote answer has been installed.
    AnswerApplied,
    /// An own ICE candidate became available.
    LocalIce(Vec<u8>),
    /// ICE gathering has completed.
    GatheringComplete,
    /// The data channel has opened.
    ChannelOpen,
}

/// Mathematical model of a [`HandshakeEvent`].
#[verifier::ext_equal]
pub enum HandshakeEventV {
    Start,
    Remote(PeerMessageV),
    LocalSdp(Seq<u8>),
    AnswerApplied,
    LocalIce(Seq<u8>),
    GatheringComplete,
    ChannelOpen,
}

impl View for HandshakeEvent {
    type V = HandshakeEventV;

    open spec fn view(&self) -> HandshakeEventV {
        match self {
            HandshakeEvent::Start => HandshakeEventV::Start,
            HandshakeEvent::Remote(m) => HandshakeEventV::Remote(m@),
            HandshakeEvent::LocalSdp(s) => HandshakeEventV::LocalSdp(s@),
            HandshakeEvent::AnswerApplied => HandshakeEventV::AnswerApplied,
            HandshakeEvent::LocalIce(c) => HandshakeEventV::LocalIce(c@),
            HandshakeEvent::GatheringComplete => HandshakeEventV::GatheringComplete,
            HandshakeEvent::ChannelOpen => HandshakeEventV::ChannelOpen,
        }
    }
}

/// What one step of the handshake asks of the host.
#[derive(Debug, Clone, PartialEq)]
pub enum StepResult {
    /// Ask the WebRTC stack for an offer.
    CallMakeOffer,
    /// Ask the WebRTC stack for an answer to this offer.
    CallMakeAnswer(Vec<u8>),
    /// Install this remote answer in the WebRTC stack.
    CallUseAnswer(Vec<u8>),
    /// Hand this remote ICE candidate to the WebRTC stack.
    CallIcePut(Vec<u8>),
    /// Send this frame to the remote node.
    Emit(PeerMessage),
    /// The setup is complete; adopt the data channel.
    Live,
    /// A benign duplicate or an event for a finished handshake.
    Ignore,
    /// The handshake is broken; discard it.
    Fail,
}

/// Mathematical model of a [`StepResult`].
#[verifier::ext_equal]
pub enum StepResultV {
    CallMakeOffer,
    CallMakeAnswer(Seq<u8>),
    CallUseAnswer(Seq<u8>),
    CallIcePut(Seq<u8>),
    Emit(PeerMessageV),
    Live,
    Ignore,
    Fail,
}

impl View for StepResult {
    type V = StepResultV;

    open spec fn view(&self) -> StepResultV {
        match self {
            StepResult::CallMakeOffer => StepResultV::CallMakeOffer,
            StepResult::CallMakeAnswer(s) => StepResultV::CallMakeAnswer(s@),
            StepResult::CallUseAnswer(s) => StepResultV::CallUseAnswer(s@),
            StepResult::CallIcePut(s) => StepResultV::CallIcePut(s@),
            StepResult::Emit(m) => StepResultV::Emit(m@),
            StepResult::Live => StepResultV::Live,
            StepResult::Ignore => StepResultV::Ignore,
            StepResult::Fail => StepResultV::Fail,
        }
    }
}

/// One side of a WebRTC setup in progress.
#[derive(Debug)]
pub struct PeerHandshake {
    /// Whether this side offers or answers.
    pub role: WebRTCConnectionState,
    /// Where the handshake stands.
    pub phase: HandshakePhase,
    /// Whether the remote SDP has been installed: the answer for an
    /// `Initializer`, the offer for a `Follower`.
    pub remote_sdp_applied: bool,
    /// Remote ICE candidates that arrived before the remote SDP was
    /// installed, in arrival order.
    pub pending_ice: Vec<Vec<u8>>,
}

/// Mathematical model of a [`PeerHandshake`].
#[verifier::ext_equal]
pub struct PeerHandshakeV {
    pub role: WebRTCConnectionState,
    pub phase: HandshakePhase,
    pub remote_sdp_applied: bool,
    pub pending_ice: Seq<Seq<u8>>,
}

impl View for PeerHandshake {
    type V = PeerHandshakeV;

    open spec fn view(&self) -> PeerHandshakeV {
        PeerHandshakeV {
            role: self.role,
            phase: self.phase,
            remote_sdp_applied: self.remote_sdp_applied,
            pending_ice: self.pending_ice@.map_values(|c: Vec<u8>| c@),
        }
    }
}

/// The buffered candidates, replayed in arrival order.
pub open spec fn ice_replay(pending: Seq<Seq<u8>>) -> Seq<StepResultV> {
    pending.map_values(|c: Seq<u8>| StepResultV::CallIcePut(c))
}

/// The `Initializer` half of the transition table.
pub open spec fn spec_step_initializer(s: PeerHandshakeV, ev: HandshakeEventV) -> (
    PeerHandshakeV,
    Seq<StepResultV>,
) {
    match ev {
        HandshakeEventV::Start => if s.phase is Idle {
            (s, seq![StepResultV::CallMakeOffer])
        } else {
            (s, seq![StepResultV::Ignore])
        },
        HandshakeEventV::LocalSdp(sdp) => if s.phase is Idle {
            (
                PeerHandshakeV { phase: HandshakePhase::OfferSent, ..s },
                seq![StepResultV::Emit(PeerMessageV::Offer(sdp))],
            )
        } else {
            (s, seq![StepResultV::Ignore])
        },
        HandshakeEventV::Remote(m) => match m {
            PeerMessageV::Answer(a) => if s.phase is OfferSent && !s.remote_sdp_applied {
                (s, seq![StepResultV::CallUseAnswer(a)])
            } else {
                (s, seq![StepResultV::Ignore])
            },
            PeerMessageV::IceFollow(c) => if s.phase is Live || s.phase is Failed {
                (s, seq![StepResultV::Ignore])
            } else if s.remote_sdp_applied {
                (s, seq![StepResultV::CallIcePut(c)])
            } else {
                (
                    PeerHandshakeV { pending_ice: s.pending_ice.push(c), ..s },
                    Seq::<StepResultV>::empty(),
                )
            },
            PeerMessageV::Done => (s, seq![StepResultV::Ignore]),
            _ => if s.phase is Live {
                (s, seq![StepResultV::Ignore])
            } else {
                (
                    PeerHandshakeV { phase: HandshakePhase::Failed, ..s },
                    seq![StepResultV::Fail],
                )
            },
        },
        HandshakeEventV::AnswerApplied => if s.phase is OfferSent {
            (
                PeerHandshakeV {
                    phase: HandshakePhase::IceExchange,
                    remote_sdp_applied: true,
                    pending_ice: Seq::empty(),
                    ..s
                },
                ice_replay(s.pending_ice),
            )
        } else {
            (s, seq![StepResultV::Ignore])
        },
        HandshakeEventV::LocalIce(c) => if s.phase is IceExchange {
            (s, seq![StepResultV::Emit(PeerMessageV::IceInit(c))])
        } else {
            (s, seq![StepResultV::Ignore])
        },
        HandshakeEventV::GatheringComplete => if s.phase is IceExchange {
            (s, seq![StepResultV::Emit(PeerMessageV::Done)])
        } else {
            (s, seq![StepResultV::Ignore])
        },
        HandshakeEventV::ChannelOpen => if s.phase is IceExchange {
            (
                PeerHandshakeV { phase: HandshakePhase::Live, ..s },
                seq![StepResultV::Live, StepResultV::Emit(PeerMessageV::Done)],
            )
        } else {
            (s, seq![StepResultV::Ignore])
        },
    }
}

/// The `Follower` half of the transition table.
pub open spec fn spec_step_follower(s: PeerHandshakeV, ev: HandshakeEventV) -> (
    PeerHandshakeV,
    Seq<StepResultV>,
) {
    match ev {
        HandshakeEventV::Start => (s, seq![StepResultV::Ignore]),
        HandshakeEventV::Remote(m) => match m {
            PeerMessageV::Offer(o) => if s.phase is Idle && !s.remote_sdp_applied {
                (
                    PeerHandshakeV { remote_sdp_applied: true, ..s },
                    seq![StepResultV::CallMakeAnswer(o)],
                )
            } else {
                (s, seq![StepResultV::Ignore])
            },
            PeerMessageV::IceInit(c) => if s.phase is Idle && !s.remote_sdp_applied {
                (
                    PeerHandshakeV { phase: HandshakePhase::Failed, ..s },
                    seq![StepResultV::Fail],
                )
            } else if s.phase is Idle {
                (
                    PeerHandshakeV { pending_ice: s.pending_ice.push(c), ..s },
                    Seq::<StepResultV>::empty(),
                )
            } else if s.phase is AnswerSent {
                (
                    PeerHandshakeV { phase: HandshakePhase::IceExchange, ..s },
                    seq![StepResultV::CallIcePut(c)],
                )
            } else if s.phase is IceExchange {
                (s, seq![StepResultV::CallIcePut(c)])
            } else {
                (s, seq![StepResultV::Ignore])
            },
            PeerMessageV::Done => if s.phase is Idle && !s.remote_sdp_applied {
                (
                    PeerHandshakeV { phase: HandshakePhase::Failed, ..s },
                    seq![StepResultV::Fail],
                )
            } else {
                (s, seq![StepResultV::Ignore])
            },
            _ => if s.phase is Live {
                (s, seq![StepResultV::Ignore])
            } else {
                (
                    PeerHandshakeV { phase: HandshakePhase::Failed, ..s },
                    seq![StepResultV::Fail],
                )
            },
        },
        HandshakeEventV::LocalSdp(a) => if s.phase is Idle && s.remote_sdp_applied {
            (
                PeerHandshakeV {
                    phase: HandshakePhase::AnswerSent,
                    pending_ice: Seq::empty(),
                    ..s
                },
                ice_replay(s.pending_ice) + seq![StepResultV::Emit(PeerMessageV::Answer(a))],
            )
        } else {
            (s, seq![StepResultV::Ignore])
        },
        HandshakeEventV::AnswerApplied => (s, seq![StepResultV::Ignore]),
        HandshakeEventV::LocalIce(c) => if s.phase is IceExchange {
            (s, seq![StepResultV::Emit(PeerMessageV::IceFollow(c))])
        } else {
            (s, seq![StepResultV::Ignore])
        },
        HandshakeEventV::GatheringComplete => (s, seq![StepResultV::Ignore]),
        HandshakeEventV::ChannelOpen => if s.phase is IceExchange {
            (PeerHandshakeV { phase: HandshakePhase::Live, ..s }, seq![StepResultV::Live])
        } else {
            (s, seq![StepResultV::Ignore])
        },
    }
}

/// The complete transition table of one handshake side: the next state
/// and the actions the host must perform, for every state and event.
pub open spec fn spec_step(s: PeerHandshakeV, ev: HandshakeEventV) -> (
    PeerHandshakeV,
    Seq<StepResultV>,
) {
    match s.role {
        WebRTCConnectionState::Initializer => spec_step_initializer(s, ev),
        WebRTCConnectionState::Follower => spec_step_follower(s, ev),
    }
}

impl PeerHandshake {
    /// A fresh handshake for the given role, not yet started.
    pub fn new(role: WebRTCConnectionState) -> (r: PeerHandshake)
        ensures
            r@ == (PeerHandshakeV {
                role,
                phase: HandshakePhase::Idle,
                remote_sdp_applied: false,
                pending_ice: Seq::empty(),
            }),
    {
        let r = PeerHandshake {
            role,
            phase: HandshakePhase::Idle,
            remote_sdp_applied: false,
            pending_ice: Vec::new(),
        };
        proof {
            assert(r.pending_ice@.map_values(|c: Vec<u8>| c@) =~= Seq::<Seq<u8>>::empty());
        }
        r
    }

    /// Buffers one remote candidate.
    fn buffer_ice(&mut self, c: Vec<u8>)
        ensures
            final(self)@ == (PeerHandshakeV {
                pending_ice: old(self)@.pending_ice.push(c@),
                ..old(self)@
            }),
    {
        let ghost cv = c@;
        self.pending_ice.push(c);
        proof {
            assert(self.pending_ice@.map_values(|x: Vec<u8>| x@) =~= old(
                self,
            )@.pending_ice.push(cv));
        }
    }

    /// Empties the buffer and turns it into `CallIcePut` actions, in
    /// arrival order.
    fn drain_ice(&mut self) -> (r: Vec<StepResult>)
        ensures
            final(self)@ == (PeerHandshakeV { pending_ice: Seq::empty(), ..old(self)@ }),
            r@.map_values(|a: StepResult| a@) == ice_replay(old(self)@.pending_ice),
    {
        let mut pending: Vec<Vec<u8>> = Vec::new();
        core::mem::swap(&mut pending, &mut self.pending_ice);
        proof {
            assert(self.pending_ice@.map_values(|x: Vec<u8>| x@) =~= Seq::<Seq<u8>>::empty());
        }
        let mut out: Vec<StepResult> = Vec::new();
        let mut i: usize = 0;
        while i < pending.len()
            invariant
                i <= pending.len(),
                out@.map_values(|a: StepResult| a@) =~= ice_replay(
                    pending@.map_values(|x: Vec<u8>| x@).subrange(0, i as int),
                ),
            decreases pending.len() - i,
        {
            let c = pending[i].clone();
            assert(c@ == pending@.map_values(|x: Vec<u8>| x@)[i as int]);
            out.push(StepResult::CallIcePut(c));
            proof {
                let pv = pending@.map_values(|x: Vec<u8>| x@);
                assert(pv.subrange(0, i + 1) =~= pv.subrange(0, i as int).push(pv[i as int]));
                assert(ice_replay(pv.subrange(0, i as int).push(pv[i as int])) =~= ice_replay(
                    pv.subrange(0, i as int),
                ).push(StepResultV::CallIcePut(pv[i as int])));
                assert(out@.map_values(|a: StepResult| a@) =~= ice_replay(
                    pv.subrange(0, i + 1),
                ));
            }
            i += 1;
        }
        proof {
            let pv = pending@.map_values(|x: Vec<u8>| x@);
            assert(pv.subrange(0, pv.len() as int) =~= pv);
        }
        out
    }

    /// Feeds one event through the transition table; returns the
    /// actions the host must perform, in order.
    pub fn step(&mut self, ev: HandshakeEvent) -> (r: Vec<StepResult>)
        ensures
            ({
                let (s2, acts) = spec_step(old(self)@, ev@);
                final(self)@ == s2 && r@.map_values(|a: StepResult| a@) == acts
            }),
    {
        match self.role {
            WebRTCConnectionState::Initializer => self.step_initializer(ev),
            WebRTCConnectionState::Follower => self.step_follower(ev),
        }
    }

    /// The `Initializer` half of [`PeerHandshake::step`].
    fn step_initializer(&mut self, ev: HandshakeEvent) -> (r: Vec<StepResult>)
        requires
            old(self).role is Initializer,
        ensures
            ({
                let (s2, acts) = spec_step_initializer(old(self)@, ev@);
                final(self)@ == s2 && r@.map_values(|a: StepResult| a@) == acts
            }),
    {
        match ev {
            HandshakeEvent::Start => {
                match self.phase {
                    HandshakePhase::Idle => self.one(StepResult::CallMakeOffer),
                    _ => self.one(StepResult::Ignore),
                }
            },
            HandshakeEvent::LocalSdp(sdp) => {
                match self.phase {
                    HandshakePhase::Idle => {
                        self.phase = HandshakePhase::OfferSent;
                        self.one(StepResult::Emit(PeerMessage::Offer(sdp)))
                    },
                    _ => self.one(StepResult::Ignore),
                }
            },
            HandshakeEvent::Remote(m) => {
                match m {
                    PeerMessage::Answer(a) => {
                        if matches!(self.phase, HandshakePhase::OfferSent)
                            && !self.remote_sdp_applied {
                            self.one(StepResult::CallUseAnswer(a))
                        } else {
                            self.one(StepResult::Ignore)
                        }
                    },
                    PeerMessage::IceFollow(c) => {
                        if matches!(self.phase, HandshakePhase::Live)
                            || matches!(self.phase, HandshakePhase::Failed) {
                            self.one(StepResult::Ignore)
                        } else if self.remote_sdp_applied {
                            self.one(StepResult::CallIcePut(c))
                        } else {
                            self.buffer_ice(c);
                            Vec::new()
                        }
                    },
                    PeerMessage::Done => self.one(StepResult::Ignore),
                    _ => {
                        if matches!(self.phase, HandshakePhase::Live) {
                            self.one(StepResult::Ignore)
                        } else {
                            self.phase = HandshakePhase::Failed;
                            self.one(StepResult::Fail)
                        }
                    },
                }
            },
            HandshakeEvent::AnswerApplied => {
                match self.phase {
                    HandshakePhase::OfferSent => {
                        self.phase = HandshakePhase::IceExchange;
                        self.remote_sdp_applied = true;
                        self.drain_ice()
                    },
                    _ => self.one(StepResult::Ignore),
                }
            },
            HandshakeEvent::LocalIce(c) => {
                match self.phase {
                    HandshakePhase::IceExchange => self.one(
                        StepResult::Emit(PeerMessage::IceInit(c)),
                    ),
                    _ => self.one(StepResult::Ignore),
                }
            },
            HandshakeEvent::GatheringComplete => {
                match self.phase {
                    HandshakePhase::IceExchange => self.one(
                        StepResult::Emit(PeerMessage::Done),
                    ),
                    _ => self.one(StepResult::Ignore),
                }
            },
            HandshakeEvent::ChannelOpen => {
                match self.phase {
                    HandshakePhase::IceExchange => {
                        self.phase = HandshakePhase::Live;
                        self.two(StepResult::Live, StepResult::Emit(PeerMessage::Done))
                    },
                    _ => self.one(StepResult::Ignore),
                }
            },
        }
    }

    /// The `Follower` half of [`PeerHandshake::step`].
    fn step_follower(&mut self, ev: HandshakeEvent) -> (r: Vec<StepResult>)
        requires
            old(self).role is Follower,
        ensures
            ({
                let (s2, acts) = spec_step_follower(old(self)@, ev@);
                final(self)@ == s2 && r@.map_values(|a: StepResult| a@) == acts
            }),
    {
        match ev {
            HandshakeEvent::Start => self.one(StepResult::Ignore),
            HandshakeEvent::Remote(m) => {
                match m {
                    PeerMessage::Offer(o) => {
                        if matches!(self.phase, HandshakePhase::Idle)
                            && !self.remote_sdp_applied {
                            self.remote_sdp_applied = true;
                            self.one(StepResult::CallMakeAnswer(o))
                        } else {
                            self.one(StepResult::Ignore)
                        }
                    },
                    PeerMessage::IceInit(c) => {
                        if matches!(self.phase, HandshakePhase::Idle)
                            && !self.remote_sdp_applied {
                            self.phase = HandshakePhase::Failed;
                            self.one(StepResult::Fail)
                        } else if matches!(self.phase, HandshakePhase::Idle) {
                            self.buffer_ice(c);
                            Vec::new()
                        } else if matches!(self.phase, HandshakePhase::AnswerSent) {
                            self.phase = HandshakePhase::IceExchange;
                            self.one(StepResult::CallIcePut(c))
                        } else if matches!(self.phase, HandshakePhase::IceExchange) {
                            self.one(StepResult::CallIcePut(c))
                        } else {
                            self.one(StepResult::Ignore)
                        }
                    },
                    PeerMessage::Done => {
                        if matches!(self.phase, HandshakePhase::Idle)
                            && !self.remote_sdp_applied {
                            self.phase = HandshakePhase::Failed;
                            self.one(StepResult::Fail)
                        } else {
                            self.one(StepResult::Ignore)
                        }
                    },
                    _ => {
                        if matches!(self.phase, HandshakePhase::Live) {
                            self.one(StepResult::Ignore)
                        } else {
                            self.phase = HandshakePhase::Failed;
                            self.one(StepResult::Fail)
                        }
                    },
                }
            },
            HandshakeEvent::LocalSdp(a) => {
                if matches!(self.phase, HandshakePhase::Idle) && self.remote_sdp_applied {
                    self.phase = HandshakePhase::AnswerSent;
                    let mut out = self.drain_ice();
                    out.push(StepResult::Emit(PeerMessage::Answer(a)));
                    proof {
                        let (s2, acts) = spec_step_follower(old(self)@, ev@);
                        assert(out@.map_values(|x: StepResult| x@) =~= acts);
                    }
                    out
                } else {
                    self.one(StepResult::Ignore)
                }
            },
            HandshakeEvent::AnswerApplied => self.one(StepResult::Ignore),
            HandshakeEvent::LocalIce(c) => {
                match self.phase {
                    HandshakePhase::IceExchange => self.one(
                        StepResult::Emit(PeerMessage::IceFollow(c)),
                    ),
                    _ => self.one(StepResult::Ignore),
                }
            },
            HandshakeEvent::GatheringComplete => self.one(StepResult::Ignore),
            HandshakeEvent::ChannelOpen => {
                match self.phase {
                    HandshakePhase::IceExchange => {
                        self.phase = HandshakePhase::Live;
                        self.one(StepResult::Live)
                    },
                    _ => self.one(StepResult::Ignore),
                }
            },
        }
    }

    /// One action, as a list.
    fn one(&self, a: StepResult) -> (r: Vec<StepResult>)
        ensures
            r@.map_values(|x: StepResult| x@) == seq![a@],
    {
        let ghost av = a@;
        let mut out: Vec<StepResult> = Vec::new();
        out.push(a);
        proof {
            assert(out@.map_values(|x: StepResult| x@) =~= seq![av]);
        }
        out
    }

    /// Two actions, in order, as a list.
    fn two(&self, a: StepResult, b: StepResult) -> (r: Vec<StepResult>)
        ensures
            r@.map_values(|x: StepResult| x@) == seq![a@, b@],
    {
        let ghost av = a@;
        let ghost bv = b@;
        let mut out: Vec<StepResult> = Vec::new();
        out.push(a);
        out.push(b);
        proof {
            assert(out@.map_values(|x: StepResult| x@) =~= seq![av, bv]);
        }
        out
    }
}

} // verus!
