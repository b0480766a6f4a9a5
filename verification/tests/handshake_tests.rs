use peer_signal::handshake::{HandshakeEvent, HandshakePhase, PeerHandshake, StepResult};
use peer_signal::web_rtc::{PeerMessage, WebRTCConnectionState};

#[test]
fn initializer_full_flow() {
    let mut hs = PeerHandshake::new(WebRTCConnectionState::Initializer);
    assert_eq!(hs.phase, HandshakePhase::Idle);

    let acts = hs.step(HandshakeEvent::Start);
    assert_eq!(acts, vec![StepResult::CallMakeOffer]);
    assert_eq!(hs.phase, HandshakePhase::Idle);

    let acts = hs.step(HandshakeEvent::LocalSdp(b"offer".to_vec()));
    assert_eq!(acts, vec![StepResult::Emit(PeerMessage::Offer(b"offer".to_vec()))]);
    assert_eq!(hs.phase, HandshakePhase::OfferSent);

    let acts = hs.step(HandshakeEvent::Remote(PeerMessage::Answer(b"answer".to_vec())));
    assert_eq!(acts, vec![StepResult::CallUseAnswer(b"answer".to_vec())]);
    assert_eq!(hs.phase, HandshakePhase::OfferSent);

    let acts = hs.step(HandshakeEvent::AnswerApplied);
    assert_eq!(acts, Vec::<StepResult>::new());
    assert_eq!(hs.phase, HandshakePhase::IceExchange);

    let acts = hs.step(HandshakeEvent::Remote(PeerMessage::IceFollow(b"c1".to_vec())));
    assert_eq!(acts, vec![StepResult::CallIcePut(b"c1".to_vec())]);

    let acts = hs.step(HandshakeEvent::LocalIce(b"c2".to_vec()));
    assert_eq!(acts, vec![StepResult::Emit(PeerMessage::IceInit(b"c2".to_vec()))]);

    let acts = hs.step(HandshakeEvent::GatheringComplete);
    assert_eq!(acts, vec![StepResult::Emit(PeerMessage::Done)]);

    let acts = hs.step(HandshakeEvent::ChannelOpen);
    assert_eq!(acts, vec![StepResult::Live, StepResult::Emit(PeerMessage::Done)]);
    assert_eq!(hs.phase, HandshakePhase::Live);
}

#[test]
fn follower_full_flow() {
    let mut hs = PeerHandshake::new(WebRTCConnectionState::Follower);

    let acts = hs.step(HandshakeEvent::Remote(PeerMessage::Offer(b"offer".to_vec())));
    assert_eq!(acts, vec![StepResult::CallMakeAnswer(b"offer".to_vec())]);
    assert_eq!(hs.phase, HandshakePhase::Idle);

    let acts = hs.step(HandshakeEvent::LocalSdp(b"answer".to_vec()));
    assert_eq!(acts, vec![StepResult::Emit(PeerMessage::Answer(b"answer".to_vec()))]);
    assert_eq!(hs.phase, HandshakePhase::AnswerSent);

    let acts = hs.step(HandshakeEvent::Remote(PeerMessage::IceInit(b"c1".to_vec())));
    assert_eq!(acts, vec![StepResult::CallIcePut(b"c1".to_vec())]);
    assert_eq!(hs.phase, HandshakePhase::IceExchange);

    let acts = hs.step(HandshakeEvent::LocalIce(b"c2".to_vec()));
    assert_eq!(acts, vec![StepResult::Emit(PeerMessage::IceFollow(b"c2".to_vec()))]);

    let acts = hs.step(HandshakeEvent::ChannelOpen);
    assert_eq!(acts, vec![StepResult::Live]);
    assert_eq!(hs.phase, HandshakePhase::Live);
}

#[test]
fn follower_rejects_non_offer_first_frame() {
    let mut hs = PeerHandshake::new(WebRTCConnectionState::Follower);
    let acts = hs.step(HandshakeEvent::Remote(PeerMessage::IceInit(b"c".to_vec())));
    assert_eq!(acts, vec![StepResult::Fail]);
    assert_eq!(hs.phase, HandshakePhase::Failed);
}

#[test]
fn follower_rejects_done_as_first_frame() {
    let mut hs = PeerHandshake::new(WebRTCConnectionState::Follower);
    let acts = hs.step(HandshakeEvent::Remote(PeerMessage::Done));
    assert_eq!(acts, vec![StepResult::Fail]);
    assert_eq!(hs.phase, HandshakePhase::Failed);
}

#[test]
fn init_on_the_wire_is_rejected() {
    let mut hs = PeerHandshake::new(WebRTCConnectionState::Initializer);
    let acts = hs.step(HandshakeEvent::Remote(PeerMessage::Init));
    assert_eq!(acts, vec![StepResult::Fail]);
    assert_eq!(hs.phase, HandshakePhase::Failed);
}

#[test]
fn early_candidates_are_buffered_and_replayed_in_order() {
    let mut hs = PeerHandshake::new(WebRTCConnectionState::Initializer);
    hs.step(HandshakeEvent::Start);
    hs.step(HandshakeEvent::LocalSdp(b"offer".to_vec()));

    // Candidates before the answer is installed: buffered, nothing out.
    let acts = hs.step(HandshakeEvent::Remote(PeerMessage::IceFollow(b"c1".to_vec())));
    assert_eq!(acts, Vec::<StepResult>::new());
    let acts = hs.step(HandshakeEvent::Remote(PeerMessage::IceFollow(b"c2".to_vec())));
    assert_eq!(acts, Vec::<StepResult>::new());

    hs.step(HandshakeEvent::Remote(PeerMessage::Answer(b"answer".to_vec())));
    let acts = hs.step(HandshakeEvent::AnswerApplied);
    assert_eq!(
        acts,
        vec![
            StepResult::CallIcePut(b"c1".to_vec()),
            StepResult::CallIcePut(b"c2".to_vec()),
        ]
    );
    assert!(hs.pending_ice.is_empty());
}

#[test]
fn done_after_live_is_ignored() {
    let mut hs = PeerHandshake::new(WebRTCConnectionState::Initializer);
    hs.step(HandshakeEvent::Start);
    hs.step(HandshakeEvent::LocalSdp(b"offer".to_vec()));
    hs.step(HandshakeEvent::Remote(PeerMessage::Answer(b"answer".to_vec())));
    hs.step(HandshakeEvent::AnswerApplied);
    hs.step(HandshakeEvent::ChannelOpen);
    assert_eq!(hs.phase, HandshakePhase::Live);

    let acts = hs.step(HandshakeEvent::Remote(PeerMessage::Done));
    assert_eq!(acts, vec![StepResult::Ignore]);
    assert_eq!(hs.phase, HandshakePhase::Live);
}

#[test]
fn duplicate_answer_is_ignored() {
    let mut hs = PeerHandshake::new(WebRTCConnectionState::Initializer);
    hs.step(HandshakeEvent::Start);
    hs.step(HandshakeEvent::LocalSdp(b"offer".to_vec()));
    hs.step(HandshakeEvent::Remote(PeerMessage::Answer(b"answer".to_vec())));
    hs.step(HandshakeEvent::AnswerApplied);

    let acts = hs.step(HandshakeEvent::Remote(PeerMessage::Answer(b"answer".to_vec())));
    assert_eq!(acts, vec![StepResult::Ignore]);
    assert_eq!(hs.phase, HandshakePhase::IceExchange);
}
