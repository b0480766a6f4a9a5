use peer_signal::errors::SignalError;
use peer_signal::handshake::{HandshakeEvent, HandshakePhase, StepResult};
use peer_signal::network::node_connection::{
    ChannelDirection, ConnectionType, NodeConnection, SendOutcome,
};
use peer_signal::web_rtc::{PeerMessage, WebRTCConnectionState};

#[test]
fn fresh_connection_offers_nothing() {
    let conn = NodeConnection::new();
    assert_eq!(conn.get_connection(), None);
}

#[test]
fn first_send_starts_a_handshake_and_queues() {
    let mut conn = NodeConnection::new();
    let outcome = conn.send(b"one".to_vec());
    assert_eq!(outcome, SendOutcome::QueuedAndStarted);
    assert_eq!(conn.get_connection(), Some(ConnectionType::Setup));
    assert_eq!(conn.outgoing_queue, vec![b"one".to_vec()]);

    let outcome = conn.send(b"two".to_vec());
    assert_eq!(outcome, SendOutcome::Queued);
    assert_eq!(conn.outgoing_queue, vec![b"one".to_vec(), b"two".to_vec()]);
}

#[test]
fn each_slot_holds_handshake_or_channel_never_both() {
    let mut conn = NodeConnection::new();
    conn.send(b"payload".to_vec());
    assert!(conn.outgoing_setup.is_some() && !conn.outgoing);

    // Drive the outgoing handshake to a live channel.
    conn.handle_setup_event(ChannelDirection::Outgoing, HandshakeEvent::Start);
    conn.handle_setup_event(ChannelDirection::Outgoing, HandshakeEvent::LocalSdp(b"o".to_vec()));
    conn.handle_setup_event(
        ChannelDirection::Outgoing,
        HandshakeEvent::Remote(PeerMessage::Answer(b"a".to_vec())),
    );
    conn.handle_setup_event(ChannelDirection::Outgoing, HandshakeEvent::AnswerApplied);
    conn.handle_setup_event(ChannelDirection::Outgoing, HandshakeEvent::ChannelOpen);
    assert!(conn.outgoing && conn.outgoing_setup.is_none());
    assert!(!(conn.incoming && conn.incoming_setup.is_some()));
}

#[test]
fn queue_flushes_in_submission_order() {
    let mut conn = NodeConnection::new();
    conn.send(b"p1".to_vec());
    conn.send(b"p2".to_vec());
    conn.send(b"p3".to_vec());
    let flushed = conn.on_channel_open();
    assert_eq!(flushed, vec![b"p1".to_vec(), b"p2".to_vec(), b"p3".to_vec()]);
    assert!(conn.outgoing_queue.is_empty());
}

#[test]
fn incoming_without_offer_is_a_protocol_violation() {
    let mut conn = NodeConnection::new();
    let r = conn.process_peer_setup(PeerMessage::IceInit(b"c".to_vec()), true);
    assert_eq!(r, Err(SignalError::ProtocolViolation));
    assert!(conn.incoming_setup.is_none());
    assert!(!conn.incoming);
}

#[test]
fn incoming_offer_creates_a_follower() {
    let mut conn = NodeConnection::new();
    let r = conn.process_peer_setup(PeerMessage::Offer(b"offer".to_vec()), true);
    assert_eq!(r, Ok(vec![StepResult::CallMakeAnswer(b"offer".to_vec())]));
    let hs = conn.incoming_setup.as_ref().unwrap();
    assert_eq!(hs.role, WebRTCConnectionState::Follower);
}

#[test]
fn second_offer_replaces_the_stale_incoming_handshake() {
    let mut conn = NodeConnection::new();
    conn.process_peer_setup(PeerMessage::Offer(b"first".to_vec()), true).unwrap();
    conn.handle_setup_event(ChannelDirection::Incoming, HandshakeEvent::LocalSdp(b"a".to_vec()));
    assert_eq!(conn.incoming_setup.as_ref().unwrap().phase, HandshakePhase::AnswerSent);

    let r = conn.process_peer_setup(PeerMessage::Offer(b"second".to_vec()), true);
    assert_eq!(r, Ok(vec![StepResult::CallMakeAnswer(b"second".to_vec())]));
    // The replacement starts over from the beginning.
    assert_eq!(conn.incoming_setup.as_ref().unwrap().phase, HandshakePhase::Idle);
}

#[test]
fn outgoing_init_starts_an_initializer() {
    let mut conn = NodeConnection::new();
    let r = conn.process_peer_setup(PeerMessage::Init, false);
    assert_eq!(r, Ok(vec![StepResult::CallMakeOffer]));
    let hs = conn.outgoing_setup.as_ref().unwrap();
    assert_eq!(hs.role, WebRTCConnectionState::Initializer);
}

#[test]
fn outgoing_without_handshake_rejects_other_frames() {
    let mut conn = NodeConnection::new();
    let r = conn.process_peer_setup(PeerMessage::Answer(b"a".to_vec()), false);
    assert_eq!(r, Err(SignalError::ProtocolViolation));
}

#[test]
fn failed_handshake_clears_only_its_slot_and_keeps_the_queue() {
    let mut conn = NodeConnection::new();
    conn.send(b"kept".to_vec());
    conn.process_peer_setup(PeerMessage::Offer(b"offer".to_vec()), true).unwrap();

    // An answer towards the incoming (follower) slot is a violation:
    // the follower handshake fails and its slot empties.
    let acts = conn.process_peer_setup(PeerMessage::Answer(b"a".to_vec()), true).unwrap();
    assert_eq!(acts, vec![StepResult::Fail]);
    assert!(conn.incoming_setup.is_none());
    assert!(conn.outgoing_setup.is_some());
    assert_eq!(conn.outgoing_queue, vec![b"kept".to_vec()]);
}

#[test]
fn live_channel_is_preferred_over_queueing() {
    let mut conn = NodeConnection::new();
    conn.send(b"early".to_vec());
    conn.handle_setup_event(ChannelDirection::Outgoing, HandshakeEvent::Start);
    conn.handle_setup_event(ChannelDirection::Outgoing, HandshakeEvent::LocalSdp(b"o".to_vec()));
    conn.handle_setup_event(
        ChannelDirection::Outgoing,
        HandshakeEvent::Remote(PeerMessage::Answer(b"a".to_vec())),
    );
    conn.handle_setup_event(ChannelDirection::Outgoing, HandshakeEvent::AnswerApplied);
    conn.handle_setup_event(ChannelDirection::Outgoing, HandshakeEvent::ChannelOpen);

    let outcome = conn.send(b"late".to_vec());
    assert_eq!(
        outcome,
        SendOutcome::Channel(ChannelDirection::Outgoing, b"late".to_vec())
    );
}
