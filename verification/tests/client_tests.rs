use peer_signal::config::NodeInfo;
use peer_signal::handshake::{HandshakeEvent, StepResult};
use peer_signal::network::node_connection::ChannelDirection;
use peer_signal::network::{NetAction, Network};
use peer_signal::types::U256;
use peer_signal::web_rtc::{MessageAnnounce, PeerInfo, PeerMessage, WSSignalMessage};
use peer_signal::websocket::WSMessage;

fn id(b: u8) -> U256 {
    U256::new([b; 32])
}

fn client(public: U256, name: &[u8]) -> Network {
    Network::new(NodeInfo { public, name: Some(name.to_vec()) })
}

#[test]
fn challenge_is_answered_with_exactly_one_announce() {
    let mut a = client(id(0xAA), b"a");
    let actions = a.process_msg(WSSignalMessage::Challenge(id(0x01)));
    assert_eq!(
        actions,
        vec![NetAction::WsSend(WSSignalMessage::Announce(MessageAnnounce {
            challenge: id(0x01),
            node_info: NodeInfo { public: id(0xAA), name: Some(b"a".to_vec()) },
        }))]
    );
}

#[test]
fn roster_filter_removes_self() {
    let mut a = client(id(0xAA), b"a");
    let roster = vec![
        NodeInfo { public: id(0xAA), name: Some(b"a".to_vec()) },
        NodeInfo { public: id(0xBB), name: Some(b"b".to_vec()) },
    ];
    let actions = a.process_msg(WSSignalMessage::ListIDsReply(roster));
    assert!(actions.is_empty());
    let list = a.get_list();
    assert_eq!(list.len(), 1);
    assert_eq!(list[0].public, id(0xBB));
}

#[test]
fn alien_peer_setup_creates_no_connection() {
    let mut z = client(id(0xCC), b"z");
    let pi = PeerInfo {
        id_init: id(0xAA),
        id_follow: id(0xBB),
        message: PeerMessage::Offer(b"offer".to_vec()),
    };
    let actions = z.process_msg(WSSignalMessage::PeerSetup(pi));
    assert!(actions.is_empty());
    assert!(z.connections.is_empty());
}

#[test]
fn follower_first_frame_must_be_an_offer() {
    let mut b = client(id(0xBB), b"b");
    let pi = PeerInfo {
        id_init: id(0xAA),
        id_follow: id(0xBB),
        message: PeerMessage::IceInit(b"candidate".to_vec()),
    };
    let actions = b.process_msg(WSSignalMessage::PeerSetup(pi));
    // The violation is swallowed: no frame goes back, no handshake
    // exists, though the per-peer container was looked up.
    assert!(actions.is_empty());
    assert_eq!(b.connections.len(), 1);
    assert!(b.connections[0].conn.incoming_setup.is_none());
    assert!(!b.connections[0].conn.incoming);
}

#[test]
fn init_on_the_wire_starts_nothing() {
    // A forged relay carrying the local-only Init trigger must not
    // make this node open a handshake towards the named id.
    let mut a = client(id(0xAA), b"a");
    let pi = PeerInfo {
        id_init: id(0xAA),
        id_follow: id(0xBB),
        message: PeerMessage::Init,
    };
    let actions = a.process_msg(WSSignalMessage::PeerSetup(pi));
    assert!(actions.is_empty());
    assert!(a.connections.is_empty());
}

#[test]
fn send_to_new_peer_starts_an_outgoing_handshake() {
    let mut a = client(id(0xAA), b"a");
    let actions = a.send(&id(0xBB), b"ping".to_vec());
    assert_eq!(
        actions,
        vec![NetAction::Setup(id(0xBB), ChannelDirection::Outgoing, StepResult::CallMakeOffer)]
    );
    assert_eq!(a.connections[0].conn.outgoing_queue, vec![b"ping".to_vec()]);
}

#[test]
fn offer_reaches_the_wire_wrapped_as_peer_setup() {
    let mut a = client(id(0xAA), b"a");
    a.send(&id(0xBB), b"ping".to_vec());
    let actions = a.setup_event(
        &id(0xBB),
        ChannelDirection::Outgoing,
        HandshakeEvent::LocalSdp(b"offerA".to_vec()),
    );
    assert_eq!(
        actions,
        vec![NetAction::WsSend(WSSignalMessage::PeerSetup(PeerInfo {
            id_init: id(0xAA),
            id_follow: id(0xBB),
            message: PeerMessage::Offer(b"offerA".to_vec()),
        }))]
    );
}

#[test]
fn simultaneous_open_delivers_every_ping_exactly_once() {
    let a_pub = id(0xAA);
    let b_pub = id(0xBB);
    let mut a = client(a_pub, b"a");
    let mut b = client(b_pub, b"b");

    // Both sides decide to talk to each other at the same time.
    a.send(&b_pub, b"ping".to_vec());
    b.send(&a_pub, b"ping".to_vec());
    a.setup_event(&b_pub, ChannelDirection::Outgoing, HandshakeEvent::LocalSdp(b"offerA".to_vec()));
    b.setup_event(&a_pub, ChannelDirection::Outgoing, HandshakeEvent::LocalSdp(b"offerB".to_vec()));

    // Each receives the other's offer as a follower.
    let acts = a.process_msg(WSSignalMessage::PeerSetup(PeerInfo {
        id_init: b_pub,
        id_follow: a_pub,
        message: PeerMessage::Offer(b"offerB".to_vec()),
    }));
    assert_eq!(
        acts,
        vec![NetAction::Setup(
            b_pub,
            ChannelDirection::Incoming,
            StepResult::CallMakeAnswer(b"offerB".to_vec())
        )]
    );
    let acts = b.process_msg(WSSignalMessage::PeerSetup(PeerInfo {
        id_init: a_pub,
        id_follow: b_pub,
        message: PeerMessage::Offer(b"offerA".to_vec()),
    }));
    assert_eq!(
        acts,
        vec![NetAction::Setup(
            a_pub,
            ChannelDirection::Incoming,
            StepResult::CallMakeAnswer(b"offerA".to_vec())
        )]
    );

    // Both sides hold an outgoing and an incoming half-session.
    assert!(a.connections[0].conn.outgoing_setup.is_some());
    assert!(a.connections[0].conn.incoming_setup.is_some());
    assert!(b.connections[0].conn.outgoing_setup.is_some());
    assert!(b.connections[0].conn.incoming_setup.is_some());

    // A's incoming channel opens first: the queued ping flushes once.
    b.setup_event(&a_pub, ChannelDirection::Incoming, HandshakeEvent::LocalSdp(b"answerB".to_vec()));
    let acts = a.process_msg(WSSignalMessage::PeerSetup(PeerInfo {
        id_init: b_pub,
        id_follow: a_pub,
        message: PeerMessage::IceInit(b"c1".to_vec()),
    }));
    assert!(acts.is_empty(), "candidates before the answer are buffered: {:?}", acts);

    let acts = a.setup_event(&b_pub, ChannelDirection::Incoming, HandshakeEvent::LocalSdp(b"answerA".to_vec()));
    assert_eq!(acts.len(), 2);
    assert_eq!(acts[0], NetAction::Setup(b_pub, ChannelDirection::Incoming, StepResult::CallIcePut(b"c1".to_vec())));
    assert_eq!(
        acts[1],
        NetAction::WsSend(WSSignalMessage::PeerSetup(PeerInfo {
            id_init: b_pub,
            id_follow: a_pub,
            message: PeerMessage::Answer(b"answerA".to_vec()),
        }))
    );

    let acts = a.process_msg(WSSignalMessage::PeerSetup(PeerInfo {
        id_init: b_pub,
        id_follow: a_pub,
        message: PeerMessage::IceInit(b"c2".to_vec()),
    }));
    assert_eq!(
        acts,
        vec![NetAction::Setup(b_pub, ChannelDirection::Incoming, StepResult::CallIcePut(b"c2".to_vec()))]
    );

    let acts = a.setup_event(&b_pub, ChannelDirection::Incoming, HandshakeEvent::ChannelOpen);
    let pings: Vec<&NetAction> = acts
        .iter()
        .filter(|act| matches!(act, NetAction::ChannelSend(_, _, p) if p == &b"ping".to_vec()))
        .collect();
    assert_eq!(pings.len(), 1, "the queued ping flushes exactly once: {:?}", acts);
    assert_eq!(
        pings[0],
        &NetAction::ChannelSend(b_pub, ChannelDirection::Incoming, b"ping".to_vec())
    );
    assert!(a.connections[0].conn.outgoing_queue.is_empty());

    // A later channel on the other half-session finds nothing left to flush.
    let acts = a.setup_event(
        &b_pub,
        ChannelDirection::Outgoing,
        HandshakeEvent::Remote(PeerMessage::Answer(b"answerB".to_vec())),
    );
    assert_eq!(
        acts,
        vec![NetAction::Setup(b_pub, ChannelDirection::Outgoing, StepResult::CallUseAnswer(b"answerB".to_vec()))]
    );
    let acts = a.setup_event(&b_pub, ChannelDirection::Outgoing, HandshakeEvent::AnswerApplied);
    assert!(acts.is_empty());
    let acts = a.setup_event(&b_pub, ChannelDirection::Outgoing, HandshakeEvent::ChannelOpen);
    let pings = acts
        .iter()
        .filter(|act| matches!(act, NetAction::ChannelSend(_, _, p) if p == &b"ping".to_vec()))
        .count();
    assert_eq!(pings, 0, "nothing is delivered twice: {:?}", acts);
}

#[test]
fn received_channel_payloads_are_delivered() {
    let a = client(id(0xAA), b"a");
    let action = a.channel_message(&id(0xBB), b"hello".to_vec());
    assert_eq!(action, NetAction::Deliver(id(0xBB), b"hello".to_vec()));
}

#[test]
fn roster_and_clear_requests_are_plain_frames() {
    let a = client(id(0xAA), b"a");
    assert_eq!(a.update_node_list(), NetAction::WsSend(WSSignalMessage::ListIDsRequest));
    assert_eq!(a.clear_nodes(), NetAction::WsSend(WSSignalMessage::ClearNodes));
}

#[test]
fn malformed_wire_frames_are_dropped() {
    let mut a = client(id(0xAA), b"a");
    let actions = a.cb_msg(WSMessage::MessageString(b"not a frame".to_vec()));
    assert!(actions.is_empty());
    assert!(a.connections.is_empty());
}
