use peer_signal::config::NodeInfo;
use peer_signal::server::{Internal, NodeEntry, ServerAction, ServerState};
use peer_signal::types::U256;
use peer_signal::web_rtc::{MessageAnnounce, PeerInfo, PeerMessage, WSSignalMessage};
use peer_signal::websocket::WSMessage;
use peer_signal::codec::encode;
use peer_signal::errors::SignalError;

fn id(b: u8) -> U256 {
    U256::new([b; 32])
}

fn announce(challenge: U256, public: U256, name: &[u8]) -> WSSignalMessage {
    WSSignalMessage::Announce(MessageAnnounce {
        challenge,
        node_info: NodeInfo { public, name: Some(name.to_vec()) },
    })
}

#[test]
fn challenge_then_announce() {
    // A new connection is greeted with its challenge id, and the
    // announce stores the identity under that challenge.
    let mut server = Internal::new();
    let challenge = id(0x01);
    let action = server.new_connection(&challenge).expect("a fresh id must be accepted");
    assert_eq!(
        action,
        ServerAction::SendTo(challenge, WSSignalMessage::Challenge(challenge))
    );

    let replies = server.handle_msg(&challenge, announce(challenge, id(0xAA), b"a"));
    assert!(replies.is_empty());
    assert_eq!(server.nodes.len(), 1);
    assert_eq!(server.nodes[0].entry, challenge);
    assert_eq!(server.nodes[0].info.as_ref().unwrap().public, id(0xAA));
}

#[test]
fn announce_replay_is_idempotent() {
    let mut server = Internal::new();
    server.new_connection(&id(0x01)).unwrap();
    server.new_connection(&id(0x02)).unwrap();
    server.handle_msg(&id(0x01), announce(id(0x01), id(0xAA), b"a"));
    server.handle_msg(&id(0x02), announce(id(0x02), id(0xBB), b"b"));

    let before: Vec<(U256, Option<NodeInfo>)> =
        server.nodes.iter().map(|e| (e.entry, e.info.clone())).collect();
    server.handle_msg(&id(0x01), announce(id(0x01), id(0xAA), b"a"));
    let after: Vec<(U256, Option<NodeInfo>)> =
        server.nodes.iter().map(|e| (e.entry, e.info.clone())).collect();
    assert_eq!(before, after);
}

#[test]
fn announce_evicts_other_entry_with_same_public() {
    let mut server = Internal::new();
    server.new_connection(&id(0x01)).unwrap();
    server.new_connection(&id(0x02)).unwrap();
    server.handle_msg(&id(0x01), announce(id(0x01), id(0xAA), b"old"));
    server.handle_msg(&id(0x02), announce(id(0x02), id(0xAA), b"new"));

    assert_eq!(server.nodes.len(), 1);
    assert_eq!(server.nodes[0].entry, id(0x02));
    assert_eq!(server.nodes[0].info.as_ref().unwrap().name, Some(b"new".to_vec()));
}

#[test]
fn list_ids_reply_holds_announced_nodes() {
    let mut server = Internal::new();
    server.new_connection(&id(0x01)).unwrap();
    server.new_connection(&id(0x02)).unwrap();
    server.new_connection(&id(0x03)).unwrap();
    server.handle_msg(&id(0x01), announce(id(0x01), id(0xAA), b"a"));
    server.handle_msg(&id(0x02), announce(id(0x02), id(0xBB), b"b"));
    // The third connection never announced: it stays off the roster.

    let replies = server.handle_msg(&id(0x01), WSSignalMessage::ListIDsRequest);
    assert_eq!(replies.len(), 1);
    match &replies[0] {
        ServerAction::SendTo(dst, WSSignalMessage::ListIDsReply(list)) => {
            assert_eq!(*dst, id(0x01));
            let publics: Vec<U256> = list.iter().map(|ni| ni.public).collect();
            assert_eq!(publics, vec![id(0xAA), id(0xBB)]);
        }
        other => panic!("expected a roster reply, got {:?}", other),
    }
}

#[test]
fn clear_nodes_empties_the_roster() {
    let mut server = Internal::new();
    server.new_connection(&id(0x01)).unwrap();
    server.new_connection(&id(0x02)).unwrap();
    server.handle_msg(&id(0x01), announce(id(0x01), id(0xAA), b"a"));
    server.handle_msg(&id(0x02), announce(id(0x02), id(0xBB), b"b"));

    server.handle_msg(&id(0x01), WSSignalMessage::ClearNodes);
    let replies = server.handle_msg(&id(0x01), WSSignalMessage::ListIDsRequest);
    match &replies[0] {
        ServerAction::SendTo(_, WSSignalMessage::ListIDsReply(list)) => {
            assert!(list.is_empty());
        }
        other => panic!("expected an empty roster reply, got {:?}", other),
    }
}

#[test]
fn peer_setup_is_relayed_to_the_other_endpoint() {
    let mut server = Internal::new();
    server.new_connection(&id(0x01)).unwrap();
    server.new_connection(&id(0x02)).unwrap();
    server.handle_msg(&id(0x01), announce(id(0x01), id(0xAA), b"a"));
    server.handle_msg(&id(0x02), announce(id(0x02), id(0xBB), b"b"));

    let pi = PeerInfo {
        id_init: id(0xAA),
        id_follow: id(0xBB),
        message: PeerMessage::Offer(b"offer".to_vec()),
    };
    let replies = server.handle_msg(&id(0x01), WSSignalMessage::PeerSetup(pi.clone()));
    assert_eq!(
        replies,
        vec![ServerAction::SendTo(id(0x02), WSSignalMessage::PeerSetup(pi))]
    );
}

#[test]
fn peer_setup_for_unknown_destination_goes_nowhere() {
    let mut server = Internal::new();
    server.new_connection(&id(0x01)).unwrap();
    server.handle_msg(&id(0x01), announce(id(0x01), id(0xAA), b"a"));

    let pi = PeerInfo {
        id_init: id(0xAA),
        id_follow: id(0xEE),
        message: PeerMessage::Offer(b"offer".to_vec()),
    };
    let replies = server.handle_msg(&id(0x01), WSSignalMessage::PeerSetup(pi));
    assert!(replies.is_empty());
}

#[test]
fn unannounced_sender_cannot_relay() {
    let mut server = Internal::new();
    server.new_connection(&id(0x01)).unwrap();
    let pi = PeerInfo {
        id_init: id(0xAA),
        id_follow: id(0xBB),
        message: PeerMessage::Offer(b"offer".to_vec()),
    };
    let replies = server.handle_msg(&id(0x01), WSSignalMessage::PeerSetup(pi));
    assert!(replies.is_empty());
}

#[test]
fn wire_frames_drive_the_server() {
    let mut server = Internal::new();
    server.new_connection(&id(0x01)).unwrap();
    let bytes = encode(&announce(id(0x01), id(0xAA), b"a"));
    let replies = server.cb_msg(&id(0x01), WSMessage::MessageString(bytes));
    assert!(replies.is_empty());
    assert_eq!(server.nodes[0].info.as_ref().unwrap().public, id(0xAA));
}

#[test]
fn malformed_frames_are_dropped_and_the_entry_stays() {
    let mut server = Internal::new();
    server.new_connection(&id(0x01)).unwrap();
    let replies = server.cb_msg(&id(0x01), WSMessage::MessageString(b"junk".to_vec()));
    assert!(replies.is_empty());
    assert_eq!(server.nodes.len(), 1);
}

#[test]
fn closing_a_connection_removes_its_entry() {
    let mut server = Internal::new();
    server.new_connection(&id(0x01)).unwrap();
    server.new_connection(&id(0x02)).unwrap();
    server.cb_msg(&id(0x01), WSMessage::Closed(b"bye".to_vec()));
    assert_eq!(server.nodes.len(), 1);
    assert_eq!(server.nodes[0].entry, id(0x02));

    // A transport error is treated as a closure.
    server.cb_msg(&id(0x02), WSMessage::Error(b"broken".to_vec()));
    assert!(server.nodes.is_empty());
}

#[test]
fn duplicate_challenge_is_refused() {
    let mut server = Internal::new();
    assert!(server.new_connection(&id(0x01)).is_some());
    assert!(server.new_connection(&id(0x01)).is_none());
    assert_eq!(server.nodes.len(), 1);
}

#[test]
fn send_message_reports_unknown_destinations() {
    let mut server = Internal::new();
    server.new_connection(&id(0x01)).unwrap();
    assert_eq!(
        server.send_message(&id(0x01), WSSignalMessage::Done),
        Ok(ServerAction::SendTo(id(0x01), WSSignalMessage::Done))
    );
    assert_eq!(
        server.send_message(&id(0x09), WSSignalMessage::Done),
        Err(SignalError::NoRoute)
    );
}

#[test]
fn server_state_wraps_the_roster() {
    let mut state = ServerState::new();
    let action = state.cb_connection(&id(0x07)).unwrap();
    assert_eq!(
        action,
        ServerAction::SendTo(id(0x07), WSSignalMessage::Challenge(id(0x07)))
    );
    assert!(state.int.knows(&id(0x07)));
}

#[test]
fn node_entry_starts_unannounced() {
    let entry = NodeEntry::new(id(0x05));
    assert_eq!(entry.entry, id(0x05));
    assert!(entry.info.is_none());
}
