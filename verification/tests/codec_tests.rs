use peer_signal::codec::{decode, encode};
use peer_signal::config::{NodeConfig, NodeInfo};
use peer_signal::codec::{decode_config, encode_config};
use peer_signal::types::U256;
use peer_signal::web_rtc::{
    MessageAnnounce, PeerInfo, PeerMessage, WSSignalMessage, WebSocketMessage,
};

fn id(b: u8) -> U256 {
    U256::new([b; 32])
}

fn round_trip(msg: WSSignalMessage) -> WSSignalMessage {
    let bytes = encode(&msg);
    decode(&bytes).expect("a frame the encoder wrote must decode").msg
}

#[test]
fn challenge_round_trip() {
    let msg = WSSignalMessage::Challenge(id(0x01));
    assert_eq!(round_trip(msg.clone()), msg);
}

#[test]
fn announce_round_trip() {
    let msg = WSSignalMessage::Announce(MessageAnnounce {
        challenge: id(0x01),
        node_info: NodeInfo { public: id(0xAA), name: Some(b"a".to_vec()) },
    });
    assert_eq!(round_trip(msg.clone()), msg);
}

#[test]
fn announce_without_name_round_trip() {
    let msg = WSSignalMessage::Announce(MessageAnnounce {
        challenge: id(0x02),
        node_info: NodeInfo { public: id(0xBB), name: None },
    });
    assert_eq!(round_trip(msg.clone()), msg);
}

#[test]
fn list_ids_request_round_trip() {
    assert_eq!(round_trip(WSSignalMessage::ListIDsRequest), WSSignalMessage::ListIDsRequest);
}

#[test]
fn list_ids_reply_round_trip() {
    let msg = WSSignalMessage::ListIDsReply(vec![
        NodeInfo { public: id(0xAA), name: Some(b"a".to_vec()) },
        NodeInfo { public: id(0xBB), name: None },
    ]);
    assert_eq!(round_trip(msg.clone()), msg);
}

#[test]
fn empty_list_ids_reply_round_trip() {
    let msg = WSSignalMessage::ListIDsReply(vec![]);
    assert_eq!(round_trip(msg.clone()), msg);
}

#[test]
fn clear_nodes_round_trip() {
    assert_eq!(round_trip(WSSignalMessage::ClearNodes), WSSignalMessage::ClearNodes);
}

#[test]
fn done_round_trip() {
    assert_eq!(round_trip(WSSignalMessage::Done), WSSignalMessage::Done);
}

#[test]
fn peer_setup_round_trip_every_message() {
    let steps = vec![
        PeerMessage::Init,
        PeerMessage::Offer(b"v=0 offer".to_vec()),
        PeerMessage::Answer(b"v=0 answer".to_vec()),
        PeerMessage::IceInit(b"candidate:1".to_vec()),
        PeerMessage::IceFollow(b"candidate:2".to_vec()),
        PeerMessage::Done,
    ];
    for step in steps {
        let msg = WSSignalMessage::PeerSetup(PeerInfo {
            id_init: id(0xAA),
            id_follow: id(0xBB),
            message: step,
        });
        assert_eq!(round_trip(msg.clone()), msg);
    }
}

#[test]
fn empty_payload_round_trip() {
    let msg = WSSignalMessage::PeerSetup(PeerInfo {
        id_init: id(0x0F),
        id_follow: id(0xF0),
        message: PeerMessage::Offer(Vec::new()),
    });
    assert_eq!(round_trip(msg.clone()), msg);
}

#[test]
fn exact_wire_form_of_plain_frames() {
    assert_eq!(encode(&WSSignalMessage::ListIDsRequest), b"L".to_vec());
    assert_eq!(encode(&WSSignalMessage::ClearNodes), b"X".to_vec());
    assert_eq!(encode(&WSSignalMessage::Done), b"D".to_vec());
}

#[test]
fn exact_wire_form_of_challenge() {
    let bytes = encode(&WSSignalMessage::Challenge(id(0x01)));
    let mut expected = b"C".to_vec();
    expected.extend_from_slice("01".repeat(32).as_bytes());
    assert_eq!(bytes, expected);
}

#[test]
fn exact_wire_form_of_offer_payload_length() {
    let bytes = encode(&WSSignalMessage::PeerSetup(PeerInfo {
        id_init: id(0xAA),
        id_follow: id(0xBB),
        message: PeerMessage::Offer(b"hi".to_vec()),
    }));
    // tag + two 64-digit ids + step tag + 8-digit length + payload
    assert_eq!(bytes.len(), 1 + 64 + 64 + 1 + 8 + 2);
    assert_eq!(&bytes[130..138], b"00000002");
    assert_eq!(&bytes[138..140], b"hi");
}

#[test]
fn garbage_is_rejected() {
    assert!(decode(&b"garbage".to_vec()).is_err());
    assert!(decode(&Vec::new()).is_err());
    assert!(decode(&b"Z".to_vec()).is_err());
}

#[test]
fn truncated_frame_is_rejected() {
    let mut bytes = encode(&WSSignalMessage::Challenge(id(0x01)));
    bytes.pop();
    assert!(decode(&bytes).is_err());
}

#[test]
fn trailing_bytes_are_rejected() {
    let mut bytes = encode(&WSSignalMessage::Done);
    bytes.push(b'D');
    assert!(decode(&bytes).is_err());
}

#[test]
fn uppercase_hex_is_rejected() {
    let mut bytes = encode(&WSSignalMessage::Challenge(id(0x01)));
    bytes[1] = b'A';
    assert!(decode(&bytes).is_err());
}

#[test]
fn websocket_message_to_and_from_bytes() {
    let frame = WebSocketMessage { msg: WSSignalMessage::Challenge(id(0x42)) };
    let bytes = frame.to_bytes();
    assert_eq!(WebSocketMessage::from_bytes(&bytes).unwrap(), frame);
}

#[test]
fn config_round_trip() {
    let config = NodeConfig {
        our_node: NodeInfo { public: id(0xCD), name: Some(b"node one".to_vec()) },
    };
    let bytes = encode_config(&config);
    assert_eq!(decode_config(&bytes).unwrap(), config);
}

#[test]
fn config_garbage_is_rejected() {
    assert!(decode_config(&b"nonsense".to_vec()).is_err());
    assert!(decode_config(&Vec::new()).is_err());
}
