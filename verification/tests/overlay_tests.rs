use std::collections::VecDeque;

use peer_signal::codec::encode;
use peer_signal::config::NodeInfo;
use peer_signal::handshake::{HandshakeEvent, StepResult};
use peer_signal::network::node_connection::ChannelDirection;
use peer_signal::network::{NetAction, Network};
use peer_signal::server::{Internal, ServerAction};
use peer_signal::types::U256;
use peer_signal::web_rtc::WSSignalMessage;
use peer_signal::websocket::WSMessage;

fn id(b: u8) -> U256 {
    U256::new([b; 32])
}

struct Overlay {
    server: Internal,
    clients: Vec<(U256, Network)>,  // (challenge, core)
    to_server: VecDeque<(U256, Vec<u8>)>,
    to_client: VecDeque<(usize, Vec<u8>)>,
    setup: VecDeque<(usize, U256, ChannelDirection, StepResult)>,
    channel: VecDeque<(usize, U256, ChannelDirection, Vec<u8>)>,
    delivered: Vec<(usize, U256, Vec<u8>)>,
}

impl Overlay {
    fn new() -> Overlay {
        Overlay {
            server: Internal::new(),
            clients: Vec::new(),
            to_server: VecDeque::new(),
            to_client: VecDeque::new(),
            setup: VecDeque::new(),
            channel: VecDeque::new(),
            delivered: Vec::new(),
        }
    }

    fn join(&mut self, challenge: U256, public: U256, name: &[u8]) -> usize {
        let index = self.clients.len();
        let network = Network::new(NodeInfo { public, name: Some(name.to_vec()) });
        self.clients.push((challenge, network));
        let action = self.server.new_connection(&challenge).expect("fresh challenge");
        let ServerAction::SendTo(_, greeting) = action;
        self.to_client.push_back((index, encode(&greeting)));
        index
    }

    fn act(&mut self, index: usize, actions: Vec<NetAction>) {
        let challenge = self.clients[index].0;
        for action in actions {
            match action {
                NetAction::WsSend(msg) => self.to_server.push_back((challenge, encode(&msg))),
                NetAction::Setup(remote, dir, step) => {
                    self.setup.push_back((index, remote, dir, step))
                }
                NetAction::ChannelSend(remote, dir, payload) => {
                    self.channel.push_back((index, remote, dir, payload))
                }
                NetAction::Deliver(remote, payload) => {
                    self.delivered.push((index, remote, payload))
                }
            }
        }
    }

    /// Moves frames, setup calls and channel payloads until nothing
    /// is in flight, answering WebRTC calls with canned values.
    fn settle(&mut self) {
        for _ in 0..10_000 {
            if let Some((index, bytes)) = self.to_client.pop_front() {
                let actions = self.clients[index].1.cb_msg(WSMessage::MessageString(bytes));
                self.act(index, actions);
                continue;
            }
            if let Some((challenge, bytes)) = self.to_server.pop_front() {
                let replies = self.server.cb_msg(&challenge, WSMessage::MessageString(bytes));
                for ServerAction::SendTo(dst, msg) in replies {
                    if let Some(index) = self.clients.iter().position(|(ch, _)| *ch == dst) {
                        self.to_client.push_back((index, encode(&msg)));
                    }
                }
                continue;
            }
            if let Some((index, remote, dir, step)) = self.setup.pop_front() {
                let events = match step {
                    StepResult::CallMakeOffer => {
                        vec![HandshakeEvent::LocalSdp(format!("offer-{}", index).into_bytes())]
                    }
                    StepResult::CallMakeAnswer(_) => {
                        vec![HandshakeEvent::LocalSdp(format!("answer-{}", index).into_bytes())]
                    }
                    StepResult::CallUseAnswer(_) => vec![
                        HandshakeEvent::AnswerApplied,
                        HandshakeEvent::LocalIce(format!("cand-{}", index).into_bytes()),
                        HandshakeEvent::GatheringComplete,
                    ],
                    StepResult::CallIcePut(_) => vec![
                        HandshakeEvent::LocalIce(format!("cand-{}", index).into_bytes()),
                        HandshakeEvent::ChannelOpen,
                    ],
                    _ => Vec::new(),
                };
                for event in events {
                    let actions = self.clients[index].1.setup_event(&remote, dir, event);
                    self.act(index, actions);
                }
                continue;
            }
            if let Some((from, remote, _dir, payload)) = self.channel.pop_front() {
                let sender = self.clients[from].1.node_info.public;
                if let Some(index) = self
                    .clients
                    .iter()
                    .position(|(_, n)| n.node_info.public == remote)
                {
                    let action = self.clients[index].1.channel_message(&sender, payload);
                    if let NetAction::Deliver(who, data) = action {
                        self.delivered.push((index, who, data));
                    }
                }
                continue;
            }
            return;
        }
        panic!("the overlay did not settle");
    }
}

#[test]
fn two_clients_announce_fetch_rosters_and_exchange_a_ping() {
    let mut overlay = Overlay::new();
    let a = overlay.join(id(0x01), id(0xAA), b"a");
    let b = overlay.join(id(0x02), id(0xBB), b"b");
    overlay.settle();

    // Both announces arrived: the server roster holds both publics.
    assert_eq!(overlay.server.nodes.len(), 2);
    assert!(overlay.server.nodes.iter().all(|e| e.info.is_some()));

    // Client a fetches the roster and sees only b.
    let ask = overlay.clients[a].1.update_node_list();
    overlay.act(a, vec![ask]);
    overlay.settle();
    let list = overlay.clients[a].1.get_list();
    assert_eq!(list.len(), 1);
    assert_eq!(list[0].public, id(0xBB));

    // One ping from a reaches b over a fresh channel, exactly once.
    let actions = overlay.clients[a].1.send(&id(0xBB), b"ping".to_vec());
    overlay.act(a, actions);
    overlay.settle();
    let pings: Vec<_> = overlay
        .delivered
        .iter()
        .filter(|(index, _, payload)| *index == b && payload == b"ping")
        .collect();
    assert_eq!(pings.len(), 1, "delivered: {:?}", overlay.delivered);
    assert_eq!(pings[0].1, id(0xAA));
}

#[test]
fn clear_nodes_then_empty_roster_over_the_wire() {
    let mut overlay = Overlay::new();
    let a = overlay.join(id(0x01), id(0xAA), b"a");
    let _b = overlay.join(id(0x02), id(0xBB), b"b");
    overlay.settle();

    let clear = overlay.clients[a].1.clear_nodes();
    overlay.act(a, vec![clear]);
    overlay.settle();

    let ask = overlay.clients[a].1.update_node_list();
    overlay.act(a, vec![ask]);
    overlay.settle();
    assert!(overlay.clients[a].1.get_list().is_empty());
}

#[test]
fn simultaneous_pings_cross_and_both_arrive() {
    let mut overlay = Overlay::new();
    let a = overlay.join(id(0x01), id(0xAA), b"a");
    let b = overlay.join(id(0x02), id(0xBB), b"b");
    overlay.settle();

    let from_a = overlay.clients[a].1.send(&id(0xBB), b"ping-a".to_vec());
    let from_b = overlay.clients[b].1.send(&id(0xAA), b"ping-b".to_vec());
    overlay.act(a, from_a);
    overlay.act(b, from_b);
    overlay.settle();

    let to_b: Vec<_> = overlay
        .delivered
        .iter()
        .filter(|(index, _, payload)| *index == b && payload == b"ping-a")
        .collect();
    let to_a: Vec<_> = overlay
        .delivered
        .iter()
        .filter(|(index, _, payload)| *index == a && payload == b"ping-b")
        .collect();
    assert_eq!(to_b.len(), 1, "delivered: {:?}", overlay.delivered);
    assert_eq!(to_a.len(), 1, "delivered: {:?}", overlay.delivered);
}
