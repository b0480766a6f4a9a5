use std::cell::RefCell;
use std::collections::HashMap;
use std::rc::Rc;

use peer_signal::config::NodeInfo;
use peer_signal::errors::SignalError;
use peer_signal::ext_interface::DataStorage;
use peer_signal::network::NetAction;
use peer_signal::node::Node;
use peer_signal::types::U256;
use peer_signal::web_rtc::{PeerInfo, PeerMessage, WSSignalMessage};

fn id(b: u8) -> U256 {
    U256::new([b; 32])
}

#[derive(Clone)]
struct MemStorage {
    map: Rc<RefCell<HashMap<String, Vec<u8>>>>,
}

impl MemStorage {
    fn new() -> MemStorage {
        MemStorage { map: Rc::new(RefCell::new(HashMap::new())) }
    }
}

impl DataStorage for MemStorage {
    fn load(&self, key: &str) -> Result<Vec<u8>, String> {
        Ok(self.map.borrow().get(key).cloned().unwrap_or_default())
    }

    fn save(&mut self, key: &str, value: &[u8]) -> Result<(), String> {
        self.map.borrow_mut().insert(key.to_string(), value.to_vec());
        Ok(())
    }
}

struct BrokenStorage;

impl DataStorage for BrokenStorage {
    fn load(&self, _key: &str) -> Result<Vec<u8>, String> {
        Err("disk on fire".to_string())
    }

    fn save(&mut self, _key: &str, _value: &[u8]) -> Result<(), String> {
        Err("disk on fire".to_string())
    }
}

#[test]
fn boot_with_empty_storage_creates_and_saves_an_identity() {
    let storage = MemStorage::new();
    let node = Node::new(storage.clone()).expect("an empty store boots a fresh node");
    assert!(node.nodes.is_empty());
    assert!(!storage.map.borrow()["nodeConfig"].is_empty());
}

#[test]
fn boot_twice_keeps_the_same_identity() {
    let storage = MemStorage::new();
    let first = Node::new(storage.clone()).unwrap();
    let second = Node::new(storage.clone()).unwrap();
    assert_eq!(first.info.public, second.info.public);
}

#[test]
fn boot_with_broken_storage_is_a_storage_error() {
    assert!(matches!(Node::new(BrokenStorage), Err(SignalError::Storage)));
}

#[test]
fn boot_with_garbage_config_is_a_storage_error() {
    let storage = MemStorage::new();
    storage.map.borrow_mut().insert("nodeConfig".to_string(), b"not a config".to_vec());
    assert!(matches!(Node::new(storage), Err(SignalError::Storage)));
}

#[test]
fn ping_greets_every_known_node_in_roster_order() {
    let storage = MemStorage::new();
    let mut node = Node::new(storage).unwrap();
    node.network.process_msg(WSSignalMessage::ListIDsReply(vec![
        NodeInfo { public: id(0xAA), name: None },
        NodeInfo { public: id(0xBB), name: None },
    ]));

    let actions = node.ping();
    // One fresh outgoing handshake per peer, in roster order.
    let remotes: Vec<U256> = actions
        .iter()
        .filter_map(|a| match a {
            NetAction::Setup(remote, _, _) => Some(*remote),
            _ => None,
        })
        .collect();
    assert_eq!(remotes, vec![id(0xAA), id(0xBB)]);
    for entry in &node.network.connections {
        assert_eq!(entry.conn.outgoing_queue, vec![b"ping".to_vec()]);
    }
}

#[test]
fn clear_and_list_are_plain_requests() {
    let mut node = Node::new(MemStorage::new()).unwrap();
    assert_eq!(node.clear(), NetAction::WsSend(WSSignalMessage::ClearNodes));
    assert_eq!(node.list(), NetAction::WsSend(WSSignalMessage::ListIDsRequest));
}

#[test]
fn random_ids_differ() {
    // Two draws of a 256-bit id collide with negligible probability.
    let a = U256::rnd();
    let b = U256::rnd();
    assert_ne!(a, b);
}

#[test]
fn u256_equality_is_byte_wise() {
    let mut bytes = [0x11u8; 32];
    let a = U256::new(bytes);
    assert_eq!(a, U256::new(bytes));
    bytes[31] = 0x12;
    assert_ne!(a, U256::new(bytes));
}

#[test]
fn remote_of_names_the_other_endpoint() {
    let pi = PeerInfo { id_init: id(0xAA), id_follow: id(0xBB), message: PeerMessage::Init };
    assert_eq!(pi.get_remote(&id(0xAA)), Some(id(0xBB)));
    assert_eq!(pi.get_remote(&id(0xBB)), Some(id(0xAA)));
    assert_eq!(pi.get_remote(&id(0xCC)), None);
}
