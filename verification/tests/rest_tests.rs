use std::cell::RefCell;
use std::rc::Rc;

use peer_signal::codec::{
    decode_id, decode_registration, decode_roster, encode_id, encode_registration, encode_roster,
};
use peer_signal::config::NodeInfo;
use peer_signal::errors::SignalError;
use peer_signal::rest::{RestCaller, RestClient, RestMethod};
use peer_signal::types::U256;

fn id(b: u8) -> U256 {
    U256::new([b; 32])
}

/// A caller that answers every request with canned bytes and records
/// what was asked.
struct CannedCaller {
    reply: Vec<u8>,
    seen: Rc<RefCell<Vec<(RestMethod, String, Option<Vec<u8>>)>>>,
}

impl RestCaller for CannedCaller {
    fn call(
        &mut self,
        method: RestMethod,
        path: &str,
        body: Option<Vec<u8>>,
    ) -> Result<Vec<u8>, String> {
        self.seen.borrow_mut().push((method, path.to_string(), body));
        Ok(self.reply.clone())
    }
}

/// A caller whose transport is down.
struct DownCaller;

impl RestCaller for DownCaller {
    fn call(
        &mut self,
        _method: RestMethod,
        _path: &str,
        _body: Option<Vec<u8>>,
    ) -> Result<Vec<u8>, String> {
        Err("connection refused".to_string())
    }
}

#[test]
fn id_round_trip() {
    let x = id(0x3C);
    let bytes = encode_id(&x);
    assert_eq!(bytes.len(), 64);
    assert_eq!(decode_id(&bytes).unwrap(), x);
}

#[test]
fn id_garbage_is_rejected() {
    assert!(decode_id(&b"zz".to_vec()).is_err());
    let mut bytes = encode_id(&id(0x3C));
    bytes.push(b'0');
    assert!(decode_id(&bytes).is_err());
}

#[test]
fn registration_round_trip() {
    let ni = NodeInfo { public: id(0xAA), name: Some(b"a".to_vec()) };
    let bytes = encode_registration(&id(0x11), &ni);
    let (list_id, node) = decode_registration(&bytes).unwrap();
    assert_eq!(list_id, id(0x11));
    assert_eq!(node, ni);
}

#[test]
fn roster_round_trip() {
    let roster = vec![
        NodeInfo { public: id(0xAA), name: Some(b"a".to_vec()) },
        NodeInfo { public: id(0xBB), name: None },
    ];
    let bytes = encode_roster(&roster);
    assert_eq!(decode_roster(&bytes).unwrap(), roster);
}

#[test]
fn new_id_reads_the_reply() {
    let seen = Rc::new(RefCell::new(Vec::new()));
    let mut client = RestClient::new(CannedCaller { reply: encode_id(&id(0x42)), seen });
    assert_eq!(client.new_id(), Ok(id(0x42)));
}

#[test]
fn new_id_rejects_a_malformed_reply() {
    let seen = Rc::new(RefCell::new(Vec::new()));
    let mut client = RestClient::new(CannedCaller { reply: b"not an id".to_vec(), seen });
    assert_eq!(client.new_id(), Err(SignalError::DecodeFailed));
}

#[test]
fn add_id_posts_the_exact_registration() {
    let seen = Rc::new(RefCell::new(Vec::new()));
    let mut client = RestClient::new(CannedCaller { reply: Vec::new(), seen: seen.clone() });
    let ni = NodeInfo { public: id(0xAA), name: Some(b"a".to_vec()) };
    assert_eq!(client.add_id(id(0x11), &ni), Ok(()));
    let calls = seen.borrow();
    assert_eq!(calls.len(), 1);
    let (method, path, body) = &calls[0];
    assert_eq!(*method, RestMethod::Post);
    assert_eq!(path, "addNode");
    assert_eq!(body.as_ref().unwrap(), &encode_registration(&id(0x11), &ni));
}

#[test]
fn list_ids_reads_the_roster() {
    let roster = vec![NodeInfo { public: id(0xAA), name: None }];
    let seen = Rc::new(RefCell::new(Vec::new()));
    let mut client = RestClient::new(CannedCaller { reply: encode_roster(&roster), seen });
    assert_eq!(client.list_ids(), Ok(roster));
}

#[test]
fn list_ids_rejects_a_malformed_reply() {
    let seen = Rc::new(RefCell::new(Vec::new()));
    let mut client = RestClient::new(CannedCaller { reply: b"junk".to_vec(), seen });
    assert_eq!(client.list_ids(), Err(SignalError::DecodeFailed));
}

#[test]
fn a_downed_transport_is_a_transport_error() {
    let mut client = RestClient::new(DownCaller);
    assert_eq!(client.new_id(), Err(SignalError::Transport));
    assert_eq!(client.list_ids(), Err(SignalError::Transport));
    assert_eq!(client.clear_nodes(), Err(SignalError::Transport));
    let ni = NodeInfo { public: id(0xAA), name: None };
    assert_eq!(client.add_id(id(0x11), &ni), Err(SignalError::Transport));
}
