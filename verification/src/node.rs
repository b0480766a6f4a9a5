//! The node: identity, storage and networking held together.

use vstd::prelude::*;

use crate::codec::{decode_config, encode_config, lemma_decode_config_wf, wf_node_info};
use crate::config::{NodeConfig, NodeInfo, NodeInfoV};
use crate::errors::SignalError;
use crate::ext_interface::DataStorage;
use crate::network::{
    spec_client_send, wf_net_action, wf_network, NetAction, NetActionV, Network, NetworkV,
};
use crate::types::U256;

verus! {

/// The storage key under which a node keeps its identity.
pub const CONFIG_NAME: &'static str = "nodeConfig";

/// The payload every known node is greeted with.
pub open spec fn ping_payload() -> Seq<u8> {
    seq![0x70u8, 0x69u8, 0x6eu8, 0x67u8]
}

/// Pinging a roster: each entry is sent the ping payload in turn,
/// threading the core's state through, and the actions are performed
/// in roster order.
pub open spec fn spec_ping(n: NetworkV, roster: Seq<NodeInfoV>) -> (NetworkV, Seq<NetActionV>)
    decreases roster.len(),
{
    if roster.len() == 0 {
        (n, Seq::empty())
    } else {
        let (n1, a1) = spec_client_send(n, roster[0].public, ping_payload());
        let (n2, rest) = spec_ping(n1, roster.drop_first());
        (n2, a1 + rest)
    }
}

/// One node of the overlay: its identity, its roster snapshot, its
/// networking core, and the store its identity came from.
pub struct Node<S: DataStorage> {
    /// The node's own identity.
    pub info: NodeInfo,
    /// The last roster snapshot the host kept here.
    pub nodes: Vec<NodeInfo>,
    /// The networking core.
    pub network: Network,
    /// The identity store.
    pub storage: S,
}

impl<S: DataStorage> Node<S> {
    /// Boots a node from its identity store: a stored identity is
    /// loaded, an empty store gets a fresh random one; either way the
    /// identity is written back and the networking core starts around
    /// it.  A store that cannot be read or written, or holds data
    /// that is not an identity, is a storage failure.
    pub fn new(storage: S) -> (r: Result<Node<S>, SignalError>)
        ensures
            match r {
                Ok(node) => {
                    &&& wf_network(node.network@)
                    &&& node.network@.info == node.info@
                    &&& node.network@.connections == Seq::<crate::network::ConnEntryV>::empty()
                    &&& node.nodes@.len() == 0
                },
                Err(e) => e == SignalError::Storage,
            },
    {
        let mut storage = storage;
        let loaded = match storage.load(CONFIG_NAME) {
            Ok(data) => data,
            Err(_) => {
                return Err(SignalError::Storage);
            },
        };
        let config = if loaded.len() == 0 {
            NodeConfig { our_node: NodeInfo::new(U256::rnd()) }
        } else {
            match decode_config(&loaded) {
                Ok(c) => {
                    proof {
                        lemma_decode_config_wf(loaded@);
                    }
                    c
                },
                Err(_) => {
                    return Err(SignalError::Storage);
                },
            }
        };
        assert(wf_node_info(config@));
        let data = encode_config(&config);
        match storage.save(CONFIG_NAME, data.as_slice()) {
            Ok(_) => {},
            Err(_) => {
                return Err(SignalError::Storage);
            },
        }
        let info = config.our_node.clone();
        let network = Network::new(config.our_node);
        Ok(Node { info, nodes: Vec::new(), network, storage })
    }

    /// Asks the server to drop its roster; debugging only.
    pub fn clear(&self) -> (r: NetAction)
        ensures
            r@ == NetActionV::WsSend(crate::web_rtc::WSSignalMessageV::ClearNodes),
            wf_net_action(r@),
    {
        self.network.clear_nodes()
    }

    /// Asks the server for the current roster.
    pub fn list(&mut self) -> (r: NetAction)
        ensures
            r@ == NetActionV::WsSend(crate::web_rtc::WSSignalMessageV::ListIDsRequest),
            wf_net_action(r@),
    {
        self.network.update_node_list()
    }

    /// Greets every node of the kept roster with a ping, in roster
    /// order.
    pub fn ping(&mut self) -> (r: Vec<NetAction>)
        requires
            wf_network(old(self).network@),
        ensures
            wf_network(final(self).network@),
            final(self).network@ == spec_ping(old(self).network@, old(self).network@.list).0,
            r@.map_values(|a: NetAction| a@) == spec_ping(
                old(self).network@,
                old(self).network@.list,
            ).1,
            forall|i: int| 0 <= i < r@.len() ==> wf_net_action(#[trigger] r@[i]@),
    {
        let ghost n0 = self.network@;
        let ghost roster = n0.list;
        let list = self.network.get_list();
        let mut out: Vec<NetAction> = Vec::new();
        proof {
            assert(roster.skip(0) =~= roster);
            assert(out@.map_values(|a: NetAction| a@) =~= Seq::<NetActionV>::empty());
        }
        let mut i: usize = 0;
        while i < list.len()
            invariant
                i <= list.len(),
                roster == list@.map_values(|ni: NodeInfo| ni@),
                wf_network(self.network@),
                spec_ping(n0, roster).0 == spec_ping(self.network@, roster.skip(i as int)).0,
                spec_ping(n0, roster).1 == out@.map_values(|a: NetAction| a@) + spec_ping(
                    self.network@,
                    roster.skip(i as int),
                ).1,
                forall|k: int| 0 <= k < out@.len() ==> wf_net_action(#[trigger] out@[k]@),
            decreases list.len() - i,
        {
            proof {
                assert(roster.skip(i as int)[0] == roster[i as int]);
                assert(roster.skip(i as int).drop_first() =~= roster.skip(i as int + 1));
                assert(list@[i as int]@ == roster[i as int]);
            }
            let ghost ncur = self.network@;
            let mut payload: Vec<u8> = Vec::new();
            payload.push(0x70);
            payload.push(0x69);
            payload.push(0x6e);
            payload.push(0x67);
            proof {
                assert(payload@ =~= ping_payload());
            }
            let mut acts = self.network.send(&list[i].public, payload);
            let ghost added = acts@.map_values(|a: NetAction| a@);
            let ghost before = out@.map_values(|a: NetAction| a@);
            while acts.len() > 0
                invariant
                    before + added == out@.map_values(|a: NetAction| a@) + acts@.map_values(
                        |a: NetAction| a@,
                    ),
                    forall|k: int| 0 <= k < out@.len() ==> wf_net_action(#[trigger] out@[k]@),
                    forall|k: int| 0 <= k < acts@.len() ==> wf_net_action(#[trigger] acts@[k]@),
                decreases acts.len(),
            {
                let ghost av = acts@.map_values(|a: NetAction| a@);
                let a = acts.remove(0);
                proof {
                    assert(acts@.map_values(|x: NetAction| x@) =~= av.drop_first());
                    assert(forall|k: int|
                        0 <= k < acts@.len() ==> #[trigger] acts@[k]@ == av.drop_first()[k]);
                }
                out.push(a);
                proof {
                    assert(before + added =~= out@.map_values(|x: NetAction| x@)
                        + acts@.map_values(|x: NetAction| x@));
                }
            }
            proof {
                assert(acts@.map_values(|x: NetAction| x@) =~= Seq::<NetActionV>::empty());
                assert(out@.map_values(|x: NetAction| x@) =~= before + added);
                assert(before + added + spec_ping(
                    self.network@,
                    roster.skip(i as int + 1),
                ).1 =~= before + (added + spec_ping(self.network@, roster.skip(i as int + 1)).1));
            }
            i += 1;
        }
        proof {
            assert(roster.skip(list@.len() as int) =~= Seq::<NodeInfoV>::empty());
            assert(out@.map_values(|a: NetAction| a@) =~= out@.map_values(|a: NetAction| a@)
                + Seq::<NetActionV>::empty());
        }
        out
    }
}

} // verus!
