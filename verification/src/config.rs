//! Node identity: who a node is on the overlay.

use vstd::prelude::*;

use crate::types::U256;

verus! {

/// A node's identity as published in the roster: its public id and an
/// optional display name.
#[derive(Debug, PartialEq)]
pub struct NodeInfo {
    pub public: U256,
    pub name: Option<Vec<u8>>,
}

impl Clone for NodeInfo {
    /// An identical copy of this identity.
    fn clone(&self) -> (r: Self)
        ensures
            r@ == self@,
    {
        NodeInfo {
            public: self.public,
            name: match &self.name {
                Some(n) => Some(n.clone()),
                None => None,
            },
        }
    }
}

/// Mathematical model of a [`NodeInfo`].
#[verifier::ext_equal]
pub struct NodeInfoV {
    pub public: Seq<u8>,
    pub name: Option<Seq<u8>>,
}

impl View for NodeInfo {
    type V = NodeInfoV;

    open spec fn view(&self) -> NodeInfoV {
        NodeInfoV {
            public: self.public@,
            name: match &self.name {
                Some(n) => Some(n@),
                None => None,
            },
        }
    }
}

impl NodeInfo {
    /// A fresh identity around the given public id, without a name.
    pub fn new(public: U256) -> (r: NodeInfo)
        ensures
            r@ == (NodeInfoV { public: public@, name: None }),
    {
        NodeInfo { public, name: None }
    }
}

/// What a node keeps in its identity storage: its own [`NodeInfo`].
#[derive(Debug, Clone, PartialEq)]
pub struct NodeConfig {
    pub our_node: NodeInfo,
}

impl View for NodeConfig {
    type V = NodeInfoV;

    open spec fn view(&self) -> NodeInfoV {
        self.our_node@
    }
}

} // verus!
