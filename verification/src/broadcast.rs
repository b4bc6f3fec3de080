use vstd::prelude::*;

verus! {

/// A peer's node identifier, held as its raw bytes.
#[derive(Debug)]
pub struct NodeId {
    pub bytes: Vec<u8>,
}

/// A peer's public key, held as its raw bytes.
#[derive(Debug)]
pub struct CommsPublicKey {
    pub bytes: Vec<u8>,
}

/// A request to send to the `n` nearest neighbours of a node, leaving out
/// the excluded peers.
#[derive(Debug)]
pub struct BroadcastClosestRequest {
    pub n: usize,
    pub node_id: NodeId,
    pub excluded_peers: Vec<CommsPublicKey>,
}

/// How an outbound message picks its recipients. The routing collaborator
/// consumes this policy; the storage core never depends on it.
#[derive(Debug)]
pub enum BroadcastStrategy {
    /// Send to the one peer matching the given node id.
    DirectNodeId(NodeId),
    /// Send to the one peer matching the given public key.
    DirectPublicKey(CommsPublicKey),
    /// Send to all known communication-node peers.
    Flood,
    /// Send to the `n` nearest-neighbour communication nodes.
    Closest(BroadcastClosestRequest),
    /// Send to a random set of communication nodes of size `n`.
    Random(usize),
}

impl BroadcastStrategy {
    /// The target node id, exactly where the strategy is a direct-by-id
    /// send.
    pub fn direct_node_id(&self) -> (r: Option<&NodeId>)
        ensures
            (match *self {
                BroadcastStrategy::DirectNodeId(id) => (r matches Some(x) && *x == id),
                _ => r is None,
            }),
    {
        match self {
            BroadcastStrategy::DirectNodeId(node_id) => Some(node_id),
            _ => None,
        }
    }

    /// The target public key, exactly where the strategy is a direct-by-key
    /// send.
    pub fn direct_public_key(&self) -> (r: Option<&CommsPublicKey>)
        ensures
            (match *self {
                BroadcastStrategy::DirectPublicKey(pk) => (r matches Some(x) && *x == pk),
                _ => r is None,
            }),
    {
        match self {
            BroadcastStrategy::DirectPublicKey(pk) => Some(pk),
            _ => None,
        }
    }
}

} // verus!
