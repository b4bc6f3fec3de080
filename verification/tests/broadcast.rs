use chain_storage::broadcast::BroadcastClosestRequest;
use chain_storage::broadcast::BroadcastStrategy;
use chain_storage::broadcast::CommsPublicKey;
use chain_storage::broadcast::NodeId;

#[test]
fn direct_node_id_only_for_direct_by_id() {
    let strategy = BroadcastStrategy::DirectNodeId(NodeId { bytes: vec![1, 2, 3] });
    assert_eq!(strategy.direct_node_id().unwrap().bytes, vec![1, 2, 3]);
    assert!(strategy.direct_public_key().is_none());
    assert!(BroadcastStrategy::Flood.direct_node_id().is_none());
    assert!(BroadcastStrategy::Random(4).direct_node_id().is_none());
}

#[test]
fn direct_public_key_only_for_direct_by_key() {
    let strategy = BroadcastStrategy::DirectPublicKey(CommsPublicKey { bytes: vec![7, 8] });
    assert_eq!(strategy.direct_public_key().unwrap().bytes, vec![7, 8]);
    assert!(strategy.direct_node_id().is_none());
    let closest = BroadcastStrategy::Closest(BroadcastClosestRequest {
        n: 5,
        node_id: NodeId { bytes: vec![1] },
        excluded_peers: vec![],
    });
    assert!(closest.direct_public_key().is_none());
    assert!(closest.direct_node_id().is_none());
}
