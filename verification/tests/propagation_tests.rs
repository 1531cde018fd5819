//! Version negotiation, broadcast policies, gossip and compact blocks.

use prozchain_lib::block_propagation::{
    Block, BlockAnnouncement, BlockHeader, BlockPreference, BlockPropagator, Transaction,
    compute_merkle_root, create_short_transaction_id,
};
use prozchain_lib::message::{Message, Protocol};
use prozchain_lib::propagation::{
    BroadcastConfig, BroadcastManager, BroadcastPolicy, GossipFactors, GossipManager, LruCache,
    select_random_peers,
};
use prozchain_lib::types::{PeerId, ProtocolId};
use prozchain_lib::version::{
    FeatureFlag, ProtocolCapabilities, ProtocolNegotiator, ProtocolVersion,
};

fn peer(n: u64) -> PeerId {
    PeerId { w0: n, w1: 0, w2: 0, w3: 0 }
}

fn caps(entries: Vec<(ProtocolId, ProtocolVersion)>, features: Vec<FeatureFlag>) -> ProtocolCapabilities {
    ProtocolCapabilities { supported_protocols: entries, features }
}

#[test]
fn negotiation_takes_shared_major_and_lower_minor_patch() {
    let local = caps(
        vec![(ProtocolId::BlockSync, ProtocolVersion::new(1, 2, 5))],
        vec![FeatureFlag::Compression, FeatureFlag::FastSync],
    );
    let remote = caps(
        vec![(ProtocolId::BlockSync, ProtocolVersion::new(1, 1, 7))],
        vec![FeatureFlag::Compression],
    );
    let negotiator = ProtocolNegotiator::new(local, Vec::new());
    let negotiated = negotiator.negotiate(&remote);
    assert_eq!(
        negotiated.protocols,
        vec![(ProtocolId::BlockSync, ProtocolVersion::new(1, 1, 5))]
    );
    assert_eq!(negotiated.features, vec![FeatureFlag::Compression]);
}

#[test]
fn negotiation_rejects_differing_majors() {
    let local = caps(vec![(ProtocolId::BlockSync, ProtocolVersion::new(2, 0, 0))], vec![]);
    let remote = caps(vec![(ProtocolId::BlockSync, ProtocolVersion::new(1, 9, 9))], vec![]);
    let negotiator = ProtocolNegotiator::new(local, Vec::new());
    let negotiated = negotiator.negotiate(&remote);
    assert!(negotiated.protocols.is_empty());
}

#[test]
fn negotiation_respects_the_minimum() {
    let local = caps(vec![(ProtocolId::BlockSync, ProtocolVersion::new(1, 2, 0))], vec![]);
    let remote = caps(vec![(ProtocolId::BlockSync, ProtocolVersion::new(1, 1, 0))], vec![]);
    let minimum = vec![(ProtocolId::BlockSync, ProtocolVersion::new(1, 2, 0))];
    let negotiator = ProtocolNegotiator::new(local, minimum);
    // the negotiated 1.1.0 sits below the configured minimum 1.2.0
    assert!(negotiator.negotiate(&remote).protocols.is_empty());
}

#[test]
fn version_rendering() {
    assert_eq!(ProtocolVersion::new(1, 0, 0).to_string(), "1.0.0");
    assert_eq!(ProtocolVersion::new(255, 12, 3).to_string(), "255.12.3");
}

#[test]
fn random_subset_size_is_exact() {
    let peers: Vec<PeerId> = (0..10).map(peer).collect();
    // half of ten peers, at least two
    let chosen = select_random_peers(&peers, 500, 2);
    assert_eq!(chosen.len(), 5);
    for p in &chosen {
        assert!(peers.contains(p));
    }
    let mut dedup = chosen.clone();
    dedup.sort_by_key(|p| p.w0);
    dedup.dedup();
    assert_eq!(dedup.len(), 5);

    // the minimum dominates small fractions
    assert_eq!(select_random_peers(&peers, 100, 4).len(), 4);
    // never more than the population
    assert_eq!(select_random_peers(&peers, 1000, 99).len(), 10);
}

#[test]
fn broadcast_random_subset_and_dedup() {
    let config = BroadcastConfig {
        message_ttl_ms: 60_000,
        max_message_size: 1024,
        protocol_policies: Vec::new(),
        default_policy: BroadcastPolicy::RandomSubset { fraction_permille: 500, min_peers: 2 },
    };
    let mut manager = BroadcastManager::new(config);
    let peers: Vec<PeerId> = (0..10).map(peer).collect();
    let message = Message::new(Protocol::Transaction, 1, vec![1, 2, 3]);
    let selected = manager.broadcast_message(Protocol::Transaction, &message, &peers, 0).unwrap();
    assert_eq!(selected.len(), 5);
    // a second broadcast of the same message within the TTL is suppressed
    let again = manager.broadcast_message(Protocol::Transaction, &message, &peers, 100).unwrap();
    assert!(again.is_empty());
    // after the TTL the message flows again
    let later = manager.broadcast_message(Protocol::Transaction, &message, &peers, 70_000).unwrap();
    assert_eq!(later.len(), 5);
}

#[test]
fn broadcast_rejects_oversized_messages() {
    let config = BroadcastConfig {
        message_ttl_ms: 60_000,
        max_message_size: 4,
        protocol_policies: Vec::new(),
        default_policy: BroadcastPolicy::AllPeers,
    };
    let mut manager = BroadcastManager::new(config);
    let peers: Vec<PeerId> = (0..3).map(peer).collect();
    let message = Message::new(Protocol::Transaction, 1, vec![0u8; 16]);
    assert!(manager.broadcast_message(Protocol::Transaction, &message, &peers, 0).is_err());
}

#[test]
fn broadcast_all_peers_reaches_everyone() {
    let config = BroadcastConfig {
        message_ttl_ms: 60_000,
        max_message_size: 1024,
        protocol_policies: Vec::new(),
        default_policy: BroadcastPolicy::AllPeers,
    };
    let mut manager = BroadcastManager::new(config);
    let peers: Vec<PeerId> = (0..4).map(peer).collect();
    let message = Message::new(Protocol::Consensus, 1, vec![9]);
    let selected = manager.broadcast_message(Protocol::Consensus, &message, &peers, 0).unwrap();
    assert_eq!(selected, peers);
}

#[test]
fn gossip_tracks_new_and_known_messages() {
    let factors = GossipFactors { fanout: 3, rounds: 2, propagation_delay_ms: 100 };
    let mut gossip = GossipManager::new(factors, 3_600_000, 1000, peer(0));
    let payload = vec![1u8, 2, 3];
    assert!(gossip.process_incoming_gossip(peer(1), &payload, 0));
    assert!(!gossip.process_incoming_gossip(peer(2), &payload, 10));
    // both senders are now known to hold the message; nobody is selected
    let hash = prozchain_lib::propagation::hash_bytes(&payload);
    let selected = gossip.select_gossip_peers(&hash, 3);
    assert!(selected.is_empty());
    // a peer that sent something else is still a candidate
    let other = vec![9u8];
    gossip.process_incoming_gossip(peer(3), &other, 20);
    let selected = gossip.select_gossip_peers(&hash, 3);
    assert_eq!(selected, vec![peer(3)]);
}

#[test]
fn lru_cache_stores_values_under_keys() {
    let mut cache = LruCache::new(4);
    let h = |n: u64| prozchain_lib::hash::Digest { w0: n, w1: 0, w2: 0, w3: 0 };
    cache.put(h(1), vec![10, 11]);
    cache.put(h(2), vec![20]);
    assert_eq!(cache.get(&h(1)), Some(&vec![10, 11]));
    assert_eq!(cache.get(&h(2)), Some(&vec![20]));
    assert_eq!(cache.get(&h(3)), None);
    // updating a key replaces its bytes
    cache.put(h(1), vec![99]);
    assert_eq!(cache.get(&h(1)), Some(&vec![99]));
}

#[test]
fn lru_cache_bounds_its_size() {
    let mut cache = LruCache::new(2);
    let h = |n: u64| prozchain_lib::hash::Digest { w0: n, w1: 0, w2: 0, w3: 0 };
    cache.put(h(1), vec![1]);
    cache.put(h(2), vec![2]);
    cache.put(h(3), vec![3]);
    assert!(!cache.contains_key(&h(1)));
    assert!(cache.contains_key(&h(2)));
    assert!(cache.contains_key(&h(3)));
    assert!(cache.remove(&h(2)).is_some());
    assert!(!cache.contains_key(&h(2)));
}

fn tx(lock_time: u32) -> Transaction {
    Transaction { version: 1, inputs: Vec::new(), outputs: Vec::new(), lock_time }
}

fn header_for(transactions: &[Transaction]) -> BlockHeader {
    let hashes: Vec<_> = transactions.iter().map(|t| t.hash()).collect();
    BlockHeader {
        version: 1,
        prev_block: prozchain_lib::hash::Digest { w0: 0, w1: 0, w2: 0, w3: 0 },
        merkle_root: compute_merkle_root(&hashes),
        timestamp: 7,
        difficulty: 1,
        nonce: 3,
    }
}

#[test]
fn compact_block_partitions_by_prevalence() {
    // a block of three: two prevalent transactions travel as short ids,
    // the third as a full hash
    let txs = vec![tx(1), tx(2), tx(3)];
    let header = header_for(&txs);
    let block = Block::new(header, txs.clone());
    let mut propagator = BlockPropagator::new(true, 800);
    propagator.set_transaction_prevalence(txs[2].hash(), 100);
    let announcement = propagator.create_compact_block(&block);
    match &announcement {
        BlockAnnouncement::CompactBlock { header: h, short_ids, missing_transaction_hashes } => {
            assert_eq!(*h, header);
            assert_eq!(short_ids.len(), 2);
            assert_eq!(missing_transaction_hashes.len(), 1);
            assert_eq!(short_ids[0], create_short_transaction_id(&txs[0].hash()));
            assert_eq!(short_ids[1], create_short_transaction_id(&txs[1].hash()));
            assert_eq!(missing_transaction_hashes[0], txs[2].hash());
        },
        _ => panic!("expected a compact block"),
    }
}

#[test]
fn compact_block_reconstruction_round_trip() {
    // the peer's mempool holds two of the three transactions: the first
    // resolution attempt is incomplete, and once the missing transaction
    // arrives the block is rebuilt and its merkle root verified
    let txs = vec![tx(1), tx(2), tx(3)];
    let header = header_for(&txs);
    let block = Block::new(header, txs.clone());
    let mut sender = BlockPropagator::new(true, 800);
    sender.set_transaction_prevalence(txs[2].hash(), 100);
    let announcement = sender.create_compact_block(&block);

    let mut receiver = BlockPropagator::new(true, 800);
    receiver.add_transaction_to_mempool(txs[0].clone());
    receiver.add_transaction_to_mempool(txs[1].clone());
    let incomplete = receiver.handle_compact_block(&announcement).unwrap();
    assert!(incomplete.is_none());

    receiver.add_transaction_to_mempool(txs[2].clone());
    let rebuilt = receiver.handle_compact_block(&announcement).unwrap().unwrap();
    assert_eq!(rebuilt.header, header);
    assert_eq!(rebuilt.transactions.len(), 3);
    for (rebuilt_tx, original) in rebuilt.transactions.iter().zip(txs.iter()) {
        assert_eq!(rebuilt_tx.hash(), original.hash());
    }
    assert!(receiver.verify_block_integrity(&rebuilt));
}

#[test]
fn full_mempool_reconstruction_keeps_order() {
    // every transaction is prevalent, so the whole block travels as short
    // ids and comes back in its original order
    let txs = vec![tx(10), tx(20), tx(30), tx(40)];
    let header = header_for(&txs);
    let block = Block::new(header, txs.clone());
    let sender = BlockPropagator::new(true, 800);
    let announcement = sender.create_compact_block(&block);
    match &announcement {
        BlockAnnouncement::CompactBlock { short_ids, missing_transaction_hashes, .. } => {
            assert_eq!(short_ids.len(), 4);
            assert!(missing_transaction_hashes.is_empty());
        },
        _ => panic!("expected a compact block"),
    }
    let mut receiver = BlockPropagator::new(true, 800);
    for t in &txs {
        receiver.add_transaction_to_mempool(t.clone());
    }
    let rebuilt = receiver.handle_compact_block(&announcement).unwrap().unwrap();
    for (i, original) in txs.iter().enumerate() {
        assert_eq!(rebuilt.transactions[i].hash(), original.hash());
        assert_eq!(rebuilt.transactions[i].lock_time, original.lock_time);
    }
}

#[test]
fn propagation_plan_groups_by_preference_and_dedups() {
    let txs = vec![tx(1)];
    let header = header_for(&txs);
    let block = Block::new(header, txs);
    let mut propagator = BlockPropagator::new(true, 800);
    let preferences = vec![
        (peer(1), BlockPreference::FullBlocks),
        (peer(2), BlockPreference::CompactBlocks),
        (peer(3), BlockPreference::HeadersOnly),
        (peer(4), BlockPreference::CompactBlocks),
    ];
    let plan = propagator.propagate_block(&block, &preferences).unwrap();
    assert_eq!(plan.full_block_peers, vec![peer(1)]);
    assert_eq!(plan.compact_peers, vec![peer(2), peer(4)]);
    assert_eq!(plan.header_peers, vec![peer(3)]);
    assert!(plan.compact_announcement.is_some());
    // the same block is not propagated twice
    assert!(propagator.propagate_block(&block, &preferences).is_none());
}

#[test]
fn merkle_root_depends_on_order() {
    let d = |n: u64| prozchain_lib::hash::Digest { w0: n, w1: 0, w2: 0, w3: 0 };
    let a = compute_merkle_root(&vec![d(1), d(2)]);
    let b = compute_merkle_root(&vec![d(2), d(1)]);
    assert_ne!(a, b);
    assert_eq!(compute_merkle_root(&vec![d(5)]), d(5));
    assert_eq!(compute_merkle_root(&Vec::new()), d(0));
}

#[test]
fn non_compact_announcements_are_rejected() {
    let txs = vec![tx(1)];
    let block = Block::new(header_for(&txs), txs);
    let propagator = BlockPropagator::new(true, 800);
    let r = propagator.handle_compact_block(&BlockAnnouncement::FullBlock(block));
    assert!(matches!(r, Err(prozchain_lib::types::NetworkError::InvalidMessage(_))));
}

#[test]
fn tampered_merkle_root_fails_the_integrity_check() {
    let txs = vec![tx(1), tx(2)];
    let mut header = header_for(&txs);
    header.merkle_root = prozchain_lib::hash::Digest { w0: 99, w1: 0, w2: 0, w3: 0 };
    let block = Block::new(header, txs.clone());
    let mut receiver = BlockPropagator::new(true, 800);
    for t in &txs {
        receiver.add_transaction_to_mempool(t.clone());
    }
    assert!(!receiver.verify_block_integrity(&block));
    let announcement = receiver.create_compact_block(&block);
    let r = receiver.handle_compact_block(&announcement);
    assert!(matches!(r, Err(prozchain_lib::types::NetworkError::InvalidMessage(_))));
}
