//! Service lifecycle, discovery book-keeping, topology, health and the
//! identifier helpers.

use prozchain_lib::discovery::{BootstrapConfig, PeerDiscovery, PeerInfo, PeerSource};
use prozchain_lib::health::{evaluate_health, is_status_change, HealthStatus, HealthThresholds};
use prozchain_lib::message::{Message, Protocol};
use prozchain_lib::service::{
    NetworkConfig, NetworkMessage, NetworkResponse, NetworkService, NetworkStatus, ServiceAction,
};
use prozchain_lib::topology::{TopologyConfig, TopologyManager};
use prozchain_lib::types::{Endpoint, IpAddress, PeerId, ProtocolId};
use prozchain_lib::traversal::{
    NatTraversal, NatType, PortMapping, PortMappingProtocol, StunObservation,
};
use prozchain_lib::utils::{PeerStatistics, PeerTracker};
use prozchain_lib::version::{default_capabilities, FeatureFlag, ProtocolVersion};

fn peer(n: u64) -> PeerId {
    PeerId { w0: n, w1: 0, w2: 0, w3: 0 }
}

fn v4(bits: u32, port: u16) -> Endpoint {
    Endpoint { ip: IpAddress::V4(bits), port }
}

fn info(n: u64, caps: Vec<&str>) -> PeerInfo {
    PeerInfo {
        id: peer(n),
        address: v4(n as u32, 1),
        protocol_version: 1,
        user_agent: "test".to_string(),
        capabilities: caps.into_iter().map(|c| c.to_string()).collect(),
        service_bits: 1,
    }
}

#[test]
fn bootstrap_empty_lifecycle() {
    // empty bootstrap nodes and DNS seeds: starting succeeds, the peer
    // count stays zero, and stopping returns to the stopped state
    let mut config = NetworkConfig::default();
    config.bootstrap_nodes = Vec::new();
    config.dns_seeds = Vec::new();
    let mut service = NetworkService::new(config, Vec::new(), 0).unwrap();
    assert_eq!(service.status(), NetworkStatus::Stopped);
    service.start_begin();
    assert_eq!(service.status(), NetworkStatus::Starting);
    service.start_complete();
    assert_eq!(service.status(), NetworkStatus::Running);
    assert_eq!(service.connected_peer_count(), 0);
    let events = service.stop();
    assert!(events.is_empty());
    assert_eq!(service.status(), NetworkStatus::Stopped);
}

#[test]
fn stop_disconnects_every_peer_normally() {
    let mut service = NetworkService::new(NetworkConfig::default(), Vec::new(), 0).unwrap();
    service.register_peer(info(1, vec!["FULL_NODE"]));
    service.register_peer(info(2, vec!["FULL_NODE"]));
    let events = service.stop();
    assert_eq!(events.len(), 2);
    for (_, reason) in events {
        assert_eq!(reason, prozchain_lib::types::DisconnectReason::Normal);
    }
}

#[test]
fn validator_count_reads_capabilities() {
    let mut service = NetworkService::new(NetworkConfig::default(), Vec::new(), 0).unwrap();
    service.register_peer(info(1, vec!["FULL_NODE"]));
    service.register_peer(info(2, vec!["VALIDATOR"]));
    service.register_peer(info(3, vec!["FULL_NODE", "VALIDATOR"]));
    assert_eq!(service.connected_peer_count(), 3);
    assert_eq!(service.connected_validator_count(), 2);
}

#[test]
fn address_book_upgrade_rules() {
    let config = BootstrapConfig {
        bootstrap_nodes: Vec::new(),
        dns_seeds: Vec::new(),
        enable_local_discovery: false,
        static_peers: Vec::new(),
        dns_lookup_interval_ms: 60_000,
    };
    let mut discovery = PeerDiscovery::new(config);
    let p = peer(1);
    let addr1 = v4(10, 1);
    let addr2 = v4(20, 2);
    discovery.add_peer(p, addr1, 1, "ua".to_string(), PeerSource::DNSSeed, 100);
    // an inbound observation does not overwrite the reachable endpoint,
    // but upgrades the source
    discovery.add_peer(p, addr2, 1, "ua".to_string(), PeerSource::Incoming, 200);
    let rec = &discovery.known_peers[0].1;
    assert_eq!(rec.address, addr1);
    assert_eq!(rec.source, PeerSource::Incoming);
    assert_eq!(rec.first_seen_ms, 100);
    assert_eq!(rec.last_seen_ms, 200);
    // a lower-trust source never downgrades
    discovery.add_peer(p, addr2, 1, "ua".to_string(), PeerSource::PeerExchange, 300);
    let rec = &discovery.known_peers[0].1;
    assert_eq!(rec.source, PeerSource::Incoming);
    assert_eq!(rec.address, addr2);
    assert_eq!(discovery.known_peer_count(), 1);
}

#[test]
fn discovery_filters_attempted_and_banned() {
    let config = BootstrapConfig {
        bootstrap_nodes: Vec::new(),
        dns_seeds: Vec::new(),
        enable_local_discovery: false,
        static_peers: Vec::new(),
        dns_lookup_interval_ms: 60_000,
    };
    let mut discovery = PeerDiscovery::new(config);
    let a = v4(1, 1);
    let b = v4(2, 2);
    let c = v4(3, 3);
    discovery.mark_attempted(a);
    discovery.mark_banned(b);
    let found = discovery.ingest_resolved_peers(&vec![a, b, c], PeerSource::DNSSeed, true, 0);
    assert_eq!(found.len(), 1);
    assert_eq!(found[0].address, c);
    // the bootstrap path does not filter
    let found = discovery.ingest_resolved_peers(&vec![a, b], PeerSource::Bootstrap, false, 0);
    assert_eq!(found.len(), 2);
}

#[test]
fn dns_queries_are_rate_limited() {
    let config = BootstrapConfig {
        bootstrap_nodes: Vec::new(),
        dns_seeds: Vec::new(),
        enable_local_discovery: false,
        static_peers: Vec::new(),
        dns_lookup_interval_ms: 60_000,
    };
    let mut discovery = PeerDiscovery::new(config);
    assert!(discovery.should_query_dns(0));
    discovery.record_dns_lookup(1_000);
    assert!(!discovery.should_query_dns(30_000));
    assert!(discovery.should_query_dns(61_001));
}

#[test]
fn topology_counts_and_eviction() {
    let mut topology = TopologyManager::new(TopologyConfig {
        target_outbound: 2,
        max_inbound: 3,
        max_peers_per_ip: 2,
        preferred_nodes: Vec::new(),
        preferred_regions: Vec::new(),
    });
    assert!(topology.needs_more_outbound());
    topology.register_inbound(peer(1), v4(1, 1));
    topology.register_inbound(peer(2), v4(1, 2));
    // the per-IP cap refuses a third connection from the same address
    assert!(!topology.can_accept_inbound(&v4(1, 3)));
    assert!(topology.can_accept_inbound(&v4(2, 3)));
    topology.register_inbound(peer(3), v4(2, 3));
    assert_eq!(topology.peer_counts(), (3, 0));

    topology.update_peer_score(peer(1), 900);
    topology.update_peer_score(peer(2), 100);
    topology.update_peer_score(peer(3), 400);
    topology.mark_preferred(peer(3));
    // the lowest-scored non-preferred peers go first
    let victims = topology.select_eviction_candidates(2);
    assert_eq!(victims, vec![peer(2), peer(1)]);

    topology.remove_connection(&peer(1));
    assert_eq!(topology.peer_counts(), (2, 0));
}

#[test]
fn health_levels_follow_thresholds() {
    let thresholds = HealthThresholds {
        min_peers: 4,
        max_latency_ms: 500,
        min_validator_connections: 1,
        bandwidth_threshold: 1_000_000,
        message_rate_threshold: 5,
    };
    let healthy = evaluate_health(&thresholds, 10, 2, 100, 10_000, 0);
    assert!(matches!(healthy.status, HealthStatus::Healthy));
    // few peers but above half the floor: degraded
    let degraded = evaluate_health(&thresholds, 3, 2, 100, 10_000, 0);
    assert!(matches!(degraded.status, HealthStatus::Degraded { .. }));
    // below half the peer floor: critical
    let critical = evaluate_health(&thresholds, 1, 2, 100, 10_000, 0);
    assert!(matches!(critical.status, HealthStatus::Critical { .. }));
    // no validators at all while one is required: critical
    let no_validators = evaluate_health(&thresholds, 10, 0, 100, 10_000, 0);
    assert!(matches!(no_validators.status, HealthStatus::Critical { .. }));
    // high latency alone: degraded
    let slow = evaluate_health(&thresholds, 10, 2, 900, 10_000, 0);
    assert!(matches!(slow.status, HealthStatus::Degraded { .. }));

    assert!(is_status_change(&None, &healthy));
    assert!(!is_status_change(&Some(degraded), &slow));
    assert!(is_status_change(&Some(critical), &healthy));
}

#[test]
fn peer_statistics_track_totals_and_latency() {
    let mut stats = PeerStatistics::new(0);
    stats.record_bytes_sent(100, 10);
    stats.record_bytes_received(50, 20);
    stats.record_message_sent(30);
    stats.record_message_received(40);
    assert_eq!(stats.bytes_sent, 100);
    assert_eq!(stats.bytes_received, 50);
    assert_eq!(stats.messages_sent, 1);
    assert_eq!(stats.messages_received, 1);
    assert_eq!(stats.last_activity_ms, 40);
    assert_eq!(stats.uptime(100), 100);
    assert_eq!(stats.idle_time(100), 60);

    assert_eq!(stats.average_latency(), None);
    stats.record_latency(10);
    stats.record_latency(30);
    assert_eq!(stats.average_latency(), Some(20));
    // only the last ten samples count
    for _ in 0..10 {
        stats.record_latency(100);
    }
    assert_eq!(stats.average_latency(), Some(100));
}

#[test]
fn peer_tracker_maps_both_directions() {
    let mut tracker = PeerTracker::new();
    tracker.add_peer(peer(1), v4(10, 1), 0);
    tracker.add_peer(peer(2), v4(20, 2), 0);
    assert_eq!(tracker.peer_count(), 2);
    assert_eq!(tracker.get_addr_by_id(&peer(1)), Some(v4(10, 1)));
    assert_eq!(tracker.get_id_by_addr(&v4(20, 2)), Some(peer(2)));
    tracker.remove_peer(&peer(1));
    assert_eq!(tracker.peer_count(), 1);
    assert_eq!(tracker.get_addr_by_id(&peer(1)), None);
}

#[test]
fn identifier_helpers() {
    let id = PeerId { w0: 0x0102030405060708, w1: 0, w2: 0, w3: 0 };
    assert_eq!(id.short_hex(), "0102030405060708");
    assert_eq!(id.as_u64(), 0x0102030405060708);
    assert!(peer(1).lt(&peer(2)));
    assert!(!peer(2).lt(&peer(2)));

    assert_eq!(ProtocolId::BlockSync.as_u16(), 2);
    assert_eq!(ProtocolId::from_u16(3), Some(ProtocolId::TransactionPropagation));
    assert_eq!(ProtocolId::from_u16(99), None);
    assert_eq!(prozchain_lib::message::Protocol::from_u8(7), Some(prozchain_lib::message::Protocol::Identity));
    assert_eq!(prozchain_lib::message::Protocol::from_u8(0), None);
}

#[test]
fn hex_encoding_is_lowercase_two_digits_per_byte() {
    let bytes = vec![0u8, 1, 15, 16, 171, 255];
    assert_eq!(prozchain_lib::hash::hex_encode(&bytes), "00010f10abff");
}

#[test]
fn nat_traversal_state_tracks_discovery() {
    let mut nat = NatTraversal::new(vec!["stun.example:3478".to_string()], true);
    assert_eq!(nat.get_nat_type(), NatType::Unknown);
    assert!(nat.is_behind_nat());
    assert!(!nat.supports_holepunch());
    nat.record_discovery(StunObservation {
        nat_type: NatType::FullCone,
        external_address: IpAddress::V4(0xcb007129),
    });
    assert_eq!(nat.get_nat_type(), NatType::FullCone);
    assert_eq!(nat.get_external_address(), Some(IpAddress::V4(0xcb007129)));
    assert!(nat.supports_holepunch());
    nat.record_discovery(StunObservation {
        nat_type: NatType::Symmetric,
        external_address: IpAddress::V4(1),
    });
    assert!(!nat.supports_holepunch());
    nat.record_port_mapping(PortMapping {
        internal_port: 30333,
        external_port: 30333,
        protocol: PortMappingProtocol::Tcp,
        lease_duration_ms: 7_200_000,
    });
    assert_eq!(nat.mappings.len(), 1);
}

#[test]
fn default_capabilities_follow_node_type() {
    let full = default_capabilities("full");
    assert_eq!(
        full.supported_protocols[0],
        (ProtocolId::PeerDiscovery, ProtocolVersion::new(1, 0, 0))
    );
    assert!(full
        .supported_protocols
        .contains(&(ProtocolId::BlockSync, ProtocolVersion::new(1, 0, 0))));
    assert!(full.features.contains(&FeatureFlag::Compression));
    let validator = default_capabilities("validator");
    assert!(validator
        .supported_protocols
        .contains(&(ProtocolId::ConsensusMessages, ProtocolVersion::new(1, 0, 0))));
    assert!(validator.features.contains(&FeatureFlag::PriorityTransactions));
    let light = default_capabilities("light");
    assert!(light
        .supported_protocols
        .contains(&(ProtocolId::LightClientSync, ProtocolVersion::new(1, 0, 0))));
    assert!(light.features.contains(&FeatureFlag::FastSync));
    let unknown = default_capabilities("relay");
    assert_eq!(unknown.supported_protocols.len(), 1);
}

#[test]
fn admission_consults_the_ban_list() {
    let mut service = NetworkService::new(NetworkConfig::default(), Vec::new(), 0).unwrap();
    let addr = v4(0x0a000001, 1000);
    assert!(service.is_connection_admissible(&addr, 0));
    // ban the address for one second
    service.dos_protection.banned_addresses.insert(addr.ip, 1_000, 0);
    assert!(!service.is_connection_admissible(&addr, 500));
    // once the ban expires the address is admissible again
    assert!(service.is_connection_admissible(&addr, 1_500));
}

#[test]
fn dispatch_returns_actions_and_responses() {
    let mut service = NetworkService::new(NetworkConfig::default(), Vec::new(), 0).unwrap();
    let addr = v4(9, 9);

    let (resp, action) = service.handle_network_message(NetworkMessage::Connect(addr));
    assert!(resp.is_none());
    assert!(matches!(action, Some(ServiceAction::Dial(a)) if a == addr));

    let msg = Message::new(Protocol::Control, 4, vec![1]);
    let (resp, action) = service.handle_network_message(NetworkMessage::SendMessage(peer(1), msg));
    assert!(matches!(resp, Some(NetworkResponse::MessageSent(Ok(())))));
    assert!(matches!(action, Some(ServiceAction::Send(p, m))
        if p == peer(1) && m.header.message_type == 4));

    let msg = Message::new(Protocol::Transaction, 7, vec![2]);
    let (resp, action) =
        service.handle_network_message(NetworkMessage::Broadcast(Protocol::Transaction, msg));
    assert!(resp.is_none());
    assert!(matches!(action, Some(ServiceAction::Broadcast(Protocol::Transaction, m))
        if m.header.message_type == 7));

    service.register_peer(info(1, vec!["FULL_NODE"]));
    let (resp, action) = service.handle_network_message(NetworkMessage::GetPeers);
    assert!(action.is_none());
    match resp {
        Some(NetworkResponse::PeerList(list)) => {
            assert_eq!(list.len(), 1);
            assert_eq!(list[0].id, peer(1));
        }
        _ => panic!("expected a peer list"),
    }

    let (_, action) = service.handle_network_message(NetworkMessage::Disconnect(
        peer(1),
        prozchain_lib::types::DisconnectReason::Normal,
    ));
    assert!(matches!(action, Some(ServiceAction::DisconnectPeer(p, _)) if p == peer(1)));
    assert_eq!(service.connected_peer_count(), 0);
}
