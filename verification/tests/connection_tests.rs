//! Connection lifecycle: admission, counters, the duplicate tie-break and
//! timeouts.

use prozchain_lib::connection::{
    ConnectionConfig, ConnectionLimits, ConnectionManager, SendQueue,
};
use prozchain_lib::counters::CountKey;
use prozchain_lib::message::{Message, Protocol};
use prozchain_lib::types::{ConnectionDirection, DisconnectReason, Endpoint, IpAddress, PeerId};

fn peer(n: u64) -> PeerId {
    PeerId { w0: n, w1: 0, w2: 0, w3: 0 }
}

fn v4(bits: u32, port: u16) -> Endpoint {
    Endpoint { ip: IpAddress::V4(bits), port }
}

fn manager() -> ConnectionManager {
    ConnectionManager::new(
        ConnectionConfig {
            handshake_timeout_ms: 10_000,
            max_pending_connections: 10,
            tls_config: None,
            enable_0rtt: false,
        },
        ConnectionLimits::default(),
    )
}

#[test]
fn counters_follow_connections() {
    let mut cm = manager();
    let addr1 = v4(0x0a000001, 1);
    let addr2 = v4(0x0a000001, 2);
    let addr3 = v4(0x0a000002, 3);
    let local = peer(0);
    cm.complete_handshake(addr1, peer(1), ConnectionDirection::Inbound, 1, "a".into(), local, 0)
        .unwrap();
    cm.complete_handshake(addr2, peer(2), ConnectionDirection::Inbound, 1, "b".into(), local, 0)
        .unwrap();
    cm.complete_handshake(addr3, peer(3), ConnectionDirection::Outbound, 1, "c".into(), local, 0)
        .unwrap();
    assert_eq!(cm.connection_count(), 3);
    assert_eq!(cm.inbound_connection_count(), 2);
    assert_eq!(cm.outbound_connection_count(), 1);
    assert_eq!(cm.ip_connections.get(CountKey::Ip(addr1.ip)), 2);
    assert_eq!(cm.ip_connections.get(CountKey::Ip(addr3.ip)), 1);

    cm.disconnect(peer(1), DisconnectReason::Normal);
    assert_eq!(cm.connection_count(), 2);
    assert_eq!(cm.ip_connections.get(CountKey::Ip(addr1.ip)), 1);
    assert!(!cm.is_connected(&peer(1)));
    assert!(cm.is_connected(&peer(2)));
}

#[test]
fn inbound_admission_checks() {
    let mut cm = manager();
    let addr = v4(0x0a000001, 9);
    assert!(cm.handle_inbound_connection(addr, 0).is_ok());
    // a second attempt for the same endpoint is refused while pending
    assert!(cm.handle_inbound_connection(addr, 1).is_err());
}

#[test]
fn duplicate_peer_smaller_id_keeps_outbound() {
    // our identity orders below the remote's: we keep our outbound side
    let local = peer(1);
    let remote = peer(100);
    let mut cm = manager();
    cm.complete_handshake(
        v4(1, 1),
        remote,
        ConnectionDirection::Outbound,
        1,
        "x".into(),
        local,
        0,
    )
    .unwrap();
    // the simultaneous inbound handshake for the same identity loses
    let r = cm.complete_handshake(
        v4(2, 2),
        remote,
        ConnectionDirection::Inbound,
        1,
        "x".into(),
        local,
        1,
    );
    assert!(matches!(r, Err(prozchain_lib::types::NetworkError::DuplicateConnection)));
    assert_eq!(cm.connection_count(), 1);
    assert!(cm.is_connected(&remote));
}

#[test]
fn duplicate_peer_larger_id_keeps_inbound() {
    // our identity orders above the remote's: the inbound side survives and
    // the old outbound connection is dropped as a duplicate
    let local = peer(200);
    let remote = peer(100);
    let mut cm = manager();
    cm.complete_handshake(
        v4(1, 1),
        remote,
        ConnectionDirection::Outbound,
        1,
        "x".into(),
        local,
        0,
    )
    .unwrap();
    let r = cm
        .complete_handshake(
            v4(2, 2),
            remote,
            ConnectionDirection::Inbound,
            1,
            "x".into(),
            local,
            1,
        )
        .unwrap();
    assert_eq!(r, Some((remote, DisconnectReason::DuplicateConnection)));
    assert_eq!(cm.connection_count(), 1);
    assert!(cm.is_connected(&remote));
}

#[test]
fn handshake_timeout_restores_state() {
    let mut cm = manager();
    let addr = v4(0x0a000001, 4);
    cm.handle_inbound_connection(addr, 0).unwrap();
    // no version arrives within the handshake timeout
    let events = cm.clean_up_stale_connections(10_000 + 1_000);
    assert!(events.is_empty());
    assert_eq!(cm.connection_count(), 0);
    assert_eq!(cm.ip_connections.get(CountKey::Ip(addr.ip)), 0);
    // the endpoint may try again
    assert!(cm.handle_inbound_connection(addr, 12_000).is_ok());
}

#[test]
fn idle_connections_time_out() {
    let mut cm = manager();
    let addr = v4(0x0a000001, 5);
    let local = peer(0);
    cm.complete_handshake(addr, peer(7), ConnectionDirection::Inbound, 1, "x".into(), local, 0)
        .unwrap();
    // ten minutes of silence pass
    let events = cm.clean_up_stale_connections(600_000 + 1);
    assert_eq!(events, vec![(peer(7), DisconnectReason::Timeout)]);
    assert_eq!(cm.connection_count(), 0);
    assert_eq!(cm.ip_connections.get(CountKey::Ip(addr.ip)), 0);
}

#[test]
fn activity_defers_the_idle_timeout() {
    let mut cm = manager();
    let addr = v4(0x0a000001, 6);
    cm.complete_handshake(addr, peer(8), ConnectionDirection::Inbound, 1, "x".into(), peer(0), 0)
        .unwrap();
    cm.record_activity(&peer(8), 500_000);
    let events = cm.clean_up_stale_connections(600_000 + 1);
    assert!(events.is_empty());
    assert_eq!(cm.connection_count(), 1);
}

#[test]
fn send_queue_drops_oldest_lowest_priority() {
    let mut q = SendQueue::new(2);
    let m = |t: u16| Message::new(Protocol::Control, t, Vec::new());
    q.enqueue(5, m(1));
    q.enqueue(1, m(2));
    // the queue is full; the oldest entry at the lowest priority leaves
    q.enqueue(3, m(3));
    let first = q.dequeue().unwrap();
    let second = q.dequeue().unwrap();
    assert_eq!(first.0, 5);
    assert_eq!(first.1.header.message_type, 1);
    assert_eq!(second.0, 3);
    assert_eq!(second.1.header.message_type, 3);
    assert!(q.dequeue().is_none());
}
