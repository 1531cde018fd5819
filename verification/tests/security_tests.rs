//! Sybil caps, rate limiting, reputation and ban escalation.

use prozchain_lib::counters::CountKey;
use prozchain_lib::security::{
    AddressRestrictionLevel, DoSProtection, Ipv4Subnet, RateLimiter, ReputationTracker,
    ResourceType, SybilProtection, ViolationType,
};
use prozchain_lib::types::{DisconnectReason, Endpoint, IpAddress, NetworkError, PeerId};

fn peer(n: u64) -> PeerId {
    PeerId { w0: n, w1: 0, w2: 0, w3: 0 }
}

fn v4(a: u8, b: u8, c: u8, d: u8, port: u16) -> Endpoint {
    let bits = ((a as u32) << 24) | ((b as u32) << 16) | ((c as u32) << 8) | d as u32;
    Endpoint { ip: IpAddress::V4(bits), port }
}

#[test]
fn subnet_cap_limits_admissions() {
    // three admission attempts from the same /24 under a cap of two
    let mut sybil = SybilProtection::new(8, 2, 2, 20, AddressRestrictionLevel::LimitPerSubnet);
    assert!(sybil.admit_connection(v4(10, 0, 0, 1, 1000)));
    assert!(sybil.admit_connection(v4(10, 0, 0, 2, 1001)));
    assert!(!sybil.admit_connection(v4(10, 0, 0, 3, 1002)));
    // a different /24 is unaffected
    assert!(sybil.admit_connection(v4(10, 0, 1, 1, 1003)));
    // a disconnection frees a slot
    sybil.record_disconnection(v4(10, 0, 0, 1, 1000));
    assert!(sybil.admit_connection(v4(10, 0, 0, 3, 1002)));
}

#[test]
fn per_ip_cap_counts_exactly() {
    let mut sybil = SybilProtection::new(8, 2, 10, 20, AddressRestrictionLevel::LimitPerIp);
    let addr = v4(192, 168, 1, 5, 2000);
    assert!(sybil.admit_connection(addr));
    assert!(sybil.admit_connection(addr));
    assert!(!sybil.admit_connection(addr));
    assert_eq!(sybil.connection_counts.get(CountKey::Ip(addr.ip)), 2);
}

#[test]
fn ipv4_subnet_contains_matches_prefix() {
    let subnet = Ipv4Subnet::new(0x0a000000, 24);
    assert!(subnet.contains(0x0a0000ff));
    assert!(!subnet.contains(0x0a000100));
    let everything = Ipv4Subnet::new(0, 0);
    assert!(everything.contains(0xffffffff));
}

#[test]
fn token_bucket_consumes_and_refills() {
    let mut limiter = RateLimiter::new(100, 50, 0);
    // capacity of one hundred at time zero
    for _ in 0..100 {
        assert!(limiter.try_consume(1, 0));
    }
    assert!(!limiter.try_consume(1, 0));
    // one second later fifty tokens were refilled
    assert!(limiter.try_consume(50, 1_000));
    assert!(!limiter.try_consume(1, 1_000));
}

#[test]
fn rate_limit_two_hundred_announcements_in_one_second() {
    // bucket of one hundred, refill fifty per second: of two hundred
    // announcements in one instant, exactly one hundred pass
    let mut dos = DoSProtection::new(Vec::new(), 0);
    let p = peer(1);
    let mut passed = 0;
    let mut failed = 0;
    for _ in 0..200 {
        match dos.check_rate_limit(ResourceType::TransactionAnnouncements, &p, 1, 0) {
            Ok(()) => passed += 1,
            Err(NetworkError::RateLimitExceeded) => failed += 1,
            Err(other) => panic!("unexpected error: {:?}", other),
        }
    }
    assert_eq!(passed, 100);
    assert_eq!(failed, 100);
}

#[test]
fn violations_accumulate_to_a_ban() {
    let mut dos = DoSProtection::new(Vec::new(), 0);
    let p = peer(9);
    let addr = IpAddress::V4(0x7f000001);
    dos.set_peer_address(p, addr);
    // two invalid blocks weigh ten points each, reaching the threshold
    let first = dos.record_violation(p, ViolationType::InvalidBlock, 0);
    assert!(first.is_none());
    let second = dos.record_violation(p, ViolationType::InvalidBlock, 0);
    let action = second.expect("the second violation crosses the ban threshold");
    assert_eq!(action.peer_id, p);
    assert_eq!(action.addr, addr);
    assert_eq!(action.reason, DisconnectReason::PeerBanned);
    // a score of twenty bans for 2^(20/5) - 1 = 15 hours
    assert_eq!(action.duration_ms, 15 * 3_600_000);
    assert!(dos.is_address_banned(&addr, 1_000));
    assert!(dos.is_address_banned(&addr, 15 * 3_600_000 - 1));
    assert!(!dos.is_address_banned(&addr, 15 * 3_600_000));
}

#[test]
fn score_never_decreases_from_violations() {
    let mut dos = DoSProtection::new(Vec::new(), 0);
    let p = peer(3);
    let mut last = 0;
    let kinds = [
        ViolationType::RateLimit(ResourceType::RpcRequests),
        ViolationType::InvalidMessage,
        ViolationType::InvalidTransaction,
        ViolationType::ProtocolViolation,
        ViolationType::InvalidBlock,
    ];
    for kind in kinds {
        dos.record_violation(p, kind, 0);
        let score = dos.penalty_scores.get(CountKey::Peer(p));
        assert!(score >= last);
        last = score;
    }
    assert_eq!(last, 1 + 2 + 3 + 5 + 10);
}

#[test]
fn penalty_points_match_the_taxonomy() {
    assert_eq!(ViolationType::RateLimit(ResourceType::BlockRequests).penalty_points(), 1);
    assert_eq!(ViolationType::InvalidMessage.penalty_points(), 2);
    assert_eq!(ViolationType::InvalidTransaction.penalty_points(), 3);
    assert_eq!(ViolationType::ProtocolViolation.penalty_points(), 5);
    assert_eq!(ViolationType::InvalidBlock.penalty_points(), 10);
}

#[test]
fn whitelisted_peers_bypass_rate_limits() {
    let addr = IpAddress::V4(0x0a000001);
    let mut dos = DoSProtection::new(vec![addr], 0);
    let p = peer(4);
    dos.set_peer_address(p, addr);
    for _ in 0..500 {
        assert!(dos.check_rate_limit(ResourceType::TransactionAnnouncements, &p, 1, 0).is_ok());
    }
}

#[test]
fn missing_limiter_is_reported() {
    let mut dos = DoSProtection::new(Vec::new(), 0);
    dos.rate_limiters.clear();
    let p = peer(5);
    let r = dos.check_rate_limit(ResourceType::RpcRequests, &p, 1, 0);
    assert!(matches!(r, Err(NetworkError::Other(_))));
}

#[test]
fn rpc_requests_have_their_own_bucket() {
    // ten RPC requests fit the fresh bucket; the eleventh is limited, and a
    // second's refill restores five tokens
    let mut dos = DoSProtection::new(Vec::new(), 0);
    let p = peer(5);
    for _ in 0..10 {
        assert!(dos.check_rate_limit(ResourceType::RpcRequests, &p, 1, 0).is_ok());
    }
    assert!(matches!(
        dos.check_rate_limit(ResourceType::RpcRequests, &p, 1, 0),
        Err(NetworkError::RateLimitExceeded)
    ));
    for _ in 0..5 {
        assert!(dos.check_rate_limit(ResourceType::RpcRequests, &p, 1, 1_000).is_ok());
    }
    assert!(matches!(
        dos.check_rate_limit(ResourceType::RpcRequests, &p, 1, 1_000),
        Err(NetworkError::RateLimitExceeded)
    ));
}

#[test]
fn whitelisted_addresses_are_never_banned() {
    let addr = IpAddress::V4(0x0a000009);
    let mut dos = DoSProtection::new(vec![addr], 0);
    let p = peer(11);
    dos.set_peer_address(p, addr);
    for _ in 0..5 {
        // fifty points, far past the threshold, and still no ban
        assert!(dos.record_violation(p, ViolationType::InvalidBlock, 0).is_none());
    }
    assert!(!dos.is_address_banned(&addr, 1));
}

#[test]
fn reputation_tracker_bans_at_threshold() {
    let mut tracker = ReputationTracker::new(20);
    let p = peer(6);
    assert_eq!(tracker.get_score(&p), 0);
    assert!(!tracker.is_banned(&p));
    tracker.update_score(p, 19);
    assert!(!tracker.is_banned(&p));
    tracker.update_score(p, 1);
    assert!(tracker.is_banned(&p));
}
