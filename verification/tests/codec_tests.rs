//! Framing round-trip and error-path tests for the message codec, and the
//! recent-message cache behavior.

use prozchain_lib::hash::Digest;
use prozchain_lib::message::{decode, encode, CodecError, Message, Protocol, RecentMessages};

const MAX: usize = 1024 * 1024;

#[test]
fn framing_round_trip() {
    let payload = vec![7u8, 1, 255, 0, 42];
    let message = Message::new(Protocol::Transaction, 9, payload.clone());
    let bytes = encode(&message, MAX).unwrap();
    assert_eq!(bytes.len(), 12 + payload.len());
    let decoded = decode(&bytes, MAX).unwrap();
    assert_eq!(decoded.header.protocol_id, 3);
    assert_eq!(decoded.header.message_type, 9);
    assert_eq!(decoded.header.length, payload.len() as u32);
    assert_eq!(decoded.header.version, 1);
    assert_eq!(decoded.header.flags, 0);
    assert_eq!(decoded.payload, payload);
}

#[test]
fn framing_round_trip_empty_payload() {
    let message = Message::new(Protocol::Control, 0, Vec::new());
    let bytes = encode(&message, MAX).unwrap();
    assert_eq!(bytes.len(), 12);
    let decoded = decode(&bytes, MAX).unwrap();
    assert_eq!(decoded.payload.len(), 0);
    assert_eq!(decoded.header.protocol_id, 6);
}

#[test]
fn decode_rejects_truncated_bytes() {
    assert!(matches!(decode(&vec![1, 2, 3], MAX), Err(CodecError::TruncatedMessage)));

    // a full header whose length field promises more bytes than given
    let message = Message::new(Protocol::Discovery, 1, vec![1, 2, 3, 4]);
    let mut bytes = encode(&message, MAX).unwrap();
    bytes.pop();
    assert!(matches!(decode(&bytes, MAX), Err(CodecError::TruncatedMessage)));
}

#[test]
fn decode_rejects_unknown_protocol() {
    let message = Message::new(Protocol::Discovery, 1, vec![5, 6]);
    let mut bytes = encode(&message, MAX).unwrap();
    // protocol identifiers stop at seven; forge a higher one
    bytes[0] = 99;
    bytes[1] = 0;
    assert!(matches!(decode(&bytes, MAX), Err(CodecError::UnknownProtocol)));
}

#[test]
fn decode_rejects_oversized_payload() {
    let message = Message::new(Protocol::Discovery, 1, vec![0u8; 32]);
    let bytes = encode(&message, MAX).unwrap();
    assert!(matches!(decode(&bytes, 16), Err(CodecError::OversizedMessage)));
}

#[test]
fn encode_rejects_oversized_payload() {
    let message = Message::new(Protocol::Discovery, 1, vec![0u8; 32]);
    assert!(matches!(encode(&message, 16), Err(CodecError::OversizedMessage)));
}

fn h(n: u64) -> Digest {
    Digest { w0: n, w1: 0, w2: 0, w3: 0 }
}

#[test]
fn dedup_insert_then_contains() {
    let mut recent = RecentMessages::new(16, 1_000);
    let hash = h(7);
    recent.insert(hash, 100);
    assert!(recent.contains(&hash, 150));
}

#[test]
fn dedup_second_insert_is_noop() {
    let mut recent = RecentMessages::new(16, 1_000);
    let hash = h(7);
    recent.insert(hash, 100);
    let entries_before = recent.seen.clone();
    recent.insert(hash, 500);
    assert_eq!(recent.seen, entries_before);
    assert!(recent.contains(&hash, 900));
}

#[test]
fn dedup_expires_after_ttl() {
    let mut recent = RecentMessages::new(16, 1_000);
    let hash = h(7);
    recent.insert(hash, 100);
    assert!(!recent.contains(&hash, 1_100));
}

#[test]
fn dedup_full_cache_evicts_oldest() {
    let mut recent = RecentMessages::new(2, 10_000);
    recent.insert(h(1), 10);
    recent.insert(h(2), 20);
    recent.insert(h(3), 30);
    assert!(!recent.contains(&h(1), 40));
    assert!(recent.contains(&h(2), 40));
    assert!(recent.contains(&h(3), 40));
}
