//! Peer-to-peer networking core of a blockchain node.
//!
//! The crate covers the connection lifecycle and handshake state machine,
//! peer discovery and the address book, topology and peer selection,
//! broadcast/gossip and compact-block propagation, and the security layer
//! (Sybil protection, rate limiting, reputation-based banning).

pub mod block_propagation;
pub mod connection;
pub mod counters;
pub mod discovery;
pub mod hash;
pub mod health;
pub mod message;
pub mod node;
pub mod propagation;
pub mod security;
pub mod service;
pub mod topology;
pub mod traversal;
pub mod types;
pub mod utils;
pub mod version;
