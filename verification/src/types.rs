//! Core identifier and error types shared by the networking modules.

use vstd::prelude::*;

verus! {

/// Unique identifier for a node in the network.
///
/// A 256-bit opaque identity, stored as four 64-bit words with `w0` holding
/// the most significant word for ordering purposes.
#[derive(Clone, Copy, Debug, PartialEq, Eq, Structural, Hash)]
pub struct NodeId {
    pub w0: u64,
    pub w1: u64,
    pub w2: u64,
    pub w3: u64,
}

/// Unique identifier for a peer connection.
///
/// Equal under word-wise equality; ordered lexicographically by
/// `(w0, w1, w2, w3)`, which matches byte-wise lexicographic order when the
/// words are read big-endian.
#[derive(Clone, Copy, Debug, PartialEq, Eq, Structural, Hash)]
pub struct PeerId {
    pub w0: u64,
    pub w1: u64,
    pub w2: u64,
    pub w3: u64,
}

/// Lexicographic order on peer identifiers.
pub open spec fn spec_peer_id_lt(a: PeerId, b: PeerId) -> bool {
    ||| a.w0 < b.w0
    ||| (a.w0 == b.w0 && a.w1 < b.w1)
    ||| (a.w0 == b.w0 && a.w1 == b.w1 && a.w2 < b.w2)
    ||| (a.w0 == b.w0 && a.w1 == b.w1 && a.w2 == b.w2 && a.w3 < b.w3)
}

impl PeerId {
    /// Whether `self` is lexicographically smaller than `other`.
    pub fn lt(&self, other: &PeerId) -> (r: bool)
        ensures
            r == spec_peer_id_lt(*self, *other),
    {
        if self.w0 != other.w0 {
            self.w0 < other.w0
        } else if self.w1 != other.w1 {
            self.w1 < other.w1
        } else if self.w2 != other.w2 {
            self.w2 < other.w2
        } else {
            self.w3 < other.w3
        }
    }

    /// The first eight bytes of the identity read as one 64-bit value.
    pub fn as_u64(&self) -> (r: u64)
        ensures
            r == self.w0,
    {
        self.w0
    }
}

/// Amount representation.
#[derive(Clone, Copy, Debug, PartialEq, Eq, Structural)]
pub struct Amount(pub u64);

/// Protocol identifier for the subsystems multiplexed over one connection.
#[derive(Clone, Copy, Debug, PartialEq, Eq, Structural, Hash)]
pub enum ProtocolId {
    PeerDiscovery,
    BlockSync,
    TransactionPropagation,
    ConsensusMessages,
    LightClientSync,
    StateSync,
}

impl ProtocolId {
    /// The stable wire number of this protocol.
    pub open spec fn spec_as_u16(self) -> u16 {
        match self {
            ProtocolId::PeerDiscovery => 0x01,
            ProtocolId::BlockSync => 0x02,
            ProtocolId::TransactionPropagation => 0x03,
            ProtocolId::ConsensusMessages => 0x04,
            ProtocolId::LightClientSync => 0x05,
            ProtocolId::StateSync => 0x06,
        }
    }

    /// Convert to the stable numeric identifier.
    pub fn as_u16(self) -> (r: u16)
        ensures
            r == self.spec_as_u16(),
    {
        match self {
            ProtocolId::PeerDiscovery => 0x01,
            ProtocolId::BlockSync => 0x02,
            ProtocolId::TransactionPropagation => 0x03,
            ProtocolId::ConsensusMessages => 0x04,
            ProtocolId::LightClientSync => 0x05,
            ProtocolId::StateSync => 0x06,
        }
    }

    /// Convert from the numeric identifier; unknown numbers yield `None`.
    pub fn from_u16(value: u16) -> (r: Option<ProtocolId>)
        ensures
            r matches Some(p) ==> p.spec_as_u16() == value,
            r is None <==> !(1 <= value <= 6),
    {
        match value {
            0x01 => Some(ProtocolId::PeerDiscovery),
            0x02 => Some(ProtocolId::BlockSync),
            0x03 => Some(ProtocolId::TransactionPropagation),
            0x04 => Some(ProtocolId::ConsensusMessages),
            0x05 => Some(ProtocolId::LightClientSync),
            0x06 => Some(ProtocolId::StateSync),
            _ => None,
        }
    }
}

/// Types of network connections.
#[derive(Clone, Copy, Debug, PartialEq, Eq, Structural)]
pub enum ConnectionType {
    Inbound,
    Outbound,
}

/// Direction of a connection.
#[derive(Clone, Copy, Debug, PartialEq, Eq, Structural)]
pub enum ConnectionDirection {
    Inbound,
    Outbound,
}

/// Reasons for disconnection.
#[derive(Clone, Copy, Debug, PartialEq, Eq, Structural)]
pub enum DisconnectReason {
    Normal,
    Timeout,
    ProtocolViolation,
    PeerBanned,
    TooManyPeers,
    DuplicateConnection,
    IncompatibleProtocol,
    ConnectionRefused,
    NetworkError,
    Other,
}

impl DisconnectReason {
    /// A short human-readable description of the reason.
    pub fn describe(&self) -> &'static str {
        match self {
            DisconnectReason::Normal => "Normal disconnect",
            DisconnectReason::Timeout => "Connection timeout",
            DisconnectReason::ProtocolViolation => "Protocol violation",
            DisconnectReason::PeerBanned => "Peer banned",
            DisconnectReason::TooManyPeers => "Too many peers",
            DisconnectReason::DuplicateConnection => "Duplicate connection",
            DisconnectReason::IncompatibleProtocol => "Incompatible protocol",
            DisconnectReason::ConnectionRefused => "Connection refused",
            DisconnectReason::NetworkError => "Network error",
            DisconnectReason::Other => "Other",
        }
    }
}

/// Health status of a connection or of the network.
#[derive(Clone, Copy, Debug, PartialEq, Eq, Structural)]
pub enum ConnectionHealth {
    Excellent,
    Good,
    Fair,
    Poor,
    Critical,
}

/// Peer capabilities.
#[derive(Clone, Copy, Debug, PartialEq, Eq, Structural, Hash)]
pub enum PeerCapability {
    Validator,
    FullNode,
    LightClient,
    RelayNode,
    Archive,
}

/// An IP address, stored as plain integers.
///
/// IPv4 addresses hold their four octets big-endian in a `u32`; IPv6
/// addresses hold the high and low 64 bits of the 128-bit address.
#[derive(Clone, Copy, Debug, PartialEq, Eq, Structural, Hash)]
pub enum IpAddress {
    V4(u32),
    V6(u64, u64),
}

/// An endpoint: IP address plus TCP port.
#[derive(Clone, Copy, Debug, PartialEq, Eq, Structural, Hash)]
pub struct Endpoint {
    pub ip: IpAddress,
    pub port: u16,
}

/// Network error taxonomy.
#[derive(Clone, Debug, PartialEq, Eq)]
pub enum NetworkError {
    ConnectionRefused,
    ConnectionFailed(String),
    ConnectionTimeout,
    PeerNotFound,
    RateLimitExceeded,
    MessageTooLarge,
    InvalidMessage(String),
    ProtocolViolation(String),
    PeerBanned,
    DuplicateConnection,
    IncompatibleProtocol,
    NatTraversalNotConfigured,
    IoError(String),
    Other(String),
}

impl NetworkError {
    /// A short human-readable description of the error kind.
    pub fn describe(&self) -> &'static str {
        match self {
            NetworkError::ConnectionRefused => "Connection refused",
            NetworkError::ConnectionFailed(_) => "Connection failed",
            NetworkError::ConnectionTimeout => "Connection timeout",
            NetworkError::PeerNotFound => "Peer not found",
            NetworkError::RateLimitExceeded => "Rate limit exceeded",
            NetworkError::MessageTooLarge => "Message too large",
            NetworkError::InvalidMessage(_) => "Invalid message",
            NetworkError::ProtocolViolation(_) => "Protocol violation",
            NetworkError::PeerBanned => "Peer banned",
            NetworkError::DuplicateConnection => "Duplicate connection",
            NetworkError::IncompatibleProtocol => "Incompatible protocol",
            NetworkError::NatTraversalNotConfigured => "NAT traversal not configured",
            NetworkError::IoError(_) => "I/O error",
            NetworkError::Other(_) => "Other error",
        }
    }
}

/// Result of a network operation.
pub type NetworkResult<T> = Result<T, NetworkError>;

} // verus!
