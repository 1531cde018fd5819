//! NAT traversal state: the detected NAT type and the granted port
//! mappings.  STUN and UPnP themselves are invoked through external
//! services; this module models what the node learned from them.

use vstd::prelude::*;
use crate::types::IpAddress;

verus! {

/// Types of NAT configurations.
#[derive(Clone, Copy, Debug, PartialEq, Eq, Structural)]
pub enum NatType {
    Unknown,
    NoNat,
    FullCone,
    RestrictedCone,
    PortRestricted,
    Symmetric,
}

/// Port mapping granted by the gateway.
#[derive(Debug, Clone, Copy, PartialEq, Eq, Structural)]
pub struct PortMapping {
    pub internal_port: u16,
    pub external_port: u16,
    pub protocol: PortMappingProtocol,
    pub lease_duration_ms: u64,
}

/// Port mapping protocol.
#[derive(Debug, Clone, Copy, PartialEq, Eq, Structural)]
pub enum PortMappingProtocol {
    Tcp,
    Udp,
    Both,
}

/// What a STUN binding answer reported.
#[derive(Debug, Clone, Copy, PartialEq, Eq, Structural)]
pub struct StunObservation {
    pub nat_type: NatType,
    pub external_address: IpAddress,
}

/// NAT traversal state.
pub struct NatTraversal {
    pub stun_servers: Vec<String>,
    pub upnp_enabled: bool,
    pub external_address: Option<IpAddress>,
    pub nat_type: NatType,
    pub mappings: Vec<PortMapping>,
}

impl NatTraversal {
    /// Create a new NAT traversal state.
    pub fn new(stun_servers: Vec<String>, upnp_enabled: bool) -> (r: NatTraversal)
        ensures
            r.upnp_enabled == upnp_enabled,
            r.external_address is None,
            r.nat_type == NatType::Unknown,
            r.mappings@.len() == 0,
    {
        NatTraversal {
            stun_servers,
            upnp_enabled,
            external_address: None,
            nat_type: NatType::Unknown,
            mappings: Vec::new(),
        }
    }

    /// Record what a STUN query discovered.
    pub fn record_discovery(&mut self, observation: StunObservation)
        ensures
            final(self).nat_type == observation.nat_type,
            final(self).external_address == Some(observation.external_address),
            final(self).upnp_enabled == old(self).upnp_enabled,
            final(self).mappings@ == old(self).mappings@,
    {
        self.nat_type = observation.nat_type;
        self.external_address = Some(observation.external_address);
    }

    /// Record a granted port mapping.
    pub fn record_port_mapping(&mut self, mapping: PortMapping)
        ensures
            final(self).mappings@ == old(self).mappings@.push(mapping),
            final(self).nat_type == old(self).nat_type,
    {
        self.mappings.push(mapping);
    }

    /// Get the external address if known.
    pub fn get_external_address(&self) -> (r: Option<IpAddress>)
        ensures
            r == self.external_address,
    {
        self.external_address
    }

    /// Get the NAT type if known.
    pub fn get_nat_type(&self) -> (r: NatType)
        ensures
            r == self.nat_type,
    {
        self.nat_type
    }

    /// Whether the node sits behind a NAT.  An unknown mapping counts as
    /// behind one.
    pub fn is_behind_nat(&self) -> (r: bool)
        ensures
            r == (self.nat_type != NatType::NoNat),
    {
        match self.nat_type {
            NatType::NoNat => false,
            _ => true,
        }
    }

    /// Whether hole punching can work through this NAT: symmetric mappings
    /// cannot be traversed, and nothing is attempted before discovery ran.
    pub fn supports_holepunch(&self) -> (r: bool)
        ensures
            r == (self.nat_type != NatType::Symmetric && self.nat_type != NatType::Unknown),
    {
        match self.nat_type {
            NatType::Symmetric => false,
            NatType::Unknown => false,
            _ => true,
        }
    }
}

} // verus!
