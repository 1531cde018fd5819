//! The service facade's decision core: lifecycle state, the peer table,
//! command dispatch, and the wiring of the subsystems.
//!
//! Sockets, channels and background tasks live outside this crate; they
//! drive this core with commands and observed events, and perform the
//! actions it hands back.

use vstd::prelude::*;
use vstd::string::StringExecFns;
use crate::block_propagation::{BlockPreference, BlockPropagator};
use crate::connection::{ConnectionConfig, ConnectionManager};
use crate::discovery::{BootstrapConfig, PeerDiscovery, PeerInfo};
use crate::message::{Message, Protocol};
use crate::node::{NodeConfig, ProzChainNode};
use crate::propagation::{BroadcastConfig, BroadcastManager, BroadcastPolicy};
use crate::security::{AddressRestrictionLevel, DoSProtection, SybilProtection};
use crate::topology::{TopologyConfig, TopologyManager};
use crate::types::{DisconnectReason, Endpoint, IpAddress, NetworkError, PeerId, ProtocolId};
use crate::version::{ProtocolCapabilities, ProtocolNegotiator, ProtocolVersion};

verus! {

/// Configuration for the network service.
#[derive(Clone)]
pub struct NetworkConfig {
    pub node_config: NodeConfig,
    pub listen_addresses: Vec<String>,
    pub bootstrap_nodes: Vec<String>,
    pub dns_seeds: Vec<String>,
    pub max_peers: usize,
    pub connection_timeout_ms: u64,
    pub ping_interval_ms: u64,
    pub peer_exchange_interval_ms: u64,
    pub enable_upnp: bool,
    pub enable_nat_traversal: bool,
    pub stun_servers: Vec<String>,
    pub whitelist: Option<Vec<String>>,
    pub blacklist: Option<Vec<String>>,
}

impl Default for NetworkConfig {
    /// Defaults mirroring a stand-alone full node.
    fn default() -> (r: NetworkConfig)
        ensures
            r.max_peers == 25,
            r.connection_timeout_ms == 10000,
            r.ping_interval_ms == 60000,
            r.peer_exchange_interval_ms == 300000,
            r.enable_upnp,
            r.enable_nat_traversal,
            r.whitelist is None,
            r.blacklist is None,
    {
        let mut listen_addresses: Vec<String> = Vec::new();
        listen_addresses.push("0.0.0.0:30333".to_owned());
        let mut bootstrap_nodes: Vec<String> = Vec::new();
        bootstrap_nodes.push("bootstrap1.prozchain.io:30333".to_owned());
        bootstrap_nodes.push("bootstrap2.prozchain.io:30333".to_owned());
        let mut dns_seeds: Vec<String> = Vec::new();
        dns_seeds.push("seed1.prozchain.io".to_owned());
        dns_seeds.push("seed2.prozchain.io".to_owned());
        let mut stun_servers: Vec<String> = Vec::new();
        stun_servers.push("stun.prozchain.io:3478".to_owned());
        NetworkConfig {
            node_config: Default::default(),
            listen_addresses,
            bootstrap_nodes,
            dns_seeds,
            max_peers: 25,
            connection_timeout_ms: 10000,
            ping_interval_ms: 60000,
            peer_exchange_interval_ms: 300000,
            enable_upnp: true,
            enable_nat_traversal: true,
            stun_servers,
            whitelist: None,
            blacklist: None,
        }
    }
}

/// Command for the network service.
pub enum NetworkMessage {
    Connect(Endpoint),
    Disconnect(PeerId, DisconnectReason),
    PeerDiscovered(PeerInfo),
    SendMessage(PeerId, Message),
    Broadcast(Protocol, Message),
    GetPeers,
    Shutdown,
}

/// Status of the network service.
#[derive(Clone, Copy, Debug, PartialEq, Eq, Structural)]
pub enum NetworkStatus {
    Starting,
    Running,
    Stopping,
    Stopped,
}

/// Response from the network service.
pub enum NetworkResponse {
    PeerList(Vec<PeerInfo>),
    ConnectionResult(Result<(), NetworkError>),
    MessageSent(Result<(), NetworkError>),
    BroadcastResult(Result<(), NetworkError>),
    Shutdown,
}

/// An outward action the service asks its I/O layer to perform.
pub enum ServiceAction {
    Dial(Endpoint),
    Send(PeerId, Message),
    Broadcast(Protocol, Message),
    DisconnectPeer(PeerId, DisconnectReason),
}

/// Whether a capability list names the validator capability.
pub open spec fn spec_is_validator_info(info: PeerInfo) -> bool {
    exists|j: int|
        0 <= j < info.capabilities@.len() && (#[trigger] info.capabilities@[j])@ == "VALIDATOR"@
}

/// The number of validator peers in a table.
pub open spec fn spec_validator_count(s: Seq<(PeerId, PeerInfo)>) -> int
    decreases s.len(),
{
    if s.len() == 0 {
        0int
    } else {
        (if spec_is_validator_info(s[0].1) {
            1int
        } else {
            0int
        }) + spec_validator_count(s.drop_first())
    }
}

/// Two string lists agree element for element.
pub open spec fn spec_string_seqs_match(a: Seq<String>, b: Seq<String>) -> bool {
    a.len() == b.len() && forall|i: int| 0 <= i < a.len() ==> (#[trigger] a[i])@ == b[i]@
}

/// Copy a string list, preserving every element's characters.
fn clone_strings(v: &Vec<String>) -> (r: Vec<String>)
    ensures
        spec_string_seqs_match(r@, v@),
{
    let mut out: Vec<String> = Vec::new();
    let mut i: usize = 0;
    while i < v.len()
        invariant
            i <= v@.len(),
            out@.len() == i,
            forall|j: int| 0 <= j < i ==> (#[trigger] out@[j])@ == v@[j]@,
        decreases v@.len() - i,
    {
        out.push(v[i].clone());
        i = i + 1;
    }
    out
}

/// The network service's decision core.
pub struct NetworkService {
    pub config: NetworkConfig,
    pub node: ProzChainNode,
    pub status: NetworkStatus,
    pub connection_manager: ConnectionManager,
    pub peer_discovery: PeerDiscovery,
    pub topology_manager: TopologyManager,
    pub broadcast_manager: BroadcastManager,
    pub protocol_negotiator: ProtocolNegotiator,
    pub sybil_protection: SybilProtection,
    pub dos_protection: DoSProtection,
    pub block_propagator: BlockPropagator,
    pub peer_block_preferences: Vec<(PeerId, BlockPreference)>,
    pub peers: Vec<(PeerId, PeerInfo)>,
}

impl NetworkService {
    pub open spec fn wf(self) -> bool {
        &&& self.connection_manager.wf()
        &&& self.peer_discovery.wf()
        &&& self.topology_manager.wf()
        &&& self.broadcast_manager.wf()
        &&& self.sybil_protection.wf()
        &&& self.dos_protection.wf()
        &&& self.block_propagator.wf()
        &&& self.protocol_negotiator.local_capabilities.wf()
        &&& forall|i: int, j: int|
            0 <= i < j < self.peers@.len() ==> (#[trigger] self.peers@[i]).0 != (
            #[trigger] self.peers@[j]).0
    }

    /// Create a new network service core, stopped, with the subsystems
    /// configured as a stand-alone node: per-subnet Sybil restriction, the
    /// default token-bucket family, and discovery fed from the configured
    /// seeds.
    pub fn new(config: NetworkConfig, whitelist_ips: Vec<IpAddress>, now: u64) -> (r: Result<
        NetworkService,
        String,
    >)
        ensures
            r matches Ok(s) && {
                &&& s.wf()
                &&& s.status == NetworkStatus::Stopped
                &&& s.peers@.len() == 0
                &&& s.config == config
                &&& s.sybil_protection.address_restriction_level
                    == AddressRestrictionLevel::LimitPerSubnet
                &&& s.sybil_protection.max_inbound_per_subnet == 10
                &&& crate::security::spec_subnet_caps_ok(s.sybil_protection)
                &&& s.dos_protection.ban_threshold == 20
                &&& s.dos_protection.whitelist == whitelist_ips
                &&& s.dos_protection.peer_to_addr@.len() == 0
                // discovery is fed from the configured seeds
                &&& spec_string_seqs_match(
                    s.peer_discovery.config.bootstrap_nodes@,
                    config.bootstrap_nodes@,
                )
                &&& spec_string_seqs_match(
                    s.peer_discovery.config.dns_seeds@,
                    config.dns_seeds@,
                )
                &&& s.peer_discovery.config.dns_lookup_interval_ms == 60000
                &&& s.peer_discovery.known_peers@.len() == 0
                // the negotiator carries the node type's capabilities and the
                // configured minimum versions
                &&& s.protocol_negotiator.min_compatible_version@ == seq![
                    (ProtocolId::PeerDiscovery, ProtocolVersion { major: 1, minor: 0, patch: 0 }),
                    (ProtocolId::BlockSync, ProtocolVersion { major: 1, minor: 0, patch: 0 }),
                ]
                &&& s.protocol_negotiator.local_capabilities.supported_protocols@.len() >= 1
                &&& s.protocol_negotiator.local_capabilities.supported_protocols@[0] == (
                    ProtocolId::PeerDiscovery,
                    ProtocolVersion { major: 1, minor: 0, patch: 0 },
                )
                &&& (config.node_config.node_type@ == "validator"@
                    ==> s.protocol_negotiator.local_capabilities.supported_protocols@.contains(
                    (
                        ProtocolId::ConsensusMessages,
                        ProtocolVersion { major: 1, minor: 0, patch: 0 },
                    ),
                ))
                &&& (config.node_config.node_type@ == "full"@
                    ==> s.protocol_negotiator.local_capabilities.supported_protocols@.contains(
                    (ProtocolId::BlockSync, ProtocolVersion { major: 1, minor: 0, patch: 0 }),
                ))
                &&& s.node.status == crate::node::NodeStatus::Stopped
            },
    {
        let local_capabilities = crate::version::default_capabilities(
            config.node_config.node_type.as_str(),
        );
        let node = match ProzChainNode::new(config.node_config.clone()) {
            Ok(n) => n,
            Err(e) => {
                return Err(e);
            },
        };
        let connection_manager = ConnectionManager::new(
            ConnectionConfig {
                handshake_timeout_ms: config.connection_timeout_ms,
                max_pending_connections: 10,
                tls_config: None,
                enable_0rtt: false,
            },
            Default::default(),
        );
        let discovery_config = BootstrapConfig {
            bootstrap_nodes: clone_strings(&config.bootstrap_nodes),
            dns_seeds: clone_strings(&config.dns_seeds),
            enable_local_discovery: false,
            static_peers: Vec::new(),
            dns_lookup_interval_ms: 60000,
        };
        let peer_discovery = PeerDiscovery::new(discovery_config);
        let topology_manager = TopologyManager::new(
            TopologyConfig {
                target_outbound: 8,
                max_inbound: 125,
                max_peers_per_ip: 1,
                preferred_nodes: Vec::new(),
                preferred_regions: Vec::new(),
            },
        );
        let broadcast_manager = BroadcastManager::new(
            BroadcastConfig {
                message_ttl_ms: 60000,
                max_message_size: 1048576,
                protocol_policies: Vec::new(),
                default_policy: BroadcastPolicy::AllPeers,
            },
        );
        let mut min_versions: Vec<(ProtocolId, ProtocolVersion)> = Vec::new();
        min_versions.push((ProtocolId::PeerDiscovery, ProtocolVersion::new(1, 0, 0)));
        min_versions.push((ProtocolId::BlockSync, ProtocolVersion::new(1, 0, 0)));
        proof {
            assert(min_versions@ =~= seq![
                (ProtocolId::PeerDiscovery, ProtocolVersion { major: 1, minor: 0, patch: 0 }),
                (ProtocolId::BlockSync, ProtocolVersion { major: 1, minor: 0, patch: 0 }),
            ]);
        }
        let protocol_negotiator = ProtocolNegotiator::new(local_capabilities, min_versions);
        let sybil_protection = SybilProtection::new(
            8,
            2,
            10,
            20,
            AddressRestrictionLevel::LimitPerSubnet,
        );
        let dos_protection = DoSProtection::new(whitelist_ips, now);
        let block_propagator = BlockPropagator::new(true, 800);
        Ok(
            NetworkService {
                config,
                node,
                status: NetworkStatus::Stopped,
                connection_manager,
                peer_discovery,
                topology_manager,
                broadcast_manager,
                protocol_negotiator,
                sybil_protection,
                dos_protection,
                block_propagator,
                peer_block_preferences: Vec::new(),
                peers: Vec::new(),
            },
        )
    }

    /// Begin starting: listeners are being bound, discovery is about to run.
    pub fn start_begin(&mut self)
        requires
            old(self).wf(),
            old(self).status == NetworkStatus::Stopped,
        ensures
            final(self).wf(),
            final(self).status == NetworkStatus::Starting,
            final(self).peers@ == old(self).peers@,
    {
        self.status = NetworkStatus::Starting;
    }

    /// Complete starting: the listeners are bound and the bootstrap ran.
    pub fn start_complete(&mut self)
        requires
            old(self).wf(),
            old(self).status == NetworkStatus::Starting,
        ensures
            final(self).wf(),
            final(self).status == NetworkStatus::Running,
            final(self).peers@ == old(self).peers@,
    {
        self.status = NetworkStatus::Running;
    }

    /// Stop the service: every connected peer is disconnected with the
    /// `Normal` reason and the lifecycle returns to `Stopped`.
    pub fn stop(&mut self) -> (r: Vec<(PeerId, DisconnectReason)>)
        requires
            old(self).wf(),
        ensures
            final(self).wf(),
            final(self).status == NetworkStatus::Stopped,
            r@.len() == old(self).peers@.len(),
            forall|i: int|
                0 <= i < r@.len() ==> (#[trigger] r@[i]) == (
                    old(self).peers@[i].0,
                    DisconnectReason::Normal,
                ),
            final(self).peers@ == old(self).peers@,
    {
        self.status = NetworkStatus::Stopping;
        let mut events: Vec<(PeerId, DisconnectReason)> = Vec::new();
        let mut i: usize = 0;
        while i < self.peers.len()
            invariant
                i <= self.peers@.len(),
                self.peers@ == old(self).peers@,
                events@.len() == i,
                forall|j: int|
                    0 <= j < i ==> (#[trigger] events@[j]) == (
                        old(self).peers@[j].0,
                        DisconnectReason::Normal,
                    ),
            decreases self.peers@.len() - i,
        {
            events.push((self.peers[i].0, DisconnectReason::Normal));
            i = i + 1;
        }
        self.status = NetworkStatus::Stopped;
        events
    }

    /// Record a discovered or connected peer.
    pub fn register_peer(&mut self, info: PeerInfo)
        requires
            old(self).wf(),
        ensures
            final(self).wf(),
            final(self).status == old(self).status,
            exists|i: int|
                0 <= i < final(self).peers@.len() && (#[trigger] final(self).peers@[i]).0
                    == info.id,
    {
        let ghost s0 = self.peers@;
        let mut i: usize = 0;
        let mut found: Option<usize> = None;
        while i < self.peers.len()
            invariant
                i <= s0.len(),
                self.peers@ == s0,
                found matches Some(fi) ==> fi < s0.len() && s0[fi as int].0 == info.id,
                found is None ==> forall|j: int| 0 <= j < i ==> (#[trigger] s0[j]).0 != info.id,
            decreases s0.len() - i,
        {
            if found.is_none() && self.peers[i].0 == info.id {
                found = Some(i);
            }
            i = i + 1;
        }
        let id = info.id;
        match found {
            Some(index) => {
                self.peers.set(index, (id, info));
                proof {
                    assert(self.peers@[index as int].0 == id);
                    assert(forall|i2: int|
                        0 <= i2 < self.peers@.len() ==> (#[trigger] self.peers@[i2]).0 == s0[i2].0);
                }
            },
            None => {
                self.peers.push((id, info));
                proof {
                    let t = self.peers@;
                    assert(t[t.len() - 1].0 == id);
                    assert forall|i2: int, j2: int| 0 <= i2 < j2 < t.len() implies (
                    #[trigger] t[i2]).0 != (#[trigger] t[j2]).0 by {
                        if j2 == t.len() - 1 {
                            assert(t[i2] == s0[i2]);
                        }
                    };
                }
            },
        }
    }

    /// Forget a peer.
    pub fn remove_peer(&mut self, peer_id: &PeerId)
        requires
            old(self).wf(),
        ensures
            final(self).wf(),
            final(self).status == old(self).status,
            forall|i: int|
                0 <= i < final(self).peers@.len() ==> (#[trigger] final(self).peers@[i]).0
                    != *peer_id,
    {
        let mut kept: Vec<(PeerId, PeerInfo)> = Vec::new();
        while self.peers.len() > 0
            invariant
                self.wf(),
                self.status == old(self).status,
                forall|j: int| 0 <= j < kept@.len() ==> (#[trigger] kept@[j]).0 != *peer_id,
                forall|i2: int, j2: int|
                    0 <= i2 < j2 < kept@.len() ==> (#[trigger] kept@[i2]).0 != (
                    #[trigger] kept@[j2]).0,
                forall|i2: int, j2: int|
                    0 <= i2 < kept@.len() && 0 <= j2 < self.peers@.len() ==> (
                    #[trigger] kept@[i2]).0 != (#[trigger] self.peers@[j2]).0,
            decreases self.peers@.len(),
        {
            let ghost before = self.peers@;
            let entry = self.peers.remove(0);
            proof {
                assert(self.peers@ =~= before.drop_first());
                assert(entry == before[0]);
                assert(forall|j2: int|
                    0 <= j2 < self.peers@.len() ==> (#[trigger] self.peers@[j2]) == before[j2 + 1]);
            }
            if !(entry.0 == *peer_id) {
                kept.push(entry);
            }
        }
        self.peers = kept;
    }

    /// The number of connected peers.
    pub fn connected_peer_count(&self) -> (r: usize)
        ensures
            r == self.peers@.len(),
    {
        self.peers.len()
    }

    /// The number of connected validator peers.
    pub fn connected_validator_count(&self) -> (r: usize)
        ensures
            r == spec_validator_count(self.peers@),
    {
        let ghost s = self.peers@;
        let mut count: usize = 0;
        let mut i: usize = 0;
        proof {
            assert(s.take(0) =~= Seq::<(PeerId, PeerInfo)>::empty());
        }
        while i < self.peers.len()
            invariant
                i <= s.len(),
                self.peers@ == s,
                count == spec_validator_count(s.take(i as int)),
                count <= i,
            decreases s.len() - i,
        {
            proof {
                lemma_validator_count_take(s, i as int);
            }
            let entry = &self.peers[i];
            let mut is_validator = false;
            let mut j: usize = 0;
            while j < entry.1.capabilities.len()
                invariant
                    j <= entry.1.capabilities@.len(),
                    entry == &self.peers[i as int],
                    i < self.peers@.len(),
                    is_validator ==> spec_is_validator_info(entry.1),
                    !is_validator ==> forall|j2: int|
                        0 <= j2 < j ==> (#[trigger] entry.1.capabilities@[j2])@ != "VALIDATOR"@,
                decreases entry.1.capabilities@.len() - j,
            {
                if entry.1.capabilities[j] == "VALIDATOR".to_owned() {
                    proof {
                        assert((#[trigger] entry.1.capabilities@[j as int])@ == "VALIDATOR"@);
                    }
                    is_validator = true;
                }
                j = j + 1;
            }
            if is_validator {
                count = count + 1;
            } else {
                proof {
                    assert(!spec_is_validator_info(entry.1));
                }
            }
            i = i + 1;
        }
        proof {
            assert(s.take(s.len() as int) =~= s);
        }
        count
    }

    /// The current lifecycle status.
    pub fn status(&self) -> (r: NetworkStatus)
        ensures
            r == self.status,
    {
        self.status
    }

    /// The current peer list.
    pub fn get_peers(&self) -> (r: Vec<PeerInfo>)
        ensures
            r@.len() == self.peers@.len(),
            forall|i: int| 0 <= i < r@.len() ==> (#[trigger] r@[i]).id == self.peers@[i].1.id,
    {
        let mut out: Vec<PeerInfo> = Vec::new();
        let mut i: usize = 0;
        while i < self.peers.len()
            invariant
                i <= self.peers@.len(),
                out@.len() == i,
                forall|j: int| 0 <= j < i ==> (#[trigger] out@[j]).id == self.peers@[j].1.id,
            decreases self.peers@.len() - i,
        {
            out.push(self.peers[i].1.clone_info());
            proof {
                assert(out@[out@.len() - 1].id == self.peers@[i as int].1.id);
            }
            i = i + 1;
        }
        out
    }

    /// Dispatch one command: pure table updates happen here, and any
    /// outward work is handed back as an action for the I/O layer.
    pub fn handle_network_message(&mut self, msg: NetworkMessage) -> (r: (
        Option<NetworkResponse>,
        Option<ServiceAction>,
    ))
        requires
            old(self).wf(),
        ensures
            final(self).wf(),
            msg matches NetworkMessage::Connect(addr) ==> r.1 == Some(ServiceAction::Dial(addr)),
            msg matches NetworkMessage::Disconnect(p, reason) ==> r.1 == Some(
                ServiceAction::DisconnectPeer(p, reason),
            ) && (forall|i: int|
                0 <= i < final(self).peers@.len() ==> (#[trigger] final(self).peers@[i]).0 != p),
            msg matches NetworkMessage::PeerDiscovered(info) ==> exists|i: int|
                0 <= i < final(self).peers@.len() && (#[trigger] final(self).peers@[i]).0
                    == info.id,
            // sends and broadcasts come back as actions for the I/O layer
            msg matches NetworkMessage::SendMessage(p, m) ==> r.1 == Some(
                ServiceAction::Send(p, m),
            ) && (r.0 matches Some(resp) && (resp matches NetworkResponse::MessageSent(res)
                && res is Ok)),
            msg matches NetworkMessage::Broadcast(pr, m) ==> r.1 == Some(
                ServiceAction::Broadcast(pr, m),
            ),
            msg is GetPeers ==> (r.0 matches Some(resp) && resp matches NetworkResponse::PeerList(
                list,
            ) && list@.len() == final(self).peers@.len() && (forall|i: int|
                0 <= i < list@.len() ==> (#[trigger] list@[i]).id == final(self).peers@[i].1.id)),
            msg is Shutdown ==> (r.0 matches Some(resp) && resp is Shutdown),
            (msg is GetPeers || msg is Shutdown || msg is Connect) ==> *final(self) == *old(self),
    {
        match msg {
            NetworkMessage::Connect(addr) => {
                (None, Some(ServiceAction::Dial(addr)))
            },
            NetworkMessage::Disconnect(peer_id, reason) => {
                self.remove_peer(&peer_id);
                (None, Some(ServiceAction::DisconnectPeer(peer_id, reason)))
            },
            NetworkMessage::PeerDiscovered(info) => {
                self.register_peer(info);
                (None, None)
            },
            NetworkMessage::SendMessage(peer_id, message) => {
                (
                    Some(NetworkResponse::MessageSent(Ok(()))),
                    Some(ServiceAction::Send(peer_id, message)),
                )
            },
            NetworkMessage::Broadcast(protocol, message) => {
                (None, Some(ServiceAction::Broadcast(protocol, message)))
            },
            NetworkMessage::GetPeers => {
                let list = self.get_peers();
                (Some(NetworkResponse::PeerList(list)), None)
            },
            NetworkMessage::Shutdown => {
                (Some(NetworkResponse::Shutdown), None)
            },
        }
    }

    /// Install block announcement preferences for the connected peers:
    /// peers past the first protocol version prefer compact blocks.
    pub fn setup_block_propagation(&mut self)
        requires
            old(self).wf(),
        ensures
            final(self).wf(),
            final(self).peer_block_preferences@.len() == final(self).peers@.len(),
            forall|i: int|
                0 <= i < final(self).peer_block_preferences@.len() ==> (
                #[trigger] final(self).peer_block_preferences@[i]) == (
                    final(self).peers@[i].0,
                    if final(self).peers@[i].1.protocol_version > 1 {
                        BlockPreference::CompactBlocks
                    } else {
                        BlockPreference::FullBlocks
                    },
                ),
            final(self).peers@ == old(self).peers@,
            final(self).status == old(self).status,
    {
        let mut preferences: Vec<(PeerId, BlockPreference)> = Vec::new();
        let mut i: usize = 0;
        while i < self.peers.len()
            invariant
                i <= self.peers@.len(),
                preferences@.len() == i,
                forall|j: int|
                    0 <= j < i ==> (#[trigger] preferences@[j]) == (
                        self.peers@[j].0,
                        if self.peers@[j].1.protocol_version > 1 {
                            BlockPreference::CompactBlocks
                        } else {
                            BlockPreference::FullBlocks
                        },
                    ),
            decreases self.peers@.len() - i,
        {
            let entry = &self.peers[i];
            let pref = if entry.1.protocol_version > 1 {
                BlockPreference::CompactBlocks
            } else {
                BlockPreference::FullBlocks
            };
            preferences.push((entry.0, pref));
            i = i + 1;
        }
        self.peer_block_preferences = preferences;
    }

    /// Check if an incoming connection is allowed by the Sybil rules.
    pub fn is_connection_allowed(&self, addr: &Endpoint) -> (r: bool)
        requires
            self.wf(),
        ensures
            r == self.sybil_protection.spec_allowed(addr.ip),
    {
        self.sybil_protection.is_connection_allowed(addr)
    }

    /// Admission check for an incoming connection: the banned-address set
    /// and the Sybil rules both have to pass.
    pub fn is_connection_admissible(&mut self, addr: &Endpoint, now: u64) -> (r: bool)
        requires
            old(self).wf(),
        ensures
            final(self).wf(),
            r == (!crate::security::spec_set_active(
                old(self).dos_protection.banned_addresses.entries@,
                addr.ip,
                now,
            ) && old(self).sybil_protection.spec_allowed(addr.ip)),
            final(self).sybil_protection == old(self).sybil_protection,
            final(self).peers@ == old(self).peers@,
            final(self).status == old(self).status,
            final(self).dos_protection.penalty_scores == old(self).dos_protection.penalty_scores,
            // what is banned at this time or later stays as it was
            forall|it: crate::types::IpAddress, t: u64|
                t >= now ==> crate::security::spec_set_active(
                    final(self).dos_protection.banned_addresses.entries@,
                    it,
                    t,
                ) == crate::security::spec_set_active(
                    old(self).dos_protection.banned_addresses.entries@,
                    it,
                    t,
                ),
    {
        if self.dos_protection.is_address_banned(&addr.ip, now) {
            return false;
        }
        self.sybil_protection.is_connection_allowed(addr)
    }

    /// Record a new connection for security tracking.
    pub fn record_connection(&mut self, addr: Endpoint)
        requires
            old(self).wf(),
        ensures
            final(self).wf(),
            final(self).status == old(self).status,
            final(self).peers@ == old(self).peers@,
    {
        self.sybil_protection.record_connection(addr);
    }

    /// Record a disconnection for security tracking.
    pub fn record_disconnection(&mut self, addr: Endpoint)
        requires
            old(self).wf(),
        ensures
            final(self).wf(),
            final(self).status == old(self).status,
            final(self).peers@ == old(self).peers@,
    {
        self.sybil_protection.record_disconnection(addr);
    }

    /// Negotiate protocol versions with a peer.
    pub fn negotiate_protocols(&self, remote_capabilities: &ProtocolCapabilities) -> (r:
        crate::version::NegotiatedProtocols)
        requires
            self.wf(),
        ensures
            crate::version::spec_unique_protocols(r.protocols@),
            forall|j: int|
                0 <= j < r.protocols@.len() ==> crate::version::spec_negotiable(
                    self.protocol_negotiator.local_capabilities.supported_protocols@,
                    remote_capabilities.supported_protocols@,
                    self.protocol_negotiator.min_compatible_version@,
                    (#[trigger] r.protocols@[j]).0,
                    r.protocols@[j].1,
                ),
    {
        self.protocol_negotiator.negotiate(remote_capabilities)
    }
}

/// Prefix validator counts extend one peer at a time.
proof fn lemma_validator_count_take(s: Seq<(PeerId, PeerInfo)>, i: int)
    requires
        0 <= i < s.len(),
    ensures
        spec_validator_count(s.take(i + 1)) == spec_validator_count(s.take(i))
            + if spec_is_validator_info(s[i].1) {
            1int
        } else {
            0int
        },
    decreases i,
{
    if i == 0 {
        assert(s.take(1).drop_first() =~= Seq::<(PeerId, PeerInfo)>::empty());
        assert(s.take(1)[0] == s[0]);
        assert(s.take(0) =~= Seq::<(PeerId, PeerInfo)>::empty());
    } else {
        assert(s.take(i + 1).drop_first() =~= s.drop_first().take(i));
        assert(s.take(i).drop_first() =~= s.drop_first().take(i - 1));
        assert(s.take(i + 1)[0] == s[0]);
        assert(s.take(i)[0] == s[0]);
        assert(s.drop_first()[i - 1] == s[i]);
        lemma_validator_count_take(s.drop_first(), i - 1);
    }
}

} // verus!
