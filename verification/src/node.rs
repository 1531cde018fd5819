//! Node configuration and lifecycle.

use vstd::prelude::*;
use vstd::string::StringExecFns;
use crate::hash::{spec_mix_prefix, LANE_SEED_0, LANE_SEED_1, LANE_SEED_2, LANE_SEED_3};
use crate::types::PeerId;

verus! {

/// Configuration for connection limits.
#[derive(Clone, Debug)]
pub struct ConnectionLimits {
    /// Maximum number of inbound connections.
    pub max_inbound: usize,
    /// Target number of outbound connections.
    pub target_outbound: usize,
    /// Maximum number of peers per IP address.
    pub max_peers_per_ip: usize,
}

impl Default for ConnectionLimits {
    fn default() -> (r: ConnectionLimits)
        ensures
            r.max_inbound == 0,
            r.target_outbound == 0,
            r.max_peers_per_ip == 0,
    {
        ConnectionLimits { max_inbound: 0, target_outbound: 0, max_peers_per_ip: 0 }
    }
}

/// Configuration for the API server.
#[derive(Clone, Debug)]
pub struct ApiConfig {
    pub enabled: bool,
    pub listen_address: String,
    pub cors_domains: Vec<String>,
    pub rate_limit: Option<u32>,
}

/// Configuration for a node.
#[derive(Clone, Debug)]
pub struct NodeConfig {
    /// Type of node ("full", "validator", "light", "archive").
    pub node_type: String,
    pub validator_key_path: Option<String>,
    pub stake_amount: Option<u64>,
    pub trusted_validators: Option<Vec<String>>,
    pub pruning_strategy: Option<String>,
    pub api_config: Option<ApiConfig>,
    /// Addresses to listen on for incoming connections.
    pub listen_addresses: Vec<String>,
    /// External addresses to advertise.
    pub external_addresses: Option<Vec<String>>,
    /// Display name for this node.
    pub display_name: Option<String>,
    /// Maximum number of peers to connect to.
    pub max_peers: usize,
    pub connection_limits: ConnectionLimits,
}

impl Default for NodeConfig {
    /// A full node listening on the default port with 25 peers.
    fn default() -> (r: NodeConfig)
        ensures
            r.node_type@ == "full"@,
            r.max_peers == 25,
            r.connection_limits.max_inbound == 125,
            r.connection_limits.target_outbound == 8,
            r.connection_limits.max_peers_per_ip == 1,
            r.listen_addresses@.len() == 1,
    {
        let mut listen_addresses: Vec<String> = Vec::new();
        listen_addresses.push("0.0.0.0:30333".to_owned());
        NodeConfig {
            node_type: "full".to_owned(),
            validator_key_path: None,
            stake_amount: None,
            trusted_validators: None,
            pruning_strategy: None,
            api_config: None,
            listen_addresses,
            external_addresses: None,
            display_name: Some("ProzChain Node".to_owned()),
            max_peers: 25,
            connection_limits: ConnectionLimits {
                max_inbound: 125,
                target_outbound: 8,
                max_peers_per_ip: 1,
            },
        }
    }
}

/// Status of a node.
#[derive(Clone, Debug, PartialEq, Eq)]
pub enum NodeStatus {
    Starting,
    Running,
    Synchronizing,
    Stopping,
    Stopped,
    Error(String),
}

/// One lane of the node-identity fingerprint over the configuration's
/// name and address strings.
pub open spec fn spec_node_id_lane(parts: Seq<Seq<u8>>, seed: u64) -> u64
    decreases parts.len(),
{
    if parts.len() == 0 {
        seed
    } else {
        spec_mix_prefix(parts.last(), parts.last().len() as int, spec_node_id_lane(
            parts.drop_last(),
            seed,
        ))
    }
}

/// The identity derived from a node's display name and its listen and
/// external addresses.
pub open spec fn spec_node_id(parts: Seq<Seq<u8>>) -> PeerId {
    PeerId {
        w0: spec_node_id_lane(parts, LANE_SEED_0),
        w1: spec_node_id_lane(parts, LANE_SEED_1),
        w2: spec_node_id_lane(parts, LANE_SEED_2),
        w3: spec_node_id_lane(parts, LANE_SEED_3),
    }
}

/// The byte strings the node identity is computed over: the display name,
/// then each listen address, then each external address.
pub open spec fn spec_node_id_parts(config: NodeConfig) -> Seq<Seq<u8>> {
    let name: Seq<Seq<u8>> = match config.display_name {
        Some(n) => seq![vstd::utf8::encode_utf8(n@)],
        None => seq![],
    };
    let listen = config.listen_addresses@.map_values(|s: String| vstd::utf8::encode_utf8(s@));
    let external: Seq<Seq<u8>> = match config.external_addresses {
        Some(addrs) => addrs@.map_values(|s: String| vstd::utf8::encode_utf8(s@)),
        None => seq![],
    };
    name + listen + external
}

/// Extending the part list folds the new part over the accumulated lane.
proof fn lemma_lane_push(parts: Seq<Seq<u8>>, x: Seq<u8>, seed: u64)
    ensures
        spec_node_id_lane(parts.push(x), seed) == spec_mix_prefix(
            x,
            x.len() as int,
            spec_node_id_lane(parts, seed),
        ),
{
    assert(parts.push(x).drop_last() =~= parts);
    assert(parts.push(x).last() == x);
}

/// A node.
#[derive(Clone)]
pub struct ProzChainNode {
    /// Configuration for this node.
    pub config: NodeConfig,
    /// Unique identifier for this node.
    pub node_id: PeerId,
    /// Current status of the node.
    pub status: NodeStatus,
}

fn mix_lanes_over(bytes: &[u8], h0: u64, h1: u64, h2: u64, h3: u64) -> (r: (u64, u64, u64, u64))
    ensures
        r.0 == spec_mix_prefix(bytes@, bytes@.len() as int, h0),
        r.1 == spec_mix_prefix(bytes@, bytes@.len() as int, h1),
        r.2 == spec_mix_prefix(bytes@, bytes@.len() as int, h2),
        r.3 == spec_mix_prefix(bytes@, bytes@.len() as int, h3),
{
    let mut a = h0;
    let mut b = h1;
    let mut c = h2;
    let mut d = h3;
    let mut i: usize = 0;
    while i < bytes.len()
        invariant
            i <= bytes@.len(),
            a == spec_mix_prefix(bytes@, i as int, h0),
            b == spec_mix_prefix(bytes@, i as int, h1),
            c == spec_mix_prefix(bytes@, i as int, h2),
            d == spec_mix_prefix(bytes@, i as int, h3),
        decreases bytes@.len() - i,
    {
        let byte = bytes[i];
        a = crate::hash::mix_step(a, byte);
        b = crate::hash::mix_step(b, byte);
        c = crate::hash::mix_step(c, byte);
        d = crate::hash::mix_step(d, byte);
        i = i + 1;
    }
    (a, b, c, d)
}

impl ProzChainNode {
    /// Create a new node with the given configuration, deriving its stable
    /// identity from the configured name and addresses.
    pub fn new(config: NodeConfig) -> (r: Result<ProzChainNode, String>)
        ensures
            r matches Ok(node) && {
                &&& node.node_id == spec_node_id(spec_node_id_parts(node.config))
                &&& node.status == NodeStatus::Stopped
                &&& node.config == config
            },
    {
        let node_id = Self::generate_node_id(&config);
        Ok(ProzChainNode { config, node_id, status: NodeStatus::Stopped })
    }

    /// Derive the node identity from the configuration.
    fn generate_node_id(config: &NodeConfig) -> (r: PeerId)
        ensures
            r == spec_node_id(spec_node_id_parts(*config)),
    {
        let ghost parts = spec_node_id_parts(*config);
        let mut a = crate::hash::LANE_SEED_0;
        let mut b = crate::hash::LANE_SEED_1;
        let mut c = crate::hash::LANE_SEED_2;
        let mut d = crate::hash::LANE_SEED_3;
        let ghost mut done: Seq<Seq<u8>> = seq![];
        match &config.display_name {
            Some(name) => {
                let (a2, b2, c2, d2) = mix_lanes_over(name.as_str().as_bytes(), a, b, c, d);
                a = a2;
                b = b2;
                c = c2;
                d = d2;
                proof {
                    let x = vstd::utf8::encode_utf8(name@);
                    lemma_lane_push(done, x, LANE_SEED_0);
                    lemma_lane_push(done, x, LANE_SEED_1);
                    lemma_lane_push(done, x, LANE_SEED_2);
                    lemma_lane_push(done, x, LANE_SEED_3);
                    done = done.push(x);
                    assert(done =~= seq![x]);
                }
            },
            None => {
                proof {
                    assert(done =~= Seq::<Seq<u8>>::empty());
                }
            },
        }
        let ghost name_done = done;
        let mut i: usize = 0;
        while i < config.listen_addresses.len()
            invariant
                i <= config.listen_addresses@.len(),
                done =~= name_done + config.listen_addresses@.map_values(
                    |s: String| vstd::utf8::encode_utf8(s@),
                ).take(i as int),
                a == spec_node_id_lane(done, LANE_SEED_0),
                b == spec_node_id_lane(done, LANE_SEED_1),
                c == spec_node_id_lane(done, LANE_SEED_2),
                d == spec_node_id_lane(done, LANE_SEED_3),
            decreases config.listen_addresses@.len() - i,
        {
            let addr = &config.listen_addresses[i];
            let (a2, b2, c2, d2) = mix_lanes_over(addr.as_str().as_bytes(), a, b, c, d);
            proof {
                let x = vstd::utf8::encode_utf8(addr@);
                lemma_lane_push(done, x, LANE_SEED_0);
                lemma_lane_push(done, x, LANE_SEED_1);
                lemma_lane_push(done, x, LANE_SEED_2);
                lemma_lane_push(done, x, LANE_SEED_3);
                done = done.push(x);
                assert(done =~= name_done + config.listen_addresses@.map_values(
                    |s: String| vstd::utf8::encode_utf8(s@),
                ).take(i as int + 1));
            }
            a = a2;
            b = b2;
            c = c2;
            d = d2;
            i = i + 1;
        }
        proof {
            assert(config.listen_addresses@.map_values(|s: String| vstd::utf8::encode_utf8(s@)).take(
                config.listen_addresses@.len() as int,
            ) =~= config.listen_addresses@.map_values(|s: String| vstd::utf8::encode_utf8(s@)));
        }
        let ghost listen_done = done;
        match &config.external_addresses {
            Some(addrs) => {
                let mut j: usize = 0;
                while j < addrs.len()
                    invariant
                        j <= addrs@.len(),
                        done =~= listen_done + addrs@.map_values(|s: String| vstd::utf8::encode_utf8(s@)).take(
                            j as int,
                        ),
                        a == spec_node_id_lane(done, LANE_SEED_0),
                        b == spec_node_id_lane(done, LANE_SEED_1),
                        c == spec_node_id_lane(done, LANE_SEED_2),
                        d == spec_node_id_lane(done, LANE_SEED_3),
                    decreases addrs@.len() - j,
                {
                    let addr = &addrs[j];
                    let (a2, b2, c2, d2) = mix_lanes_over(addr.as_str().as_bytes(), a, b, c, d);
                    proof {
                        let x = vstd::utf8::encode_utf8(addr@);
                        lemma_lane_push(done, x, LANE_SEED_0);
                        lemma_lane_push(done, x, LANE_SEED_1);
                        lemma_lane_push(done, x, LANE_SEED_2);
                        lemma_lane_push(done, x, LANE_SEED_3);
                        done = done.push(x);
                        assert(done =~= listen_done + addrs@.map_values(
                            |s: String| vstd::utf8::encode_utf8(s@),
                        ).take(j as int + 1));
                    }
                    a = a2;
                    b = b2;
                    c = c2;
                    d = d2;
                    j = j + 1;
                }
                proof {
                    assert(addrs@.map_values(|s: String| vstd::utf8::encode_utf8(s@)).take(addrs@.len() as int)
                        =~= addrs@.map_values(|s: String| vstd::utf8::encode_utf8(s@)));
                    assert(done =~= parts);
                }
            },
            None => {
                proof {
                    assert(done =~= parts);
                }
            },
        }
        PeerId { w0: a, w1: b, w2: c, w3: d }
    }

    /// Start the node.
    pub fn start(&mut self)
        ensures
            final(self).status == NodeStatus::Running,
            final(self).config == old(self).config,
            final(self).node_id == old(self).node_id,
    {
        self.status = NodeStatus::Starting;
        self.status = NodeStatus::Running;
    }

    /// Stop the node.
    pub fn stop(&mut self)
        ensures
            final(self).status == NodeStatus::Stopped,
            final(self).config == old(self).config,
            final(self).node_id == old(self).node_id,
    {
        self.status = NodeStatus::Stopping;
        self.status = NodeStatus::Stopped;
    }

    /// Get the current status of the node.
    pub fn get_status(&self) -> (r: NodeStatus)
        ensures
            !(self.status is Error) ==> r == self.status,
            self.status matches NodeStatus::Error(m) ==> (r matches NodeStatus::Error(m2) && m2@
                == m@),
    {
        match &self.status {
            NodeStatus::Starting => NodeStatus::Starting,
            NodeStatus::Running => NodeStatus::Running,
            NodeStatus::Synchronizing => NodeStatus::Synchronizing,
            NodeStatus::Stopping => NodeStatus::Stopping,
            NodeStatus::Stopped => NodeStatus::Stopped,
            NodeStatus::Error(m) => NodeStatus::Error(m.clone()),
        }
    }

    /// Check if this is a validator node.
    pub fn is_validator(&self) -> (r: bool)
        ensures
            r == (self.config.node_type@ == "validator"@),
    {
        self.config.node_type == "validator".to_owned()
    }

    /// Get the node's peer identity.
    pub fn get_node_id(&self) -> (r: PeerId)
        ensures
            r == self.node_id,
    {
        self.node_id
    }
}

} // verus!
