//! Ports of the node, codec and discovery tests.

use prozchain_lib::discovery::BootstrapConfig;
use prozchain_lib::message::{Message, Protocol};
use prozchain_lib::node::{ConnectionLimits, NodeConfig, ProzChainNode};

#[test]
fn test_create_node() {
    let config = NodeConfig {
        node_type: "full".to_string(),
        validator_key_path: None,
        stake_amount: None,
        trusted_validators: None,
        pruning_strategy: None,
        api_config: None,
        listen_addresses: vec!["127.0.0.1:0".to_string()],
        external_addresses: None,
        display_name: Some("Test Node".to_string()),
        max_peers: 10,
        connection_limits: ConnectionLimits::default(),
    };

    let node = ProzChainNode::new(config);
    assert!(node.is_ok(), "Should create a node successfully");
}

#[test]
fn test_message_serialization() {
    let test_data = b"Hello, ProzChain!".to_vec();
    let message = Message::new(Protocol::Discovery, 0x01, test_data.clone());

    let serialized = message.serialize();
    assert!(serialized.is_ok(), "Should serialize successfully");

    let bytes = serialized.unwrap();
    let deserialized = Message::deserialize(&bytes);
    assert!(deserialized.is_ok(), "Should deserialize successfully");

    let restored_message = deserialized.unwrap();
    assert_eq!(restored_message.payload, test_data, "Payload should match original");
    assert_eq!(
        restored_message.header.protocol_id,
        Protocol::Discovery.as_u16(),
        "Protocol should match"
    );
}

#[test]
fn test_peer_discovery() {
    let bootstrap_config = BootstrapConfig {
        bootstrap_nodes: vec![],
        dns_seeds: vec![],
        enable_local_discovery: false,
        static_peers: vec![],
        dns_lookup_interval_ms: 60_000,
    };

    assert_eq!(bootstrap_config.dns_lookup_interval_ms, 60_000);
}

#[test]
fn node_identity_is_stable() {
    let config = NodeConfig {
        node_type: "full".to_string(),
        validator_key_path: None,
        stake_amount: None,
        trusted_validators: None,
        pruning_strategy: None,
        api_config: None,
        listen_addresses: vec!["127.0.0.1:0".to_string()],
        external_addresses: None,
        display_name: Some("Test Node".to_string()),
        max_peers: 10,
        connection_limits: ConnectionLimits::default(),
    };
    let a = ProzChainNode::new(config.clone()).unwrap();
    let b = ProzChainNode::new(config).unwrap();
    assert_eq!(a.get_node_id(), b.get_node_id());
}

#[test]
fn node_validator_flag_follows_type() {
    let mut config = NodeConfig::default();
    config.node_type = "validator".to_string();
    let node = ProzChainNode::new(config).unwrap();
    assert!(node.is_validator());

    let full = ProzChainNode::new(NodeConfig::default()).unwrap();
    assert!(!full.is_validator());
}
