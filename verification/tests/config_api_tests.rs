use rinku_node::api::{ApiError, PublicKeyField, TransactionStatus};
use rinku_node::config::{
    is_genesis_node, is_truthy_flag, parse_genesis_validators, parse_list, parse_u64, NodeEnv, NodeSettings,
    P2pConfig,
};

#[test]
fn p2p_defaults_and_flags() {
    let c = P2pConfig::default();
    assert!(c.enabled && c.enable_mdns);
    assert_eq!(c.listen_addr, "/ip4/0.0.0.0/tcp/4001");
    assert_eq!(c.max_peers, 50);
    assert_eq!(c.connection_timeout_secs, 60);
    assert!(c.bootstrap_peers.is_empty());
    assert!(is_truthy_flag("true"));
    assert!(is_truthy_flag("1"));
    assert!(!is_truthy_flag("TRUE"));
    assert!(!is_truthy_flag("yes"));
    assert!(!is_truthy_flag(""));
}

#[test]
fn api_error_codes() {
    let e = ApiError::not_found("no such tx".to_string());
    assert_eq!((e.error.as_str(), e.code), ("no such tx", 404));
    let b = ApiError::bad_request("bad".to_string());
    assert_eq!(b.code, 400);
    assert_ne!(TransactionStatus::Pending, TransactionStatus::Finalized);
}

#[test]
fn genesis_entries_take_base64url_then_hex_keys() {
    let v = parse_genesis_validators("alice:AQID;bob:ff;bad;carol:x:y;dave:!!;erin:0a0b0c");
    let got: Vec<(String, Vec<u8>)> = v.into_iter().map(|g| (g.address, g.bls_public_key)).collect();
    assert_eq!(
        got,
        vec![
            ("alice".to_string(), vec![1, 2, 3]),
            ("bob".to_string(), vec![255]),
            ("erin".to_string(), vec![10, 11, 12]),
        ]
    );
    assert!(parse_genesis_validators("").is_empty());
}

#[test]
fn lists_are_trimmed_and_empty_items_dropped() {
    assert_eq!(parse_list(" a , b,,c "), vec!["a".to_string(), "b".to_string(), "c".to_string()]);
    assert!(parse_list("").is_empty());
    assert!(parse_list(" , ").is_empty());
}

#[test]
fn p2p_settings_fall_back_to_defaults() {
    let c = P2pConfig::from_settings(None, None, None, None, None, None);
    let d = P2pConfig::default();
    assert_eq!(c.enabled, d.enabled);
    assert_eq!(c.listen_addr, d.listen_addr);
    assert_eq!(c.bootstrap_peers, d.bootstrap_peers);
    assert_eq!(c.enable_mdns, d.enable_mdns);
    assert_eq!(c.max_peers, d.max_peers);
    assert_eq!(c.connection_timeout_secs, d.connection_timeout_secs);
}

#[test]
fn p2p_settings_are_read_from_text() {
    let c = P2pConfig::from_settings(
        Some("0"),
        Some("8080"),
        Some("/ip4/1.2.3.4/tcp/1, /ip4/5.6.7.8/tcp/2"),
        Some("yes"),
        Some("+12"),
        Some("90"),
    );
    assert!(!c.enabled);
    assert_eq!(c.listen_addr, "/ip4/0.0.0.0/tcp/8080");
    assert_eq!(c.bootstrap_peers, vec!["/ip4/1.2.3.4/tcp/1".to_string(), "/ip4/5.6.7.8/tcp/2".to_string()]);
    assert!(!c.enable_mdns);
    assert_eq!(c.max_peers, 12);
    assert_eq!(c.connection_timeout_secs, 90);
    let bad = P2pConfig::from_settings(Some("true"), Some("70000"), None, Some("1"), Some("-3"), Some(""));
    assert!(bad.enabled && bad.enable_mdns);
    assert_eq!(bad.listen_addr, "/ip4/0.0.0.0/tcp/4001");
    assert_eq!(bad.max_peers, 50);
    assert_eq!(bad.connection_timeout_secs, 60);
}

#[test]
fn public_keys_become_lowercase_hex() {
    assert_eq!(PublicKeyField::Bytes(vec![0xab, 0x01]).to_hex(), Ok("ab01".to_string()));
    assert_eq!(PublicKeyField::Bytes(vec![]).to_hex(), Err("empty publicKey".to_string()));
    assert_eq!(PublicKeyField::Hex("  0xABcd01 ".to_string()).to_hex(), Ok("abcd01".to_string()));
    assert_eq!(PublicKeyField::Hex("ABCD".to_string()).to_hex(), Ok("abcd".to_string()));
    assert_eq!(PublicKeyField::Hex("0xabc".to_string()).to_hex(), Err("invalid publicKey hex".to_string()));
    assert_eq!(PublicKeyField::Hex("xyz1".to_string()).to_hex(), Err("invalid publicKey hex".to_string()));
    assert_eq!(PublicKeyField::Hex("".to_string()).to_hex(), Ok(String::new()));
}

fn empty_env() -> NodeEnv {
    NodeEnv {
        data_dir: None,
        api_port: None,
        gossip_port: None,
        node_peers: None,
        chain_id: None,
        network_id: None,
        mainnet_mode: None,
        allow_unverified_sync: None,
        strict_sync_verify: None,
        max_dag_nodes: None,
        max_tips: None,
        checkpoint_interval_ms: None,
        gossip_interval_ms: None,
        gossip_enabled: None,
        rate_limit_tx_max: None,
        rate_limit_contract_max: None,
        rate_limit_general_max: None,
        static_dir: None,
        public_url: None,
        is_genesis_node: None,
        p2p_bootstrap_peers: None,
    }
}

#[test]
fn node_settings_defaults() {
    let c = NodeSettings::from_env_texts(&empty_env());
    assert_eq!(c.data_dir, ".rinku-data");
    assert_eq!(c.api_port, 3001);
    assert_eq!(c.gossip_port, 4001);
    assert!(c.peers.is_empty());
    assert_eq!(c.chain_id, "rinku-mainnet");
    assert_eq!(c.network_id, "mainnet");
    assert!(!c.mainnet_mode);
    assert!(c.sync_verify_strict);
    assert_eq!(c.max_dag_nodes, 300);
    assert_eq!(c.max_tips, 15);
    assert_eq!(c.checkpoint_interval_ms, 15000);
    assert_eq!(c.gossip_interval_ms, 200);
    assert!(c.gossip_enabled);
    assert_eq!((c.rate_limit_tx_max, c.rate_limit_contract_max, c.rate_limit_general_max), (30, 20, 100));
    assert_eq!(c.static_dir, None);
    assert_eq!(c.public_url, None);
    assert!(c.is_genesis_node);
}

#[test]
fn node_settings_from_texts() {
    let mut env = empty_env();
    env.api_port = Some("8080".to_string());
    env.gossip_port = Some("70000".to_string());
    env.node_peers = Some(" http://a , ,http://b".to_string());
    env.chain_id = Some("testnet-1".to_string());
    env.mainnet_mode = Some("1".to_string());
    env.allow_unverified_sync = Some("true".to_string());
    env.max_tips = Some("x".to_string());
    env.rate_limit_tx_max = Some("+7".to_string());
    env.public_url = Some("http://me".to_string());
    env.p2p_bootstrap_peers = Some("/ip4/1.2.3.4/tcp/4001".to_string());
    let c = NodeSettings::from_env_texts(&env);
    assert_eq!(c.api_port, 8080);
    assert_eq!(c.gossip_port, 4001);
    assert_eq!(c.peers, vec!["http://a".to_string(), "http://b".to_string()]);
    assert_eq!(c.chain_id, "testnet-1");
    assert!(c.mainnet_mode);
    assert!(!c.sync_verify_strict);
    assert_eq!(c.max_tips, 15);
    assert_eq!(c.rate_limit_tx_max, 7);
    assert_eq!(c.public_url.as_deref(), Some("http://me"));
    assert!(!c.is_genesis_node);
    env.strict_sync_verify = Some("true".to_string());
    assert!(NodeSettings::from_env_texts(&env).sync_verify_strict);
}

#[test]
fn genesis_auto_detect() {
    assert!(is_genesis_node(None, None));
    assert!(is_genesis_node(None, Some("  \t")));
    assert!(!is_genesis_node(None, Some("/ip4/1.2.3.4/tcp/1")));
    assert!(is_genesis_node(Some("true"), Some("/ip4/1.2.3.4/tcp/1")));
    assert!(!is_genesis_node(Some("yes"), None));
}

#[test]
fn unsigned_numbers_read_like_str_parse() {
    for text in ["0", "42", "+7", "007", "18446744073709551615", "18446744073709551616", "", "+", "-1", " 1", "1a", "++1", "١"] {
        assert_eq!(parse_u64(text), text.parse::<u64>().ok(), "text {:?}", text);
    }
}
