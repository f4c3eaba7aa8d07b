use rinku_node::checkpoint::{
    compute_checkpoint_hash, is_valid_hex_hash, should_use_single_validator, ForkRecovery,
    FORK_RECOVERY_THRESHOLD, accept_vote, check_peer_checkpoint, in_proposal_cooldown, needs_peer_sync, network_consensus_height, DynamicTxCap,
    ChainCheck, CheckpointRecord, PeerCheckpointCheck, check_checkpoint_chain, extends_tip,
    push_finality_time, record_finality_times,
};
use rinku_node::bls::{bls_sign, generate_bls_keypair};
use base64::Engine;
use sha2::Digest;

#[test]
fn test_compute_checkpoint_hash_deterministic() {
    let hash1 = compute_checkpoint_hash(100, "merkle_root_abc", "state_root_def", "receipt_root_ghi", 50, 1700000000);
    let hash2 = compute_checkpoint_hash(100, "merkle_root_abc", "state_root_def", "receipt_root_ghi", 50, 1700000000);

    assert_eq!(hash1, hash2);
    assert_eq!(hash1.len(), 32);
}

#[test]
fn test_compute_checkpoint_hash_different_heights() {
    let hash1 = compute_checkpoint_hash(100, "merkle_root", "state_root", "receipt_root", 50, 1700000000);
    let hash2 = compute_checkpoint_hash(101, "merkle_root", "state_root", "receipt_root", 50, 1700000000);

    assert_ne!(hash1, hash2);
}

#[test]
fn test_compute_checkpoint_hash_different_merkle_roots() {
    let hash1 = compute_checkpoint_hash(100, "merkle_root_a", "state_root", "receipt_root", 50, 1700000000);
    let hash2 = compute_checkpoint_hash(100, "merkle_root_b", "state_root", "receipt_root", 50, 1700000000);

    assert_ne!(hash1, hash2);
}

#[test]
fn test_compute_checkpoint_hash_different_timestamps() {
    let hash1 = compute_checkpoint_hash(100, "merkle_root", "state_root", "receipt_root", 50, 1700000000);
    let hash2 = compute_checkpoint_hash(100, "merkle_root", "state_root", "receipt_root", 50, 1700000001);

    assert_ne!(hash1, hash2);
}

#[test]
fn test_compute_checkpoint_hash_different_tip_counts() {
    let hash1 = compute_checkpoint_hash(100, "merkle_root", "state_root", "receipt_root", 50, 1700000000);
    let hash2 = compute_checkpoint_hash(100, "merkle_root", "state_root", "receipt_root", 51, 1700000000);

    assert_ne!(hash1, hash2);
}

#[test]
fn test_should_use_single_validator_mode() {
    assert!(should_use_single_validator(false, false));
    assert!(!should_use_single_validator(false, true));
    assert!(!should_use_single_validator(true, false));
    assert!(!should_use_single_validator(true, true));
}

#[test]
fn test_compute_checkpoint_hash_hex_encoding() {
    let hash = compute_checkpoint_hash(1, "test_merkle", "test_state", "test_receipt", 10, 1000000);

    let hex_hash = hex::encode(&hash);
    assert_eq!(hex_hash.len(), 64);
    assert!(hex_hash.chars().all(|c| c.is_ascii_hexdigit()));
}

#[test]
fn test_fork_recovery_threshold_constant() {
    assert_eq!(FORK_RECOVERY_THRESHOLD, 3);
}

#[test]
fn checkpoint_hash_preimage_text() {
    let expected = sha2::Sha256::digest(b"7:m:s:r:0:1234567890123").to_vec();
    assert_eq!(compute_checkpoint_hash(7, "m", "s", "r", 0, 1234567890123), expected);
    let expected_max = sha2::Sha256::digest(format!("{}:::é:{}:0", u64::MAX, u32::MAX).as_bytes()).to_vec();
    assert_eq!(compute_checkpoint_hash(u64::MAX, "", "", "é", u32::MAX, 0), expected_max);
}

#[test]
fn hex_hash_validation() {
    let good = "0123456789abcdefABCDEF0123456789abcdef0123456789abcdef0123456789";
    assert_eq!(good.len(), 64);
    assert!(is_valid_hex_hash(good));
    assert!(!is_valid_hex_hash(&good[..63]));
    assert!(!is_valid_hex_hash(&format!("{}0", good)));
    assert!(!is_valid_hex_hash(&format!("g{}", &good[1..])));
    assert!(!is_valid_hex_hash(&format!("é{}", &good[2..])));
    assert!(!is_valid_hex_hash(""));
}

#[test]
fn fork_recovery_triggers_on_third_mismatch() {
    let mut fr = ForkRecovery::new();
    assert!(!fr.record_fork_failure());
    assert!(!fr.record_fork_failure());
    assert!(fr.record_fork_failure());
    assert!(fr.record_fork_failure());
    assert_eq!(fr.consecutive_failures(), 4);
    fr.reset_fork_failures();
    assert_eq!(fr.consecutive_failures(), 0);
    assert!(!fr.record_fork_failure());
}

#[test]
fn consensus_height_takes_the_middle_handshake_height() {
    assert_eq!(network_consensus_height(0, &[5, 0, 3, 9]), Some(5));
    assert_eq!(network_consensus_height(7, &[5, 0, 3, 9]), Some(7));
    assert_eq!(network_consensus_height(0, &[4, 1, 3, 2]), Some(3));
    assert_eq!(network_consensus_height(4, &[]), Some(4));
    assert_eq!(network_consensus_height(0, &[0, 0]), None);
    assert_eq!(network_consensus_height(0, &[]), None);
}

#[test]
fn signed_votes_are_checked_against_the_registry() {
    let kp = generate_bls_keypair();
    let other = generate_bls_keypair();
    let hash = [7u8; 32];
    let hash_hex = hex::encode(hash);
    let sig = bls_sign(&hash, &kp.private_key).unwrap();
    let b64 = |b: &[u8]| base64::engine::general_purpose::URL_SAFE_NO_PAD.encode(b);
    let (key, sig_text) = (b64(&kp.public_key), b64(&sig));

    let v = accept_vote(&key, &sig_text, &hash_hex, 10, "").unwrap();
    assert_eq!((v.canonical_stake, v.sig_bytes.clone()), (10, sig.clone()));
    assert!(accept_vote(&key, &sig_text, &hash_hex, 10, &key).is_some());
    assert!(accept_vote(&key, &sig_text, &hash_hex, 10, &b64(&other.public_key)).is_none());
    assert!(accept_vote(&key, &sig_text, &hash_hex, 0, "").is_none());
    assert!(accept_vote(&b64(&other.public_key), &sig_text, &hash_hex, 10, "").is_none());
    assert!(accept_vote(&key, &sig_text, &hex::encode([8u8; 32]), 10, "").is_none());
    assert!(accept_vote(&key, &sig_text, "zz", 10, "").is_none());
    assert!(accept_vote("@@", &sig_text, &hash_hex, 10, "").is_none());
}

#[test]
fn tx_cap_grows_when_congested_and_shrinks_when_idle() {
    let mut cap = DynamicTxCap::new();
    assert_eq!(cap.get(), 50);
    assert_eq!(cap.adjust(20), 50);
    assert_eq!(cap.adjust(60), 100);
    assert_eq!(cap.adjust(100), 100);
    assert_eq!(cap.adjust(300), 200);
    assert_eq!(cap.adjust(500), 400);
    assert_eq!(cap.adjust(1000), 600);
    assert_eq!(cap.adjust(5000), 600);
    assert_eq!(cap.adjust(10), 570);
    assert_eq!(cap.adjust(10), 541);
    assert_eq!(cap.adjust(300), 541);
    let mut small = DynamicTxCap::new();
    for _ in 0..10 {
        small.adjust(0);
    }
    assert_eq!(small.get(), 50);
    assert!(needs_peer_sync(true, 24, 50));
    assert!(!needs_peer_sync(true, 25, 50));
    assert!(!needs_peer_sync(false, 0, 50));
}

#[test]
fn proposals_wait_out_the_cooldown() {
    assert!(!in_proposal_cooldown(0, 5));
    assert!(in_proposal_cooldown(10_000, 11_999));
    assert!(!in_proposal_cooldown(10_000, 12_000));
    assert!(in_proposal_cooldown(10_000, 9_000));
}

#[test]
fn peer_checkpoints_are_checked_in_order() {
    let kp = generate_bls_keypair();
    let sig = bls_sign(b"x", &kp.private_key).unwrap();
    let good = vec![base64::engine::general_purpose::URL_SAFE_NO_PAD.encode(&sig)];
    let junk = vec!["@@".to_string(), base64::engine::general_purpose::URL_SAFE_NO_PAD.encode([1u8; 40])];
    let rec = |prev: Option<&str>, height: u64, sigs: &[String]| CheckpointRecord {
        height,
        hash: hex::encode(compute_checkpoint_hash(height, "m", "s", "r", 2, 99)),
        previous_hash: prev.map(|p| p.to_string()),
        tx_merkle_root: "m".to_string(),
        state_root: "s".to_string(),
        receipt_root: "r".to_string(),
        tip_count: 2,
        timestamp: 99,
        signatures: sigs.to_vec(),
    };
    let check = |c: &CheckpointRecord, merkle: &str, q: Option<bool>| check_peer_checkpoint(c, Some("p"), merkle, q);
    assert_eq!(check(&rec(Some("q"), 7, &good), "m", None), PeerCheckpointCheck::Fork);
    assert_eq!(check(&rec(None, 7, &good), "m", None), PeerCheckpointCheck::Fork);
    assert_eq!(check(&rec(Some("p"), 7, &good), "x", None), PeerCheckpointCheck::MerkleMismatch);
    let mut wrong = rec(Some("p"), 7, &good);
    wrong.hash = "00".to_string();
    assert_eq!(check(&wrong, "m", None), PeerCheckpointCheck::HashMismatch);
    assert_eq!(check(&rec(Some("p"), 7, &[]), "m", Some(true)), PeerCheckpointCheck::Adopt);
    assert_eq!(check(&rec(Some("p"), 7, &good), "m", Some(false)), PeerCheckpointCheck::NoQuorum);
    assert_eq!(check(&rec(Some("p"), 7, &[]), "m", None), PeerCheckpointCheck::NoSignatures);
    assert_eq!(check(&rec(Some("p"), 1, &[]), "m", None), PeerCheckpointCheck::NoValidSignature);
    assert_eq!(check(&rec(Some("p"), 7, &junk), "m", None), PeerCheckpointCheck::NoValidSignature);
    assert_eq!(check(&rec(Some("p"), 7, &good), "m", None), PeerCheckpointCheck::Adopt);
    assert_eq!(check_peer_checkpoint(&rec(None, 7, &good), None, "m", None), PeerCheckpointCheck::Adopt);
}

#[test]
fn checkpoint_chains_are_checked_link_hash_then_signatures() {
    let kp = generate_bls_keypair();
    let sig = base64::engine::general_purpose::URL_SAFE_NO_PAD.encode(bls_sign(b"x", &kp.private_key).unwrap());
    let short = base64::engine::general_purpose::URL_SAFE_NO_PAD.encode([1u8; 40]);
    let make = |height: u64, prev: Option<String>, sigs: Vec<String>| CheckpointRecord {
        height,
        hash: hex::encode(compute_checkpoint_hash(height, "m", "s", "r", 0, height)),
        previous_hash: prev,
        tx_merkle_root: "m".to_string(),
        state_root: "s".to_string(),
        receipt_root: "r".to_string(),
        tip_count: 0,
        timestamp: height,
        signatures: sigs,
    };
    let a = make(1, None, vec![]);
    let b = make(2, Some(a.hash.clone()), vec![sig.clone(), "@@".to_string()]);
    let c = make(3, Some(b.hash.clone()), vec![]);
    let chain = vec![a.clone(), b.clone(), c.clone()];
    assert_eq!(check_checkpoint_chain(&chain, None), ChainCheck::Valid);
    assert_eq!(check_checkpoint_chain(&chain, Some(true)), ChainCheck::Valid);
    assert_eq!(check_checkpoint_chain(&chain, Some(false)), ChainCheck::TrustRejected);
    assert_eq!(check_checkpoint_chain(&[], None), ChainCheck::Valid);
    let unlinked = vec![a.clone(), make(3, Some(a.hash.clone()), vec![]), make(2, Some("z".to_string()), vec![])];
    assert_eq!(check_checkpoint_chain(&unlinked, Some(true)), ChainCheck::BrokenLink);
    let mut tampered = chain.clone();
    tampered[1].state_root = "t".to_string();
    assert_eq!(check_checkpoint_chain(&tampered, Some(true)), ChainCheck::HashMismatch);
    let mut bad_sig = chain.clone();
    bad_sig[2].signatures = vec![short];
    assert_eq!(check_checkpoint_chain(&bad_sig, None), ChainCheck::BadSignature);
    assert_eq!(check_checkpoint_chain(&bad_sig, Some(true)), ChainCheck::Valid);
}

#[test]
fn certified_checkpoint_must_extend_the_tip() {
    assert!(extends_tip(0, 1));
    assert!(extends_tip(41, 42));
    assert!(!extends_tip(42, 42));
    assert!(!extends_tip(40, 42));
    assert!(!extends_tip(u64::MAX, 0));
}

#[test]
fn finality_window_keeps_the_newest_thousand() {
    let mut w: Vec<u64> = Vec::new();
    let times: Vec<u64> = (0..1005).collect();
    record_finality_times(&mut w, &times);
    assert_eq!(w.len(), 1000);
    assert_eq!(w[0], 5);
    assert_eq!(*w.last().unwrap(), 1004);
    push_finality_time(&mut w, 7);
    assert_eq!(w.len(), 1000);
    assert_eq!(w[0], 6);
    assert_eq!(*w.last().unwrap(), 7);
    let mut small = vec![1, 2];
    push_finality_time(&mut small, 3);
    assert_eq!(small, vec![1, 2, 3]);
}
