use rinku_node::consensus::{DoubleSignEvidence, Vote, VoteType};
use std::collections::{HashMap, HashSet};

fn create_test_vote(validator: &str, height: u64, hash: &str) -> Vote {
    Vote {
        validator: validator.to_string(),
        vote_type: VoteType::Commit,
        checkpoint_height: height,
        checkpoint_hash: hash.to_string(),
        signature: vec![0u8; 96],
        timestamp: 1000,
    }
}

#[test]
fn test_vote_message_determinism() {
    let vote1 = Vote {
        validator: "v1".to_string(),
        vote_type: VoteType::Commit,
        checkpoint_height: 100,
        checkpoint_hash: "abc123".to_string(),
        signature: vec![],
        timestamp: 1000,
    };

    let vote2 = Vote {
        validator: "v1".to_string(),
        vote_type: VoteType::Commit,
        checkpoint_height: 100,
        checkpoint_hash: "abc123".to_string(),
        signature: vec![],
        timestamp: 2000,
    };

    assert_eq!(vote1.message(), vote2.message());
}

#[test]
fn test_vote_message_differs_by_type() {
    let prepare = Vote {
        validator: "v1".to_string(),
        vote_type: VoteType::Prepare,
        checkpoint_height: 100,
        checkpoint_hash: "abc".to_string(),
        signature: vec![],
        timestamp: 1000,
    };

    let commit = Vote {
        validator: "v1".to_string(),
        vote_type: VoteType::Commit,
        checkpoint_height: 100,
        checkpoint_hash: "abc".to_string(),
        signature: vec![],
        timestamp: 1000,
    };

    assert_ne!(prepare.message(), commit.message());
}

#[test]
fn vote_message_layout() {
    let vote = create_test_vote("v1", 0x0102, "ab");
    assert_eq!(vote.message(), vec![1, 0x02, 0x01, 0, 0, 0, 0, 0, 0, b'a', b'b']);
    let finalize = Vote { vote_type: VoteType::Finalize, ..create_test_vote("v1", 7, "") };
    assert_eq!(finalize.message(), vec![2, 7, 0, 0, 0, 0, 0, 0, 0]);
}

#[test]
fn test_zero_balance_cannot_stake() {
    let account_balance = 0.0;
    let stake_amount = 100.0;
    let gas_fee = 0.001;

    let required_balance = stake_amount + gas_fee;
    let has_sufficient = account_balance >= required_balance;

    assert!(!has_sufficient, "Zero balance should NOT be able to stake");
}

#[test]
fn test_insufficient_balance_for_stake_plus_gas() {
    let account_balance = 100.0;
    let stake_amount = 100.0;
    let gas_fee = 0.001;

    let required_balance = stake_amount + gas_fee;
    let has_sufficient = account_balance >= required_balance;

    assert!(!has_sufficient, "Balance equal to stake amount should fail (no gas)");
}

#[test]
fn test_sufficient_balance_for_stake() {
    let account_balance = 100.01;
    let stake_amount = 100.0;
    let gas_fee = 0.001;

    let required_balance = stake_amount + gas_fee;
    let has_sufficient = account_balance >= required_balance;

    assert!(has_sufficient, "Balance > stake + gas should succeed");
}

#[test]
fn test_double_sign_evidence_structure() {
    let evidence = DoubleSignEvidence {
        validator: "validator_001".to_string(),
        height: 100,
        hash1: "hash_a".to_string(),
        hash2: "hash_b".to_string(),
        signature1: vec![1, 2, 3],
        signature2: vec![4, 5, 6],
    };

    assert_ne!(evidence.hash1, evidence.hash2);
    assert_eq!(evidence.height, 100);
}

#[test]
fn test_slashed_validator_tracking() {
    let mut slashed: HashSet<String> = HashSet::new();

    assert!(!slashed.contains("v1"));

    slashed.insert("v1".to_string());
    assert!(slashed.contains("v1"));
    assert!(!slashed.contains("v2"));

    slashed.clear();
    assert!(!slashed.contains("v1"));
}

#[test]
fn test_vote_history_cleanup() {
    let mut vote_history: HashMap<(String, u64), Vote> = HashMap::new();

    vote_history.insert(("v1".to_string(), 10), create_test_vote("v1", 10, "h10"));
    vote_history.insert(("v2".to_string(), 20), create_test_vote("v2", 20, "h20"));
    vote_history.insert(("v3".to_string(), 30), create_test_vote("v3", 30, "h30"));

    assert_eq!(vote_history.len(), 3);

    let keep_after_height = 15u64;
    vote_history.retain(|(_, height), _| *height >= keep_after_height);

    assert_eq!(vote_history.len(), 2);
    assert!(vote_history.get(&("v2".to_string(), 20)).is_some());
    assert!(vote_history.get(&("v3".to_string(), 30)).is_some());
    assert!(vote_history.get(&("v1".to_string(), 10)).is_none());
}
