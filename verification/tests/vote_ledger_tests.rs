use rinku_node::consensus::{Vote, VoteError, VoteLedger, VoteResult, VoteType};

fn vote(validator: &str, height: u64, hash: &str) -> Vote {
    Vote {
        validator: validator.to_string(),
        vote_type: VoteType::Commit,
        checkpoint_height: height,
        checkpoint_hash: hash.to_string(),
        signature: vec![height as u8; 4],
        timestamp: 1000,
    }
}

#[test]
fn votes_need_an_open_round_and_the_right_hash() {
    let mut ledger = VoteLedger::new();
    let rec = ledger.record_vote(vote("v1", 10, "h10"));
    assert_eq!(rec.result, Err(VoteError::NoVotingRound));
    assert!(rec.evidence.is_none());

    ledger.open_round(10, "h10".to_string());
    assert!(ledger.has_round(10));
    assert!(!ledger.has_round(11));
    assert_eq!(ledger.record_vote(vote("v1", 10, "h10")).result, Ok(VoteResult::Accepted));
    assert_eq!(ledger.record_vote(vote("v1", 10, "h10")).result, Ok(VoteResult::Duplicate));
    assert_eq!(ledger.record_vote(vote("v2", 10, "other")).result, Err(VoteError::WrongCheckpointHash));
    assert_eq!(ledger.record_vote(vote("v2", 10, "h10")).result, Ok(VoteResult::Accepted));
}

#[test]
fn double_signing_is_detected_until_slashed() {
    let mut ledger = VoteLedger::new();
    ledger.open_round(5, "a".to_string());
    assert!(ledger.record_vote(vote("v1", 5, "a")).evidence.is_none());

    let rec = ledger.record_vote(vote("v1", 5, "b"));
    let ev = rec.evidence.expect("conflicting vote gives evidence");
    assert_eq!((ev.validator.as_str(), ev.height, ev.hash1.as_str(), ev.hash2.as_str()), ("v1", 5, "a", "b"));
    assert_eq!(rec.result, Err(VoteError::WrongCheckpointHash));

    let ev = ledger.check_double_signing("v1", 5, "z", &[9, 9]).expect("round holds v1's vote for a");
    assert_eq!((ev.hash1.as_str(), ev.hash2.as_str(), ev.signature2.clone()), ("a", "z", vec![9, 9]));
    assert!(ledger.check_double_signing("v1", 5, "a", &[]).is_none());
    assert!(ledger.check_double_signing("v9", 5, "z", &[]).is_none());
    assert!(ledger.check_double_signing("v1", 6, "z", &[]).is_none());

    ledger.mark_slashed("v1".to_string());
    ledger.mark_slashed("v1".to_string());
    assert!(ledger.is_validator_slashed("v1"));
    assert!(!ledger.is_validator_slashed("v2"));
    // History now holds v1's vote for "b"; voting "a" again conflicts but v1 is slashed.
    assert!(ledger.record_vote(vote("v1", 5, "a")).evidence.is_none());
    ledger.clear_slashed_set();
    assert!(!ledger.is_validator_slashed("v1"));
    assert!(ledger.record_vote(vote("v1", 5, "b")).evidence.is_some());
}

#[test]
fn finalization_and_cleanup() {
    let mut ledger = VoteLedger::new();
    for h in [10u64, 20, 30] {
        ledger.open_round(h, format!("h{}", h));
        ledger.record_vote(vote("v1", h, &format!("h{}", h)));
    }
    assert!(ledger.mark_finalized(20));
    assert!(!ledger.mark_finalized(20));
    assert!(ledger.mark_finalized(10));
    assert!(ledger.is_finalized(20));
    assert_eq!(ledger.last_finalized_height(), 10);

    ledger.cleanup_old_rounds(15);
    assert!(!ledger.has_round(10));
    assert!(ledger.has_round(20) && ledger.has_round(30));
    assert!(!ledger.is_finalized(10));
    assert!(ledger.is_finalized(20));
    assert_eq!(ledger.last_finalized_height(), 10);

    ledger.cleanup_old_vote_history(25);
    // v1's vote at 20 left the history, so a conflicting one gives no evidence.
    assert!(ledger.record_vote(vote("v1", 20, "x")).evidence.is_none());
    assert!(ledger.record_vote(vote("v1", 30, "x")).evidence.is_some());
}

#[test]
fn reopening_a_round_replaces_it() {
    let mut ledger = VoteLedger::new();
    ledger.open_round(7, "old".to_string());
    ledger.record_vote(vote("v1", 7, "old"));
    ledger.open_round(7, "new".to_string());
    assert_eq!(ledger.record_vote(vote("v1", 7, "new")).result, Ok(VoteResult::Accepted));
}
