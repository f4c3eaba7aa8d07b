use rinku_node::checkpoint::AcceptedVote;
use rinku_node::qcc::QccTally;

fn vote(stake: u64, sig: u8) -> AcceptedVote {
    AcceptedVote { canonical_stake: stake, sig_bytes: vec![sig; 4] }
}

#[test]
fn votes_count_once_towards_two_thirds() {
    let mut t = QccTally::new(1000, "me".to_string(), 300, vec![vec![1, 2]]);
    assert_eq!(t.quorum_threshold(), 667);
    assert!(!t.quorum_reached());
    assert!(t.has_signed("me"));
    assert!(!t.add_vote("me".to_string(), vote(300, 9)));
    assert!(t.add_vote("alice".to_string(), vote(300, 7)));
    assert_eq!(t.collected_stake(), 600);
    assert!(!t.add_vote("alice".to_string(), vote(300, 8)));
    assert!(!t.quorum_reached());
    assert!(t.add_vote("bob".to_string(), vote(67, 5)));
    assert_eq!(t.collected_stake(), 667);
    assert!(t.quorum_reached());
    assert_eq!(t.signatures(), &vec![vec![1, 2], vec![7; 4], vec![5; 4]]);
    let validators: Vec<String> = ["alice", "carol", "me"].iter().map(|s| s.to_string()).collect();
    assert_eq!(t.signer_positions(&validators), vec![2, 0]);
}

#[test]
fn threshold_rounds_two_thirds_up() {
    assert_eq!(QccTally::new(3, "x".to_string(), 0, vec![]).quorum_threshold(), 2);
    assert_eq!(QccTally::new(4, "x".to_string(), 0, vec![]).quorum_threshold(), 3);
    assert_eq!(QccTally::new(1, "x".to_string(), 1, vec![]).quorum_threshold(), 1);
}
