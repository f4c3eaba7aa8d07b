use rinku_node::scheduling::{
    apply_qcc_decision, follow_step, in_memory_prune_bound, is_full_tick, place_delta_checkpoint,
    propose_step, prune_due, qcc_outcome_step, snapshot_step, tick_wait_ms, DeltaPlacement,
    FollowInputs, LeaderWait, ProposeInputs, QccDecision, QccOutcome, SnapshotInputs,
    SnapshotOutcome, SnapshotState,
};

fn fresh() -> SnapshotState {
    SnapshotState {
        last_own_proposal_ms: 0,
        behind_yields: 0,
        gap_one_ticks: 0,
        stuck_iterations: 0,
        last_seen_height: 0,
        qcc_failures: 0,
        qcc_failure_height: 0,
        yielded_height: 0,
        yield_start_ms: None,
    }
}

fn inputs(local: u64, network: Option<u64>) -> SnapshotInputs {
    SnapshotInputs {
        now_ms: 100_000,
        tick_height: local,
        local_height: local,
        network_height: network,
        is_leader: false,
        is_proposer: false,
        delta_sync_pending: false,
        leader_timeout_quorum: false,
        unfinalized: 5,
    }
}

#[test]
fn cooldown_after_own_proposal() {
    let mut s = fresh();
    s.last_own_proposal_ms = 99_000;
    let (s2, a) = snapshot_step(&s, &inputs(10, Some(20)));
    assert_eq!(a.outcome, SnapshotOutcome::Cooldown);
    assert_eq!(a.fetch_timeout_ms, None);
    assert_eq!(s2, s);
    // exactly 2000 ms later the pause is over
    s.last_own_proposal_ms = 98_000;
    let (_, a) = snapshot_step(&s, &inputs(10, None));
    assert_ne!(a.outcome, SnapshotOutcome::Cooldown);
}

#[test]
fn behind_two_leader_yields_and_fetches_long() {
    let mut ev = inputs(10, Some(12));
    ev.is_leader = true;
    let (s1, a1) = snapshot_step(&fresh(), &ev);
    assert_eq!(a1.outcome, SnapshotOutcome::Wait);
    assert!(a1.flush_fast_path);
    assert!(a1.broadcast_leader_behind);
    assert_eq!(a1.fetch_timeout_ms, Some(1500));
    assert_eq!(s1.behind_yields, 1);
    let (s2, a2) = snapshot_step(&s1, &ev);
    assert!(a2.broadcast_leader_behind);
    let (s3, a3) = snapshot_step(&s2, &ev);
    assert!(!a3.broadcast_leader_behind);
    assert_eq!(s3.behind_yields, 3);
    // a fetch in flight: wait without starting another
    ev.delta_sync_pending = true;
    let (_, a4) = snapshot_step(&s3, &ev);
    assert_eq!(a4.outcome, SnapshotOutcome::Wait);
    assert_eq!(a4.fetch_timeout_ms, None);
}

#[test]
fn behind_two_non_leader_resets_yields() {
    let mut s = fresh();
    s.behind_yields = 2;
    let (s1, a1) = snapshot_step(&s, &inputs(10, Some(15)));
    assert_eq!(s1.behind_yields, 0);
    assert!(!a1.broadcast_leader_behind);
    assert!(a1.flush_fast_path);
}

#[test]
fn gap_one_fetches_short_then_falls_back() {
    let mut ev = inputs(10, Some(11));
    ev.leader_timeout_quorum = true;
    let (s1, a1) = snapshot_step(&fresh(), &ev);
    assert_eq!(a1.outcome, SnapshotOutcome::Wait);
    assert_eq!(a1.fetch_timeout_ms, Some(500));
    assert!(!a1.flush_fast_path);
    let (s2, a2) = snapshot_step(&s1, &ev);
    assert_eq!(a2.outcome, SnapshotOutcome::Wait);
    assert_eq!(s2.gap_one_ticks, 2);
    let (s3, a3) = snapshot_step(&s2, &ev);
    assert_eq!(s3.gap_one_ticks, 0);
    assert_eq!(a3.outcome, SnapshotOutcome::Follow);
    // without a quorum the third tick still waits
    ev.leader_timeout_quorum = false;
    let (_, a) = snapshot_step(&s2, &ev);
    assert_eq!(a.outcome, SnapshotOutcome::Wait);
}

#[test]
fn caught_up_clears_gap_counters() {
    let mut s = fresh();
    s.gap_one_ticks = 2;
    s.behind_yields = 4;
    let (s1, _) = snapshot_step(&s, &inputs(10, Some(10)));
    assert_eq!(s1.gap_one_ticks, 0);
    assert_eq!(s1.behind_yields, 0);
}

#[test]
fn stuck_without_transactions_fetches_with_growing_timeout() {
    let mut ev = inputs(10, None);
    ev.unfinalized = 0;
    let (s1, a1) = snapshot_step(&fresh(), &ev);
    assert_eq!(s1.last_seen_height, 11);
    assert_eq!(s1.stuck_iterations, 0);
    assert_eq!(a1.outcome, SnapshotOutcome::Follow);
    let (s2, a2) = snapshot_step(&s1, &ev);
    assert_eq!(a2.outcome, SnapshotOutcome::Wait);
    assert_eq!(a2.fetch_timeout_ms, Some(500));
    let (s3, a3) = snapshot_step(&s2, &ev);
    assert_eq!(a3.fetch_timeout_ms, Some(1500));
    let (_, a4) = snapshot_step(&s3, &ev);
    assert_eq!(a4.fetch_timeout_ms, Some(2500));
}

#[test]
fn stuck_proposer_with_transactions_resets() {
    let mut ev = inputs(10, None);
    ev.is_proposer = true;
    let mut s = fresh();
    s.last_seen_height = 11;
    s.stuck_iterations = 4;
    let (s1, a1) = snapshot_step(&s, &ev);
    assert_eq!(s1.stuck_iterations, 0);
    assert_eq!(a1.outcome, SnapshotOutcome::Propose);
    assert_eq!(s1.qcc_failure_height, 11);
}

#[test]
fn stuck_backup_with_transactions_probes() {
    let ev = inputs(10, None);
    let mut s = fresh();
    s.last_seen_height = 11;
    s.stuck_iterations = 1;
    let (_, a) = snapshot_step(&s, &ev);
    assert_eq!(a.outcome, SnapshotOutcome::Follow);
    assert_eq!(a.fetch_timeout_ms, Some(500));
}

#[test]
fn yielded_proposer_waits_then_expires() {
    let mut ev = inputs(10, None);
    ev.is_proposer = true;
    let mut s = fresh();
    s.yielded_height = 11;
    s.yield_start_ms = Some(98_000);
    s.qcc_failures = 2;
    s.qcc_failure_height = 11;
    let (s1, a1) = snapshot_step(&s, &ev);
    assert_eq!(a1.outcome, SnapshotOutcome::Wait);
    assert_eq!(a1.fetch_timeout_ms, Some(1500));
    assert_eq!(s1.yielded_height, 11);
    s.yield_start_ms = Some(97_000);
    let (s2, a2) = snapshot_step(&s, &ev);
    assert_eq!(a2.outcome, SnapshotOutcome::Propose);
    assert_eq!(s2.yielded_height, 0);
    assert_eq!(s2.yield_start_ms, None);
    assert_eq!(s2.qcc_failures, 0);
}

#[test]
fn new_height_resets_qcc_failures() {
    let mut s = fresh();
    s.qcc_failures = 1;
    s.qcc_failure_height = 7;
    let (s1, _) = snapshot_step(&s, &inputs(10, None));
    assert_eq!(s1.qcc_failures, 0);
    assert_eq!(s1.qcc_failure_height, 11);
}

#[test]
fn qcc_decisions() {
    assert_eq!(qcc_outcome_step(1, QccOutcome::Certified, 0, 0, 5), QccDecision::Apply);
    assert_eq!(qcc_outcome_step(0, QccOutcome::NoQuorum, 0, 5, 5), QccDecision::AlreadyCommitted);
    assert_eq!(
        qcc_outcome_step(0, QccOutcome::NoQuorum, 0, 4, 5),
        QccDecision::Failed { failures: 1, retry: true, self_yield: false }
    );
    assert_eq!(
        qcc_outcome_step(1, QccOutcome::NoQuorum, 0, 4, 5),
        QccDecision::Failed { failures: 2, retry: false, self_yield: true }
    );
    assert_eq!(qcc_outcome_step(0, QccOutcome::Running, 8000, 4, 5), QccDecision::KeepWaiting);
    assert_eq!(
        qcc_outcome_step(0, QccOutcome::Running, 8001, 4, 5),
        QccDecision::Failed { failures: 1, retry: true, self_yield: false }
    );
    assert!(!QccDecision::KeepWaiting.resolves());
    assert!(QccDecision::Apply.resolves());
}

#[test]
fn qcc_decision_updates_counters() {
    let mut s = fresh();
    s.qcc_failures = 1;
    let d = qcc_outcome_step(s.qcc_failures, QccOutcome::NoQuorum, 0, 4, 5);
    let s1 = apply_qcc_decision(&s, d, 5);
    assert_eq!(s1.qcc_failures, 2);
    assert_eq!(s1.yielded_height, 5);
    let s2 = apply_qcc_decision(&s1, QccDecision::Apply, 6);
    assert_eq!(s2.qcc_failures, 0);
    assert_eq!(s2.yielded_height, 0);
    assert_eq!(apply_qcc_decision(&s1, QccDecision::KeepWaiting, 6), s1);
}

#[test]
fn delta_checkpoint_placement() {
    assert_eq!(place_delta_checkpoint(5, 5), DeltaPlacement::Skip);
    assert_eq!(place_delta_checkpoint(3, 5), DeltaPlacement::Skip);
    assert_eq!(place_delta_checkpoint(6, 5), DeltaPlacement::Apply);
    assert_eq!(place_delta_checkpoint(8, 5), DeltaPlacement::Buffer);
    assert_eq!(place_delta_checkpoint(u64::MAX, u64::MAX), DeltaPlacement::Skip);
}

#[test]
fn pruning_schedule() {
    assert!(!prune_due(0, 100));
    assert!(prune_due(10, 51));
    assert!(!prune_due(10, 50));
    assert!(!prune_due(15, 100));
    assert!(prune_due(30, 100));
    assert_eq!(in_memory_prune_bound(10), None);
    assert_eq!(in_memory_prune_bound(25), Some(15));
}

#[test]
fn tick_pacing() {
    assert_eq!(tick_wait_ms(400, true), 50);
    assert_eq!(tick_wait_ms(30, true), 30);
    assert_eq!(tick_wait_ms(400, false), 400);
    assert!(is_full_tick(1000, 1000));
    assert!(!is_full_tick(999, 1000));
}

fn follow_inputs() -> FollowInputs {
    FollowInputs {
        height: 11,
        stuck_iterations: 0,
        delta_sync_pending: false,
        unfinalized: 3,
        leader_intent: false,
        backup_rank: 2,
        since_catch_up_ms: None,
        timeout_quorum: true,
    }
}

#[test]
fn backup_counts_votes_and_takes_over_after_its_rank() {
    let ev = follow_inputs();
    let mut w = LeaderWait { ticks: 0, height: 0 };
    let mut votes = Vec::new();
    let mut produced_at = None;
    for tick in 1..=6 {
        let (w2, a) = follow_step(&w, &ev);
        w = w2;
        votes.push(a.vote_leader_timeout);
        if a.produce {
            produced_at = Some(tick);
            assert_eq!(a.fetch_timeout_ms, Some(1500));
            break;
        }
    }
    // votes from the third tick; rank 2 produces on the fifth
    assert_eq!(votes, vec![false, false, true, true, true]);
    assert_eq!(produced_at, Some(5));
    assert_eq!(w, LeaderWait { ticks: 0, height: 0 });
}

#[test]
fn backup_waits_longer_for_an_announced_leader() {
    let mut ev = follow_inputs();
    ev.leader_intent = true;
    let (_, a) = follow_step(&LeaderWait { ticks: 3, height: 11 }, &ev);
    assert!(!a.vote_leader_timeout);
    let (_, a) = follow_step(&LeaderWait { ticks: 4, height: 11 }, &ev);
    assert!(a.vote_leader_timeout);
}

#[test]
fn backup_holds_off_after_catching_up_or_without_quorum() {
    let mut ev = follow_inputs();
    ev.since_catch_up_ms = Some(500);
    let (w, a) = follow_step(&LeaderWait { ticks: 9, height: 11 }, &ev);
    assert!(!a.vote_leader_timeout && !a.produce);
    assert_eq!(w.ticks, 10);
    ev.since_catch_up_ms = Some(501);
    ev.timeout_quorum = false;
    let (_, a) = follow_step(&LeaderWait { ticks: 9, height: 11 }, &ev);
    assert!(a.vote_leader_timeout && !a.produce);
}

#[test]
fn backup_without_work_resets_and_fetches_when_stuck() {
    let mut ev = follow_inputs();
    ev.unfinalized = 0;
    ev.stuck_iterations = 2;
    let (w, a) = follow_step(&LeaderWait { ticks: 7, height: 11 }, &ev);
    assert_eq!(w, LeaderWait { ticks: 0, height: 0 });
    assert_eq!(a.fetch_timeout_ms, Some(1500));
    // a new height restarts the count
    ev.unfinalized = 1;
    ev.stuck_iterations = 0;
    let (w, _) = follow_step(&LeaderWait { ticks: 7, height: 10 }, &ev);
    assert_eq!(w, LeaderWait { ticks: 1, height: 11 });
}

fn propose_inputs() -> ProposeInputs {
    ProposeInputs {
        now_ms: 50_000,
        tick_height: 20,
        local_height: 20,
        network_height: Some(20),
        buffered_at_height: false,
        since_catch_up_ms: None,
        fast_path_pool: 4,
        fast_path_confirmed: 0,
    }
}

#[test]
fn proposer_produces_when_nothing_holds_it_back() {
    let (s, a) = propose_step(&fresh(), &propose_inputs());
    assert!(a.broadcast_intent && a.produce);
    assert!(!a.broadcast_leader_timeout && !a.broadcast_leader_behind);
    assert_eq!(s, fresh());
}

#[test]
fn proposer_defers_and_yields() {
    let mut ev = propose_inputs();
    ev.buffered_at_height = true;
    let (_, a) = propose_step(&fresh(), &ev);
    assert!(!a.broadcast_intent && !a.produce);

    let mut ev = propose_inputs();
    ev.since_catch_up_ms = Some(400);
    let (_, a) = propose_step(&fresh(), &ev);
    assert!(a.broadcast_intent && !a.produce);

    let mut ev = propose_inputs();
    ev.fast_path_pool = 0;
    ev.fast_path_confirmed = 51;
    ev.since_catch_up_ms = Some(1500);
    let (s, a) = propose_step(&fresh(), &ev);
    assert!(a.broadcast_leader_timeout && !a.produce);
    assert_eq!(s.yielded_height, 21);
    assert_eq!(s.yield_start_ms, Some(50_000));

    ev.fast_path_confirmed = 50;
    let (s, a) = propose_step(&fresh(), &ev);
    assert!(!a.broadcast_leader_timeout && !a.produce);
    assert_eq!(s.yielded_height, 0);

    let mut ev = propose_inputs();
    ev.network_height = Some(22);
    let (_, a) = propose_step(&fresh(), &ev);
    assert!(a.broadcast_leader_behind && !a.produce);
}

#[test]
fn tick_works_on_the_height_before_its_drain() {
    // the drain moved the chain from 10 to 12 during the tick: the stuck
    // counter and the failure height still go by height 11
    let mut ev = inputs(12, Some(12));
    ev.tick_height = 10;
    let mut s = fresh();
    s.last_seen_height = 11;
    let (s1, a1) = snapshot_step(&s, &ev);
    assert_eq!(s1.stuck_iterations, 1);
    assert_eq!(s1.last_seen_height, 11);
    assert_eq!(s1.qcc_failure_height, 11);
    assert_eq!(a1.outcome, SnapshotOutcome::Follow);
    // behind-peers goes by the drained height: 12 is level with the network
    assert_eq!(a1.fetch_timeout_ms, None);
}
