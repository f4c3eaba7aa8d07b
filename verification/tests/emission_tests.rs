use rinku_node::emission::{
    fee_split_from_share, EmissionService, EmissionSnapshot, GENESIS_ALLOCATION, HALVING_INTERVAL,
    INITIAL_CHECKPOINT_REWARD, MAX_SUPPLY, MIN_CHECKPOINT_REWARD,
};

#[test]
fn test_initial_checkpoint_reward() {
    let service = EmissionService::new();
    let reward = service.get_checkpoint_reward(0);
    assert_eq!(reward, INITIAL_CHECKPOINT_REWARD);
}

#[test]
fn test_halving_reduces_reward() {
    let service = EmissionService::new();
    let initial = service.get_checkpoint_reward(0);
    let after_halving = service.get_checkpoint_reward(HALVING_INTERVAL);
    assert!(after_halving < initial);
    assert_eq!(after_halving, initial >> 1);
}

#[test]
fn test_circulating_supply() {
    let service = EmissionService::new();
    assert_eq!(service.get_circulating_supply(), GENESIS_ALLOCATION);
}

#[test]
fn test_micro_units_precision() {
    let service = EmissionService::new();
    let reward = service.get_checkpoint_reward(HALVING_INTERVAL * 2);
    assert_eq!(reward, INITIAL_CHECKPOINT_REWARD >> 2);
}

#[test]
fn reward_floor_and_epochs() {
    let s = EmissionService::new();
    assert_eq!(s.get_checkpoint_reward(HALVING_INTERVAL - 1), INITIAL_CHECKPOINT_REWARD);
    assert_eq!(s.get_checkpoint_reward(HALVING_INTERVAL * 5), INITIAL_CHECKPOINT_REWARD >> 5);
    assert_eq!(s.get_checkpoint_reward(u64::MAX), INITIAL_CHECKPOINT_REWARD >> 5);
    assert!(s.get_checkpoint_reward(u64::MAX) >= MIN_CHECKPOINT_REWARD);
    assert_eq!(s.get_halving_epoch(HALVING_INTERVAL * 3 + 5), 3);
    assert_eq!(s.get_next_halving_height(5), HALVING_INTERVAL);
    assert_eq!(s.get_next_halving_height(HALVING_INTERVAL), 2 * HALVING_INTERVAL);
}

#[test]
fn counters_and_snapshots() {
    let mut s = EmissionService::new();
    s.record_emission(1_000);
    s.record_burn(300);
    assert_eq!(s.get_total_emitted(), 1_000);
    assert_eq!(s.get_total_burned(), 300);
    assert_eq!(s.get_circulating_supply(), GENESIS_ALLOCATION + 700);
    assert_eq!(s.get_remaining_to_emit(), MAX_SUPPLY - GENESIS_ALLOCATION - 1_000);
    let snap = s.to_json();
    let t = EmissionService::from_json(snap.clone());
    assert_eq!(t.get_total_emitted(), 1_000);
    let mut u = EmissionService::with_initial(500, 900);
    let deltas = u.merge_from(EmissionSnapshot { total_emitted: 1_000, total_burned: 300 });
    assert_eq!(deltas, (500, 0));
    assert_eq!(u.get_total_emitted(), 1_000);
    assert_eq!(u.get_total_burned(), 900);
    let over = EmissionService::with_initial(MAX_SUPPLY, 0);
    assert_eq!(over.get_remaining_to_emit(), 0);
}

#[test]
fn fee_split_rest_is_burned() {
    assert_eq!(fee_split_from_share(1_000, 700), (700, 300));
    assert_eq!(fee_split_from_share(1_000, 1_200), (1_200, 0));
}
