use rinku_node::contracts::{
    changed_keys, classify_entrypoint, compute_state_hash, create_contract_id, ContractRuntime, GasMeter,
    GasSchedule, MockEntrypoint, MockOutcome,
};
use sha2::Digest;

#[test]
fn test_gas_meter() {
    let schedule = GasSchedule::default_schedule();
    let mut meter = GasMeter::new(10000, schedule);

    assert!(meter.charge("base_execution", 1));
    assert_eq!(meter.gas_used(), 1000);
    assert!(!meter.is_out_of_gas());
}

#[test]
fn test_gas_meter_out_of_gas() {
    let schedule = GasSchedule::default_schedule();
    let mut meter = GasMeter::new(100, schedule);

    meter.charge("base_execution", 1);
    assert!(meter.is_out_of_gas());
}

#[test]
fn test_create_contract_id() {
    let id1 = create_contract_id("creator1", 0);
    let id2 = create_contract_id("creator1", 1);
    let id3 = create_contract_id("creator2", 0);

    assert!(id1.starts_with("sc_"));
    assert_eq!(id1.len(), 3 + 40);
    assert_ne!(id1, id2);
    assert_ne!(id1, id3);

    let id_repeat = create_contract_id("creator1", 0);
    assert_eq!(id1, id_repeat);
}

#[test]
fn contract_id_matches_its_preimage() {
    let digest = sha2::Sha256::digest(b"rinku:contract:alice:12345");
    let expected = format!("sc_{}", hex::encode(&digest[..20]));
    assert_eq!(create_contract_id("alice", 12345), expected);
}

fn entries(pairs: &[(&str, &str)]) -> Vec<(String, String)> {
    pairs.iter().map(|(k, v)| (k.to_string(), v.to_string())).collect()
}

#[test]
fn entrypoints_are_classified_by_name() {
    assert_eq!(classify_entrypoint("init"), MockEntrypoint::Init);
    assert_eq!(classify_entrypoint("transfer"), MockEntrypoint::Transfer);
    assert_eq!(classify_entrypoint("mint"), MockEntrypoint::Mint);
    assert_eq!(classify_entrypoint("burn"), MockEntrypoint::Burn);
    assert_eq!(classify_entrypoint("get_balance"), MockEntrypoint::GetBalance);
    assert_eq!(classify_entrypoint("Transfer"), MockEntrypoint::Unknown);
    assert_eq!(classify_entrypoint(""), MockEntrypoint::Unknown);
}

#[test]
fn token_calls_use_the_standard_gas() {
    let rt = ContractRuntime::new();
    let init = rt.plan_mock_call(MockEntrypoint::Init, None, true);
    assert_eq!((init.outcome, init.gas_used), (MockOutcome::Initialized, 1700));
    let transfer = rt.plan_mock_call(MockEntrypoint::Transfer, None, true);
    assert_eq!((transfer.outcome, transfer.gas_used), (MockOutcome::Applied, 19900));
    let short = rt.plan_mock_call(MockEntrypoint::Transfer, None, false);
    assert_eq!((short.outcome, short.gas_used), (MockOutcome::InsufficientBalance, 1800));
    let mint = rt.plan_mock_call(MockEntrypoint::Mint, None, true);
    assert_eq!((mint.outcome, mint.gas_used), (MockOutcome::Applied, 12800));
    let burn = rt.plan_mock_call(MockEntrypoint::Burn, None, true);
    assert_eq!((burn.outcome, burn.gas_used), (MockOutcome::Applied, 12900));
    let read = rt.plan_mock_call(MockEntrypoint::GetBalance, None, true);
    assert_eq!((read.outcome, read.gas_used), (MockOutcome::BalanceRead, 1500));
    let unknown = rt.plan_mock_call(MockEntrypoint::Unknown, None, true);
    assert_eq!((unknown.outcome, unknown.gas_used), (MockOutcome::UnknownEntrypoint, 1200));
}

#[test]
fn token_calls_stop_when_gas_runs_out() {
    let rt = ContractRuntime::new();
    let start = rt.plan_mock_call(MockEntrypoint::Transfer, Some(500), true);
    assert_eq!((start.outcome, start.gas_used), (MockOutcome::OutOfGasAtStart, 1000));
    let transfer = rt.plan_mock_call(MockEntrypoint::Transfer, Some(10_000), true);
    assert_eq!((transfer.outcome, transfer.gas_used), (MockOutcome::OutOfGas, 19300));
    let mint = rt.plan_mock_call(MockEntrypoint::Mint, Some(12_199), true);
    assert_eq!((mint.outcome, mint.gas_used), (MockOutcome::OutOfGas, 12200));
}

#[test]
fn state_hash_sorts_keys_and_hashes_the_joined_text() {
    let h = compute_state_hash(&entries(&[("b", "2"), ("a", "1")]));
    assert_eq!(h, "70fd7ec6");
    assert_eq!(compute_state_hash(&entries(&[("a", "1"), ("b", "2")])), h);
    assert_eq!(compute_state_hash(&[]), "00000000");
    assert_eq!(
        compute_state_hash(&entries(&[("name", "\"rinku\""), ("count", "42")])),
        "5bab3037"
    );
}

#[test]
fn changed_keys_lists_each_differing_key_once() {
    let old = entries(&[("a", "1"), ("b", "2"), ("c", "3")]);
    let new = entries(&[("c", "3"), ("b", "5"), ("d", "4")]);
    let mut keys = changed_keys(&old, &new);
    keys.sort();
    assert_eq!(keys, vec!["a".to_string(), "b".to_string(), "d".to_string()]);
    assert!(changed_keys(&old, &old).is_empty());
}

#[test]
fn test_compute_state_hash() {
    let state = vec![
        ("key1".to_string(), serde_json::Value::String("value1".to_string()).to_string()),
        ("key2".to_string(), serde_json::Value::Number(serde_json::Number::from(42)).to_string()),
    ];

    let hash1 = compute_state_hash(&state);
    let hash2 = compute_state_hash(&state);

    assert_eq!(hash1, hash2);
    assert_eq!(hash1.len(), 8);
}
