use rinku_node::dag_pruning::{DagEntry, DagPruningService, InMemoryDagWindow, PruningConfig};

#[test]
fn test_prune_boundary_calculation() {
    let config = PruningConfig { retention_checkpoints: 500, ..Default::default() };
    let service = DagPruningService::new(config);

    assert_eq!(service.calculate_prune_boundary(50), 0);
    assert_eq!(service.calculate_prune_boundary(500), 0);
    assert_eq!(service.calculate_prune_boundary(501), 1);
    assert_eq!(service.calculate_prune_boundary(600), 100);
    assert_eq!(service.calculate_prune_boundary(1000), 500);
}

#[test]
fn test_should_prune() {
    let config = PruningConfig { retention_checkpoints: 500, ..Default::default() };
    let service = DagPruningService::new(config);

    assert!(!service.should_prune(50));
    assert!(!service.should_prune(500));
    assert!(service.should_prune(501));
    assert!(service.should_prune(1000));
}

#[test]
fn test_in_memory_dag_window() {
    let mut window = InMemoryDagWindow::new(5);

    for i in 0..5 {
        let evicted = window.add(format!("hash_{}", i));
        assert!(evicted.is_none());
    }

    assert_eq!(window.len(), 5);
    assert!(window.contains("hash_0"));
    assert!(window.contains("hash_4"));

    let evicted = window.add("hash_5".to_string());
    assert_eq!(evicted, Some("hash_0".to_string()));
    assert!(!window.contains("hash_0"));
    assert!(window.contains("hash_5"));
    assert_eq!(window.pruned_count(), 1);
}

#[test]
fn test_dag_window_tips() {
    let mut window = InMemoryDagWindow::new(20);

    for i in 0..15 {
        window.add(format!("hash_{}", i));
    }

    let tips = window.tips();
    assert_eq!(tips.len(), 10);
    assert_eq!(tips[0], "hash_14");
    assert_eq!(tips[9], "hash_5");
}

#[test]
fn prune_plan_selects_old_transactions() {
    let config = PruningConfig { retention_checkpoints: 2, ..Default::default() };
    let service = DagPruningService::new(config);
    let now = 1_000_000u64;
    let entries = vec![
        DagEntry { key: b"a".to_vec(), tx_hash: "fin_old".to_string(), timestamp: now - 30_000 },
        DagEntry { key: b"b".to_vec(), tx_hash: "fin_new".to_string(), timestamp: now - 10_000 },
        DagEntry { key: b"c".to_vec(), tx_hash: "unfin_old".to_string(), timestamp: now - 30_000 },
        DagEntry { key: b"d".to_vec(), tx_hash: "unfin_ancient".to_string(), timestamp: now - 300_000 },
    ];
    let finalized = vec!["fin_old".to_string(), "fin_new".to_string()];
    let plan = service.prune_dag(10, &entries, &finalized, now);
    assert_eq!(plan.boundary, 8);
    assert_eq!(plan.keys_to_delete, vec![b"a".to_vec(), b"d".to_vec()]);
    let none = service.prune_dag(2, &entries, &finalized, now);
    assert_eq!(none.boundary, 0);
    assert!(none.keys_to_delete.is_empty());
    assert!(service.should_prune_transaction("fin_old", now - 30_000, &finalized, now));
    assert!(!service.should_prune_transaction("x", now + 5, &finalized, now));
}

#[test]
fn prune_stats_accumulate() {
    let mut service = DagPruningService::new(PruningConfig::default());
    assert_eq!(service.get_stats().nodes_pruned, 0);
    service.record_prune(40, 10, 2, 77);
    let s = service.record_prune(45, 5, 1, 99);
    assert_eq!(s.nodes_pruned, 15);
    assert_eq!(s.checkpoints_pruned, 3);
    assert_eq!(s.last_prune_time, 99);
    assert_eq!(s.oldest_retained_checkpoint, 45);
    assert_eq!(service.retention_checkpoints(), 50);
}

#[test]
fn window_keeps_the_last_min_k_m_hashes() {
    for (m, k) in [(3usize, 8usize), (4, 2), (0, 3), (5, 5)] {
        let mut window = InMemoryDagWindow::new(m);
        for i in 0..k {
            window.add(format!("h{}", i));
        }
        let kept = k.min(m);
        assert_eq!(window.len(), kept);
        assert_eq!(window.pruned_count(), (k - kept) as u64);
        assert_eq!(window.is_empty(), kept == 0);
        for i in 0..k {
            assert_eq!(window.contains(&format!("h{}", i)), i >= k - kept);
        }
    }
}
