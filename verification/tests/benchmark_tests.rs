use rinku_node::benchmark::{
    build_hash_tree, BenchmarkConfig, BenchmarkRunner, LatencyTracker, ThroughputMeter, TxGenerator,
};
use sha2::Digest;

#[test]
fn test_tx_generator() {
    let mut gen = TxGenerator::new("from_addr", "to_addr");

    let tx1 = gen.next_tx();
    let tx2 = gen.next_tx();

    assert_eq!(tx1.nonce, 0);
    assert_eq!(tx2.nonce, 1);
    assert_eq!(tx1.from, "from_addr");
}

#[test]
fn tx_batches_continue_nonces() {
    let mut gen = TxGenerator::new("a", "b");
    gen.next_tx();
    let batch = gen.next_batch(3);
    let nonces: Vec<u64> = batch.iter().map(|t| t.nonce).collect();
    assert_eq!(nonces, vec![1, 2, 3]);
    assert!(batch.iter().all(|t| t.to == "b" && t.amount == 100_000 && t.gas_limit == 21_000));
    assert_eq!(gen.next_tx().nonce, 4);
}

#[test]
fn latency_and_throughput_counters() {
    let mut tracker = LatencyTracker::new();
    for i in 1..=100 {
        tracker.record(i);
    }
    assert_eq!(tracker.latencies().len(), 100);
    assert_eq!(tracker.latencies()[99], 100);

    let mut meter = ThroughputMeter::new();
    meter.record_tx(100);
    meter.record_tx(200);
    assert_eq!(meter.total_count(), 300);
    meter.mark_report();
    assert_eq!(meter.last_report_count(), 300);
}

#[test]
fn runner_records_outcomes() {
    let config = BenchmarkConfig { tx_count: 100, workers: 2, ..Default::default() };
    let mut runner = BenchmarkRunner::new(config);
    for i in 0..100 {
        runner.record_success((i + 1) * 10);
    }
    runner.record_batch_success(4, 10);
    runner.record_batch_success(0, 10);
    runner.record_error();
    assert_eq!(runner.success_count(), 104);
    assert_eq!(runner.error_count(), 1);
    assert_eq!(runner.throughput_meter().total_count(), 104);
    let samples = runner.latency_tracker().latencies();
    assert_eq!(samples.len(), 104);
    assert_eq!(&samples[100..], &[2, 2, 2, 2]);
    assert_eq!(runner.config().batch_size, 100);
    assert_eq!(runner.config().summary().workers, 2);
}

#[test]
fn hash_tree_pairs_neighbours_and_repeats_the_odd_one() {
    let leaf = |s: &str| sha2::Sha256::digest(s.as_bytes()).to_vec();
    let pair = |a: &[u8], b: &[u8]| {
        let mut h = sha2::Sha256::new();
        h.update(a);
        h.update(b);
        h.finalize().to_vec()
    };
    let (a, b, c) = (leaf("leaf_0"), leaf("leaf_1"), leaf("leaf_2"));
    let top = build_hash_tree(&vec![a.clone(), b.clone(), c.clone()]);
    assert_eq!(top, vec![pair(&pair(&a, &b), &pair(&c, &c))]);
    assert_eq!(build_hash_tree(&vec![a.clone()]), vec![a.clone()]);
    assert!(build_hash_tree(&vec![]).is_empty());
}

#[test]
fn test_latency_tracker() {
    let mut tracker = LatencyTracker::new();

    for i in 1..=100 {
        tracker.record(i);
    }

    let stats = tracker.summary().unwrap();
    let avg = tracker.latencies().iter().sum::<u64>() as f64 / stats.count as f64;
    assert_eq!(stats.count, 100);
    assert!(avg > 0.0);
    assert!(stats.p50 > 0);
    assert!(stats.p95 > stats.p50);
    assert!(stats.p99 >= stats.p95);
}

#[test]
fn latency_summary_picks_ranked_samples() {
    let mut tracker = LatencyTracker::new();
    assert!(tracker.summary().is_none());
    for x in [50, 10, 40, 20, 30] {
        tracker.record(x);
    }
    let s = tracker.summary().unwrap();
    assert_eq!((s.p50, s.p95, s.p99, s.min, s.max, s.count), (30, 50, 50, 10, 50, 5));
    let mut many = LatencyTracker::new();
    for x in (1..=200).rev() {
        many.record(x);
    }
    let m = many.summary().unwrap();
    assert_eq!((m.p50, m.p95, m.p99, m.min, m.max, m.count), (101, 191, 199, 1, 200, 200));
}

#[test]
fn test_throughput_meter() {
    let mut meter = ThroughputMeter::new();

    meter.record_tx(100);
    meter.record_tx(200);

    assert_eq!(meter.total_count(), 300);
    let secs = meter.elapsed().as_secs_f64();
    let overall_tps = if secs > 0.0 { meter.total_count() as f64 / secs } else { 0.0 };
    assert!(overall_tps > 0.0);
}
