use rinku_node::gather::{gather_eligible, PendingTx};

fn tx(n: u64, from: &str, nonce: u64, timestamp: u64, gas: Option<u64>) -> PendingTx {
    PendingTx {
        hash: format!("{:064x}", n),
        from: from.to_string(),
        nonce,
        timestamp,
        gas_price: gas,
        account_nonce: 0,
        fast_path_finalized: false,
    }
}

fn mempool() -> Vec<PendingTx> {
    let mut stale = tx(8, "erin", 1, 10, Some(99));
    stale.account_nonce = 3;
    let mut bad = tx(9, "frank", 0, 10, Some(99));
    bad.hash = "xyz".to_string();
    vec![
        tx(5, "bob", 8, 10, None),
        tx(1, "alice", 1, 10, Some(5)),
        tx(6, "carol", 0, 10, Some(10)),
        tx(3, "alice", 4, 10, Some(50)),
        tx(7, "dave", 0, 2000, Some(99)),
        tx(2, "alice", 2, 10, Some(1)),
        stale,
        bad,
        tx(4, "bob", 7, 10, Some(10)),
    ]
}

fn senders_and_nonces(txs: &[PendingTx], selected: &[usize]) -> Vec<(String, u64)> {
    selected.iter().map(|&i| (txs[i].from.clone(), txs[i].nonce)).collect()
}

fn pairs(v: &[(&str, u64)]) -> Vec<(String, u64)> {
    v.iter().map(|(s, n)| (s.to_string(), *n)).collect()
}

#[test]
fn all_eligible_transactions_fit_in_order() {
    let txs = mempool();
    let g = gather_eligible(&txs, 1000, 10);
    assert_eq!(g.eligible, 6);
    assert_eq!(
        senders_and_nonces(&txs, &g.selected),
        pairs(&[("alice", 1), ("alice", 2), ("alice", 4), ("bob", 7), ("bob", 8), ("carol", 0)])
    );
}

#[test]
fn congested_checkpoint_takes_best_gas_chains() {
    let txs = mempool();
    let g = gather_eligible(&txs, 1000, 3);
    assert_eq!(g.eligible, 6);
    assert_eq!(senders_and_nonces(&txs, &g.selected), pairs(&[("bob", 7), ("bob", 8), ("carol", 0)]));
    let g4 = gather_eligible(&txs, 1000, 4);
    assert_eq!(
        senders_and_nonces(&txs, &g4.selected),
        pairs(&[("alice", 1), ("bob", 7), ("bob", 8), ("carol", 0)])
    );
    let g1 = gather_eligible(&txs, 1000, 1);
    assert_eq!(senders_and_nonces(&txs, &g1.selected), pairs(&[("bob", 7)]));
}

#[test]
fn fast_path_finalized_repeats_stay_eligible() {
    let mut txs = mempool();
    txs[6].fast_path_finalized = true;
    let g = gather_eligible(&txs, 1000, 10);
    assert_eq!(g.eligible, 7);
    assert!(senders_and_nonces(&txs, &g.selected).contains(&("erin".to_string(), 1)));
    let late = gather_eligible(&txs, 5, 10);
    assert_eq!(late.eligible, 0);
    assert!(late.selected.is_empty());
}
