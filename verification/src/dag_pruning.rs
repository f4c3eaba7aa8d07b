//! DAG pruning: which checkpoints and transactions fall out of the retention
//! window, and a bounded in-memory window of recent DAG node hashes.

use vstd::prelude::*;
use std::collections::VecDeque;
use crate::hashing::str_eq;
use crate::erasure::views;

verus! {

pub const DEFAULT_RETENTION_CHECKPOINTS: u64 = 50;
pub const DEFAULT_MAX_DAG_NODES: usize = 100_000;
pub const PRUNING_BATCH_SIZE: usize = 1000;
/// Milliseconds per checkpoint, used to turn a retention into an age.
pub const MS_PER_CHECKPOINT: u64 = 10_000;
/// Unfinalized transactions are kept this many times longer than finalized ones.
pub const UNFINALIZED_RETENTION_FACTOR: u64 = 10;

#[derive(Clone, Copy, Debug)]
pub struct PruningConfig {
    pub retention_checkpoints: u64,
    pub max_dag_nodes: usize,
    pub prune_interval_secs: u64,
}

impl Default for PruningConfig {
    fn default() -> (c: Self)
        ensures
            c.retention_checkpoints == DEFAULT_RETENTION_CHECKPOINTS,
            c.max_dag_nodes == DEFAULT_MAX_DAG_NODES,
            c.prune_interval_secs == 300,
    {
        PruningConfig {
            retention_checkpoints: DEFAULT_RETENTION_CHECKPOINTS,
            max_dag_nodes: DEFAULT_MAX_DAG_NODES,
            prune_interval_secs: 300,
        }
    }
}

#[derive(Clone, Copy, Debug)]
pub struct PruningStats {
    pub last_prune_time: u64,
    pub nodes_pruned: u64,
    pub checkpoints_pruned: u64,
    pub bytes_freed: u64,
    pub oldest_retained_checkpoint: u64,
}

/// All counters at zero.
pub open spec fn zero_stats(s: PruningStats) -> bool {
    s.last_prune_time == 0 && s.nodes_pruned == 0 && s.checkpoints_pruned == 0 && s.bytes_freed == 0
        && s.oldest_retained_checkpoint == 0
}

impl Default for PruningStats {
    fn default() -> (s: Self)
        ensures
            zero_stats(s),
    {
        PruningStats {
            last_prune_time: 0,
            nodes_pruned: 0,
            checkpoints_pruned: 0,
            bytes_freed: 0,
            oldest_retained_checkpoint: 0,
        }
    }
}

/// What the pruning decision reads of a stored DAG node: its storage key,
/// its transaction hash and the transaction's timestamp in milliseconds.
#[derive(Clone, Debug)]
pub struct DagEntry {
    pub key: Vec<u8>,
    pub tx_hash: String,
    pub timestamp: u64,
}

/// What one pruning pass removes: DAG nodes by key, and every checkpoint
/// below `boundary`.
#[derive(Clone, Debug)]
pub struct PrunePlan {
    pub boundary: u64,
    pub keys_to_delete: Vec<Vec<u8>>,
}

/// The first checkpoint height kept once `current` is reached.
pub open spec fn prune_boundary(retention: u64, current: u64) -> u64 {
    if current <= retention { 0 } else { (current - retention) as u64 }
}

/// Whether a transaction of the given finality and timestamp is old enough
/// to drop at time `now_ms`: finalized ones after the retention window,
/// unfinalized ones only after ten times that.
pub open spec fn tx_prunable(retention: u64, finalized: bool, timestamp: u64, now_ms: u64) -> bool {
    let age: int = if now_ms >= timestamp { now_ms - timestamp } else { 0 };
    let retention_ms = retention * MS_PER_CHECKPOINT;
    if finalized { age > retention_ms } else { age > retention_ms * UNFINALIZED_RETENTION_FACTOR }
}

/// Whether `entry` is prunable given the finalized hashes.
pub open spec fn entry_prunable(retention: u64, entry: DagEntry, finalized: Seq<Seq<char>>, now_ms: u64) -> bool {
    tx_prunable(retention, finalized.contains(entry.tx_hash@), entry.timestamp, now_ms)
}

/// The keys of the prunable entries, in storage order.
pub open spec fn prunable_keys(retention: u64, entries: Seq<DagEntry>, finalized: Seq<Seq<char>>, now_ms: u64) -> Seq<Seq<u8>>
    decreases entries.len(),
{
    if entries.len() == 0 {
        Seq::empty()
    } else {
        let rest = prunable_keys(retention, entries.drop_last(), finalized, now_ms);
        let e = entries.last();
        if entry_prunable(retention, e, finalized, now_ms) { rest.push(e.key@) } else { rest }
    }
}

pub struct DagPruningService {
    config: PruningConfig,
    stats: PruningStats,
}

/// Whether `s` occurs among `hashes`.
fn contains_hash(hashes: &[String], s: &str) -> (found: bool)
    ensures
        found == views(hashes@).contains(s@),
{
    let mut i: usize = 0;
    while i < hashes.len()
        invariant
            i <= hashes@.len(),
            forall|k: int| 0 <= k < i ==> hashes@[k]@ != s@,
        decreases hashes@.len() - i,
    {
        if str_eq(hashes[i].as_str(), s) {
            proof { assert(views(hashes@)[i as int] == s@); }
            return true;
        }
        i = i + 1;
    }
    proof {
        if views(hashes@).contains(s@) {
            let k = choose|k: int| 0 <= k < views(hashes@).len() && views(hashes@)[k] == s@;
            assert(hashes@[k]@ == s@);
        }
    }
    false
}

impl DagPruningService {
    pub closed spec fn config(&self) -> PruningConfig {
        self.config
    }

    pub closed spec fn stats(&self) -> PruningStats {
        self.stats
    }

    pub fn new(config: PruningConfig) -> (s: Self)
        ensures
            s.config() == config,
            zero_stats(s.stats()),
    {
        DagPruningService { config, stats: PruningStats::default() }
    }

    pub fn should_prune(&self, current_checkpoint: u64) -> (b: bool)
        ensures
            b == (current_checkpoint > self.config().retention_checkpoints),
    {
        current_checkpoint > self.config.retention_checkpoints
    }

    pub fn calculate_prune_boundary(&self, current_checkpoint: u64) -> (b: u64)
        ensures
            b == prune_boundary(self.config().retention_checkpoints, current_checkpoint),
    {
        if current_checkpoint <= self.config.retention_checkpoints {
            0
        } else {
            current_checkpoint - self.config.retention_checkpoints
        }
    }

    /// Whether the transaction `tx_hash` stamped `tx_timestamp` may be dropped at `now_ms`.
    pub fn should_prune_transaction(
        &self,
        tx_hash: &str,
        tx_timestamp: u64,
        finalized_tx_hashes: &[String],
        now_ms: u64,
    ) -> (b: bool)
        requires
            self.config().retention_checkpoints * MS_PER_CHECKPOINT * UNFINALIZED_RETENTION_FACTOR <= u64::MAX,
        ensures
            b == tx_prunable(
                self.config().retention_checkpoints,
                views(finalized_tx_hashes@).contains(tx_hash@),
                tx_timestamp,
                now_ms,
            ),
    {
        let is_finalized = contains_hash(finalized_tx_hashes, tx_hash);
        let retention_ms = self.config.retention_checkpoints * MS_PER_CHECKPOINT;
        let max_unfinalized_age_ms = retention_ms * UNFINALIZED_RETENTION_FACTOR;
        let tx_age_ms = now_ms.saturating_sub(tx_timestamp);
        if is_finalized {
            tx_age_ms > retention_ms
        } else {
            tx_age_ms > max_unfinalized_age_ms
        }
    }

    /// Decides one pruning pass over the stored DAG: the boundary, and the
    /// keys of the nodes to delete (none when the boundary is 0).
    pub fn prune_dag(
        &self,
        current_checkpoint: u64,
        dag_entries: &[DagEntry],
        finalized_tx_hashes: &[String],
        now_ms: u64,
    ) -> (plan: PrunePlan)
        requires
            self.config().retention_checkpoints * MS_PER_CHECKPOINT * UNFINALIZED_RETENTION_FACTOR <= u64::MAX,
        ensures
            plan.boundary == prune_boundary(self.config().retention_checkpoints, current_checkpoint),
            plan.boundary == 0 ==> plan.keys_to_delete@.len() == 0,
            plan.boundary != 0 ==> plan.keys_to_delete@.map_values(|k: Vec<u8>| k@) == prunable_keys(
                self.config().retention_checkpoints,
                dag_entries@,
                views(finalized_tx_hashes@),
                now_ms,
            ),
    {
        let boundary = self.calculate_prune_boundary(current_checkpoint);
        let mut keys: Vec<Vec<u8>> = Vec::new();
        if boundary == 0 {
            return PrunePlan { boundary, keys_to_delete: keys };
        }
        let mut i: usize = 0;
        while i < dag_entries.len()
            invariant
                i <= dag_entries@.len(),
                self.config().retention_checkpoints * MS_PER_CHECKPOINT * UNFINALIZED_RETENTION_FACTOR <= u64::MAX,
                keys@.map_values(|k: Vec<u8>| k@) == prunable_keys(
                    self.config().retention_checkpoints,
                    dag_entries@.subrange(0, i as int),
                    views(finalized_tx_hashes@),
                    now_ms,
                ),
            decreases dag_entries@.len() - i,
        {
            let entry = &dag_entries[i];
            let ghost prev = dag_entries@.subrange(0, i as int);
            let ghost next = dag_entries@.subrange(0, i + 1);
            proof {
                assert(next.drop_last() =~= prev);
                assert(next.last() == dag_entries@[i as int]);
            }
            if self.should_prune_transaction(entry.tx_hash.as_str(), entry.timestamp, finalized_tx_hashes, now_ms) {
                let k = entry.key.clone();
                keys.push(k);
                proof {
                    assert(keys@.map_values(|k: Vec<u8>| k@) =~= prunable_keys(
                        self.config().retention_checkpoints, prev, views(finalized_tx_hashes@), now_ms,
                    ).push(entry.key@));
                }
            }
            i = i + 1;
        }
        proof {
            assert(dag_entries@.subrange(0, dag_entries@.len() as int) =~= dag_entries@);
        }
        PrunePlan { boundary, keys_to_delete: keys }
    }

    /// Records a completed pruning pass at `boundary` that removed
    /// `nodes_pruned` DAG nodes and `checkpoints_pruned` checkpoints.
    pub fn record_prune(&mut self, boundary: u64, nodes_pruned: u64, checkpoints_pruned: u64, now_secs: u64) -> (s: PruningStats)
        requires
            old(self).stats().nodes_pruned + nodes_pruned <= u64::MAX,
            old(self).stats().checkpoints_pruned + checkpoints_pruned <= u64::MAX,
        ensures
            final(self).config() == old(self).config(),
            s == final(self).stats(),
            s.last_prune_time == now_secs,
            s.nodes_pruned == old(self).stats().nodes_pruned + nodes_pruned,
            s.checkpoints_pruned == old(self).stats().checkpoints_pruned + checkpoints_pruned,
            s.bytes_freed == 0,
            s.oldest_retained_checkpoint == boundary,
    {
        self.stats = PruningStats {
            last_prune_time: now_secs,
            nodes_pruned: self.stats.nodes_pruned + nodes_pruned,
            checkpoints_pruned: self.stats.checkpoints_pruned + checkpoints_pruned,
            bytes_freed: 0,
            oldest_retained_checkpoint: boundary,
        };
        self.stats
    }

    pub fn get_stats(&self) -> (s: &PruningStats)
        ensures
            *s == self.stats(),
    {
        &self.stats
    }

    pub fn retention_checkpoints(&self) -> (r: u64)
        ensures
            r == self.config().retention_checkpoints,
    {
        self.config.retention_checkpoints
    }

    /// How many of the stored nodes one pruning pass at `current_checkpoint` would delete.
    pub fn estimate_prunable_nodes(
        &self,
        dag_entries: &[DagEntry],
        current_checkpoint: u64,
        finalized_tx_hashes: &[String],
        now_ms: u64,
    ) -> (n: usize)
        requires
            self.config().retention_checkpoints * MS_PER_CHECKPOINT * UNFINALIZED_RETENTION_FACTOR <= u64::MAX,
        ensures
            prune_boundary(self.config().retention_checkpoints, current_checkpoint) == 0 ==> n == 0,
            prune_boundary(self.config().retention_checkpoints, current_checkpoint) != 0 ==> n == prunable_keys(
                self.config().retention_checkpoints,
                dag_entries@,
                views(finalized_tx_hashes@),
                now_ms,
            ).len(),
    {
        let plan = self.prune_dag(current_checkpoint, dag_entries, finalized_tx_hashes, now_ms);
        plan.keys_to_delete.len()
    }
}

/// The ten most recent hashes, newest first (fewer when the window holds fewer).
pub open spec fn recent_tips(nodes: Seq<Seq<char>>) -> Seq<Seq<char>> {
    let n: int = if nodes.len() < 10 { nodes.len() as int } else { 10 };
    Seq::new(n as nat, |i: int| nodes[nodes.len() - 1 - i])
}

/// A window holding at most `max_size` of the most recently added DAG node hashes.
/// A window of at most `cap` hashes with `ev` evictions so far, after `h` is
/// added: appended, and the oldest evicted when that overflows the window.
pub open spec fn window_add(hs: Seq<Seq<char>>, ev: nat, cap: nat, h: Seq<char>) -> (Seq<Seq<char>>, nat) {
    if hs.len() < cap {
        (hs.push(h), ev)
    } else {
        (hs.push(h).drop_first(), ev + 1)
    }
}

/// The hashes and eviction count of a fresh window of capacity `cap` after
/// the hashes `added` were added in order.
pub open spec fn window_after(cap: nat, added: Seq<Seq<char>>) -> (Seq<Seq<char>>, nat)
    decreases added.len(),
{
    if added.len() == 0 {
        (Seq::empty(), 0)
    } else {
        let (hs, ev) = window_after(cap, added.drop_last());
        window_add(hs, ev, cap, added.last())
    }
}

/// Law: after `k` adds to a fresh window of capacity `cap`, it holds exactly
/// the last `min(k, cap)` hashes added, oldest first, and has evicted the
/// other `k - min(k, cap)`.
pub proof fn lemma_window_keeps_last(cap: nat, added: Seq<Seq<char>>)
    ensures
        ({
            let k = added.len();
            let kept = if k < cap { k } else { cap };
            window_after(cap, added) == (added.skip(k - kept), (k - kept) as nat)
        }),
    decreases added.len(),
{
    let k = added.len();
    if k == 0 {
        assert(added.skip(0) =~= Seq::<Seq<char>>::empty());
    } else {
        let prev = added.drop_last();
        lemma_window_keeps_last(cap, prev);
        let kp = prev.len();
        if kp < cap {
            assert(prev.skip(0) =~= prev);
            assert(prev.push(added.last()) =~= added);
            assert(added.skip(0) =~= added);
        } else {
            let hs = prev.skip(kp - cap);
            assert(hs.len() == cap);
            assert(hs.push(added.last()).drop_first() =~= added.skip(k - cap));
        }
    }
}

pub struct InMemoryDagWindow {
    nodes: VecDeque<String>,
    max_size: usize,
    pruned_count: u64,
}

impl InMemoryDagWindow {
    #[verifier::type_invariant]
    spec fn bounded(self) -> bool {
        self.nodes@.len() <= self.max_size
    }

    /// The hashes in the window, oldest first.
    pub closed spec fn hashes(&self) -> Seq<Seq<char>> {
        views(self.nodes@)
    }

    pub closed spec fn capacity(&self) -> usize {
        self.max_size
    }

    pub closed spec fn evictions(&self) -> u64 {
        self.pruned_count
    }

    pub fn new(max_size: usize) -> (w: Self)
        ensures
            w.hashes() == Seq::<Seq<char>>::empty(),
            w.capacity() == max_size,
            w.evictions() == 0,
            (w.hashes(), w.evictions() as nat) == window_after(max_size as nat, Seq::empty()),
    {
        let w = InMemoryDagWindow { nodes: VecDeque::new(), max_size, pruned_count: 0 };
        proof { assert(views(w.nodes@) =~= Seq::<Seq<char>>::empty()); }
        w
    }

    /// Appends `hash`; when that overflows the window, the oldest hash is
    /// evicted and returned.
    pub fn add(&mut self, hash: String) -> (evicted: Option<String>)
        requires
            old(self).evictions() < u64::MAX,
        ensures
            final(self).capacity() == old(self).capacity(),
            final(self).hashes().len() <= final(self).capacity(),
            (final(self).hashes(), final(self).evictions() as nat) == window_add(
                old(self).hashes(),
                old(self).evictions() as nat,
                old(self).capacity() as nat,
                hash@,
            ),
            old(self).hashes().len() < old(self).capacity() ==> {
                &&& final(self).hashes() == old(self).hashes().push(hash@)
                &&& evicted is None
                &&& final(self).evictions() == old(self).evictions()
            },
            old(self).hashes().len() >= old(self).capacity() ==> {
                &&& final(self).hashes() == old(self).hashes().push(hash@).drop_first()
                &&& evicted matches Some(e) && e@ == old(self).hashes().push(hash@)[0]
                &&& final(self).evictions() == old(self).evictions() + 1
            },
    {
        proof { use_type_invariant(&*self); }
        let ghost before = views(self.nodes@);
        let mut nodes: VecDeque<String> = VecDeque::new();
        std::mem::swap(&mut nodes, &mut self.nodes);
        nodes.push_back(hash);
        if nodes.len() > self.max_size {
            let e = nodes.pop_front();
            proof {
                assert(views(nodes@) =~= before.push(hash@).drop_first());
            }
            self.nodes = nodes;
            self.pruned_count = self.pruned_count + 1;
            e
        } else {
            proof {
                assert(views(nodes@) =~= before.push(hash@));
            }
            self.nodes = nodes;
            None
        }
    }

    pub fn contains(&self, hash: &str) -> (b: bool)
        ensures
            b == self.hashes().contains(hash@),
    {
        let mut i: usize = 0;
        while i < self.nodes.len()
            invariant
                i <= self.nodes@.len(),
                forall|k: int| 0 <= k < i ==> self.nodes@[k]@ != hash@,
            decreases self.nodes@.len() - i,
        {
            if str_eq(self.nodes[i].as_str(), hash) {
                proof { assert(self.hashes()[i as int] == hash@); }
                return true;
            }
            i = i + 1;
        }
        proof {
            if self.hashes().contains(hash@) {
                let k = choose|k: int| 0 <= k < self.hashes().len() && self.hashes()[k] == hash@;
                assert(self.nodes@[k]@ == hash@);
            }
        }
        false
    }

    pub fn len(&self) -> (n: usize)
        ensures
            n == self.hashes().len(),
    {
        self.nodes.len()
    }

    pub fn is_empty(&self) -> (b: bool)
        ensures
            b == (self.hashes().len() == 0),
    {
        self.nodes.len() == 0
    }

    pub fn pruned_count(&self) -> (n: u64)
        ensures
            n == self.evictions(),
    {
        self.pruned_count
    }

    /// The ten most recently added hashes, newest first.
    pub fn tips(&self) -> (t: Vec<String>)
        ensures
            views(t@) == recent_tips(self.hashes()),
    {
        let n = self.nodes.len();
        let take: usize = if n < 10 { n } else { 10 };
        let mut out: Vec<String> = Vec::new();
        let mut i: usize = 0;
        while i < take
            invariant
                n == self.nodes@.len(),
                take <= n,
                take == (if n < 10 { n } else { 10 }),
                i <= take,
                out@.len() == i,
                forall|k: int| 0 <= k < i ==> #[trigger] out@[k]@ == self.nodes@[n - 1 - k]@,
            decreases take - i,
        {
            out.push(self.nodes[n - 1 - i].clone());
            i = i + 1;
        }
        proof {
            assert(views(out@) =~= recent_tips(self.hashes()));
        }
        out
    }
}

} // verus!
