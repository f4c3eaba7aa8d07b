//! Load-generation bookkeeping for throughput benchmarks: configuration,
//! a transaction generator with increasing nonces, latency samples and
//! success/error/throughput counters, and the hash tree that the Merkle
//! benchmark builds.

use vstd::prelude::*;
use crate::checkpoint::{ascending, lemma_ascending_unique, sort_ascending};
use crate::hashing::{push_bytes, sha256_digest, sha256_spec};

verus! {

/// How a benchmark run is set up.
#[derive(Clone, Copy, Debug)]
pub struct BenchmarkConfig {
    pub tx_count: u64,
    pub workers: usize,
    pub use_batch: bool,
    pub batch_size: usize,
    pub warmup_count: u64,
    pub target_tps: u64,
}

impl Default for BenchmarkConfig {
    fn default() -> (c: Self)
        ensures
            c.tx_count == 10000,
            c.workers == 4,
            c.use_batch,
            c.batch_size == 100,
            c.warmup_count == 100,
            c.target_tps == 0,
    {
        BenchmarkConfig {
            tx_count: 10000,
            workers: 4,
            use_batch: true,
            batch_size: 100,
            warmup_count: 100,
            target_tps: 0,
        }
    }
}

/// The part of the configuration that results report.
#[derive(Clone, Copy, Debug)]
pub struct BenchmarkConfigSummary {
    pub tx_count: u64,
    pub workers: usize,
    pub use_batch: bool,
    pub batch_size: usize,
}

impl BenchmarkConfig {
    /// The reported part of this configuration.
    pub fn summary(&self) -> (s: BenchmarkConfigSummary)
        ensures
            s.tx_count == self.tx_count,
            s.workers == self.workers,
            s.use_batch == self.use_batch,
            s.batch_size == self.batch_size,
    {
        BenchmarkConfigSummary {
            tx_count: self.tx_count,
            workers: self.workers,
            use_batch: self.use_batch,
            batch_size: self.batch_size,
        }
    }
}

/// Latency samples, in microseconds, in the order recorded.
pub struct LatencyTracker {
    latencies: Vec<u64>,
}

impl LatencyTracker {
    /// The samples recorded so far.
    pub closed spec fn samples(&self) -> Seq<u64> {
        self.latencies@
    }

    /// No samples.
    pub fn new() -> (t: Self)
        ensures
            t.samples() == Seq::<u64>::empty(),
    {
        LatencyTracker { latencies: Vec::new() }
    }

    /// Records one sample.
    pub fn record(&mut self, latency_us: u64)
        ensures
            final(self).samples() == old(self).samples().push(latency_us),
    {
        self.latencies.push(latency_us);
    }

    /// The samples recorded so far.
    pub fn latencies(&self) -> (v: &[u64])
        ensures
            v@ == self.samples(),
    {
        self.latencies.as_slice()
    }
}

/// Order statistics of latency samples.
#[derive(Clone, Copy, Debug)]
pub struct LatencySummary {
    pub p50: u64,
    pub p95: u64,
    pub p99: u64,
    pub min: u64,
    pub max: u64,
    pub count: u64,
}

/// The sample of the ascending, nonempty samples `p` at `pct` percent:
/// position `len * pct / 100`, at most the last.
pub open spec fn percentile_of(p: Seq<u64>, pct: int) -> u64 {
    let i = p.len() * pct / 100;
    p[if i < p.len() - 1 { i } else { p.len() - 1 }]
}

/// `s` summarizes the ascending, nonempty samples `p`.
pub open spec fn summarizes(s: LatencySummary, p: Seq<u64>) -> bool {
    &&& s.p50 == p[p.len() as int / 2]
    &&& s.p95 == percentile_of(p, 95)
    &&& s.p99 == percentile_of(p, 99)
    &&& s.min == p[0]
    &&& s.max == p[p.len() - 1]
    &&& s.count == p.len()
}

impl LatencyTracker {
    /// The order statistics of the samples, or nothing without samples.
    pub fn summary(&self) -> (r: Option<LatencySummary>)
        ensures
            self.samples().len() == 0 ==> r is None,
            self.samples().len() > 0 ==> r is Some,
            exists|p: Seq<u64>| p.to_multiset() == self.samples().to_multiset() && ascending(p),
            forall|p: Seq<u64>|
                p.to_multiset() == self.samples().to_multiset() && ascending(p) ==> match r {
                    Some(s) => summarizes(s, p),
                    None => true,
                },
    {
        let sorted = sort_ascending(self.latencies.as_slice());
        proof {
            assert forall|p: Seq<u64>| p.to_multiset() == self.samples().to_multiset() && ascending(p) implies p
                == sorted@ by {
                lemma_ascending_unique(p, sorted@);
            }
            vstd::seq_lib::to_multiset_len(sorted@);
            vstd::seq_lib::to_multiset_len(self.samples());
        }
        let len = sorted.len();
        if len == 0 {
            return None;
        }
        let i95 = ((len as u128) * 95 / 100) as usize;
        let i99 = ((len as u128) * 99 / 100) as usize;
        let p95 = if i95 < len - 1 { sorted[i95] } else { sorted[len - 1] };
        let p99 = if i99 < len - 1 { sorted[i99] } else { sorted[len - 1] };
        Some(LatencySummary {
            p50: sorted[len / 2],
            p95,
            p99,
            min: sorted[0],
            max: sorted[len - 1],
            count: len as u64,
        })
    }
}

impl Default for LatencyTracker {
    fn default() -> (t: Self)
        ensures
            t.samples() == Seq::<u64>::empty(),
    {
        LatencyTracker::new()
    }
}

#[verifier::external_type_specification]
#[verifier::external_body]
pub struct ExInstant(std::time::Instant);

/// The current time, through `std::time::Instant::now`.
#[verifier::external_body]
fn instant_now() -> (t: std::time::Instant) {
    std::time::Instant::now()
}

/// Time since `t`, through `Instant::elapsed`.
#[verifier::external_body]
fn instant_elapsed(t: &std::time::Instant) -> (d: core::time::Duration) {
    t.elapsed()
}

/// Counts transactions from a start time (counts wrap at 2^64).
pub struct ThroughputMeter {
    start_time: std::time::Instant,
    tx_count: u64,
    last_report_time: std::time::Instant,
    last_report_count: u64,
}

impl ThroughputMeter {
    /// Transactions counted so far.
    pub closed spec fn count(&self) -> u64 {
        self.tx_count
    }

    /// The count at the last throughput report.
    pub closed spec fn reported(&self) -> u64 {
        self.last_report_count
    }

    /// When counting started.
    pub closed spec fn started(&self) -> std::time::Instant {
        self.start_time
    }

    /// When the last report interval started.
    pub closed spec fn report_started(&self) -> std::time::Instant {
        self.last_report_time
    }

    /// Starts counting now: the first report interval starts at the same
    /// instant as the count.
    pub fn new() -> (m: Self)
        ensures
            m.count() == 0,
            m.reported() == 0,
            m.report_started() == m.started(),
    {
        let now = instant_now();
        ThroughputMeter {
            start_time: now,
            tx_count: 0,
            last_report_time: now,
            last_report_count: 0,
        }
    }

    /// Counts `count` more transactions.
    pub fn record_tx(&mut self, count: u64)
        ensures
            final(self).count() == old(self).count().wrapping_add(count),
            final(self).reported() == old(self).reported(),
    {
        self.tx_count = self.tx_count.wrapping_add(count);
    }

    /// Transactions counted so far.
    pub fn total_count(&self) -> (n: u64)
        ensures
            n == self.count(),
    {
        self.tx_count
    }

    /// Time since counting started.
    pub fn elapsed(&self) -> core::time::Duration {
        instant_elapsed(&self.start_time)
    }

    /// Time since the last throughput report.
    pub fn since_last_report(&self) -> core::time::Duration {
        instant_elapsed(&self.last_report_time)
    }

    /// The count at the last throughput report.
    pub fn last_report_count(&self) -> (n: u64)
        ensures
            n == self.reported(),
    {
        self.last_report_count
    }

    /// Starts a new report interval now, at the current count.
    pub fn mark_report(&mut self)
        ensures
            final(self).count() == old(self).count(),
            final(self).reported() == old(self).count(),
            final(self).started() == old(self).started(),
    {
        self.last_report_time = instant_now();
        self.last_report_count = self.tx_count;
    }
}

impl Default for ThroughputMeter {
    fn default() -> (m: Self)
        ensures
            m.count() == 0,
    {
        ThroughputMeter::new()
    }
}

/// A transfer used as benchmark load.
#[derive(Clone, Debug)]
pub struct TestTransaction {
    pub from: String,
    pub to: String,
    pub amount: u64,
    pub nonce: u64,
    pub gas_limit: u64,
}

/// Amount of every generated transfer.
pub const TEST_TX_AMOUNT: u64 = 100000;

/// Gas limit of every generated transfer.
pub const TEST_TX_GAS_LIMIT: u64 = 21000;

/// Generates transfers between two addresses with nonces 0, 1, 2, ...
pub struct TxGenerator {
    counter: u64,
    from_address: String,
    to_address: String,
}

impl TxGenerator {
    /// The nonce of the next transaction.
    pub closed spec fn next_nonce(&self) -> u64 {
        self.counter
    }

    /// The sender of every transaction.
    pub closed spec fn from(&self) -> Seq<char> {
        self.from_address@
    }

    /// The recipient of every transaction.
    pub closed spec fn to(&self) -> Seq<char> {
        self.to_address@
    }

    /// A generator whose first nonce is zero.
    pub fn new(from: &str, to: &str) -> (g: Self)
        ensures
            g.next_nonce() == 0,
            g.from() == from@,
            g.to() == to@,
    {
        TxGenerator { counter: 0, from_address: from.to_owned(), to_address: to.to_owned() }
    }

    /// The next transfer; nonces wrap at 2^64.
    pub fn next_tx(&mut self) -> (tx: TestTransaction)
        ensures
            tx.nonce == old(self).next_nonce(),
            tx.from@ == old(self).from(),
            tx.to@ == old(self).to(),
            tx.amount == TEST_TX_AMOUNT,
            tx.gas_limit == TEST_TX_GAS_LIMIT,
            final(self).next_nonce() == old(self).next_nonce().wrapping_add(1),
            final(self).from() == old(self).from(),
            final(self).to() == old(self).to(),
    {
        let nonce = self.counter;
        self.counter = self.counter.wrapping_add(1);
        TestTransaction {
            from: self.from_address.clone(),
            to: self.to_address.clone(),
            amount: TEST_TX_AMOUNT,
            nonce,
            gas_limit: TEST_TX_GAS_LIMIT,
        }
    }

    /// The next `size` transfers, in order.
    pub fn next_batch(&mut self, size: usize) -> (batch: Vec<TestTransaction>)
        requires
            old(self).next_nonce() + size <= u64::MAX,
        ensures
            batch@.len() == size,
            forall|i: int|
                0 <= i < size ==> (#[trigger] batch@[i]).nonce == old(self).next_nonce() + i
                    && batch@[i].from@ == old(self).from() && batch@[i].to@ == old(self).to()
                    && batch@[i].amount == TEST_TX_AMOUNT && batch@[i].gas_limit
                    == TEST_TX_GAS_LIMIT,
            final(self).next_nonce() == old(self).next_nonce() + size,
            final(self).from() == old(self).from(),
            final(self).to() == old(self).to(),
    {
        let mut batch: Vec<TestTransaction> = Vec::new();
        let mut i: usize = 0;
        while i < size
            invariant
                i <= size,
                batch@.len() == i,
                self.next_nonce() == old(self).next_nonce() + i,
                old(self).next_nonce() + size <= u64::MAX,
                self.from() == old(self).from(),
                self.to() == old(self).to(),
                forall|j: int|
                    0 <= j < i ==> (#[trigger] batch@[j]).nonce == old(self).next_nonce() + j
                        && batch@[j].from@ == old(self).from() && batch@[j].to@ == old(self).to()
                        && batch@[j].amount == TEST_TX_AMOUNT && batch@[j].gas_limit
                        == TEST_TX_GAS_LIMIT,
            decreases size - i,
        {
            let tx = self.next_tx();
            batch.push(tx);
            i = i + 1;
        }
        batch
    }
}

/// Collects the outcome of a benchmark run.
pub struct BenchmarkRunner {
    config: BenchmarkConfig,
    latency_tracker: LatencyTracker,
    throughput_meter: ThroughputMeter,
    success_count: u64,
    error_count: u64,
}

impl BenchmarkRunner {
    /// Latency samples recorded so far.
    pub closed spec fn samples(&self) -> Seq<u64> {
        self.latency_tracker.samples()
    }

    /// Successful transactions (wrapping at 2^64).
    pub closed spec fn successes(&self) -> u64 {
        self.success_count
    }

    /// Failed transactions (wrapping at 2^64).
    pub closed spec fn errors(&self) -> u64 {
        self.error_count
    }

    /// Transactions counted by the throughput meter.
    pub closed spec fn counted(&self) -> u64 {
        self.throughput_meter.count()
    }

    /// The throughput meter's count at its last report.
    pub closed spec fn reported(&self) -> u64 {
        self.throughput_meter.reported()
    }

    /// The configuration of the run.
    pub closed spec fn config_spec(&self) -> BenchmarkConfig {
        self.config
    }

    /// A run with nothing recorded yet.
    pub fn new(config: BenchmarkConfig) -> (r: Self)
        ensures
            r.samples() == Seq::<u64>::empty(),
            r.successes() == 0,
            r.errors() == 0,
            r.counted() == 0,
            r.config_spec() == config,
    {
        BenchmarkRunner {
            config,
            latency_tracker: LatencyTracker::new(),
            throughput_meter: ThroughputMeter::new(),
            success_count: 0,
            error_count: 0,
        }
    }

    /// One successful transaction that took `latency_us`.
    pub fn record_success(&mut self, latency_us: u64)
        ensures
            final(self).samples() == old(self).samples().push(latency_us),
            final(self).counted() == old(self).counted().wrapping_add(1),
            final(self).successes() == old(self).successes().wrapping_add(1),
            final(self).errors() == old(self).errors(),
            final(self).config_spec() == old(self).config_spec(),
    {
        self.latency_tracker.record(latency_us);
        self.throughput_meter.record_tx(1);
        self.success_count = self.success_count.wrapping_add(1);
    }

    /// `count` successful transactions that took `total_latency_us` together:
    /// each is recorded with the average (integer) latency.
    pub fn record_batch_success(&mut self, count: u64, total_latency_us: u64)
        requires
            old(self).samples().len() + count <= usize::MAX,
        ensures
            final(self).samples() == old(self).samples() + Seq::new(
                count as nat,
                |i: int| (total_latency_us / (if count > 0 { count } else { 1 })) as u64,
            ),
            final(self).counted() == old(self).counted().wrapping_add(count),
            final(self).successes() == old(self).successes().wrapping_add(count),
            final(self).errors() == old(self).errors(),
            final(self).config_spec() == old(self).config_spec(),
    {
        let divisor = if count > 0 { count } else { 1 };
        let avg_latency = total_latency_us / divisor;
        let ghost start = self.latency_tracker.samples();
        let mut i: u64 = 0;
        while i < count
            invariant
                i <= count,
                self.latency_tracker.samples() == start + Seq::new(i as nat, |j: int| avg_latency),
                self.throughput_meter.count() == old(self).counted(),
                self.success_count == old(self).successes(),
                self.error_count == old(self).errors(),
                self.config == old(self).config_spec(),
            decreases count - i,
        {
            self.latency_tracker.record(avg_latency);
            i = i + 1;
            assert(self.latency_tracker.samples() =~= start + Seq::new(i as nat, |j: int| avg_latency));
        }
        self.throughput_meter.record_tx(count);
        self.success_count = self.success_count.wrapping_add(count);
        assert(self.latency_tracker.samples() =~= start + Seq::new(
            count as nat,
            |i: int| (total_latency_us / (if count > 0 { count } else { 1 })) as u64,
        ));
    }

    /// One failed transaction.
    pub fn record_error(&mut self)
        ensures
            final(self).errors() == old(self).errors().wrapping_add(1),
            final(self).samples() == old(self).samples(),
            final(self).successes() == old(self).successes(),
            final(self).counted() == old(self).counted(),
            final(self).config_spec() == old(self).config_spec(),
    {
        self.error_count = self.error_count.wrapping_add(1);
    }

    /// Successful transactions.
    pub fn success_count(&self) -> (n: u64)
        ensures
            n == self.successes(),
    {
        self.success_count
    }

    /// Failed transactions.
    pub fn error_count(&self) -> (n: u64)
        ensures
            n == self.errors(),
    {
        self.error_count
    }

    /// The configuration of the run.
    pub fn config(&self) -> (c: &BenchmarkConfig)
        ensures
            *c == self.config_spec(),
    {
        &self.config
    }

    /// The latency samples.
    pub fn latency_tracker(&self) -> (t: &LatencyTracker)
        ensures
            t.samples() == self.samples(),
    {
        &self.latency_tracker
    }

    /// The throughput meter.
    pub fn throughput_meter(&self) -> (m: &ThroughputMeter)
        ensures
            m.count() == self.counted(),
    {
        &self.throughput_meter
    }

    /// Starts a new throughput report interval now, at the current count.
    pub fn mark_report(&mut self)
        ensures
            final(self).reported() == old(self).counted(),
            final(self).counted() == old(self).counted(),
            final(self).samples() == old(self).samples(),
            final(self).successes() == old(self).successes(),
            final(self).errors() == old(self).errors(),
            final(self).config_spec() == old(self).config_spec(),
    {
        self.throughput_meter.mark_report();
    }
}

/// One level up the benchmark's hash tree: SHA-256 of each pair of
/// neighbours, a last node without a partner paired with itself.
pub open spec fn next_tree_level(level: Seq<Seq<u8>>) -> Seq<Seq<u8>> {
    Seq::new(
        ((level.len() + 1) / 2) as nat,
        |i: int| sha256_spec(level[2 * i] + if 2 * i + 1 < level.len() { level[2 * i + 1] } else { level[2 * i] }),
    )
}

/// The top of the benchmark's hash tree over `level`: the root alone, or
/// nothing for no leaves.
pub open spec fn tree_top(level: Seq<Seq<u8>>) -> Seq<Seq<u8>>
    decreases level.len(),
{
    if level.len() <= 1 {
        level
    } else {
        tree_top(next_tree_level(level))
    }
}

/// The byte strings of a list of buffers.
pub open spec fn byte_views(v: Seq<Vec<u8>>) -> Seq<Seq<u8>> {
    v.map_values(|b: Vec<u8>| b@)
}

/// Builds the benchmark's hash tree over `leaves`, level by level, and
/// returns its top.
pub fn build_hash_tree(leaves: &Vec<Vec<u8>>) -> (top: Vec<Vec<u8>>)
    ensures
        byte_views(top@) == tree_top(byte_views(leaves@)),
{
    let mut level: Vec<Vec<u8>> = leaves.clone();
    proof {
        assert(byte_views(level@) =~= byte_views(leaves@)) by {
            assert forall|i: int| 0 <= i < level@.len() implies level@[i]@ == leaves@[i]@ by {
                assert(vstd::pervasive::cloned::<Vec<u8>>(leaves@[i], level@[i]));
            }
        }
    }
    while level.len() > 1
        invariant
            tree_top(byte_views(level@)) == tree_top(byte_views(leaves@)),
        decreases level@.len(),
    {
        let ghost cur = byte_views(level@);
        let mut next: Vec<Vec<u8>> = Vec::new();
        let mut i: usize = 0;
        let half = level.len() / 2 + level.len() % 2;
        while i < half
            invariant
                half == (level@.len() + 1) / 2,
                cur == byte_views(level@),
                i <= half,
                byte_views(next@) == next_tree_level(cur).take(i as int),
            decreases half - i,
        {
            let n = level.len();
            assert(i + i < n) by (nonlinear_arith)
                requires
                    i < half,
                    half == (n + 1) / 2,
            ;
            let j: usize = i + i;
            let mut data: Vec<u8> = Vec::new();
            assert(data@ =~= Seq::<u8>::empty());
            push_bytes(&mut data, level[j].as_slice());
            if j + 1 < n {
                push_bytes(&mut data, level[j + 1].as_slice());
            } else {
                push_bytes(&mut data, level[j].as_slice());
            }
            let h = sha256_digest(data.as_slice());
            let ghost before = byte_views(next@);
            next.push(h);
            proof {
                assert(cur.len() == n);
                assert(cur[j as int] == level@[j as int]@);
                if j + 1 < n {
                    assert(cur[j + 1] == level@[j + 1]@);
                    assert(data@ =~= cur[j as int] + cur[j + 1]);
                } else {
                    assert(data@ =~= cur[j as int] + cur[j as int]);
                }
                assert(next_tree_level(cur)[i as int] == h@);
                assert(byte_views(next@) =~= before.push(h@));
                assert(next_tree_level(cur).take(i + 1) =~= next_tree_level(cur).take(i as int).push(h@));
            }
            i = i + 1;
        }
        proof {
            assert(next_tree_level(cur).take(half as int) =~= next_tree_level(cur));
        }
        level = next;
    }
    level
}

} // verus!
