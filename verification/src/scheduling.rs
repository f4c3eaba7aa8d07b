//! Scheduling decisions of the checkpoint service, as functions from the
//! service's counters and what a tick observed to the next counters and what
//! to do: when a tick proposes, waits, yields or fetches the checkpoints it
//! is missing from peers; what a finished or overdue certificate collection
//! leads to; where a fetched checkpoint goes; how long the service sleeps
//! between ticks and when it prunes.

use vstd::prelude::*;
use crate::checkpoint::{in_proposal_cooldown, MIN_INTER_CHECKPOINT_MS};

verus! {

/// Consecutive failed certificate collections after which the proposer
/// yields its height.
pub const QCC_SELF_YIELD_THRESHOLD: u32 = 2;

/// Longest a certificate collection may run, in milliseconds.
pub const QCC_TIMEOUT_MS: u64 = 8000;

/// Ticks one height behind after which a leader-timeout quorum lets the node
/// produce as a backup.
pub const GAP_ONE_FALLBACK_TICKS: u32 = 3;

/// Longest a proposer stays yielded at one height, in milliseconds.
pub const FAST_PATH_YIELD_MAX_MS: u64 = 3000;

/// Delta-fetch timeouts: one height behind, more than one, and stuck for
/// three ticks or more.
pub const SHORT_FETCH_TIMEOUT_MS: u64 = 500;

pub const LONG_FETCH_TIMEOUT_MS: u64 = 1500;

pub const STUCK_FETCH_TIMEOUT_MS: u64 = 2500;

/// Produced checkpoints between two prunings of the stored DAG.
pub const PRUNE_EVERY_N_CHECKPOINTS: u64 = 10;

/// Height the chain must pass before the stored DAG is pruned.
pub const PRUNE_MIN_HEIGHT: u64 = 50;

/// Checkpoints of finalized nodes kept in memory.
pub const IN_MEMORY_RETENTION: u64 = 10;

/// Period at which the service looks for a finished certificate collection
/// or delta fetch between two ticks, in milliseconds.
pub const QCC_POLL_MS: u64 = 50;

/// A tick counter after one more tick; the counter wraps as a machine word.
pub open spec fn bumped(n: u32) -> u32 {
    if n < u32::MAX {
        (n + 1) as u32
    } else {
        0
    }
}

fn bump(n: u32) -> (r: u32)
    ensures
        r == bumped(n),
{
    if n < u32::MAX {
        n + 1
    } else {
        0
    }
}

/// What the checkpoint service carries from one tick to the next.
#[derive(Clone, Copy, Debug, PartialEq, Eq)]
pub struct SnapshotState {
    /// When this node last proposed, in milliseconds (0 for never).
    pub last_own_proposal_ms: u64,
    /// Consecutive ticks on which this node, elected leader, yielded because
    /// it was behind.
    pub behind_yields: u32,
    /// Consecutive ticks exactly one height behind the network.
    pub gap_one_ticks: u32,
    /// Consecutive ticks at the same next height.
    pub stuck_iterations: u32,
    /// The next height seen on the last tick.
    pub last_seen_height: u64,
    /// Consecutive failed certificate collections at `qcc_failure_height`.
    pub qcc_failures: u32,
    pub qcc_failure_height: u64,
    /// Height at which this node yielded as proposer (0 for none), and when.
    pub yielded_height: u64,
    pub yield_start_ms: Option<u64>,
}

/// What a tick observed before deciding.
#[derive(Clone, Copy, Debug, PartialEq, Eq)]
pub struct SnapshotInputs {
    /// The clock, in milliseconds.
    pub now_ms: u64,
    /// This node's checkpoint height when the tick began; the tick works on
    /// the height after it.
    pub tick_height: u64,
    /// This node's checkpoint height after draining buffered checkpoints,
    /// which the behind-peers check compares with the network.
    pub local_height: u64,
    /// The height the network is taken to be at, where known.
    pub network_height: Option<u64>,
    /// Whether this node is the elected leader of the next height.
    pub is_leader: bool,
    /// Whether this node is to propose the next height.
    pub is_proposer: bool,
    /// Whether a delta fetch is in flight.
    pub delta_sync_pending: bool,
    /// Whether a leader-timeout quorum exists for the next height.
    pub leader_timeout_quorum: bool,
    /// Unfinalized transactions in the DAG.
    pub unfinalized: usize,
}

/// How a tick ends.
#[derive(Clone, Copy, Debug, PartialEq, Eq, Structural)]
pub enum SnapshotOutcome {
    /// Too soon after this node's own proposal.
    Cooldown,
    /// Waiting: for a delta fetch, for peers, or out a yield.
    Wait,
    /// Go on to propose the next height.
    Propose,
    /// Go on as a backup of the proposer.
    Follow,
}

/// What a tick does.
#[derive(Clone, Copy, Debug, PartialEq, Eq)]
pub struct SnapshotAction {
    pub outcome: SnapshotOutcome,
    /// Drop the fast-path finalized pool (the node is two or more behind).
    pub flush_fast_path: bool,
    /// Broadcast a leader-behind timeout for the next height.
    pub broadcast_leader_behind: bool,
    /// Start a delta fetch with this timeout, in milliseconds.
    pub fetch_timeout_ms: Option<u64>,
}

pub open spec fn saturating_gap(high: u64, low: u64) -> u64 {
    if high > low {
        (high - low) as u64
    } else {
        0
    }
}

/// Delta-fetch timeout when `gap` heights behind.
pub open spec fn gap_fetch_timeout(gap: u64) -> u64 {
    if gap == 1 {
        SHORT_FETCH_TIMEOUT_MS
    } else {
        LONG_FETCH_TIMEOUT_MS
    }
}

/// Delta-fetch timeout after `stuck` ticks at one height.
pub open spec fn stuck_fetch_timeout(stuck: u32) -> u64 {
    if stuck == 1 {
        SHORT_FETCH_TIMEOUT_MS
    } else if stuck == 2 {
        LONG_FETCH_TIMEOUT_MS
    } else {
        STUCK_FETCH_TIMEOUT_MS
    }
}

pub open spec fn action(
    outcome: SnapshotOutcome,
    flush: bool,
    broadcast: bool,
    fetch: Option<u64>,
) -> SnapshotAction {
    SnapshotAction {
        outcome,
        flush_fast_path: flush,
        broadcast_leader_behind: broadcast,
        fetch_timeout_ms: fetch,
    }
}

/// The behind-peers check. An outcome of `Propose` means the tick goes on.
pub open spec fn behind_phase(s: SnapshotState, ev: SnapshotInputs) -> (SnapshotState, SnapshotAction) {
    match ev.network_height {
        None => (s, action(SnapshotOutcome::Propose, false, false, None)),
        Some(m) => {
            let behind = saturating_gap(m, ev.local_height);
            if behind == 0 {
                (
                    SnapshotState { gap_one_ticks: 0, behind_yields: 0, ..s },
                    action(SnapshotOutcome::Propose, false, false, None),
                )
            } else {
                let flush = behind >= 2;
                let yields = if behind >= 2 {
                    if ev.is_leader {
                        bumped(s.behind_yields)
                    } else {
                        0
                    }
                } else {
                    s.behind_yields
                };
                let broadcast = behind >= 2 && ev.is_leader && yields <= 2;
                let gap_one = if behind == 1 {
                    bumped(s.gap_one_ticks)
                } else {
                    s.gap_one_ticks
                };
                let fallback = behind == 1 && gap_one >= GAP_ONE_FALLBACK_TICKS
                    && ev.leader_timeout_quorum;
                if fallback {
                    (
                        SnapshotState { behind_yields: 0, gap_one_ticks: 0, ..s },
                        action(SnapshotOutcome::Propose, flush, broadcast, None),
                    )
                } else {
                    let fetch = if ev.delta_sync_pending {
                        None
                    } else {
                        Some(gap_fetch_timeout(behind))
                    };
                    (
                        SnapshotState { behind_yields: yields, gap_one_ticks: gap_one, ..s },
                        action(SnapshotOutcome::Wait, flush, broadcast, fetch),
                    )
                }
            }
        }
    }
}

/// The stuck-height check at next height `h`: the new state, the delta fetch
/// it starts, and whether the tick ends here.
pub open spec fn stuck_phase(s: SnapshotState, ev: SnapshotInputs, h: u64) -> (
    SnapshotState,
    Option<u64>,
    bool,
) {
    let s1 = if h != s.last_seen_height {
        SnapshotState { last_seen_height: h, stuck_iterations: 0, ..s }
    } else {
        SnapshotState { stuck_iterations: bumped(s.stuck_iterations), ..s }
    };
    let stuck = s1.stuck_iterations;
    if stuck >= 1 {
        if ev.unfinalized > 0 && ev.is_proposer {
            (SnapshotState { stuck_iterations: 0, ..s1 }, None, false)
        } else if ev.unfinalized > 0 && stuck >= 2 {
            (s1, if ev.delta_sync_pending { None } else { Some(SHORT_FETCH_TIMEOUT_MS) }, false)
        } else if ev.unfinalized == 0 {
            (s1, if ev.delta_sync_pending { None } else { Some(stuck_fetch_timeout(stuck)) }, true)
        } else {
            (s1, None, false)
        }
    } else {
        (s1, None, false)
    }
}

/// Whether a yield that began at `start` has run out by `now`.
pub open spec fn yield_expired(start: Option<u64>, now: u64) -> bool {
    match start {
        Some(t) => saturating_gap(now, t) >= FAST_PATH_YIELD_MAX_MS,
        None => false,
    }
}

/// One tick of the checkpoint service, at the height after `tick_height`,
/// in the order the service checks:
/// the pause after its own proposal, the behind-peers check with its
/// self-yield and gap-of-one fallback, the stuck-height check, the reset of
/// the failure count at a new height, and the expiry of a proposer's yield.
pub open spec fn snapshot_transition(s: SnapshotState, ev: SnapshotInputs) -> (
    SnapshotState,
    SnapshotAction,
) {
    let h = (ev.tick_height + 1) as u64;
    if s.last_own_proposal_ms > 0 && saturating_gap(ev.now_ms, s.last_own_proposal_ms)
        < MIN_INTER_CHECKPOINT_MS {
        (s, action(SnapshotOutcome::Cooldown, false, false, None))
    } else {
        let (s1, a1) = behind_phase(s, ev);
        if a1.outcome != SnapshotOutcome::Propose {
            (s1, a1)
        } else {
            let (s2, fetch, stop) = stuck_phase(s1, ev, h);
            let a2 = action(
                SnapshotOutcome::Wait,
                a1.flush_fast_path,
                a1.broadcast_leader_behind,
                fetch,
            );
            if stop {
                (s2, a2)
            } else {
                let s3 = if h != s2.qcc_failure_height {
                    SnapshotState { qcc_failures: 0, qcc_failure_height: h, ..s2 }
                } else {
                    s2
                };
                if ev.is_proposer && s3.yielded_height == h {
                    if yield_expired(s3.yield_start_ms, ev.now_ms) {
                        (
                            SnapshotState {
                                yielded_height: 0,
                                yield_start_ms: None,
                                qcc_failures: 0,
                                ..s3
                            },
                            SnapshotAction { outcome: SnapshotOutcome::Propose, ..a2 },
                        )
                    } else {
                        let pending = ev.delta_sync_pending || fetch is Some;
                        (
                            s3,
                            SnapshotAction {
                                fetch_timeout_ms: if pending {
                                    fetch
                                } else {
                                    Some(LONG_FETCH_TIMEOUT_MS)
                                },
                                ..a2
                            },
                        )
                    }
                } else {
                    (
                        s3,
                        SnapshotAction {
                            outcome: if ev.is_proposer {
                                SnapshotOutcome::Propose
                            } else {
                                SnapshotOutcome::Follow
                            },
                            ..a2
                        },
                    )
                }
            }
        }
    }
}

fn saturating_gap_exec(high: u64, low: u64) -> (g: u64)
    ensures
        g == saturating_gap(high, low),
{
    if high > low {
        high - low
    } else {
        0
    }
}

fn behind_step(s: &SnapshotState, ev: &SnapshotInputs) -> (r: (SnapshotState, SnapshotAction))
    ensures
        r == behind_phase(*s, *ev),
{
    let mut t = *s;
    match ev.network_height {
        None => (t, SnapshotAction {
            outcome: SnapshotOutcome::Propose,
            flush_fast_path: false,
            broadcast_leader_behind: false,
            fetch_timeout_ms: None,
        }),
        Some(m) => {
            let behind = saturating_gap_exec(m, ev.local_height);
            if behind == 0 {
                t.gap_one_ticks = 0;
                t.behind_yields = 0;
                return (t, SnapshotAction {
                    outcome: SnapshotOutcome::Propose,
                    flush_fast_path: false,
                    broadcast_leader_behind: false,
                    fetch_timeout_ms: None,
                });
            }
            let flush = behind >= 2;
            let yields = if behind >= 2 {
                if ev.is_leader {
                    bump(s.behind_yields)
                } else {
                    0
                }
            } else {
                s.behind_yields
            };
            let broadcast = behind >= 2 && ev.is_leader && yields <= 2;
            let gap_one = if behind == 1 {
                bump(s.gap_one_ticks)
            } else {
                s.gap_one_ticks
            };
            if behind == 1 && gap_one >= GAP_ONE_FALLBACK_TICKS && ev.leader_timeout_quorum {
                t.behind_yields = 0;
                t.gap_one_ticks = 0;
                (t, SnapshotAction {
                    outcome: SnapshotOutcome::Propose,
                    flush_fast_path: flush,
                    broadcast_leader_behind: broadcast,
                    fetch_timeout_ms: None,
                })
            } else {
                t.behind_yields = yields;
                t.gap_one_ticks = gap_one;
                let fetch = if ev.delta_sync_pending {
                    None
                } else if behind == 1 {
                    Some(SHORT_FETCH_TIMEOUT_MS)
                } else {
                    Some(LONG_FETCH_TIMEOUT_MS)
                };
                (t, SnapshotAction {
                    outcome: SnapshotOutcome::Wait,
                    flush_fast_path: flush,
                    broadcast_leader_behind: broadcast,
                    fetch_timeout_ms: fetch,
                })
            }
        },
    }
}

fn stuck_step(s: &SnapshotState, ev: &SnapshotInputs, h: u64) -> (r: (SnapshotState, Option<u64>, bool))
    ensures
        r == stuck_phase(*s, *ev, h),
{
    let mut t = *s;
    if h != s.last_seen_height {
        t.last_seen_height = h;
        t.stuck_iterations = 0;
    } else {
        t.stuck_iterations = bump(s.stuck_iterations);
    }
    let stuck = t.stuck_iterations;
    if stuck >= 1 {
        if ev.unfinalized > 0 && ev.is_proposer {
            t.stuck_iterations = 0;
            (t, None, false)
        } else if ev.unfinalized > 0 && stuck >= 2 {
            (t, if ev.delta_sync_pending { None } else { Some(SHORT_FETCH_TIMEOUT_MS) }, false)
        } else if ev.unfinalized == 0 {
            let timeout = if stuck == 1 {
                SHORT_FETCH_TIMEOUT_MS
            } else if stuck == 2 {
                LONG_FETCH_TIMEOUT_MS
            } else {
                STUCK_FETCH_TIMEOUT_MS
            };
            (t, if ev.delta_sync_pending { None } else { Some(timeout) }, true)
        } else {
            (t, None, false)
        }
    } else {
        (t, None, false)
    }
}

fn yield_expired_exec(start: Option<u64>, now: u64) -> (b: bool)
    ensures
        b == yield_expired(start, now),
{
    match start {
        Some(t) => saturating_gap_exec(now, t) >= FAST_PATH_YIELD_MAX_MS,
        None => false,
    }
}

/// One tick of the checkpoint service's scheduling: the counters it carries
/// on and what it does, exactly as `snapshot_transition` says.
pub fn snapshot_step(s: &SnapshotState, ev: &SnapshotInputs) -> (r: (SnapshotState, SnapshotAction))
    requires
        ev.tick_height < u64::MAX,
    ensures
        r == snapshot_transition(*s, *ev),
{
    let h = ev.tick_height + 1;
    if in_proposal_cooldown(s.last_own_proposal_ms, ev.now_ms) {
        return (*s, SnapshotAction {
            outcome: SnapshotOutcome::Cooldown,
            flush_fast_path: false,
            broadcast_leader_behind: false,
            fetch_timeout_ms: None,
        });
    }
    let (s1, a1) = behind_step(s, ev);
    if a1.outcome != SnapshotOutcome::Propose {
        return (s1, a1);
    }
    let (mut s2, fetch, stop) = stuck_step(&s1, ev, h);
    let mut a2 = SnapshotAction {
        outcome: SnapshotOutcome::Wait,
        flush_fast_path: a1.flush_fast_path,
        broadcast_leader_behind: a1.broadcast_leader_behind,
        fetch_timeout_ms: fetch,
    };
    if stop {
        return (s2, a2);
    }
    if h != s2.qcc_failure_height {
        s2.qcc_failures = 0;
        s2.qcc_failure_height = h;
    }
    if ev.is_proposer && s2.yielded_height == h {
        if yield_expired_exec(s2.yield_start_ms, ev.now_ms) {
            s2.yielded_height = 0;
            s2.yield_start_ms = None;
            s2.qcc_failures = 0;
            a2.outcome = SnapshotOutcome::Propose;
        } else if !(ev.delta_sync_pending || fetch.is_some()) {
            a2.fetch_timeout_ms = Some(LONG_FETCH_TIMEOUT_MS);
        }
        (s2, a2)
    } else {
        a2.outcome = if ev.is_proposer {
            SnapshotOutcome::Propose
        } else {
            SnapshotOutcome::Follow
        };
        (s2, a2)
    }
}

/// What became of a pending certificate collection when the service looked.
#[derive(Clone, Copy, Debug, PartialEq, Eq, Structural)]
pub enum QccOutcome {
    /// It finished with a quorum certificate.
    Certified,
    /// It finished without a quorum.
    NoQuorum,
    /// It is still running.
    Running,
}

/// What the service does about a pending certificate collection.
#[derive(Clone, Copy, Debug, PartialEq, Eq, Structural)]
pub enum QccDecision {
    /// Apply the certified checkpoint; failures and any yield are cleared.
    Apply,
    /// The height was committed meanwhile: drop the collection.
    AlreadyCommitted,
    /// The collection failed (no quorum, or it ran too long): roll back the
    /// height's emission and rewards. `failures` is the new consecutive count;
    /// `retry` keeps the checkpoint for an identical retry; `self_yield`
    /// yields the height with a leader timeout.
    Failed { failures: u32, retry: bool, self_yield: bool },
    /// Keep waiting: the tick ends here.
    KeepWaiting,
}

pub open spec fn qcc_failed(failures: u32) -> QccDecision {
    let f = bumped(failures);
    QccDecision::Failed {
        failures: f,
        retry: f < QCC_SELF_YIELD_THRESHOLD,
        self_yield: f >= QCC_SELF_YIELD_THRESHOLD,
    }
}

/// The decision on a pending collection for `pending_height`, after
/// `failures` consecutive failures, when it has run `elapsed_ms` and the
/// chain is at `new_height`.
pub open spec fn qcc_decision(
    failures: u32,
    outcome: QccOutcome,
    elapsed_ms: u64,
    new_height: u64,
    pending_height: u64,
) -> QccDecision {
    match outcome {
        QccOutcome::Certified => QccDecision::Apply,
        QccOutcome::NoQuorum => if new_height >= pending_height {
            QccDecision::AlreadyCommitted
        } else {
            qcc_failed(failures)
        },
        QccOutcome::Running => if elapsed_ms > QCC_TIMEOUT_MS {
            qcc_failed(failures)
        } else {
            QccDecision::KeepWaiting
        },
    }
}

/// The service's counters after decision `d` on the collection for
/// `pending_height`.
pub open spec fn after_qcc(s: SnapshotState, d: QccDecision, pending_height: u64) -> SnapshotState {
    match d {
        QccDecision::Apply => SnapshotState {
            qcc_failures: 0,
            yielded_height: 0,
            yield_start_ms: None,
            ..s
        },
        QccDecision::Failed { failures, self_yield, .. } => SnapshotState {
            qcc_failures: failures,
            yielded_height: if self_yield {
                pending_height
            } else {
                s.yielded_height
            },
            ..s
        },
        _ => s,
    }
}

fn failed_decision(failures: u32) -> (d: QccDecision)
    ensures
        d == qcc_failed(failures),
{
    let f = bump(failures);
    QccDecision::Failed {
        failures: f,
        retry: f < QCC_SELF_YIELD_THRESHOLD,
        self_yield: f >= QCC_SELF_YIELD_THRESHOLD,
    }
}

/// Decide on a pending certificate collection.
pub fn qcc_outcome_step(
    failures: u32,
    outcome: QccOutcome,
    elapsed_ms: u64,
    new_height: u64,
    pending_height: u64,
) -> (d: QccDecision)
    ensures
        d == qcc_decision(failures, outcome, elapsed_ms, new_height, pending_height),
{
    match outcome {
        QccOutcome::Certified => QccDecision::Apply,
        QccOutcome::NoQuorum => if new_height >= pending_height {
            QccDecision::AlreadyCommitted
        } else {
            failed_decision(failures)
        },
        QccOutcome::Running => if elapsed_ms > QCC_TIMEOUT_MS {
            failed_decision(failures)
        } else {
            QccDecision::KeepWaiting
        },
    }
}

impl QccDecision {
    /// Whether the tick goes on after this decision (it stops only to keep
    /// waiting).
    pub fn resolves(&self) -> (b: bool)
        ensures
            b == !(*self is KeepWaiting),
    {
        !matches!(self, QccDecision::KeepWaiting)
    }
}

/// The service's counters after a decision on the collection for
/// `pending_height`.
pub fn apply_qcc_decision(s: &SnapshotState, d: QccDecision, pending_height: u64) -> (r: SnapshotState)
    ensures
        r == after_qcc(*s, d, pending_height),
{
    let mut t = *s;
    match d {
        QccDecision::Apply => {
            t.qcc_failures = 0;
            t.yielded_height = 0;
            t.yield_start_ms = None;
        },
        QccDecision::Failed { failures, self_yield, .. } => {
            t.qcc_failures = failures;
            if self_yield {
                t.yielded_height = pending_height;
            }
        },
        _ => {},
    }
    t
}

/// Two failed collections in a row, from none, make the proposer yield the
/// height; one does not, and keeps the checkpoint for a retry.
pub proof fn lemma_second_failure_yields(
    outcome1: QccOutcome,
    outcome2: QccOutcome,
    elapsed1: u64,
    elapsed2: u64,
    new_height: u64,
    pending_height: u64,
)
    requires
        qcc_decision(0, outcome1, elapsed1, new_height, pending_height) is Failed,
    ensures
        ({
            let d1 = qcc_decision(0, outcome1, elapsed1, new_height, pending_height);
            let d2 = qcc_decision(d1->failures, outcome2, elapsed2, new_height, pending_height);
            &&& d1 == (QccDecision::Failed { failures: 1, retry: true, self_yield: false })
            &&& d2 is Failed ==> d2 == (QccDecision::Failed {
                failures: 2,
                retry: false,
                self_yield: true,
            })
        }),
{
}

/// A certified collection clears the failure count and any yield, whatever
/// came before.
pub proof fn lemma_certified_clears(s: SnapshotState, elapsed: u64, new_height: u64, pending_height: u64)
    ensures
        ({
            let r = after_qcc(
                s,
                qcc_decision(s.qcc_failures, QccOutcome::Certified, elapsed, new_height, pending_height),
                pending_height,
            );
            r.qcc_failures == 0 && r.yielded_height == 0 && r.yield_start_ms is None
        }),
{
}

/// Where a checkpoint fetched from a peer goes.
#[derive(Clone, Copy, Debug, PartialEq, Eq, Structural)]
pub enum DeltaPlacement {
    /// At or below this node's height: nothing to do.
    Skip,
    /// The next height: apply it now.
    Apply,
    /// Further ahead: keep it in the buffer for later.
    Buffer,
}

/// Where a fetched checkpoint at `height` goes when this node is at `current`.
pub fn place_delta_checkpoint(height: u64, current: u64) -> (p: DeltaPlacement)
    ensures
        p == (if height <= current {
            DeltaPlacement::Skip
        } else if height == current + 1 {
            DeltaPlacement::Apply
        } else {
            DeltaPlacement::Buffer
        }),
{
    if height <= current {
        DeltaPlacement::Skip
    } else if height - 1 == current {
        DeltaPlacement::Apply
    } else {
        DeltaPlacement::Buffer
    }
}

/// Whether the stored DAG is pruned on this tick: the tick counter before
/// this tick (`produced`) is a positive multiple of the pruning period and
/// the chain has passed `PRUNE_MIN_HEIGHT`.
pub fn prune_due(produced: u64, height: u64) -> (b: bool)
    ensures
        b == (produced > 0 && produced % PRUNE_EVERY_N_CHECKPOINTS == 0 && height > PRUNE_MIN_HEIGHT),
{
    produced > 0 && produced % PRUNE_EVERY_N_CHECKPOINTS == 0 && height > PRUNE_MIN_HEIGHT
}

/// The height below which finalized DAG nodes leave memory, where the chain
/// is past the retention window.
pub fn in_memory_prune_bound(height: u64) -> (b: Option<u64>)
    ensures
        b == (if height > IN_MEMORY_RETENTION {
            Some((height - IN_MEMORY_RETENTION) as u64)
        } else {
            None
        }),
{
    if height > IN_MEMORY_RETENTION {
        Some(height - IN_MEMORY_RETENTION)
    } else {
        None
    }
}

/// How long the service sleeps before looking again, `remaining_ms` before
/// its next full tick: while a collection or a delta fetch runs it looks
/// every `QCC_POLL_MS`, else it sleeps to the tick.
pub fn tick_wait_ms(remaining_ms: u64, busy: bool) -> (w: u64)
    ensures
        w == (if busy && QCC_POLL_MS < remaining_ms {
            QCC_POLL_MS
        } else {
            remaining_ms
        }),
{
    if busy && QCC_POLL_MS < remaining_ms {
        QCC_POLL_MS
    } else {
        remaining_ms
    }
}

/// Whether a wake-up at `now_ms` is a full tick due at `next_tick_ms`.
pub fn is_full_tick(now_ms: u64, next_tick_ms: u64) -> (b: bool)
    ensures
        b == (now_ms >= next_tick_ms),
{
    now_ms >= next_tick_ms
}

/// A tick in its cooldown changes no counter and does nothing.
pub proof fn lemma_cooldown_is_idle(s: SnapshotState, ev: SnapshotInputs)
    requires
        s.last_own_proposal_ms > 0,
        saturating_gap(ev.now_ms, s.last_own_proposal_ms) < MIN_INTER_CHECKPOINT_MS,
    ensures
        snapshot_transition(s, ev) == (s, action(SnapshotOutcome::Cooldown, false, false, None)),
{
}

/// One height behind with a leader-timeout quorum, a node waits two ticks
/// (fetching, unless a fetch is in flight) and goes on at the third, with
/// its gap count cleared.
pub proof fn lemma_gap_one_fallback(s: SnapshotState, ev: SnapshotInputs)
    requires
        ev.local_height < u64::MAX,
        ev.network_height == Some((ev.local_height + 1) as u64),
        ev.leader_timeout_quorum,
        s.gap_one_ticks == 0,
    ensures
        ({
            let (s1, a1) = behind_phase(s, ev);
            let (s2, a2) = behind_phase(s1, ev);
            let (s3, a3) = behind_phase(s2, ev);
            &&& a1.outcome == SnapshotOutcome::Wait
            &&& a2.outcome == SnapshotOutcome::Wait
            &&& a3.outcome == SnapshotOutcome::Propose
            &&& s3.gap_one_ticks == 0
        }),
{
}

/// An elected leader two or more heights behind broadcasts its leader-behind
/// timeout on its first two consecutive yields only.
pub proof fn lemma_behind_leader_broadcasts_twice(s: SnapshotState, ev: SnapshotInputs)
    requires
        ev.network_height matches Some(m) && m >= ev.local_height + 2,
        ev.is_leader,
        s.behind_yields == 0,
    ensures
        ({
            let (s1, a1) = behind_phase(s, ev);
            let (s2, a2) = behind_phase(s1, ev);
            let (s3, a3) = behind_phase(s2, ev);
            &&& a1.broadcast_leader_behind && a1.flush_fast_path
            &&& a2.broadcast_leader_behind
            &&& !a3.broadcast_leader_behind
            &&& s3.behind_yields == 3
        }),
{
}


/// Ticks a backup waits for the leader before voting a leader timeout.
pub const LEADER_SKIP_BASE_TICKS: u32 = 3;

/// More ticks of waiting while the leader has announced its intent.
pub const LEADER_INTENT_EXTENSION_TICKS: u32 = 2;

/// More ticks per backup rank before a backup produces in the leader's place.
pub const LEADER_SKIP_STAGGER_TICKS: u32 = 1;

/// After catching up from peers, a backup votes no timeout for this long, in
/// milliseconds.
pub const POST_SYNC_COOLDOWN_MS: u64 = 500;

/// How long a backup has waited for the leader: ticks at `height`.
#[derive(Clone, Copy, Debug, PartialEq, Eq, Structural)]
pub struct LeaderWait {
    pub ticks: u32,
    pub height: u64,
}

/// What a backup observed on a tick that `snapshot_step` ended in `Follow`.
#[derive(Clone, Copy, Debug, PartialEq, Eq)]
pub struct FollowInputs {
    /// The next height.
    pub height: u64,
    /// The stuck-height counter after `snapshot_step`.
    pub stuck_iterations: u32,
    /// Whether a delta fetch is in flight, counting one the tick started.
    pub delta_sync_pending: bool,
    pub unfinalized: usize,
    /// Whether the leader has announced a still-valid intent to propose.
    pub leader_intent: bool,
    /// This node's rank among the backups of the next height.
    pub backup_rank: u32,
    /// Milliseconds since this node last caught up from peers, if it has.
    pub since_catch_up_ms: Option<u64>,
    /// Whether a leader-timeout quorum exists for the next height.
    pub timeout_quorum: bool,
}

/// What a backup does on such a tick.
#[derive(Clone, Copy, Debug, PartialEq, Eq)]
pub struct FollowAction {
    /// Start a delta fetch with this timeout, in milliseconds.
    pub fetch_timeout_ms: Option<u64>,
    /// Vote a leader timeout for the next height (and release its vote lock).
    pub vote_leader_timeout: bool,
    /// Produce the next height in the leader's place.
    pub produce: bool,
}

/// Ticks of waiting after which a backup votes a leader timeout.
pub open spec fn vote_threshold(leader_intent: bool) -> int {
    if leader_intent {
        LEADER_SKIP_BASE_TICKS + LEADER_INTENT_EXTENSION_TICKS
    } else {
        LEADER_SKIP_BASE_TICKS as int
    }
}

/// A backup's tick: it fetches when stuck, counts the ticks it has waited
/// for the leader while there is work, votes a leader timeout once it has
/// waited long enough (not right after catching up), and produces in the
/// leader's place once its rank's further wait is over and a timeout quorum
/// exists.
pub open spec fn follow_transition(w: LeaderWait, ev: FollowInputs) -> (LeaderWait, FollowAction) {
    let fetch = if ev.stuck_iterations >= 1 && !ev.delta_sync_pending {
        Some(stuck_fetch_timeout(ev.stuck_iterations))
    } else {
        None
    };
    let pending = ev.delta_sync_pending || fetch is Some;
    let w1 = if ev.unfinalized > 0 && ev.height == w.height {
        LeaderWait { ticks: bumped(w.ticks), ..w }
    } else if ev.unfinalized > 0 {
        LeaderWait { ticks: 1, height: ev.height }
    } else {
        LeaderWait { ticks: 0, height: 0 }
    };
    let threshold = vote_threshold(ev.leader_intent);
    let idle = FollowAction { fetch_timeout_ms: fetch, vote_leader_timeout: false, produce: false };
    if w1.ticks < threshold {
        (w1, idle)
    } else if ev.since_catch_up_ms matches Some(t) && t <= POST_SYNC_COOLDOWN_MS {
        (w1, idle)
    } else if w1.ticks < threshold + ev.backup_rank * LEADER_SKIP_STAGGER_TICKS || !ev.timeout_quorum {
        (w1, FollowAction { vote_leader_timeout: true, ..idle })
    } else {
        (
            LeaderWait { ticks: 0, height: 0 },
            FollowAction {
                fetch_timeout_ms: if pending {
                    fetch
                } else {
                    Some(LONG_FETCH_TIMEOUT_MS)
                },
                vote_leader_timeout: true,
                produce: true,
            },
        )
    }
}

/// A backup's tick, exactly as `follow_transition` says.
pub fn follow_step(w: &LeaderWait, ev: &FollowInputs) -> (r: (LeaderWait, FollowAction))
    ensures
        r == follow_transition(*w, *ev),
{
    let fetch = if ev.stuck_iterations >= 1 && !ev.delta_sync_pending {
        Some(
            if ev.stuck_iterations == 1 {
                SHORT_FETCH_TIMEOUT_MS
            } else if ev.stuck_iterations == 2 {
                LONG_FETCH_TIMEOUT_MS
            } else {
                STUCK_FETCH_TIMEOUT_MS
            },
        )
    } else {
        None
    };
    let pending = ev.delta_sync_pending || fetch.is_some();
    let w1 = if ev.unfinalized > 0 && ev.height == w.height {
        LeaderWait { ticks: bump(w.ticks), height: w.height }
    } else if ev.unfinalized > 0 {
        LeaderWait { ticks: 1, height: ev.height }
    } else {
        LeaderWait { ticks: 0, height: 0 }
    };
    let threshold: u64 = if ev.leader_intent {
        (LEADER_SKIP_BASE_TICKS + LEADER_INTENT_EXTENSION_TICKS) as u64
    } else {
        LEADER_SKIP_BASE_TICKS as u64
    };
    let idle = FollowAction { fetch_timeout_ms: fetch, vote_leader_timeout: false, produce: false };
    let ticks = w1.ticks as u64;
    if ticks < threshold {
        return (w1, idle);
    }
    let recently_synced = match ev.since_catch_up_ms {
        Some(t) => t <= POST_SYNC_COOLDOWN_MS,
        None => false,
    };
    if recently_synced {
        return (w1, idle);
    }
    let rank = ev.backup_rank as u64;
    let stagger = LEADER_SKIP_STAGGER_TICKS as u64;
    assert(stagger == 1);
    assert(rank * stagger == rank) by (nonlinear_arith)
        requires
            stagger == 1,
    ;
    let production = threshold + rank * stagger;
    if ticks < production || !ev.timeout_quorum {
        return (w1, FollowAction { fetch_timeout_ms: fetch, vote_leader_timeout: true, produce: false });
    }
    (
        LeaderWait { ticks: 0, height: 0 },
        FollowAction {
            fetch_timeout_ms: if pending { fetch } else { Some(LONG_FETCH_TIMEOUT_MS) },
            vote_leader_timeout: true,
            produce: true,
        },
    )
}

/// A backup that keeps seeing work at one height, with a timeout quorum and
/// no recent catch-up, votes a leader timeout on its third tick and produces
/// in the leader's place on the tick its rank adds after that.
pub proof fn lemma_backup_takes_over(w: LeaderWait, ev: FollowInputs)
    requires
        w.ticks == 0,
        ev.unfinalized > 0,
        ev.height != 0,
        !ev.leader_intent,
        ev.since_catch_up_ms is None,
        ev.timeout_quorum,
        ev.backup_rank == 1,
    ensures
        ({
            let (w1, a1) = follow_transition(w, ev);
            let (w2, a2) = follow_transition(w1, ev);
            let (w3, a3) = follow_transition(w2, ev);
            let (w4, a4) = follow_transition(w3, ev);
            &&& !a1.vote_leader_timeout && !a2.vote_leader_timeout
            &&& a3.vote_leader_timeout && !a3.produce
            &&& a4.produce && w4.ticks == 0
        }),
{
}


/// After catching up from peers, a proposer defers its proposal for this
/// long, in milliseconds.
pub const LEADER_POST_SYNC_MAX_DEFER_MS: u64 = 500;

/// A proposer with an empty fast-path pool yields when more fast-path
/// transactions than this await confirmation and it caught up within
/// `FAST_PATH_CATCH_UP_MS`.
pub const FAST_PATH_PENDING_LIMIT: u64 = 50;

pub const FAST_PATH_CATCH_UP_MS: u64 = 2000;

/// What a proposer observed on a tick that `snapshot_step` ended in
/// `Propose`.
#[derive(Clone, Copy, Debug, PartialEq, Eq)]
pub struct ProposeInputs {
    pub now_ms: u64,
    /// This node's checkpoint height when the tick began; the tick works on
    /// the height after it.
    pub tick_height: u64,
    /// This node's checkpoint height after draining buffered checkpoints.
    pub local_height: u64,
    pub network_height: Option<u64>,
    /// Whether a checkpoint for the next height waits in the buffer.
    pub buffered_at_height: bool,
    /// Milliseconds since this node last caught up from peers, if it has.
    pub since_catch_up_ms: Option<u64>,
    /// Fast-path finalized transactions in the local pool.
    pub fast_path_pool: usize,
    /// Fast-path transactions the gossip layer has confirmed.
    pub fast_path_confirmed: u64,
}

/// What a proposer does on such a tick.
#[derive(Clone, Copy, Debug, PartialEq, Eq)]
pub struct ProposeAction {
    /// Announce its intent to propose the next height.
    pub broadcast_intent: bool,
    /// Yield the next height with a leader timeout (fast-path mismatch).
    pub broadcast_leader_timeout: bool,
    /// Yield the next height with a leader-behind timeout.
    pub broadcast_leader_behind: bool,
    /// Go on and build the checkpoint.
    pub produce: bool,
}

pub open spec fn within(t: Option<u64>, limit: u64) -> bool {
    t matches Some(v) && v <= limit
}

/// A proposer's tick: it defers while the next checkpoint waits in the
/// buffer, announces its intent, defers right after catching up, does not
/// propose from an empty fast-path pool (and yields the height when
/// confirmed fast-path work is pending after a recent catch-up), yields when
/// the network is ahead of it, and otherwise builds the checkpoint (the
/// backup wait is then cleared).
pub open spec fn propose_transition(s: SnapshotState, ev: ProposeInputs) -> (SnapshotState, ProposeAction) {
    let none = ProposeAction {
        broadcast_intent: false,
        broadcast_leader_timeout: false,
        broadcast_leader_behind: false,
        produce: false,
    };
    let announced = ProposeAction { broadcast_intent: true, ..none };
    if ev.buffered_at_height {
        (s, none)
    } else if within(ev.since_catch_up_ms, LEADER_POST_SYNC_MAX_DEFER_MS) {
        (s, announced)
    } else if ev.fast_path_pool == 0 {
        if ev.fast_path_confirmed > FAST_PATH_PENDING_LIMIT && within(ev.since_catch_up_ms, FAST_PATH_CATCH_UP_MS) {
            (
                SnapshotState {
                    yielded_height: (ev.tick_height + 1) as u64,
                    yield_start_ms: Some(ev.now_ms),
                    ..s
                },
                ProposeAction { broadcast_leader_timeout: true, ..announced },
            )
        } else {
            (s, announced)
        }
    } else if ev.network_height matches Some(m) && m > ev.local_height {
        (s, ProposeAction { broadcast_leader_behind: true, ..announced })
    } else {
        (s, ProposeAction { produce: true, ..announced })
    }
}

fn within_exec(t: Option<u64>, limit: u64) -> (b: bool)
    ensures
        b == within(t, limit),
{
    match t {
        Some(v) => v <= limit,
        None => false,
    }
}

/// A proposer's tick, exactly as `propose_transition` says.
pub fn propose_step(s: &SnapshotState, ev: &ProposeInputs) -> (r: (SnapshotState, ProposeAction))
    requires
        ev.tick_height < u64::MAX,
    ensures
        r == propose_transition(*s, *ev),
{
    let mut t = *s;
    let mut a = ProposeAction {
        broadcast_intent: false,
        broadcast_leader_timeout: false,
        broadcast_leader_behind: false,
        produce: false,
    };
    if ev.buffered_at_height {
        return (t, a);
    }
    a.broadcast_intent = true;
    if within_exec(ev.since_catch_up_ms, LEADER_POST_SYNC_MAX_DEFER_MS) {
        return (t, a);
    }
    if ev.fast_path_pool == 0 {
        if ev.fast_path_confirmed > FAST_PATH_PENDING_LIMIT && within_exec(ev.since_catch_up_ms, FAST_PATH_CATCH_UP_MS) {
            t.yielded_height = ev.tick_height + 1;
            t.yield_start_ms = Some(ev.now_ms);
            a.broadcast_leader_timeout = true;
        }
        return (t, a);
    }
    let ahead = match ev.network_height {
        Some(m) => m > ev.local_height,
        None => false,
    };
    if ahead {
        a.broadcast_leader_behind = true;
    } else {
        a.produce = true;
    }
    (t, a)
}

/// A proposer's fast-path yield runs out: once it has yielded the next
/// height at `now`, a tick `FAST_PATH_YIELD_MAX_MS` later clears the yield
/// and lets it propose again.
pub proof fn lemma_fast_path_yield_expires(s: SnapshotState, pev: ProposeInputs, ev: SnapshotInputs)
    requires
        pev.tick_height < u64::MAX,
        pev.fast_path_pool == 0,
        pev.fast_path_confirmed > FAST_PATH_PENDING_LIMIT,
        !pev.buffered_at_height,
        pev.since_catch_up_ms matches Some(c) && LEADER_POST_SYNC_MAX_DEFER_MS < c <= FAST_PATH_CATCH_UP_MS,
        ev.tick_height == pev.tick_height,
        ev.is_proposer,
        ev.network_height is None,
        ev.now_ms >= pev.now_ms + FAST_PATH_YIELD_MAX_MS,
        s.last_own_proposal_ms == 0,
        s.last_seen_height != pev.tick_height + 1,
    ensures
        ({
            let (s1, a1) = propose_transition(s, pev);
            let (s2, a2) = snapshot_transition(s1, ev);
            &&& a1.broadcast_leader_timeout && s1.yielded_height == pev.tick_height + 1
            &&& a2.outcome == SnapshotOutcome::Propose
            &&& s2.yielded_height == 0 && s2.yield_start_ms is None
        }),
{
}

} // verus!
