//! The transactions a checkpoint takes: the eligible unfinalized ones, in
//! sender, nonce and hash order, and when they exceed the cap, the
//! contiguous nonce chains of the senders, best gas price first.

use vstd::prelude::*;
use vstd::utf8::encode_utf8;
use crate::checkpoint::{is_hex_byte, is_valid_hex_hash};
use crate::contracts::{
    bytes_lt, key_before, lemma_bytes_lt_asymmetric, lemma_bytes_lt_irreflexive, lemma_bytes_lt_total,
    lemma_bytes_lt_transitive,
};
use crate::hashing::str_eq;

verus! {

/// An unfinalized transaction as the checkpoint gatherer sees it, with its
/// sender's account nonce (0 for an unknown account) and whether the fast
/// path has finalized it.
#[derive(Clone, Debug)]
pub struct PendingTx {
    pub hash: String,
    pub from: String,
    pub nonce: u64,
    pub timestamp: u64,
    pub gas_price: Option<u64>,
    pub account_nonce: u64,
    pub fast_path_finalized: bool,
}

/// What ordering and selection read of a transaction: sender and hash as
/// UTF-8 bytes, nonce, and gas price (0 when it has none).
pub open spec fn tx_view(t: PendingTx) -> (Seq<u8>, u64, Seq<u8>, u64) {
    (
        encode_utf8(t.from@),
        t.nonce,
        encode_utf8(t.hash@),
        match t.gas_price {
            Some(g) => g,
            None => 0,
        },
    )
}

/// A transaction the checkpoint may take: old enough (timestamp at or
/// before the cutoff), with a well-formed hash, and not a stale repeat (a
/// nonce below the account's that the fast path has not finalized).
pub open spec fn is_eligible(t: PendingTx, cutoff: u64) -> bool {
    &&& t.timestamp <= cutoff
    &&& encode_utf8(t.hash@).len() == 64
    &&& forall|i: int| 0 <= i < 64 ==> is_hex_byte(#[trigger] encode_utf8(t.hash@)[i])
    &&& !(t.nonce < t.account_nonce && !t.fast_path_finalized)
}

/// The views of the eligible transactions of `txs`, in order.
pub open spec fn eligible_views(txs: Seq<PendingTx>, cutoff: u64) -> Seq<(Seq<u8>, u64, Seq<u8>, u64)>
    decreases txs.len(),
{
    if txs.len() == 0 {
        seq![]
    } else {
        let rest = eligible_views(txs.drop_last(), cutoff);
        if is_eligible(txs.last(), cutoff) {
            rest.push(tx_view(txs.last()))
        } else {
            rest
        }
    }
}

/// The gatherer's order: by sender, then nonce, then hash.
pub open spec fn tx_before(a: (Seq<u8>, u64, Seq<u8>, u64), b: (Seq<u8>, u64, Seq<u8>, u64)) -> bool {
    ||| bytes_lt(a.0, b.0)
    ||| (a.0 == b.0 && a.1 < b.1)
    ||| (a.0 == b.0 && a.1 == b.1 && bytes_lt(a.2, b.2))
}

/// `p` is strictly ascending in the gatherer's order.
pub open spec fn in_tx_order(p: Seq<(Seq<u8>, u64, Seq<u8>, u64)>) -> bool {
    forall|i: int, j: int| 0 <= i < j < p.len() ==> tx_before(p[i], p[j])
}

/// `p` holds the elements of `s` in the gatherer's order.
pub open spec fn tx_order_of(s: Seq<(Seq<u8>, u64, Seq<u8>, u64)>, p: Seq<(Seq<u8>, u64, Seq<u8>, u64)>) -> bool {
    in_tx_order(p) && p.to_multiset() == s.to_multiset()
}

/// No two transactions have the same hash.
pub open spec fn hashes_distinct(txs: Seq<PendingTx>) -> bool {
    forall|i: int, j: int| 0 <= i < j < txs.len() ==> txs[i].hash@ != txs[j].hash@
}

proof fn lemma_tx_before_irreflexive(a: (Seq<u8>, u64, Seq<u8>, u64))
    ensures
        !tx_before(a, a),
{
    lemma_bytes_lt_irreflexive(a.0);
    lemma_bytes_lt_irreflexive(a.2);
}

proof fn lemma_tx_before_asymmetric(a: (Seq<u8>, u64, Seq<u8>, u64), b: (Seq<u8>, u64, Seq<u8>, u64))
    ensures
        !(tx_before(a, b) && tx_before(b, a)),
{
    lemma_bytes_lt_asymmetric(a.0, b.0);
    lemma_bytes_lt_asymmetric(a.2, b.2);
    lemma_bytes_lt_irreflexive(a.0);
}

proof fn lemma_tx_before_transitive(
    a: (Seq<u8>, u64, Seq<u8>, u64),
    b: (Seq<u8>, u64, Seq<u8>, u64),
    c: (Seq<u8>, u64, Seq<u8>, u64),
)
    requires
        tx_before(a, b),
        tx_before(b, c),
    ensures
        tx_before(a, c),
{
    if bytes_lt(a.0, b.0) && bytes_lt(b.0, c.0) {
        lemma_bytes_lt_transitive(a.0, b.0, c.0);
    }
    if a.0 == b.0 && b.0 == c.0 && a.1 == b.1 && b.1 == c.1 && bytes_lt(a.2, b.2) && bytes_lt(b.2, c.2) {
        lemma_bytes_lt_transitive(a.2, b.2, c.2);
    }
}

proof fn lemma_tx_before_total(a: (Seq<u8>, u64, Seq<u8>, u64), b: (Seq<u8>, u64, Seq<u8>, u64))
    requires
        a.2 != b.2,
    ensures
        tx_before(a, b) || tx_before(b, a),
{
    if a.0 != b.0 {
        lemma_bytes_lt_total(a.0, b.0);
    } else {
        lemma_bytes_lt_total(a.2, b.2);
    }
}

/// Two orderings of the same elements are the same sequence.
pub proof fn lemma_tx_order_unique(
    s: Seq<(Seq<u8>, u64, Seq<u8>, u64)>,
    p: Seq<(Seq<u8>, u64, Seq<u8>, u64)>,
    q: Seq<(Seq<u8>, u64, Seq<u8>, u64)>,
)
    requires
        tx_order_of(s, p),
        tx_order_of(s, q),
    ensures
        p == q,
    decreases p.len(),
{
    broadcast use vstd::seq_lib::group_to_multiset_ensures;

    assert(p.len() == p.to_multiset().len());
    assert(q.len() == q.to_multiset().len());
    if p.len() == 0 {
        assert(p =~= q);
    } else {
        assert(p.contains(p[0]));
        assert(p.to_multiset().count(p[0]) > 0);
        assert(q.contains(p[0]));
        let k = choose|k: int| 0 <= k < q.len() && q[k] == p[0];
        assert(q.contains(q[0]));
        assert(q.to_multiset().count(q[0]) > 0);
        assert(p.contains(q[0]));
        let m = choose|m: int| 0 <= m < p.len() && p[m] == q[0];
        if k != 0 {
            assert(tx_before(q[0], q[k]));
            if m == 0 {
                lemma_tx_before_irreflexive(q[0]);
            } else {
                assert(tx_before(p[0], p[m]));
                lemma_tx_before_asymmetric(p[0], q[0]);
            }
        }
        assert(p[0] == q[0]);
        assert(p.remove(0) =~= p.drop_first());
        assert(q.remove(0) =~= q.drop_first());
        let rest = s.to_multiset().remove(p[0]);
        assert(p.drop_first().to_multiset() == rest);
        assert(q.drop_first().to_multiset() == rest);
        let p2 = p.drop_first();
        let q2 = q.drop_first();
        assert(in_tx_order(p2)) by {
            assert forall|i: int, j: int| 0 <= i < j < p2.len() implies tx_before(p2[i], p2[j]) by {
                assert(p2[i] == p[i + 1] && p2[j] == p[j + 1]);
            }
        }
        assert(in_tx_order(q2)) by {
            assert forall|i: int, j: int| 0 <= i < j < q2.len() implies tx_before(q2[i], q2[j]) by {
                assert(q2[i] == q[i + 1] && q2[j] == q[j + 1]);
            }
        }
        lemma_tx_order_unique(p2, p2, q2);
        assert(p =~= seq![p[0]] + p2);
        assert(q =~= seq![q[0]] + q2);
    }
}

/// The views of the transactions at the given positions.
pub open spec fn views_at(txs: Seq<PendingTx>, idx: Seq<usize>) -> Seq<(Seq<u8>, u64, Seq<u8>, u64)> {
    idx.map_values(|i: usize| tx_view(txs[i as int]))
}

/// Whether `a` comes before `b` in the gatherer's order.
fn tx_precedes(a: &PendingTx, b: &PendingTx) -> (r: bool)
    ensures
        r == tx_before(tx_view(*a), tx_view(*b)),
{
    proof {
        vstd::utf8::encode_utf8_decode_utf8(a.from@);
        vstd::utf8::encode_utf8_decode_utf8(b.from@);
    }
    if key_before(a.from.as_str(), b.from.as_str()) {
        true
    } else if !str_eq(a.from.as_str(), b.from.as_str()) {
        proof {
            lemma_bytes_lt_total(encode_utf8(a.from@), encode_utf8(b.from@));
        }
        false
    } else if a.nonce < b.nonce {
        true
    } else if a.nonce > b.nonce {
        false
    } else {
        key_before(a.hash.as_str(), b.hash.as_str())
    }
}

fn is_eligible_tx(t: &PendingTx, cutoff: u64) -> (r: bool)
    ensures
        r == is_eligible(*t, cutoff),
{
    t.timestamp <= cutoff && is_valid_hex_hash(t.hash.as_str()) && !(t.nonce < t.account_nonce
        && !t.fast_path_finalized)
}

/// Positions of the eligible transactions of `txs`, in the gatherer's order.
fn ordered_eligible(txs: &[PendingTx], cutoff: u64) -> (r: Vec<usize>)
    requires
        hashes_distinct(txs@),
    ensures
        forall|k: int| 0 <= k < r@.len() ==> r@[k] < txs@.len(),
        tx_order_of(eligible_views(txs@, cutoff), views_at(txs@, r@)),
{
    broadcast use vstd::seq_lib::group_to_multiset_ensures;

    let mut out: Vec<usize> = Vec::new();
    let mut i: usize = 0;
    proof {
        assert(views_at(txs@, out@) =~= Seq::<(Seq<u8>, u64, Seq<u8>, u64)>::empty());
        assert(txs@.take(0) =~= Seq::<PendingTx>::empty());
    }
    while i < txs.len()
        invariant
            i <= txs@.len(),
            hashes_distinct(txs@),
            forall|k: int| 0 <= k < out@.len() ==> out@[k] < i,
            tx_order_of(eligible_views(txs@.take(i as int), cutoff), views_at(txs@, out@)),
        decreases txs@.len() - i,
    {
        proof {
            let t = txs@.take(i + 1);
            assert(t.drop_last() =~= txs@.take(i as int));
            assert(t.last() == txs@[i as int]);
        }
        if is_eligible_tx(&txs[i], cutoff) {
            let ghost x = tx_view(txs@[i as int]);
            let ghost before = views_at(txs@, out@);
            let mut q: usize = 0;
            while q < out.len() && !tx_precedes(&txs[i], &txs[out[q]])
                invariant
                    q <= out@.len(),
                    i < txs@.len(),
                    forall|k: int| 0 <= k < out@.len() ==> out@[k] < txs@.len(),
                    before == views_at(txs@, out@),
                    x == tx_view(txs@[i as int]),
                    forall|k: int| 0 <= k < q ==> !tx_before(x, #[trigger] before[k]),
                decreases out@.len() - q,
            {
                q = q + 1;
            }
            let ghost old_out = out@;
            out.insert(q, i);
            proof {
                let nv = views_at(txs@, out@);
                assert(nv =~= before.insert(q as int, x));
                assert forall|k: int| 0 <= k < before.len() implies before[k].2 != x.2 by {
                    let j = old_out[k];
                    assert(before[k] == tx_view(txs@[j as int]));
                    assert(txs@[j as int].hash@ != txs@[i as int].hash@);
                    vstd::utf8::encode_utf8_decode_utf8(txs@[j as int].hash@);
                    vstd::utf8::encode_utf8_decode_utf8(txs@[i as int].hash@);
                }
                assert forall|k: int| 0 <= k < q implies tx_before(#[trigger] before[k], x) by {
                    lemma_tx_before_total(before[k], x);
                }
                if q < before.len() {
                    assert forall|k: int| q <= k < before.len() implies tx_before(x, #[trigger] before[k]) by {
                        if k > q {
                            lemma_tx_before_transitive(x, before[q as int], before[k]);
                        }
                    }
                }
                assert forall|a: int, b: int| 0 <= a < b < nv.len() implies tx_before(nv[a], nv[b]) by {
                    if b < q {
                        assert(nv[a] == before[a] && nv[b] == before[b]);
                    } else if b == q {
                        assert(nv[a] == before[a]);
                    } else if a == q {
                        assert(nv[b] == before[b - 1]);
                    } else if a < q {
                        assert(nv[a] == before[a] && nv[b] == before[b - 1]);
                    } else {
                        assert(nv[a] == before[a - 1] && nv[b] == before[b - 1]);
                    }
                }
                vstd::seq_lib::to_multiset_insert(before, q as int, x);
                let prev = eligible_views(txs@.take(i as int), cutoff);
                assert(eligible_views(txs@.take(i + 1), cutoff) == prev.push(x));
                vstd::seq_lib::to_multiset_build(prev, x);
                assert(nv.to_multiset() == prev.push(x).to_multiset());
            }
        } else {
            assert(eligible_views(txs@.take(i + 1), cutoff) == eligible_views(txs@.take(i as int), cutoff));
        }
        i = i + 1;
    }
    proof {
        assert(txs@.take(txs@.len() as int) =~= txs@);
    }
    out
}

/// Where the run of `p[a]`'s sender begins (in the gatherer's order a
/// sender's transactions are adjacent).
pub open spec fn run_start(p: Seq<(Seq<u8>, u64, Seq<u8>, u64)>, a: int) -> int
    decreases a,
{
    if a > 0 && p[a - 1].0 == p[a].0 {
        run_start(p, a - 1)
    } else {
        a
    }
}

/// `p[a]` is on its sender's nonce chain: from the sender's first
/// transaction up to it, each nonce is one more than the one before.
pub open spec fn on_chain(p: Seq<(Seq<u8>, u64, Seq<u8>, u64)>, a: int) -> bool
    decreases a,
{
    if a > 0 && p[a - 1].0 == p[a].0 {
        on_chain(p, a - 1) && p[a].1 == p[a - 1].1 + 1
    } else {
        true
    }
}

/// How many of the first `k` positions are on the chain that begins at `r`.
pub open spec fn chain_len(p: Seq<(Seq<u8>, u64, Seq<u8>, u64)>, r: int, k: int) -> nat
    decreases k,
{
    if k <= 0 {
        0
    } else {
        chain_len(p, r, k - 1) + if run_start(p, k - 1) == r && on_chain(p, k - 1) {
            1nat
        } else {
            0nat
        }
    }
}

/// The best gas price on the chain that begins at `r`, among the first `k`
/// positions (0 when there is none).
pub open spec fn chain_gas(p: Seq<(Seq<u8>, u64, Seq<u8>, u64)>, r: int, k: int) -> u64
    decreases k,
{
    if k <= 0 {
        0
    } else {
        let g = chain_gas(p, r, k - 1);
        if run_start(p, k - 1) == r && on_chain(p, k - 1) && p[k - 1].3 > g {
            p[k - 1].3
        } else {
            g
        }
    }
}

/// The chain that begins at `r1` is taken before the one at `r2`: its best
/// gas price is higher, or equal and its sender sorts first.
pub open spec fn chain_first(p: Seq<(Seq<u8>, u64, Seq<u8>, u64)>, r1: int, r2: int) -> bool {
    let n = p.len() as int;
    ||| chain_gas(p, r1, n) > chain_gas(p, r2, n)
    ||| (chain_gas(p, r1, n) == chain_gas(p, r2, n) && bytes_lt(p[r1].0, p[r2].0))
}

/// How many transactions the chains taken before the chain at `r` hold,
/// among the chains that begin before position `k`.
pub open spec fn taken_before(p: Seq<(Seq<u8>, u64, Seq<u8>, u64)>, r: int, k: int) -> nat
    decreases k,
{
    if k <= 0 {
        0
    } else {
        taken_before(p, r, k - 1) + if run_start(p, k - 1) == k - 1 && chain_first(p, k - 1, r) {
            chain_len(p, k - 1, p.len() as int)
        } else {
            0nat
        }
    }
}

/// `p[a]` is taken: it is on its sender's chain, and the chains taken
/// before it together with its place in its own chain leave it under the cap.
pub open spec fn is_taken(p: Seq<(Seq<u8>, u64, Seq<u8>, u64)>, cap: int, a: int) -> bool {
    let r = run_start(p, a);
    on_chain(p, a) && taken_before(p, r, p.len() as int) + (a - r) < cap
}

/// The transactions taken among the first `k` positions, in order.
pub open spec fn taken_upto(p: Seq<(Seq<u8>, u64, Seq<u8>, u64)>, cap: int, k: int) -> Seq<(Seq<u8>, u64, Seq<u8>, u64)>
    decreases k,
{
    if k <= 0 {
        seq![]
    } else {
        let rest = taken_upto(p, cap, k - 1);
        if is_taken(p, cap, k - 1) {
            rest.push(p[k - 1])
        } else {
            rest
        }
    }
}

/// What a checkpoint takes of the ordered eligible transactions `p`: all
/// of them when they fit under the cap; otherwise the senders' nonce chains,
/// the chain with the best gas price first (ties by sender), each taken as
/// far as the cap allows, in the order of `p`.
pub open spec fn checkpoint_selection(p: Seq<(Seq<u8>, u64, Seq<u8>, u64)>, cap: int) -> Seq<(Seq<u8>, u64, Seq<u8>, u64)> {
    if p.len() <= cap {
        p
    } else {
        taken_upto(p, cap, p.len() as int)
    }
}

proof fn lemma_run_start_bounds(p: Seq<(Seq<u8>, u64, Seq<u8>, u64)>, a: int)
    requires
        0 <= a,
    ensures
        0 <= run_start(p, a) <= a,
    decreases a,
{
    if a > 0 && p[a - 1].0 == p[a].0 {
        lemma_run_start_bounds(p, a - 1);
    }
}

proof fn lemma_chain_len_bound(p: Seq<(Seq<u8>, u64, Seq<u8>, u64)>, r: int, k: int)
    requires
        0 <= k,
    ensures
        chain_len(p, r, k) <= k,
    decreases k,
{
    if k > 0 {
        lemma_chain_len_bound(p, r, k - 1);
    }
}

/// The positions, in `txs`, of what a checkpoint takes, with how many
/// transactions were eligible.
pub struct Gathered {
    pub selected: Vec<usize>,
    pub eligible: usize,
}

/// Chooses the transactions of a checkpoint among the unfinalized `txs`:
/// those eligible at `cutoff` (see `is_eligible`), in sender, nonce and hash
/// order, cut down to `tx_cap` by nonce chains when there are more (see
/// `checkpoint_selection`).
pub fn gather_eligible(txs: &[PendingTx], cutoff: u64, tx_cap: usize) -> (g: Gathered)
    requires
        hashes_distinct(txs@),
    ensures
        g.eligible == eligible_views(txs@, cutoff).len(),
        g.selected@.len() <= tx_cap,
        forall|k: int| 0 <= k < g.selected@.len() ==> g.selected@[k] < txs@.len(),
        exists|p: Seq<(Seq<u8>, u64, Seq<u8>, u64)>| tx_order_of(eligible_views(txs@, cutoff), p),
        forall|p: Seq<(Seq<u8>, u64, Seq<u8>, u64)>|
            tx_order_of(eligible_views(txs@, cutoff), p) ==> views_at(txs@, g.selected@)
                == checkpoint_selection(p, tx_cap as int),
{
    broadcast use vstd::seq_lib::group_to_multiset_ensures;

    let order = ordered_eligible(txs, cutoff);
    let ghost p = views_at(txs@, order@);
    let n = order.len();
    proof {
        assert(p.len() == p.to_multiset().len());
        assert(eligible_views(txs@, cutoff).len() == eligible_views(txs@, cutoff).to_multiset().len());
        assert forall|q: Seq<(Seq<u8>, u64, Seq<u8>, u64)>|
            tx_order_of(eligible_views(txs@, cutoff), q) implies q == p by {
            lemma_tx_order_unique(eligible_views(txs@, cutoff), q, p);
        }
    }
    proof {
        lemma_selection_within_cap(p, tx_cap as int);
    }
    if n <= tx_cap {
        return Gathered { selected: order, eligible: n };
    }
    let selected = take_chains(txs, &order, tx_cap);
    assert(views_at(txs@, selected@).len() == selected@.len());
    Gathered { selected, eligible: n }
}

proof fn lemma_run_start_idempotent(p: Seq<(Seq<u8>, u64, Seq<u8>, u64)>, a: int)
    requires
        0 <= a,
    ensures
        run_start(p, run_start(p, a)) == run_start(p, a),
    decreases a,
{
    if a > 0 && p[a - 1].0 == p[a].0 {
        lemma_run_start_idempotent(p, a - 1);
    }
}

/// `x`, but no more than `cap`.
pub open spec fn at_most(x: int, cap: int) -> int {
    if x < cap {
        x
    } else {
        cap
    }
}

/// The transactions at `order` that the chains leave under `cap` (see
/// `is_taken`), in order.
fn take_chains(txs: &[PendingTx], order: &Vec<usize>, cap: usize) -> (r: Vec<usize>)
    requires
        forall|k: int| 0 <= k < order@.len() ==> order@[k] < txs@.len(),
    ensures
        forall|k: int| 0 <= k < r@.len() ==> r@[k] < txs@.len(),
        views_at(txs@, r@) == taken_upto(views_at(txs@, order@), cap as int, order@.len() as int),
{
    let ghost p = views_at(txs@, order@);
    let n = order.len();
    let mut start: Vec<usize> = Vec::new();
    let mut chain: Vec<bool> = Vec::new();
    let mut a: usize = 0;
    while a < n
        invariant
            a <= n,
            n == order@.len(),
            p == views_at(txs@, order@),
            forall|k: int| 0 <= k < order@.len() ==> order@[k] < txs@.len(),
            start@.len() == a,
            chain@.len() == a,
            forall|b: int| 0 <= b < a ==> start@[b] == run_start(p, b) && chain@[b] == on_chain(p, b),
        decreases n - a,
    {
        let same = a > 0 && str_eq(txs[order[a - 1]].from.as_str(), txs[order[a]].from.as_str());
        proof {
            if a > 0 {
                let f0 = txs@[order@[a - 1] as int].from@;
                let f1 = txs@[order@[a as int] as int].from@;
                vstd::utf8::encode_utf8_decode_utf8(f0);
                vstd::utf8::encode_utf8_decode_utf8(f1);
                assert(p[a - 1].0 == encode_utf8(f0));
                assert(p[a as int].0 == encode_utf8(f1));
            }
        }
        if same {
            let s0 = start[a - 1];
            let prev = txs[order[a - 1]].nonce;
            let cur = txs[order[a]].nonce;
            let c = chain[a - 1] && prev < u64::MAX && cur == prev + 1;
            assert(p[a - 1].1 == prev && p[a as int].1 == cur);
            start.push(s0);
            chain.push(c);
            proof {
                assert(p[a - 1].0 == p[a as int].0);
                assert(s0 == run_start(p, a - 1));
                assert(start@[a as int] == run_start(p, a as int));
                assert(chain@[a as int] == on_chain(p, a as int));
            }
        } else {
            start.push(a);
            chain.push(true);
            proof {
                assert(!(a > 0 && p[a - 1].0 == p[a as int].0));
                assert(start@[a as int] == run_start(p, a as int));
            }
        }
        a = a + 1;
    }
    let mut count: Vec<usize> = Vec::new();
    let mut best: Vec<u64> = Vec::new();
    let mut z: usize = 0;
    while z < n
        invariant
            z <= n,
            count@.len() == z,
            best@.len() == z,
            forall|r: int| 0 <= r < z ==> count@[r] == 0 && best@[r] == 0,
        decreases n - z,
    {
        count.push(0);
        best.push(0);
        z = z + 1;
    }
    let mut a: usize = 0;
    while a < n
        invariant
            a <= n,
            n == order@.len(),
            p == views_at(txs@, order@),
            forall|k: int| 0 <= k < order@.len() ==> order@[k] < txs@.len(),
            start@.len() == n,
            chain@.len() == n,
            forall|b: int| 0 <= b < n ==> start@[b] == run_start(p, b) && chain@[b] == on_chain(p, b),
            count@.len() == n,
            best@.len() == n,
            forall|r: int| 0 <= r < n ==> count@[r] == chain_len(p, r, a as int) && best@[r] == chain_gas(p, r, a as int),
        decreases n - a,
    {
        if chain[a] {
            let r = start[a];
            proof {
                lemma_run_start_bounds(p, a as int);
                lemma_chain_len_bound(p, r as int, a as int);
            }
            count.set(r, count[r] + 1);
            let gas = match txs[order[a]].gas_price {
                Some(g) => g,
                None => 0,
            };
            assert(p[a as int].3 == gas);
            if gas > best[r] {
                best.set(r, gas);
            }
        }
        proof {
            assert forall|r: int| 0 <= r < n implies count@[r] == chain_len(p, r, a + 1) && best@[r]
                == chain_gas(p, r, a + 1) by {
                assert(chain_len(p, r, a + 1) == chain_len(p, r, a as int) + if run_start(p, a as int) == r
                    && on_chain(p, a as int) {
                    1nat
                } else {
                    0nat
                });
            }
        }
        a = a + 1;
    }
    let mut ahead: Vec<usize> = Vec::new();
    let mut r: usize = 0;
    while r < n
        invariant
            r <= n,
            n == order@.len(),
            p == views_at(txs@, order@),
            forall|k: int| 0 <= k < order@.len() ==> order@[k] < txs@.len(),
            start@.len() == n,
            forall|b: int| 0 <= b < n ==> start@[b] == run_start(p, b),
            count@.len() == n,
            best@.len() == n,
            forall|x: int| 0 <= x < n ==> count@[x] == chain_len(p, x, n as int) && best@[x] == chain_gas(p, x, n as int),
            ahead@.len() == r,
            forall|x: int|
                0 <= x < r && start@[x] == x ==> ahead@[x] == at_most(taken_before(p, x, n as int) as int, cap as int),
        decreases n - r,
    {
        if start[r] == r {
            let mut acc: usize = 0;
            let mut b: usize = 0;
            while b < n
                invariant
                    b <= n,
                    r < n,
                    n == order@.len(),
                    p == views_at(txs@, order@),
                    forall|k: int| 0 <= k < order@.len() ==> order@[k] < txs@.len(),
                    start@.len() == n,
                    forall|x: int| 0 <= x < n ==> start@[x] == run_start(p, x),
                    count@.len() == n,
                    best@.len() == n,
                    forall|x: int| 0 <= x < n ==> count@[x] == chain_len(p, x, n as int) && best@[x] == chain_gas(p, x, n as int),
                    acc <= cap,
                    acc == at_most(taken_before(p, r as int, b as int) as int, cap as int),
                decreases n - b,
            {
                if start[b] == b {
                    let gb = best[b];
                    let gr = best[r];
                    let first = gb > gr || (gb == gr && key_before(
                        txs[order[b]].from.as_str(),
                        txs[order[r]].from.as_str(),
                    ));
                    assert(p[b as int].0 == encode_utf8(txs@[order@[b as int] as int].from@));
                    assert(p[r as int].0 == encode_utf8(txs@[order@[r as int] as int].from@));
                    assert(first == chain_first(p, b as int, r as int));
                    if first {
                        let c = count[b];
                        acc = if c >= cap - acc { cap } else { acc + c };
                    }
                }
                b = b + 1;
            }
            ahead.push(acc);
        } else {
            ahead.push(0);
        }
        r = r + 1;
    }
    let mut out: Vec<usize> = Vec::new();
    let mut a: usize = 0;
    proof {
        assert(views_at(txs@, out@) =~= Seq::<(Seq<u8>, u64, Seq<u8>, u64)>::empty());
    }
    while a < n
        invariant
            a <= n,
            n == order@.len(),
            p == views_at(txs@, order@),
            forall|k: int| 0 <= k < order@.len() ==> order@[k] < txs@.len(),
            start@.len() == n,
            chain@.len() == n,
            forall|b: int| 0 <= b < n ==> start@[b] == run_start(p, b) && chain@[b] == on_chain(p, b),
            ahead@.len() == n,
            forall|x: int|
                0 <= x < n && start@[x] == x ==> ahead@[x] == at_most(taken_before(p, x, n as int) as int, cap as int),
            forall|k: int| 0 <= k < out@.len() ==> out@[k] < txs@.len(),
            views_at(txs@, out@) == taken_upto(p, cap as int, a as int),
        decreases n - a,
    {
        let r = start[a];
        proof {
            lemma_run_start_bounds(p, a as int);
            lemma_run_start_idempotent(p, a as int);
        }
        let ghost before = out@;
        if chain[a] && a - r < cap - ahead[r] {
            out.push(order[a]);
            proof {
                assert(views_at(txs@, out@) =~= views_at(txs@, before).push(p[a as int]));
            }
        }
        a = a + 1;
    }
    out
}

/// The place of `p[a]` in the order in which chains are taken: the
/// transactions of the chains taken before its own, plus its place in its
/// own chain.
pub open spec fn take_rank(p: Seq<(Seq<u8>, u64, Seq<u8>, u64)>, a: int) -> int {
    let r = run_start(p, a);
    taken_before(p, r, p.len() as int) + (a - r)
}

/// Every position from the start of a chain up to a position on it is on
/// the same chain.
proof fn lemma_chain_prefix(p: Seq<(Seq<u8>, u64, Seq<u8>, u64)>, a: int, x: int)
    requires
        0 <= a,
        on_chain(p, a),
        run_start(p, a) <= x <= a,
    ensures
        run_start(p, x) == run_start(p, a),
        on_chain(p, x),
    decreases a,
{
    if x < a {
        lemma_chain_prefix(p, a - 1, x);
    }
}

proof fn lemma_chain_len_monotone(p: Seq<(Seq<u8>, u64, Seq<u8>, u64)>, r: int, j: int, k: int)
    requires
        0 <= j <= k,
    ensures
        chain_len(p, r, j) <= chain_len(p, r, k),
    decreases k,
{
    if j < k {
        lemma_chain_len_monotone(p, r, j, k - 1);
    }
}

/// A chain holds at least the positions from its start to any position on it.
proof fn lemma_chain_len_covers(p: Seq<(Seq<u8>, u64, Seq<u8>, u64)>, a: int, k: int)
    requires
        0 <= a,
        on_chain(p, a),
        run_start(p, a) <= k <= a + 1,
    ensures
        chain_len(p, run_start(p, a), k) >= k - run_start(p, a),
    decreases k,
{
    let r = run_start(p, a);
    lemma_run_start_bounds(p, a);
    if k > r {
        lemma_chain_len_covers(p, a, k - 1);
        lemma_chain_prefix(p, a, k - 1);
        assert(chain_len(p, r, k) == chain_len(p, r, k - 1) + 1);
    }
}

proof fn lemma_chain_first_transitive(p: Seq<(Seq<u8>, u64, Seq<u8>, u64)>, x: int, y: int, z: int)
    requires
        chain_first(p, x, y),
        chain_first(p, y, z),
    ensures
        chain_first(p, x, z),
{
    if bytes_lt(p[x].0, p[y].0) && bytes_lt(p[y].0, p[z].0) {
        lemma_bytes_lt_transitive(p[x].0, p[y].0, p[z].0);
    }
}

/// Everything taken before a chain that comes first is also taken before
/// the later one, and so is the earlier chain itself.
proof fn lemma_taken_before_grows(p: Seq<(Seq<u8>, u64, Seq<u8>, u64)>, r1: int, r2: int, k: int)
    requires
        chain_first(p, r1, r2),
        0 <= r1,
        run_start(p, r1) == r1,
        0 <= k,
    ensures
        taken_before(p, r2, k) >= taken_before(p, r1, k) + if r1 < k {
            chain_len(p, r1, p.len() as int)
        } else {
            0nat
        },
    decreases k,
{
    if k > 0 {
        lemma_taken_before_grows(p, r1, r2, k - 1);
        let x = k - 1;
        if run_start(p, x) == x && chain_first(p, x, r1) {
            lemma_chain_first_transitive(p, x, r1, r2);
        }
        lemma_bytes_lt_irreflexive(p[r1].0);
    }
}

/// In the gatherer's order, two different runs belong to different senders.
proof fn lemma_runs_differ(p: Seq<(Seq<u8>, u64, Seq<u8>, u64)>, r1: int, r2: int)
    requires
        in_tx_order(p),
        0 <= r1 < r2 < p.len(),
        run_start(p, r1) == r1,
        run_start(p, r2) == r2,
    ensures
        p[r1].0 != p[r2].0,
{
    if p[r1].0 == p[r2].0 {
        let x = r2 - 1;
        if x > r1 {
            assert(tx_before(p[r1], p[x]));
            assert(tx_before(p[x], p[r2]));
            if bytes_lt(p[r1].0, p[x].0) {
                if bytes_lt(p[x].0, p[r2].0) {
                    lemma_bytes_lt_asymmetric(p[r1].0, p[x].0);
                    lemma_bytes_lt_transitive(p[x].0, p[r2].0, p[x].0);
                    lemma_bytes_lt_irreflexive(p[x].0);
                } else {
                    lemma_bytes_lt_irreflexive(p[r1].0);
                }
            } else if bytes_lt(p[x].0, p[r2].0) {
                lemma_bytes_lt_irreflexive(p[r1].0);
            }
        }
        assert(p[x].0 == p[r2].0);
        lemma_run_start_bounds(p, x);
    }
}

/// Two different transactions that are taken have different ranks.
proof fn lemma_take_rank_distinct(p: Seq<(Seq<u8>, u64, Seq<u8>, u64)>, cap: int, a: int, b: int)
    requires
        in_tx_order(p),
        0 <= a < p.len(),
        0 <= b < p.len(),
        a != b,
        is_taken(p, cap, a),
        is_taken(p, cap, b),
    ensures
        take_rank(p, a) != take_rank(p, b),
{
    let n = p.len() as int;
    let ra = run_start(p, a);
    let rb = run_start(p, b);
    lemma_run_start_bounds(p, a);
    lemma_run_start_bounds(p, b);
    lemma_run_start_idempotent(p, a);
    lemma_run_start_idempotent(p, b);
    if ra != rb {
        if ra < rb {
            lemma_runs_differ(p, ra, rb);
        } else {
            lemma_runs_differ(p, rb, ra);
        }
        lemma_bytes_lt_total(p[ra].0, p[rb].0);
        lemma_chain_len_covers(p, a, a + 1);
        lemma_chain_len_monotone(p, ra, a + 1, n);
        lemma_chain_len_covers(p, b, b + 1);
        lemma_chain_len_monotone(p, rb, b + 1, n);
        if chain_first(p, ra, rb) {
            lemma_taken_before_grows(p, ra, rb, n);
        } else {
            assert(chain_first(p, rb, ra));
            lemma_taken_before_grows(p, rb, ra, n);
        }
    }
}

/// The ranks of the transactions taken among the first `k` positions.
spec fn taken_ranks(p: Seq<(Seq<u8>, u64, Seq<u8>, u64)>, cap: int, k: int) -> Set<int> {
    Set::new(|x: int| exists|a: int| 0 <= a < k && is_taken(p, cap, a) && take_rank(p, a) == x)
}

proof fn lemma_taken_count(p: Seq<(Seq<u8>, u64, Seq<u8>, u64)>, cap: int, k: int)
    requires
        in_tx_order(p),
        0 <= k <= p.len(),
    ensures
        taken_ranks(p, cap, k).finite(),
        taken_ranks(p, cap, k).len() == taken_upto(p, cap, k).len(),
    decreases k,
{
    if k == 0 {
        assert(taken_ranks(p, cap, k) =~= Set::<int>::empty());
    } else {
        lemma_taken_count(p, cap, k - 1);
        let prev = taken_ranks(p, cap, k - 1);
        if is_taken(p, cap, k - 1) {
            let x = take_rank(p, k - 1);
            assert(taken_ranks(p, cap, k) =~= prev.insert(x));
            if prev.contains(x) {
                let a = choose|a: int| 0 <= a < k - 1 && is_taken(p, cap, a) && take_rank(p, a) == x;
                lemma_take_rank_distinct(p, cap, a, k - 1);
            }
        } else {
            assert(taken_ranks(p, cap, k) =~= prev);
        }
    }
}

/// A checkpoint never takes more transactions than its cap.
pub proof fn lemma_selection_within_cap(p: Seq<(Seq<u8>, u64, Seq<u8>, u64)>, cap: int)
    requires
        in_tx_order(p),
        0 <= cap,
    ensures
        checkpoint_selection(p, cap).len() <= cap,
{
    if p.len() > cap {
        let n = p.len() as int;
        lemma_taken_count(p, cap, n);
        vstd::set_lib::lemma_int_range(0, cap);
        assert forall|x: int| taken_ranks(p, cap, n).contains(x) implies vstd::set_lib::set_int_range(0, cap).contains(x) by {
            let a = choose|a: int| 0 <= a < n && is_taken(p, cap, a) && take_rank(p, a) == x;
            lemma_run_start_bounds(p, a);
        }
        vstd::set_lib::lemma_len_subset(taken_ranks(p, cap, n), vstd::set_lib::set_int_range(0, cap));
    }
}

/// A transaction is taken only together with every transaction before it
/// on its sender's chain: no nonce gap opens within what a checkpoint takes.
pub proof fn lemma_taken_chain_prefix(p: Seq<(Seq<u8>, u64, Seq<u8>, u64)>, cap: int, a: int, x: int)
    requires
        0 <= a,
        is_taken(p, cap, a),
        run_start(p, a) <= x <= a,
    ensures
        is_taken(p, cap, x),
{
    lemma_chain_prefix(p, a, x);
}

} // verus!
