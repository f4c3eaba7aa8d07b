//! Checkpoint hashing, hash-text validation, validator-mode selection, the
//! fork-recovery trigger, the acceptance of a signed vote and the height the
//! network is taken to be at.

use vstd::prelude::*;
use vstd::string::StrSliceExecFns;
use vstd::utf8::encode_utf8;
use crate::bls::{bls_signature_decodes, bls_signature_verifies, bls_verify, signature_decodes, signature_dst};
use crate::consensus::string_views;
use crate::hashing::{
    base64_url_decode, base64_url_decoded, decimal, hex_decode, hex_encode, hex_lower, hex_value, push_bytes,
    push_decimal, sha256_digest, sha256_spec, str_eq,
};

verus! {

/// Consecutive previous-hash mismatches after which chain recovery starts.
pub const FORK_RECOVERY_THRESHOLD: u32 = 3;

/// Most transactions in one checkpoint.
pub const MAX_CHECKPOINT_TXS: usize = 1000;

/// Smallest, largest and starting per-checkpoint transaction caps.
pub const DYNAMIC_TX_CAP_MIN: usize = 10;

pub const DYNAMIC_TX_CAP_MAX: usize = 600;

pub const DYNAMIC_TX_CAP_DEFAULT: usize = 50;

/// Shortest time between two checkpoints, in milliseconds.
pub const MIN_INTER_CHECKPOINT_MS: u64 = 2000;

/// The text that a checkpoint hash is taken over:
/// `height:merkle:state:receipt:tips:timestamp`, as UTF-8 bytes.
pub open spec fn checkpoint_preimage(
    height: u64,
    tx_merkle_root: Seq<char>,
    state_root: Seq<char>,
    receipt_root: Seq<char>,
    tip_count: u32,
    timestamp: u64,
) -> Seq<u8> {
    let colon = seq![58u8];
    decimal(height as nat) + colon + encode_utf8(tx_merkle_root) + colon + encode_utf8(state_root)
        + colon + encode_utf8(receipt_root) + colon + decimal(tip_count as nat) + colon + decimal(
        timestamp as nat,
    )
}

/// SHA-256 of `height:merkle:state:receipt:tips:timestamp`.
pub fn compute_checkpoint_hash(
    height: u64,
    tx_merkle_root: &str,
    state_root: &str,
    receipt_root: &str,
    tip_count: u32,
    timestamp: u64,
) -> (res: Vec<u8>)
    ensures
        res@ == sha256_spec(
            checkpoint_preimage(
                height,
                tx_merkle_root@,
                state_root@,
                receipt_root@,
                tip_count,
                timestamp,
            ),
        ),
        res@.len() == 32,
{
    let mut data: Vec<u8> = Vec::new();
    push_decimal(&mut data, height);
    data.push(58u8);
    push_bytes(&mut data, tx_merkle_root.as_bytes());
    data.push(58u8);
    push_bytes(&mut data, state_root.as_bytes());
    data.push(58u8);
    push_bytes(&mut data, receipt_root.as_bytes());
    data.push(58u8);
    push_decimal(&mut data, tip_count as u64);
    data.push(58u8);
    push_decimal(&mut data, timestamp);
    assert(data@ =~= checkpoint_preimage(
        height,
        tx_merkle_root@,
        state_root@,
        receipt_root@,
        tip_count,
        timestamp,
    ));
    sha256_digest(data.as_slice())
}

/// An ASCII hex digit, either case.
pub open spec fn is_hex_byte(b: u8) -> bool {
    (48 <= b <= 57) || (65 <= b <= 70) || (97 <= b <= 102)
}

/// `s` is 64 bytes of ASCII hex digits: the text of a SHA-256 hash.
pub fn is_valid_hex_hash(s: &str) -> (ok: bool)
    ensures
        ok == (encode_utf8(s@).len() == 64 && forall|i: int|
            0 <= i < 64 ==> is_hex_byte(#[trigger] encode_utf8(s@)[i])),
{
    let bytes = s.as_bytes();
    if bytes.len() != 64 {
        return false;
    }
    let mut i: usize = 0;
    while i < 64
        invariant
            i <= 64,
            bytes@ == encode_utf8(s@),
            bytes@.len() == 64,
            forall|j: int| 0 <= j < i ==> is_hex_byte(#[trigger] bytes@[j]),
        decreases 64 - i,
    {
        let b = bytes[i];
        if !((48u8 <= b && b <= 57u8) || (65u8 <= b && b <= 70u8) || (97u8 <= b && b <= 102u8)) {
            return false;
        }
        i = i + 1;
    }
    true
}

/// A node signs checkpoints alone when no quorum was reached and it is not
/// running on mainnet.
pub fn should_use_single_validator(quorum_reached: bool, mainnet_mode: bool) -> (single: bool)
    ensures
        single == (!quorum_reached && !mainnet_mode),
{
    !quorum_reached && !mainnet_mode
}

/// Counts consecutive previous-hash mismatches.
pub struct ForkRecovery {
    consecutive_failures: u32,
}

impl ForkRecovery {
    /// The number of mismatches since the last reset.
    pub closed spec fn failures(&self) -> nat {
        self.consecutive_failures as nat
    }

    /// No mismatches yet.
    pub fn new() -> (r: Self)
        ensures
            r.failures() == 0,
    {
        ForkRecovery { consecutive_failures: 0 }
    }

    /// The number of mismatches since the last reset.
    pub fn consecutive_failures(&self) -> (n: u32)
        ensures
            n == self.failures(),
    {
        self.consecutive_failures
    }

    /// Records one more mismatch; true when recovery should start.
    pub fn record_fork_failure(&mut self) -> (trigger: bool)
        requires
            old(self).failures() < u32::MAX,
        ensures
            final(self).failures() == old(self).failures() + 1,
            trigger == (final(self).failures() >= FORK_RECOVERY_THRESHOLD),
    {
        self.consecutive_failures = self.consecutive_failures + 1;
        self.consecutive_failures >= FORK_RECOVERY_THRESHOLD
    }

    /// Forgets the mismatches (after a checkpoint was adopted).
    pub fn reset_fork_failures(&mut self)
        ensures
            final(self).failures() == 0,
    {
        self.consecutive_failures = 0;
    }
}

/// No element of `s` is larger than a later one.
pub open spec fn ascending(s: Seq<u64>) -> bool {
    forall|i: int, j: int| 0 <= i <= j < s.len() ==> s[i] <= s[j]
}

/// The nonzero elements of `s`, in order.
pub open spec fn nonzero_heights(s: Seq<u64>) -> Seq<u64>
    decreases s.len(),
{
    if s.len() == 0 {
        seq![]
    } else {
        let rest = nonzero_heights(s.drop_last());
        if s.last() > 0 {
            rest.push(s.last())
        } else {
            rest
        }
    }
}

/// The height that the network is taken to be at, given the highest height
/// that gossip has seen (0 for none) and the nonzero handshake heights of
/// validated peers in ascending order: the larger of the gossip height and
/// the middle handshake height (the upper one of two), or the gossip height
/// alone when no peer announced one; nothing when neither is known.
pub open spec fn consensus_height_of(live: u64, sorted: Seq<u64>) -> Option<u64> {
    if sorted.len() == 0 {
        if live > 0 {
            Some(live)
        } else {
            None
        }
    } else {
        let middle = sorted[sorted.len() as int / 2];
        Some(if live > middle { live } else { middle })
    }
}

/// Two ascending sequences with the same elements are equal.
pub proof fn lemma_ascending_unique(p: Seq<u64>, q: Seq<u64>)
    requires
        ascending(p),
        ascending(q),
        p.to_multiset() == q.to_multiset(),
    ensures
        p == q,
    decreases p.len(),
{
    vstd::seq_lib::to_multiset_len(p);
    vstd::seq_lib::to_multiset_len(q);
    if p.len() > 0 {
        vstd::seq_lib::to_multiset_contains(p, p[0]);
        vstd::seq_lib::to_multiset_contains(q, p[0]);
        vstd::seq_lib::to_multiset_contains(q, q[0]);
        vstd::seq_lib::to_multiset_contains(p, q[0]);
        let i = choose|i: int| 0 <= i < q.len() && q[i] == p[0];
        let j = choose|j: int| 0 <= j < p.len() && p[j] == q[0];
        assert(q[0] <= q[i]);
        assert(p[0] <= p[j]);
        vstd::seq_lib::to_multiset_remove(p, 0);
        vstd::seq_lib::to_multiset_remove(q, 0);
        let p1 = p.remove(0);
        let q1 = q.remove(0);
        assert forall|a: int, b: int| 0 <= a <= b < p1.len() implies p1[a] <= p1[b] by {
            assert(p1[a] == p[a + 1] && p1[b] == p[b + 1]);
        }
        assert forall|a: int, b: int| 0 <= a <= b < q1.len() implies q1[a] <= q1[b] by {
            assert(q1[a] == q[a + 1] && q1[b] == q[b + 1]);
        }
        lemma_ascending_unique(p1, q1);
        assert forall|k: int| 0 <= k < p.len() implies p[k] == q[k] by {
            if k > 0 {
                assert(p[k] == p1[k - 1] && q[k] == q1[k - 1]);
            }
        }
        assert(p =~= q);
    } else {
        assert(p =~= q);
    }
}

/// The elements of `v` in ascending order.
pub(crate) fn sort_ascending(v: &[u64]) -> (r: Vec<u64>)
    ensures
        r@.to_multiset() == v@.to_multiset(),
        ascending(r@),
{
    let mut out: Vec<u64> = Vec::new();
    let mut i: usize = 0;
    proof {
        assert(v@.take(0) =~= Seq::<u64>::empty());
    }
    while i < v.len()
        invariant
            i <= v@.len(),
            out@.to_multiset() == v@.take(i as int).to_multiset(),
            ascending(out@),
        decreases v@.len() - i,
    {
        let x = v[i];
        let mut p: usize = 0;
        while p < out.len() && out[p] <= x
            invariant
                p <= out@.len(),
                forall|q: int| 0 <= q < p ==> out@[q] <= x,
            decreases out@.len() - p,
        {
            p = p + 1;
        }
        let ghost before = out@;
        out.insert(p, x);
        proof {
            assert forall|a: int, b: int| 0 <= a <= b < out@.len() implies out@[a] <= out@[b] by {
                if b < p {
                    assert(out@[a] == before[a] && out@[b] == before[b]);
                } else if b == p {
                    if a < p {
                        assert(out@[a] == before[a]);
                    }
                } else if a == p {
                    assert(out@[b] == before[b - 1]);
                    assert(before[p as int] > x);
                } else if a < p {
                    assert(out@[a] == before[a] && out@[b] == before[b - 1]);
                } else {
                    assert(out@[a] == before[a - 1] && out@[b] == before[b - 1]);
                }
            }
            vstd::seq_lib::to_multiset_insert(before, p as int, x);
            assert(v@.take(i + 1) =~= v@.take(i as int).push(x));
            vstd::seq_lib::to_multiset_build(v@.take(i as int), x);
        }
        i = i + 1;
    }
    proof {
        assert(v@.take(v@.len() as int) =~= v@);
    }
    out
}

/// The height the network is at, from the highest height that gossip has
/// seen (0 when there is none) and the heights that validated peers
/// announced in their handshakes.
pub fn network_consensus_height(live_peer_height: u64, handshake_heights: &[u64]) -> (h: Option<u64>)
    ensures
        exists|p: Seq<u64>|
            p.to_multiset() == nonzero_heights(handshake_heights@).to_multiset() && ascending(p),
        forall|p: Seq<u64>|
            p.to_multiset() == nonzero_heights(handshake_heights@).to_multiset() && ascending(p) ==> h
                == consensus_height_of(live_peer_height, p),
{
    let mut heights: Vec<u64> = Vec::new();
    let mut i: usize = 0;
    while i < handshake_heights.len()
        invariant
            i <= handshake_heights@.len(),
            heights@ == nonzero_heights(handshake_heights@.take(i as int)),
        decreases handshake_heights@.len() - i,
    {
        proof {
            let t = handshake_heights@.take(i + 1);
            assert(t.drop_last() =~= handshake_heights@.take(i as int));
        }
        if handshake_heights[i] > 0 {
            heights.push(handshake_heights[i]);
        }
        i = i + 1;
    }
    proof {
        assert(handshake_heights@.take(handshake_heights@.len() as int) =~= handshake_heights@);
    }
    let sorted = sort_ascending(heights.as_slice());
    proof {
        assert forall|p: Seq<u64>|
            p.to_multiset() == nonzero_heights(handshake_heights@).to_multiset() && ascending(p) implies p
                == sorted@ by {
            lemma_ascending_unique(p, sorted@);
        }
    }
    if sorted.len() == 0 {
        if live_peer_height > 0 {
            Some(live_peer_height)
        } else {
            None
        }
    } else {
        let middle = sorted[sorted.len() / 2];
        if live_peer_height > middle {
            Some(live_peer_height)
        } else {
            Some(middle)
        }
    }
}

/// A vote for a checkpoint that passed its checks: the signer's registered
/// stake and the signature.
#[derive(Clone, Debug)]
pub struct AcceptedVote {
    pub canonical_stake: u64,
    pub sig_bytes: Vec<u8>,
}

/// What a signed vote is accepted with: the checkpoint hash must be hex,
/// key and signature unpadded base64url, the signature must verify, the key
/// must be the one registered for the signer (when one is registered), and
/// the registered stake must not be zero.
pub open spec fn vote_acceptance(
    bls_public_key: Seq<char>,
    signature: Seq<char>,
    checkpoint_hash: Seq<char>,
    canonical_stake: u64,
    canonical_bls_key: Seq<char>,
) -> Option<(u64, Seq<u8>)> {
    match (hex_value(checkpoint_hash), base64_url_decoded(bls_public_key), base64_url_decoded(signature)) {
        (Some(hash), Some(key), Some(sig)) => {
            if bls_signature_verifies(hash, signature_dst(), sig, key) && !(canonical_bls_key.len() > 0
                && canonical_bls_key != bls_public_key) && canonical_stake > 0 {
                Some((canonical_stake, sig))
            } else {
                None
            }
        },
        _ => None,
    }
}

/// Checks a validator's signed vote for a checkpoint against the stake and
/// key registered for it (0 and empty when it has none).
pub fn accept_vote(
    bls_public_key: &str,
    signature: &str,
    checkpoint_hash: &str,
    canonical_stake: u64,
    canonical_bls_key: &str,
) -> (r: Option<AcceptedVote>)
    ensures
        match vote_acceptance(bls_public_key@, signature@, checkpoint_hash@, canonical_stake, canonical_bls_key@) {
            Some((stake, sig)) => r matches Some(v) && v.canonical_stake == stake && v.sig_bytes@ == sig,
            None => r is None,
        },
{
    let hash_bytes = match hex_decode(checkpoint_hash) {
        Ok(b) => b,
        Err(_) => return None,
    };
    let key_bytes = match base64_url_decode(bls_public_key) {
        Ok(b) => b,
        Err(_) => return None,
    };
    let sig_bytes = match base64_url_decode(signature) {
        Ok(b) => b,
        Err(_) => return None,
    };
    if !bls_verify(hash_bytes.as_slice(), sig_bytes.as_slice(), key_bytes.as_slice()) {
        return None;
    }
    if canonical_bls_key.unicode_len() > 0 && !str_eq(canonical_bls_key, bls_public_key) {
        return None;
    }
    if canonical_stake == 0 {
        return None;
    }
    Some(AcceptedVote { canonical_stake, sig_bytes })
}

/// The per-checkpoint transaction cap after a round with `eligible`
/// eligible transactions: doubled (within the cap's bounds) when they did
/// not fit, cut by 5% (not below the starting cap) when fewer than half of
/// it were used while it stood above the starting cap, unchanged otherwise.
pub open spec fn next_cap(cap: int, eligible: int) -> int {
    if eligible > cap {
        let doubled = 2 * cap;
        let capped = if doubled < DYNAMIC_TX_CAP_MAX { doubled } else { DYNAMIC_TX_CAP_MAX as int };
        if capped > DYNAMIC_TX_CAP_MIN { capped } else { DYNAMIC_TX_CAP_MIN as int }
    } else if eligible < cap / 2 && cap > DYNAMIC_TX_CAP_DEFAULT {
        let cut = 95 * cap / 100;
        if cut > DYNAMIC_TX_CAP_DEFAULT { cut } else { DYNAMIC_TX_CAP_DEFAULT as int }
    } else {
        cap
    }
}

/// The per-checkpoint transaction cap, which stays between its bounds.
pub struct DynamicTxCap {
    cap: usize,
}

impl DynamicTxCap {
    #[verifier::type_invariant]
    spec fn within_bounds(self) -> bool {
        DYNAMIC_TX_CAP_MIN <= self.cap <= DYNAMIC_TX_CAP_MAX
    }

    /// The cap's value.
    pub closed spec fn value(self) -> int {
        self.cap as int
    }

    /// The starting cap.
    pub fn new() -> (c: Self)
        ensures
            c.value() == DYNAMIC_TX_CAP_DEFAULT,
    {
        DynamicTxCap { cap: DYNAMIC_TX_CAP_DEFAULT }
    }

    /// The current cap.
    pub fn get(&self) -> (n: usize)
        ensures
            n == self.value(),
            DYNAMIC_TX_CAP_MIN <= n <= DYNAMIC_TX_CAP_MAX,
    {
        proof {
            use_type_invariant(self);
        }
        self.cap
    }

    /// Moves the cap after a round with `eligible` eligible transactions
    /// (see `next_cap`), and returns the new cap. The cap is doubled, or 95%
    /// of it kept, rounded down; computed in integers, these are the caps
    /// that the floating-point products `cap * 2.0` (rounded up) and
    /// `cap * 0.95` (rounded down) give within the bounds.
    pub fn adjust(&mut self, eligible: usize) -> (next: usize)
        ensures
            next == final(self).value(),
            final(self).value() == next_cap(old(self).value(), eligible as int),
    {
        proof {
            use_type_invariant(&*self);
        }
        let tx_cap = self.cap;
        let next = if eligible > tx_cap {
            let doubled = 2 * tx_cap;
            let capped = if doubled < DYNAMIC_TX_CAP_MAX { doubled } else { DYNAMIC_TX_CAP_MAX };
            if capped > DYNAMIC_TX_CAP_MIN { capped } else { DYNAMIC_TX_CAP_MIN }
        } else if eligible < tx_cap / 2 && tx_cap > DYNAMIC_TX_CAP_DEFAULT {
            let cut = 95 * tx_cap / 100;
            if cut > DYNAMIC_TX_CAP_DEFAULT { cut } else { DYNAMIC_TX_CAP_DEFAULT }
        } else {
            tx_cap
        };
        self.cap = next;
        next
    }
}

/// Whether the leader first asks its peers for transactions: it found
/// fewer eligible ones than half the cap.
pub fn needs_peer_sync(is_leader: bool, eligible: usize, tx_cap: usize) -> (sync: bool)
    ensures
        sync == (is_leader && eligible < tx_cap / 2),
{
    is_leader && eligible < tx_cap / 2
}

/// A cap within its bounds stays within them, whatever the round brings.
pub proof fn lemma_tx_cap_bounded(cap: int, eligible: int)
    requires
        DYNAMIC_TX_CAP_MIN <= cap <= DYNAMIC_TX_CAP_MAX,
        0 <= eligible,
    ensures
        DYNAMIC_TX_CAP_MIN <= next_cap(cap, eligible) <= DYNAMIC_TX_CAP_MAX,
{
}

/// Whether this node must still wait before proposing again: it has
/// proposed before (at `last_own_proposal_ms`, 0 for never) and less than
/// `MIN_INTER_CHECKPOINT_MS` has passed by `now_ms` (a clock that went back
/// counts as no time passed).
pub fn in_proposal_cooldown(last_own_proposal_ms: u64, now_ms: u64) -> (wait: bool)
    ensures
        wait == (last_own_proposal_ms > 0 && (if now_ms >= last_own_proposal_ms {
            now_ms - last_own_proposal_ms
        } else {
            0
        }) < MIN_INTER_CHECKPOINT_MS),
{
    last_own_proposal_ms > 0 && now_ms.saturating_sub(last_own_proposal_ms) < MIN_INTER_CHECKPOINT_MS
}

/// What the checks of a peer's checkpoint find.
#[derive(Clone, Copy, Debug, PartialEq, Eq, Structural)]
pub enum PeerCheckpointCheck {
    /// All checks pass: the checkpoint may be adopted.
    Adopt,
    /// It does not follow this node's last checkpoint: a fork.
    Fork,
    /// Its transaction Merkle root is not this node's.
    MerkleMismatch,
    /// Its hash is not the hash of its own fields.
    HashMismatch,
    /// The trust verifier found no quorum.
    NoQuorum,
    /// It carries no signatures above the first height.
    NoSignatures,
    /// None of its signatures decodes as a BLS signature.
    NoValidSignature,
}

/// The text of an optional string.
pub open spec fn opt_text(t: Option<&str>) -> Option<Seq<char>> {
    match t {
        Some(s) => Some(s@),
        None => None,
    }
}

/// The text of an optional owned string.
pub open spec fn opt_string_text(t: Option<String>) -> Option<Seq<char>> {
    match t {
        Some(s) => Some(s@),
        None => None,
    }
}

/// A checkpoint as the chain checks read it.
#[derive(Clone, Debug)]
pub struct CheckpointRecord {
    pub height: u64,
    pub hash: String,
    pub previous_hash: Option<String>,
    pub tx_merkle_root: String,
    pub state_root: String,
    pub receipt_root: String,
    pub tip_count: u32,
    pub timestamp: u64,
    /// The validators' signatures, as unpadded base64url text.
    pub signatures: Vec<String>,
}

/// The checkpoint's hash is the hash of its own fields.
pub open spec fn hash_is_own(c: CheckpointRecord) -> bool {
    c.hash@ == hex_lower(
        sha256_spec(
            checkpoint_preimage(c.height, c.tx_merkle_root@, c.state_root@, c.receipt_root@, c.tip_count, c.timestamp),
        ),
    )
}

fn hash_is_own_exec(c: &CheckpointRecord) -> (r: bool)
    ensures
        r == hash_is_own(*c),
{
    let expected = compute_checkpoint_hash(
        c.height,
        c.tx_merkle_root.as_str(),
        c.state_root.as_str(),
        c.receipt_root.as_str(),
        c.tip_count,
        c.timestamp,
    );
    let expected_hex = hex_encode(expected.as_slice());
    str_eq(c.hash.as_str(), expected_hex.as_str())
}

/// A signature as a checkpoint carries it is well formed: unpadded
/// base64url of at least 96 bytes that decode as a BLS signature.
pub open spec fn signature_text_ok(text: Seq<char>) -> bool {
    match base64_url_decoded(text) {
        Some(b) => b.len() >= 96 && bls_signature_decodes(b),
        None => false,
    }
}

fn signature_text_ok_exec(text: &str) -> (r: bool)
    ensures
        r == signature_text_ok(text@),
{
    match base64_url_decode(text) {
        Ok(bytes) => bytes.len() >= 96 && signature_decodes(bytes.as_slice()),
        Err(_) => false,
    }
}

/// The outcome of the checks of a peer's checkpoint, in the order they run:
/// the link to this node's last checkpoint, the Merkle root, the recomputed
/// hash, then either the trust verifier's quorum answer (`Some`, on
/// mainnet) or at least one well-formed signature.
pub open spec fn peer_checkpoint_check(
    peer: CheckpointRecord,
    local_previous_hash: Option<Seq<char>>,
    local_tx_merkle_root: Seq<char>,
    mainnet_quorum: Option<bool>,
) -> PeerCheckpointCheck {
    let signatures = string_views(peer.signatures@);
    if opt_string_text(peer.previous_hash) != local_previous_hash {
        PeerCheckpointCheck::Fork
    } else if peer.tx_merkle_root@ != local_tx_merkle_root {
        PeerCheckpointCheck::MerkleMismatch
    } else if !hash_is_own(peer) {
        PeerCheckpointCheck::HashMismatch
    } else {
        match mainnet_quorum {
            Some(ok) => if ok {
                PeerCheckpointCheck::Adopt
            } else {
                PeerCheckpointCheck::NoQuorum
            },
            None => if signatures.len() == 0 && peer.height > 1 {
                PeerCheckpointCheck::NoSignatures
            } else if exists|i: int| 0 <= i < signatures.len() && signature_text_ok(#[trigger] signatures[i]) {
                PeerCheckpointCheck::Adopt
            } else {
                PeerCheckpointCheck::NoValidSignature
            },
        }
    }
}

fn same_text(a: &Option<String>, b: Option<&str>) -> (r: bool)
    ensures
        r == (opt_string_text(*a) == opt_text(b)),
{
    match (a, b) {
        (Some(x), Some(y)) => str_eq(x.as_str(), y),
        (None, None) => true,
        _ => false,
    }
}

/// Runs the checks of a peer's checkpoint (see `peer_checkpoint_check`).
/// `mainnet_quorum` is the trust verifier's answer on mainnet, `None`
/// elsewhere.
pub fn check_peer_checkpoint(
    peer: &CheckpointRecord,
    local_previous_hash: Option<&str>,
    local_tx_merkle_root: &str,
    mainnet_quorum: Option<bool>,
) -> (c: PeerCheckpointCheck)
    ensures
        c == peer_checkpoint_check(*peer, opt_text(local_previous_hash), local_tx_merkle_root@, mainnet_quorum),
{
    if !same_text(&peer.previous_hash, local_previous_hash) {
        return PeerCheckpointCheck::Fork;
    }
    if !str_eq(peer.tx_merkle_root.as_str(), local_tx_merkle_root) {
        return PeerCheckpointCheck::MerkleMismatch;
    }
    if !hash_is_own_exec(peer) {
        return PeerCheckpointCheck::HashMismatch;
    }
    match mainnet_quorum {
        Some(ok) => {
            if ok {
                PeerCheckpointCheck::Adopt
            } else {
                PeerCheckpointCheck::NoQuorum
            }
        },
        None => {
            let signatures = &peer.signatures;
            if signatures.len() == 0 && peer.height > 1 {
                return PeerCheckpointCheck::NoSignatures;
            }
            let ghost sv = string_views(signatures@);
            let mut i: usize = 0;
            while i < signatures.len()
                invariant
                    i <= signatures@.len(),
                    signatures@ == peer.signatures@,
                    sv == string_views(signatures@),
                    forall|j: int| 0 <= j < i ==> !signature_text_ok(#[trigger] sv[j]),
                    opt_string_text(peer.previous_hash) == opt_text(local_previous_hash),
                    peer.tx_merkle_root@ == local_tx_merkle_root@,
                    hash_is_own(*peer),
                    mainnet_quorum is None,
                    !(signatures@.len() == 0 && peer.height > 1),
                decreases signatures@.len() - i,
            {
                assert(sv[i as int] == signatures@[i as int]@);
                if signature_text_ok_exec(signatures[i].as_str()) {
                    assert(signature_text_ok(sv[i as int]));
                    return PeerCheckpointCheck::Adopt;
                }
                i = i + 1;
            }
            PeerCheckpointCheck::NoValidSignature
        },
    }
}

/// What the checks of a peer's whole checkpoint chain find.
#[derive(Clone, Copy, Debug, PartialEq, Eq, Structural)]
pub enum ChainCheck {
    /// The chain may replace this node's.
    Valid,
    /// A checkpoint does not name the one before it as its previous hash.
    BrokenLink,
    /// A checkpoint's hash is not the hash of its own fields.
    HashMismatch,
    /// The trust verifier rejected the chain's signatures.
    TrustRejected,
    /// A signature that decodes from base64url is not a BLS signature.
    BadSignature,
}

/// A signature that fails the format check: it decodes from base64url but
/// is shorter than 96 bytes or not a BLS signature.
pub open spec fn signature_text_bad(text: Seq<char>) -> bool {
    match base64_url_decoded(text) {
        Some(b) => !(b.len() >= 96 && bls_signature_decodes(b)),
        None => false,
    }
}

/// Checkpoint `i` names checkpoint `i - 1` as its previous one.
pub open spec fn links_back(cps: Seq<CheckpointRecord>, i: int) -> bool {
    opt_string_text(cps[i].previous_hash) == Some(cps[i - 1].hash@)
}

/// The outcome of the checks of a peer's checkpoint chain, in the order
/// they run: every link, every hash, then the trust verifier's answer
/// (`Some`, when genesis validators are configured) or the format of every
/// signature.
pub open spec fn chain_check(cps: Seq<CheckpointRecord>, trust: Option<bool>) -> ChainCheck {
    if exists|i: int| 1 <= i < cps.len() && !#[trigger] links_back(cps, i) {
        ChainCheck::BrokenLink
    } else if exists|i: int| 0 <= i < cps.len() && !hash_is_own(#[trigger] cps[i]) {
        ChainCheck::HashMismatch
    } else {
        match trust {
            Some(ok) => if ok {
                ChainCheck::Valid
            } else {
                ChainCheck::TrustRejected
            },
            None => if exists|i: int, j: int|
                0 <= i < cps.len() && 0 <= j < cps[i].signatures@.len() && signature_text_bad(
                    #[trigger] cps[i].signatures@[j]@,
                ) {
                ChainCheck::BadSignature
            } else {
                ChainCheck::Valid
            },
        }
    }
}

/// Runs the checks of a peer's checkpoint chain (see `chain_check`).
pub fn check_checkpoint_chain(cps: &[CheckpointRecord], trust: Option<bool>) -> (c: ChainCheck)
    ensures
        c == chain_check(cps@, trust),
{
    let mut i: usize = 1;
    while i < cps.len()
        invariant
            1 <= i,
            cps@.len() == 0 || i <= cps@.len(),
            forall|k: int| 1 <= k < i && k < cps@.len() ==> #[trigger] links_back(cps@, k),
        decreases cps@.len() - i,
    {
        let ok = match &cps[i].previous_hash {
            Some(p) => str_eq(p.as_str(), cps[i - 1].hash.as_str()),
            None => false,
        };
        if !ok {
            assert(!links_back(cps@, i as int));
            return ChainCheck::BrokenLink;
        }
        i = i + 1;
    }
    let mut i: usize = 0;
    while i < cps.len()
        invariant
            i <= cps@.len(),
            forall|k: int| 1 <= k < cps@.len() ==> #[trigger] links_back(cps@, k),
            forall|k: int| 0 <= k < i ==> hash_is_own(#[trigger] cps@[k]),
        decreases cps@.len() - i,
    {
        if !hash_is_own_exec(&cps[i]) {
            return ChainCheck::HashMismatch;
        }
        i = i + 1;
    }
    match trust {
        Some(ok) => {
            if ok {
                ChainCheck::Valid
            } else {
                ChainCheck::TrustRejected
            }
        },
        None => {
            let mut i: usize = 0;
            while i < cps.len()
                invariant
                    i <= cps@.len(),
                    forall|k: int| 1 <= k < cps@.len() ==> #[trigger] links_back(cps@, k),
                    forall|k: int| 0 <= k < cps@.len() ==> hash_is_own(#[trigger] cps@[k]),
                    trust is None,
                    forall|k: int, j: int|
                        0 <= k < i && 0 <= j < cps@[k].signatures@.len() ==> !signature_text_bad(
                            #[trigger] cps@[k].signatures@[j]@,
                        ),
                decreases cps@.len() - i,
            {
                let sigs = &cps[i].signatures;
                let mut j: usize = 0;
                while j < sigs.len()
                    invariant
                        i < cps@.len(),
                        forall|k: int| 1 <= k < cps@.len() ==> #[trigger] links_back(cps@, k),
                        forall|k: int| 0 <= k < cps@.len() ==> hash_is_own(#[trigger] cps@[k]),
                        trust is None,
                        sigs@ == cps@[i as int].signatures@,
                        j <= sigs@.len(),
                        forall|m: int| 0 <= m < j ==> !signature_text_bad(#[trigger] sigs@[m]@),
                    decreases sigs@.len() - j,
                {
                    match base64_url_decode(sigs[j].as_str()) {
                        Ok(bytes) => {
                            if !(bytes.len() >= 96 && signature_decodes(bytes.as_slice())) {
                                assert(signature_text_bad(cps@[i as int].signatures@[j as int]@));
                                return ChainCheck::BadSignature;
                            }
                        },
                        Err(_) => {},
                    }
                    j = j + 1;
                }
                i = i + 1;
            }
            ChainCheck::Valid
        },
    }
}


/// Most finality times kept for statistics.
pub const FINALITY_WINDOW: usize = 1000;

/// Whether a certified checkpoint at `height` still extends this node's
/// chain, whose tip is at `current_tip` (0 before any): otherwise another
/// node produced it first and it is dropped.
pub fn extends_tip(current_tip: u64, height: u64) -> (b: bool)
    ensures
        b == (current_tip + 1 == height),
{
    current_tip < u64::MAX && current_tip + 1 == height
}

/// The finality-time window after recording `t`: appended, with the oldest
/// dropped first when the window already holds `FINALITY_WINDOW` times.
pub open spec fn finality_window_push(w: Seq<u64>, t: u64) -> Seq<u64> {
    if w.len() >= FINALITY_WINDOW {
        w.drop_first().push(t)
    } else {
        w.push(t)
    }
}

/// Records one finality time in the window.
pub fn push_finality_time(window: &mut Vec<u64>, t: u64)
    ensures
        final(window)@ == finality_window_push(old(window)@, t),
{
    if window.len() >= FINALITY_WINDOW {
        window.remove(0);
    }
    window.push(t);
}

/// The window after recording the times `ts` in order.
pub open spec fn finality_window_after(w: Seq<u64>, ts: Seq<u64>) -> Seq<u64>
    decreases ts.len(),
{
    if ts.len() == 0 {
        w
    } else {
        finality_window_push(finality_window_after(w, ts.drop_last()), ts.last())
    }
}

/// Records the finality times of an applied checkpoint, in order.
pub fn record_finality_times(window: &mut Vec<u64>, times: &[u64])
    ensures
        final(window)@ == finality_window_after(old(window)@, times@),
{
    let ghost start = window@;
    let mut i: usize = 0;
    while i < times.len()
        invariant
            i <= times@.len(),
            window@ == finality_window_after(start, times@.take(i as int)),
        decreases times@.len() - i,
    {
        proof {
            assert(times@.take(i + 1).drop_last() =~= times@.take(i as int));
        }
        push_finality_time(window, times[i]);
        i = i + 1;
    }
    proof {
        assert(times@.take(times@.len() as int) =~= times@);
    }
}

/// Law: a window of at most `FINALITY_WINDOW` times stays so, and keeps the
/// newest: recording a time puts it last.
pub proof fn lemma_finality_window_bounded(w: Seq<u64>, t: u64)
    requires
        w.len() <= FINALITY_WINDOW,
    ensures
        finality_window_push(w, t).len() <= FINALITY_WINDOW,
        finality_window_push(w, t).last() == t,
        w.len() < FINALITY_WINDOW ==> finality_window_push(w, t).len() == w.len() + 1,
{
}


/// Law: the network height is never below the gossip height nor below the
/// middle announced height (nor any announced height up to the middle), and
/// it is one of them; with no announced height it is the gossip height, if
/// any.
pub proof fn lemma_consensus_height_bounds(live: u64, sorted: Seq<u64>)
    requires
        ascending(sorted),
    ensures
        sorted.len() > 0 ==> (consensus_height_of(live, sorted) matches Some(x) && {
            &&& x >= live
            &&& forall|i: int| 0 <= i <= sorted.len() as int / 2 ==> #[trigger] sorted[i] <= x
            &&& (x == live || x == sorted[sorted.len() as int / 2])
        }),
        sorted.len() == 0 ==> consensus_height_of(live, sorted) == (if live > 0 {
            Some(live)
        } else {
            None::<u64>
        }),
{
}

/// Law: with the link, the Merkle root and the hash in order and no trust
/// verifier, one well-formed signature anywhere among a checkpoint's
/// signatures is enough to adopt it.
pub proof fn lemma_any_good_signature_adopts(
    peer: CheckpointRecord,
    local_previous_hash: Option<Seq<char>>,
    local_tx_merkle_root: Seq<char>,
    i: int,
)
    requires
        opt_string_text(peer.previous_hash) == local_previous_hash,
        peer.tx_merkle_root@ == local_tx_merkle_root,
        hash_is_own(peer),
        0 <= i < peer.signatures@.len(),
        signature_text_ok(peer.signatures@[i]@),
    ensures
        peer_checkpoint_check(peer, local_previous_hash, local_tx_merkle_root, None)
            == PeerCheckpointCheck::Adopt,
{
    assert(string_views(peer.signatures@)[i] == peer.signatures@[i]@);
}

/// Law: an adopted checkpoint follows the local chain, carries the local
/// Merkle root and its own hash, and, without a trust verifier, either has
/// a well-formed signature or is the first checkpoint with none.
pub proof fn lemma_adopted_checkpoint_checked(
    peer: CheckpointRecord,
    local_previous_hash: Option<Seq<char>>,
    local_tx_merkle_root: Seq<char>,
    mainnet_quorum: Option<bool>,
)
    requires
        peer_checkpoint_check(peer, local_previous_hash, local_tx_merkle_root, mainnet_quorum)
            == PeerCheckpointCheck::Adopt,
    ensures
        opt_string_text(peer.previous_hash) == local_previous_hash,
        peer.tx_merkle_root@ == local_tx_merkle_root,
        hash_is_own(peer),
        mainnet_quorum is Some ==> mainnet_quorum == Some(true),
        mainnet_quorum is None ==> exists|i: int|
            0 <= i < peer.signatures@.len() && signature_text_ok(#[trigger] peer.signatures@[i]@),
{
    if mainnet_quorum is None {
        let sv = string_views(peer.signatures@);
        let i = choose|i: int| 0 <= i < sv.len() && signature_text_ok(#[trigger] sv[i]);
        assert(sv[i] == peer.signatures@[i]@);
    }
}

/// Law: a chain that passes holds only linked checkpoints whose hashes are
/// their own, every one of them, the newest included; the trust verifier,
/// where there is one, accepted it, and otherwise no signature in it is
/// base64url of bytes that are not a well-formed BLS signature.
pub proof fn lemma_valid_chain_checked(cps: Seq<CheckpointRecord>, trust: Option<bool>)
    requires
        chain_check(cps, trust) == ChainCheck::Valid,
    ensures
        forall|i: int| 0 <= i < cps.len() ==> hash_is_own(#[trigger] cps[i]),
        forall|i: int| 1 <= i < cps.len() ==> #[trigger] links_back(cps, i),
        trust is Some ==> trust == Some(true),
        trust is None ==> forall|i: int, j: int|
            0 <= i < cps.len() && 0 <= j < cps[i].signatures@.len() ==> !signature_text_bad(
                #[trigger] cps[i].signatures@[j]@,
            ),
{
}

/// Law: a linked chain in which any one checkpoint's hash is not its own is
/// refused for that hash, wherever the checkpoint stands.
pub proof fn lemma_bad_hash_anywhere_refused(cps: Seq<CheckpointRecord>, trust: Option<bool>, i: int)
    requires
        forall|k: int| 1 <= k < cps.len() ==> #[trigger] links_back(cps, k),
        0 <= i < cps.len(),
        !hash_is_own(cps[i]),
    ensures
        chain_check(cps, trust) == ChainCheck::HashMismatch,
{
}

} // verus!
