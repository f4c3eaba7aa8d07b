//! Data-availability erasure coding: shard parameters, Merkle commitments
//! over shard hashes, and inclusion proofs.

use vstd::prelude::*;
use crate::hashing::{
    base64_decode, base64_encode, base64_standard, hex_lower, push_bytes, sha256_hex, sha256_spec,
    str_eq,
};
use crate::rs_codec::{
    agrees_with, codeword, present_count, present_consistent, reconstructible, rs_encode, rs_parity,
    rs_reconstruct, rs_reconstruct_shards, uniform,
};
use vstd::utf8::encode_utf8;

verus! {

// ---------------------------------------------------------------------
// Specification of the Merkle commitment
// ---------------------------------------------------------------------

/// The character views of a sequence of strings.
pub open spec fn views(v: Seq<String>) -> Seq<Seq<char>> {
    v.map_values(|s: String| s@)
}

/// The bytes of the text `"empty"`.
pub open spec fn empty_tag() -> Seq<u8> {
    seq![101u8, 109u8, 112u8, 116u8, 121u8]
}

/// The bytes of the text `"padding"`.
pub open spec fn padding_tag() -> Seq<u8> {
    seq![112u8, 97u8, 100u8, 100u8, 105u8, 110u8, 103u8]
}

/// Hex SHA-256 of the UTF-8 bytes of two hex strings, one after the other.
pub open spec fn pair_hash(a: Seq<char>, b: Seq<char>) -> Seq<char> {
    hex_lower(sha256_spec(encode_utf8(a) + encode_utf8(b)))
}

/// The leaf used to pad a layer up to a power of two.
pub open spec fn padding_leaf() -> Seq<char> {
    hex_lower(sha256_spec(padding_tag()))
}

/// The root of an empty leaf list.
pub open spec fn empty_root() -> Seq<char> {
    hex_lower(sha256_spec(empty_tag()))
}

/// `n` is a power of two.
pub open spec fn is_pow2(n: nat) -> bool
    decreases n,
{
    if n == 1 {
        true
    } else if n >= 2 && n % 2 == 0 {
        is_pow2(n / 2)
    } else {
        false
    }
}

/// The least power of two that is at least `n`, searching upward from `p`.
pub open spec fn pow2_from(p: nat, n: nat) -> nat
    decreases n - p,
{
    if p == 0 || p >= n {
        p
    } else if 2 * p >= n {
        2 * p
    } else {
        pow2_from(2 * p, n)
    }
}

/// The least power of two that is at least `n`.
pub open spec fn next_pow2(n: nat) -> nat {
    pow2_from(1, n)
}

/// Base-2 logarithm of a power of two.
pub open spec fn log2(p: nat) -> nat
    decreases p,
{
    if p <= 1 { 0 } else { 1 + log2(p / 2) }
}

/// The leaves followed by padding leaves up to the next power of two.
pub open spec fn padded(leaves: Seq<Seq<char>>) -> Seq<Seq<char>> {
    leaves + Seq::new((next_pow2(leaves.len()) - leaves.len()) as nat, |i: int| padding_leaf())
}

/// The layer above `layer`: each pair of neighbours hashed together.
pub open spec fn next_layer(layer: Seq<Seq<char>>) -> Seq<Seq<char>> {
    Seq::new(layer.len() / 2, |k: int| pair_hash(layer[2 * k], layer[2 * k + 1]))
}

/// The root reached by hashing `layer` pairwise until one node is left.
pub open spec fn root_of(layer: Seq<Seq<char>>) -> Seq<char>
    decreases layer.len(),
{
    if layer.len() <= 1 { layer[0] } else { root_of(next_layer(layer)) }
}

/// The position paired with `idx` in its layer.
pub open spec fn sibling(idx: int) -> int {
    if idx % 2 == 0 { idx + 1 } else { idx - 1 }
}

/// The siblings met on the way from position `idx` of `layer` to the root.
pub open spec fn proof_of(layer: Seq<Seq<char>>, idx: int) -> Seq<Seq<char>>
    decreases layer.len(),
{
    if layer.len() <= 1 {
        Seq::empty()
    } else {
        let s = sibling(idx);
        let head = if 0 <= s < layer.len() { seq![layer[s]] } else { Seq::empty() };
        head + proof_of(next_layer(layer), idx / 2)
    }
}

/// The Merkle root committed to for a list of leaf hashes.
pub open spec fn merkle_root(leaves: Seq<Seq<char>>) -> Seq<char> {
    if leaves.len() == 0 {
        empty_root()
    } else if leaves.len() == 1 {
        leaves[0]
    } else {
        root_of(padded(leaves))
    }
}

/// The inclusion proof of leaf `idx`.
pub open spec fn merkle_proof(leaves: Seq<Seq<char>>, idx: int) -> Seq<Seq<char>> {
    if leaves.len() <= 1 { Seq::empty() } else { proof_of(padded(leaves), idx) }
}

/// One step up: combine the running hash with the sibling on the side given by `idx`.
pub open spec fn climb_step(cur: Seq<char>, idx: int, sib: Seq<char>) -> Seq<char> {
    if idx % 2 == 0 { pair_hash(cur, sib) } else { pair_hash(sib, cur) }
}

/// The hash reached from `cur` at position `idx` by climbing with `proof`.
pub open spec fn climb(cur: Seq<char>, idx: int, proof: Seq<Seq<char>>) -> Seq<char>
    decreases proof.len(),
{
    if proof.len() == 0 {
        cur
    } else {
        climb(climb_step(cur, idx, proof[0]), idx / 2, proof.drop_first())
    }
}

/// Whether `proof` shows `leaf` at `index` under `root` in a tree of `total` leaves.
pub open spec fn merkle_proof_valid(
    root: Seq<char>,
    leaf: Seq<char>,
    index: int,
    proof: Seq<Seq<char>>,
    total: nat,
) -> bool {
    if total == 0 {
        false
    } else if total == 1 {
        leaf == root
    } else {
        proof.len() == log2(next_pow2(total)) && climb(leaf, index, proof) == root
    }
}

// ---------------------------------------------------------------------
// Lemmas
// ---------------------------------------------------------------------

proof fn lemma_pow2_from(p: nat, n: nat)
    requires
        is_pow2(p),
    ensures
        is_pow2(pow2_from(p, n)),
        pow2_from(p, n) >= n,
        pow2_from(p, n) >= p,
        pow2_from(p, n) > p ==> pow2_from(p, n) / 2 < n,
    decreases n - p,
{
    assert(is_pow2(2 * p)) by {
        assert((2 * p) / 2 == p);
    }
    if p >= n {
    } else if 2 * p >= n {
    } else {
        lemma_pow2_from(2 * p, n);
    }
}

/// `next_pow2(n)` is a power of two, at least `n`, and its half is below `n` when it exceeds 1.
pub proof fn lemma_next_pow2(n: nat)
    ensures
        is_pow2(next_pow2(n)),
        next_pow2(n) >= n,
        next_pow2(n) >= 1,
        next_pow2(n) > 1 ==> next_pow2(n) / 2 < n,
{
    lemma_pow2_from(1, n);
}

proof fn lemma_log2_le(p: nat)
    ensures
        log2(p) <= p,
    decreases p,
{
    if p > 1 {
        lemma_log2_le(p / 2);
    }
}

proof fn lemma_pow2_even(n: nat)
    requires
        is_pow2(n),
        n > 1,
    ensures
        n % 2 == 0,
        is_pow2(n / 2),
        n / 2 >= 1,
        n / 2 < n,
{
}

proof fn lemma_padded(leaves: Seq<Seq<char>>)
    ensures
        padded(leaves).len() == next_pow2(leaves.len()),
        forall|i: int| 0 <= i < leaves.len() ==> #[trigger] padded(leaves)[i] == leaves[i],
        forall|i: int|
            leaves.len() <= i < next_pow2(leaves.len()) ==> #[trigger] padded(leaves)[i]
                == padding_leaf(),
{
    lemma_next_pow2(leaves.len());
}

/// Climbing from any position of a power-of-two layer with that position's
/// siblings reaches the layer's root, after exactly `log2(len)` steps.
proof fn lemma_climb_layer(layer: Seq<Seq<char>>, idx: int)
    requires
        is_pow2(layer.len()),
        0 <= idx < layer.len(),
    ensures
        proof_of(layer, idx).len() == log2(layer.len()),
        climb(layer[idx], idx, proof_of(layer, idx)) == root_of(layer),
    decreases layer.len(),
{
    if layer.len() <= 1 {
    } else {
        lemma_pow2_even(layer.len());
        let nl = next_layer(layer);
        let s = sibling(idx);
        assert(0 <= s < layer.len());
        let rest = proof_of(nl, idx / 2);
        let p = proof_of(layer, idx);
        assert(p == seq![layer[s]] + rest);
        assert(p[0] == layer[s]);
        assert(p.drop_first() =~= rest);
        assert(climb_step(layer[idx], idx, layer[s]) == nl[idx / 2]) by {
            if idx % 2 == 0 {
                assert(2 * (idx / 2) == idx);
            } else {
                assert(2 * (idx / 2) == idx - 1);
            }
        }
        lemma_climb_layer(nl, idx / 2);
    }
}

/// Law: every proof produced for a leaf verifies against the root of its leaves.
pub proof fn lemma_merkle_proof_verifies(leaves: Seq<Seq<char>>, i: int)
    requires
        0 <= i < leaves.len(),
    ensures
        merkle_proof_valid(merkle_root(leaves), leaves[i], i, merkle_proof(leaves, i), leaves.len()),
{
    if leaves.len() > 1 {
        lemma_padded(leaves);
        lemma_next_pow2(leaves.len());
        lemma_climb_layer(padded(leaves), i);
    }
}

// ---------------------------------------------------------------------
// Executable code
// ---------------------------------------------------------------------

/// The least power of two at least `n`.
fn next_power_of_two(n: usize) -> (p: usize)
    requires
        n <= usize::MAX / 2 + 1,
    ensures
        p == next_pow2(n as nat),
{
    let mut p: usize = 1;
    while p < n
        invariant
            n <= usize::MAX / 2 + 1,
            1 <= p,
            pow2_from(p as nat, n as nat) == pow2_from(1, n as nat),
        decreases usize::MAX - p,
    {
        proof {
            assert(pow2_from(p as nat, n as nat) == pow2_from(2 * p as nat, n as nat));
        }
        p = p * 2;
    }
    p
}

/// Number of halvings that take a power of two down to one.
fn log2_of_pow2(p: usize) -> (d: usize)
    requires
        is_pow2(p as nat),
    ensures
        d == log2(p as nat),
{
    let mut q = p;
    let mut d: usize = 0;
    proof { lemma_log2_le(p as nat); }
    while q > 1
        invariant
            is_pow2(q as nat),
            d + log2(q as nat) == log2(p as nat),
            log2(p as nat) <= p,
            q >= 1,
        decreases q,
    {
        proof { lemma_pow2_even(q as nat); }
        q = q / 2;
        d = d + 1;
    }
    d
}

/// Hex SHA-256 over the bytes of `a` followed by the bytes of `b`.
pub fn sha256_pair(a: &str, b: &str) -> (res: String)
    ensures
        res@ == pair_hash(a@, b@),
{
    let mut data: Vec<u8> = Vec::new();
    data.extend_from_slice(a.as_bytes());
    data.extend_from_slice(b.as_bytes());
    assert(data@ =~= encode_utf8(a@) + encode_utf8(b@));
    sha256_hex(data.as_slice())
}

fn padding_hash() -> (res: String)
    ensures
        res@ == padding_leaf(),
{
    let tag: Vec<u8> = vec![112u8, 97u8, 100u8, 100u8, 105u8, 110u8, 103u8];
    assert(tag@ =~= padding_tag());
    sha256_hex(tag.as_slice())
}

fn empty_hash() -> (res: String)
    ensures
        res@ == empty_root(),
{
    let tag: Vec<u8> = vec![101u8, 109u8, 112u8, 116u8, 121u8];
    assert(tag@ =~= empty_tag());
    sha256_hex(tag.as_slice())
}

/// The leaves padded up to the next power of two.
fn pad_leaves(leaves: &[String]) -> (out: Vec<String>)
    requires
        leaves@.len() <= usize::MAX / 2 + 1,
    ensures
        views(out@) == padded(views(leaves@)),
{
    let n = leaves.len();
    let target = next_power_of_two(n);
    proof { lemma_next_pow2(n as nat); }
    let mut out: Vec<String> = Vec::new();
    let mut i: usize = 0;
    while i < n
        invariant
            n == leaves@.len(),
            i <= n,
            out@.len() == i,
            forall|k: int| 0 <= k < i ==> #[trigger] out@[k]@ == leaves@[k]@,
        decreases n - i,
    {
        out.push(leaves[i].clone());
        i = i + 1;
    }
    let pad = padding_hash();
    while out.len() < target
        invariant
            n == leaves@.len(),
            target == next_pow2(n as nat),
            pad@ == padding_leaf(),
            n <= target,
            n <= out@.len() <= target,
            forall|k: int| 0 <= k < n ==> #[trigger] out@[k]@ == leaves@[k]@,
            forall|k: int| n <= k < out@.len() ==> #[trigger] out@[k]@ == padding_leaf(),
        decreases target - out@.len(),
    {
        let c = pad.clone();
        out.push(c);
        assert(out@[out@.len() - 1]@ == padding_leaf());
    }
    proof {
        lemma_padded(views(leaves@));
        assert(views(out@) =~= padded(views(leaves@)));
    }
    out
}

/// Hashes a power-of-two layer pairwise until one node is left.
fn reduce_to_root(layer0: Vec<String>) -> (root: String)
    requires
        is_pow2(layer0@.len()),
    ensures
        root@ == root_of(views(layer0@)),
{
    let mut layer = layer0;
    while layer.len() > 1
        invariant
            is_pow2(layer@.len()),
            root_of(views(layer@)) == root_of(views(layer0@)),
        decreases layer@.len(),
    {
        proof { lemma_pow2_even(layer@.len()); }
        let mut next: Vec<String> = Vec::new();
        let mut i: usize = 0;
        while i < layer.len()
            invariant
                layer@.len() % 2 == 0,
                i % 2 == 0,
                i <= layer@.len(),
                next@.len() == i / 2,
                forall|k: int|
                    0 <= k < next@.len() ==> #[trigger] next@[k]@ == pair_hash(
                        layer@[2 * k]@,
                        layer@[2 * k + 1]@,
                    ),
            decreases layer@.len() - i,
        {
            let h = sha256_pair(layer[i].as_str(), layer[i + 1].as_str());
            next.push(h);
            i = i + 2;
        }
        proof {
            assert(views(next@) =~= next_layer(views(layer@)));
        }
        layer = next;
    }
    proof {
        assert(layer@.len() == 1);
    }
    layer[0].clone()
}

/// The Merkle root of a list of leaf hashes.
pub fn compute_merkle_root(leaves: &[String]) -> (root: String)
    requires
        leaves@.len() <= usize::MAX / 2 + 1,
    ensures
        root@ == merkle_root(views(leaves@)),
{
    if leaves.len() == 0 {
        return empty_hash();
    }
    if leaves.len() == 1 {
        return leaves[0].clone();
    }
    let layer = pad_leaves(leaves);
    proof { lemma_padded(views(leaves@)); lemma_next_pow2(leaves@.len()); }
    reduce_to_root(layer)
}

/// The inclusion proof for the leaf at `index`.
pub fn compute_merkle_proof(leaves: &[String], index: usize) -> (proof: Vec<String>)
    requires
        leaves@.len() <= usize::MAX / 2 + 1,
    ensures
        views(proof@) == merkle_proof(views(leaves@), index as int),
{
    if leaves.len() <= 1 {
        let empty: Vec<String> = Vec::new();
        proof { assert(views(empty@) =~= Seq::<Seq<char>>::empty()); }
        return empty;
    }
    let mut layer = pad_leaves(leaves);
    proof { lemma_padded(views(leaves@)); lemma_next_pow2(leaves@.len()); }
    let mut proof: Vec<String> = Vec::new();
    let mut idx = index;
    while layer.len() > 1
        invariant
            is_pow2(layer@.len()),
            views(proof@) + proof_of(views(layer@), idx as int) == proof_of(
                padded(views(leaves@)),
                index as int,
            ),
        decreases layer@.len(),
    {
        proof { lemma_pow2_even(layer@.len()); }
        let ghost old_proof = views(proof@);
        let ghost old_layer = views(layer@);
        let ghost old_idx = idx as int;
        let sib = if idx % 2 == 0 { idx + 1 } else { idx - 1 };
        if sib < layer.len() {
            proof.push(layer[sib].clone());
        }
        let mut next: Vec<String> = Vec::new();
        let mut i: usize = 0;
        while i < layer.len()
            invariant
                layer@.len() % 2 == 0,
                i % 2 == 0,
                i <= layer@.len(),
                next@.len() == i / 2,
                forall|k: int|
                    0 <= k < next@.len() ==> #[trigger] next@[k]@ == pair_hash(
                        layer@[2 * k]@,
                        layer@[2 * k + 1]@,
                    ),
            decreases layer@.len() - i,
        {
            let h = sha256_pair(layer[i].as_str(), layer[i + 1].as_str());
            next.push(h);
            i = i + 2;
        }
        proof {
            assert(views(next@) =~= next_layer(old_layer));
            let s = sibling(old_idx);
            let head = if 0 <= s < old_layer.len() { seq![old_layer[s]] } else { Seq::<Seq<char>>::empty() };
            assert(proof_of(old_layer, old_idx) == head + proof_of(next_layer(old_layer), old_idx / 2));
            assert(views(proof@) =~= old_proof + head);
            assert(views(proof@) + proof_of(next_layer(old_layer), old_idx / 2)
                =~= old_proof + (head + proof_of(next_layer(old_layer), old_idx / 2)));
        }
        layer = next;
        idx = idx / 2;
    }
    proof {
        assert(proof_of(views(layer@), idx as int) =~= Seq::<Seq<char>>::empty());
        assert(views(proof@) =~= views(proof@) + Seq::<Seq<char>>::empty());
    }
    proof
}

/// Checks that `proof` shows `leaf_hash` at `index` under `root` in a tree of
/// `total_leaves` leaves.
pub fn verify_merkle_proof(
    root: &str,
    leaf_hash: &str,
    index: usize,
    proof: &[String],
    total_leaves: usize,
) -> (ok: bool)
    requires
        total_leaves <= usize::MAX / 2 + 1,
    ensures
        ok == merkle_proof_valid(root@, leaf_hash@, index as int, views(proof@), total_leaves as nat),
{
    if total_leaves == 0 {
        return false;
    }
    if total_leaves == 1 {
        return str_eq(leaf_hash, root);
    }
    let next_pow2 = next_power_of_two(total_leaves);
    proof { lemma_next_pow2(total_leaves as nat); }
    let depth = log2_of_pow2(next_pow2);
    if proof.len() != depth {
        return false;
    }
    let mut current = leaf_hash.to_owned();
    let mut idx = index;
    let mut j: usize = 0;
    assert(views(proof@).skip(0) =~= views(proof@));
    while j < proof.len()
        invariant
            j <= proof@.len(),
            climb(current@, idx as int, views(proof@).skip(j as int)) == climb(
                leaf_hash@,
                index as int,
                views(proof@),
            ),
        decreases proof@.len() - j,
    {
        let ghost rest = views(proof@).skip(j as int);
        proof {
            assert(rest[0] == proof@[j as int]@);
            assert(rest.drop_first() =~= views(proof@).skip(j + 1));
        }
        let sibling = &proof[j];
        current = if idx % 2 == 0 {
            sha256_pair(current.as_str(), sibling.as_str())
        } else {
            sha256_pair(sibling.as_str(), current.as_str())
        };
        idx = idx / 2;
        j = j + 1;
    }
    proof {
        assert(views(proof@).skip(proof@.len() as int) =~= Seq::<Seq<char>>::empty());
        assert(views(proof@).skip(0) =~= views(proof@));
    }
    str_eq(current.as_str(), root)
}

/// Data and parity shard counts for `validator_count` validators: half the
/// (at least three) validators, rounded up, hold data; the rest parity.
pub fn compute_shard_params(validator_count: usize) -> (km: (usize, usize))
    ensures
        ({
            let n = if validator_count < 3 { 3 } else { validator_count as int };
            let k = (n + 1) / 2;
            km.0 == k && km.1 == (if n - k < 1 { 1 } else { n - k })
        }),
{
    let n = if validator_count < 3 { 3 } else { validator_count };
    let k = n / 2 + n % 2;
    let m = n - k;
    (k, if m < 1 { 1 } else { m })
}


// ---------------------------------------------------------------------
// Erasure coding of payloads: limits, types and specification
// ---------------------------------------------------------------------

/// Payloads above this many bytes (bodies and proofs together) go through
/// the data-availability layer.
pub const DA_SIZE_THRESHOLD: usize = 262144;

/// Largest shard, in bytes.
pub const MAX_SHARD_SIZE: usize = 4194304;

/// Most data and parity shards together.
pub const MAX_TOTAL_SHARDS: usize = 64;

/// Largest payload that can be erasure-coded, in bytes.
pub const MAX_ORIGINAL_SIZE: usize = 67108864;

/// Largest payload that decompression may produce, in bytes.
pub const MAX_UNCOMPRESSED_SIZE: usize = 33554432;

/// What a block producer publishes about an erasure-coded payload.
#[derive(Clone, Debug)]
pub struct DaCommitment {
    pub merkle_root: String,
    pub data_shard_count: usize,
    pub parity_shard_count: usize,
    pub original_size: usize,
    pub compressed: bool,
    pub uncompressed_size: usize,
}

/// One shard, base64 text, with its Merkle inclusion proof.
#[derive(Clone, Debug)]
pub struct DaShard {
    pub index: usize,
    pub data: String,
    pub merkle_proof: Vec<String>,
}

/// Why encoding, decoding or (de)compression refused its input; the shard
/// errors carry the shard's index.
#[derive(Clone, Copy, Debug, PartialEq, Eq, Structural)]
pub enum DaError {
    EmptyData,
    DataTooLarge,
    TooManyShards,
    ZeroShardCount,
    ShardTooLarge,
    ShardCountMismatch,
    InsufficientShards,
    ShardIndexOutOfRange(usize),
    InvalidBase64(usize),
    ShardSizeMismatch(usize),
    MerkleProofFailed(usize),
    ReconstructionFailed,
    CompressionFailed,
    InvalidUncompressedSize,
    DecompressionFailed,
    DecompressedSizeMismatch,
}

/// Bytes per shard for `n` bytes split over `k` data shards (rounded up).
pub open spec fn shard_size(n: nat, k: nat) -> nat {
    if k == 0 { 0 } else { ((n + k - 1) / (k as int)) as nat }
}

/// The `i`-th data shard of `data`: its `s` bytes starting at `i * s`, zero-padded.
pub open spec fn chunk(data: Seq<u8>, s: nat, i: int) -> Seq<u8> {
    let n = data.len() as int;
    let start = i * s;
    let body = if start < n {
        data.subrange(start, if start + s < n { start + s } else { n })
    } else {
        Seq::<u8>::empty()
    };
    body + Seq::new((s - body.len()) as nat, |j: int| 0u8)
}

/// The `k` data shards of `data`.
pub open spec fn data_chunks(data: Seq<u8>, k: nat) -> Seq<Seq<u8>> {
    Seq::new(k, |i: int| chunk(data, shard_size(data.len(), k), i))
}

/// All shards of `data`: its data shards followed by `m` parity shards.
pub open spec fn encoded_shards(data: Seq<u8>, k: nat, m: nat) -> Seq<Seq<u8>> {
    codeword(data_chunks(data, k), m)
}

/// Hex SHA-256 of each shard: the Merkle leaves.
pub open spec fn shard_hashes(shards: Seq<Seq<u8>>) -> Seq<Seq<char>> {
    shards.map_values(|sh: Seq<u8>| hex_lower(sha256_spec(sh)))
}

/// Encoding accepts `n` bytes over `k` data and `m` parity shards.
pub open spec fn encodable(n: nat, k: nat, m: nat) -> bool {
    &&& 1 <= n <= MAX_ORIGINAL_SIZE
    &&& k + m <= MAX_TOTAL_SHARDS
    &&& k > 0
    &&& m > 0
    &&& shard_size(n, k) <= MAX_SHARD_SIZE
}

/// The error encoding gives where it refuses its input.
pub open spec fn encode_error(n: nat, k: nat, m: nat) -> DaError {
    if n == 0 {
        DaError::EmptyData
    } else if n > MAX_ORIGINAL_SIZE {
        DaError::DataTooLarge
    } else if k + m > MAX_TOTAL_SHARDS {
        DaError::TooManyShards
    } else if k == 0 || m == 0 {
        DaError::ZeroShardCount
    } else {
        DaError::ShardTooLarge
    }
}

/// All `k + m` shards of `data` are one shard size long.
pub open spec fn well_encoded(data: Seq<u8>, k: nat, m: nat) -> bool {
    encoded_shards(data, k, m).len() == k + m && uniform(
        encoded_shards(data, k, m),
        shard_size(data.len(), k),
    )
}

/// `c` is the commitment of `data` over `k` data and `m` parity shards.
pub open spec fn commits_to(c: DaCommitment, data: Seq<u8>, k: nat, m: nat) -> bool {
    &&& c.merkle_root@ == merkle_root(shard_hashes(encoded_shards(data, k, m)))
    &&& c.data_shard_count == k
    &&& c.parity_shard_count == m
    &&& c.original_size == data.len()
    &&& !c.compressed
    &&& c.uncompressed_size == 0
}

/// `sh` is shard `i` of `data` over `k` data and `m` parity shards.
pub open spec fn is_shard_of(sh: DaShard, data: Seq<u8>, k: nat, m: nat, i: int) -> bool {
    &&& sh.index == i
    &&& sh.data@ == base64_standard(encoded_shards(data, k, m)[i])
    &&& views(sh.merkle_proof@) == merkle_proof(shard_hashes(encoded_shards(data, k, m)), i)
}

/// `text` is the base64 text of some bytes.
pub open spec fn b64_decodes(text: Seq<char>) -> bool {
    exists|b: Seq<u8>| base64_standard(b) == text
}

/// The bytes whose base64 text is `text`.
pub open spec fn b64_value(text: Seq<char>) -> Seq<u8> {
    choose|b: Seq<u8>| base64_standard(b) == text
}

/// The first check that shard `sh` fails against commitment `c`, if any.
pub open spec fn shard_fault(c: DaCommitment, sh: DaShard) -> Option<DaError> {
    let total = c.data_shard_count + c.parity_shard_count;
    let s = shard_size(c.original_size as nat, c.data_shard_count as nat);
    if sh.index >= total {
        Some(DaError::ShardIndexOutOfRange(sh.index))
    } else if !b64_decodes(sh.data@) {
        Some(DaError::InvalidBase64(sh.index))
    } else if b64_value(sh.data@).len() != s {
        Some(DaError::ShardSizeMismatch(sh.index))
    } else if !merkle_proof_valid(
        c.merkle_root@,
        hex_lower(sha256_spec(b64_value(sh.data@))),
        sh.index as int,
        views(sh.merkle_proof@),
        total as nat,
    ) {
        Some(DaError::MerkleProofFailed(sh.index))
    } else {
        None
    }
}

/// The fault of the first received shard, in order, that has one.
pub open spec fn first_fault(c: DaCommitment, rec: Seq<Option<DaShard>>) -> Option<DaError>
    decreases rec.len(),
{
    if rec.len() == 0 {
        None
    } else {
        match first_fault(c, rec.drop_last()) {
            Some(e) => Some(e),
            None => match rec.last() {
                Some(sh) => shard_fault(c, sh),
                None => None,
            },
        }
    }
}

/// The decoded bytes of each received shard.
pub open spec fn received_buffers(rec: Seq<Option<DaShard>>) -> Seq<Option<Seq<u8>>> {
    rec.map_values(
        |o: Option<DaShard>|
            match o {
                Some(sh) => Some(b64_value(sh.data@)),
                None => None,
            },
    )
}

/// What decoding gives for commitment `c` and the received shards `rec`.
pub open spec fn decode_outcome(c: DaCommitment, rec: Seq<Option<DaShard>>) -> Result<
    Seq<u8>,
    DaError,
> {
    let k = c.data_shard_count as nat;
    let m = c.parity_shard_count as nat;
    let n = c.original_size as nat;
    if k + m > MAX_TOTAL_SHARDS {
        Err(DaError::TooManyShards)
    } else if n > MAX_ORIGINAL_SIZE {
        Err(DaError::DataTooLarge)
    } else if k == 0 || m == 0 {
        Err(DaError::ZeroShardCount)
    } else if rec.len() != k + m {
        Err(DaError::ShardCountMismatch)
    } else if present_count(received_buffers(rec)) < k {
        Err(DaError::InsufficientShards)
    } else if first_fault(c, rec) is Some {
        Err(first_fault(c, rec)->0)
    } else if shard_size(n, k) == 0 {
        Err(DaError::ReconstructionFailed)
    } else {
        Ok(rs_reconstruct(received_buffers(rec), k, m).take(k as int).flatten_alt().take(n as int))
    }
}

/// `rec` holds, each present or absent, shards that encoding `data` under
/// commitment `c` produced, at least as many as there are data shards.
pub open spec fn honest_delivery(data: Seq<u8>, c: DaCommitment, rec: Seq<Option<DaShard>>) -> bool {
    let k = c.data_shard_count as nat;
    let m = c.parity_shard_count as nat;
    &&& encodable(data.len(), k, m)
    &&& well_encoded(data, k, m)
    &&& commits_to(c, data, k, m)
    &&& rec.len() == k + m
    &&& present_count(received_buffers(rec)) >= k
    &&& forall|i: int|
        0 <= i < rec.len() && (#[trigger] rec[i]) is Some ==> is_shard_of(rec[i]->0, data, k, m, i)
}


// ---------------------------------------------------------------------
// Lemmas on erasure coding
// ---------------------------------------------------------------------

proof fn lemma_shard_size(n: nat, k: nat)
    requires
        n >= 1,
        k >= 1,
    ensures
        1 <= shard_size(n, k) <= n,
        k * shard_size(n, k) >= n,
{
    let q = (n + k - 1) / (k as int);
    let r = (n + k - 1) % (k as int);
    vstd::arithmetic::div_mod::lemma_fundamental_div_mod((n + k - 1) as int, k as int);
    assert(0 <= r < k);
    assert(k * q == n + k - 1 - r);
    assert(q >= 1) by (nonlinear_arith)
        requires
            k * q == n + k - 1 - r,
            0 <= r < k,
            n >= 1,
            k >= 1,
    ;
    assert(q <= n) by (nonlinear_arith)
        requires
            k * q == n + k - 1 - r,
            0 <= r,
            n >= 1,
            k >= 1,
    ;
}

proof fn lemma_chunk_len(data: Seq<u8>, s: nat, i: int)
    requires
        i >= 0,
    ensures
        chunk(data, s, i).len() == s,
        forall|u: int|
            0 <= u < s && i * s + u < data.len() ==> #[trigger] chunk(data, s, i)[u] == data[i * s + u],
{
    assert(i * s >= 0) by (nonlinear_arith)
        requires
            i >= 0,
    ;
}

proof fn lemma_chunks_prefix(data: Seq<u8>, k: nat, j: nat)
    requires
        data.len() >= 1,
        k >= 1,
        j <= k,
    ensures
        data_chunks(data, k).take(j as int).flatten_alt().len() == j * shard_size(data.len(), k),
        forall|t: int|
            0 <= t < j * shard_size(data.len(), k) && t < data.len() ==> #[trigger] data_chunks(
                data,
                k,
            ).take(j as int).flatten_alt()[t] == data[t],
    decreases j,
{
    let s = shard_size(data.len(), k);
    let cs = data_chunks(data, k);
    if j == 0 {
        assert(cs.take(0) =~= Seq::<Seq<u8>>::empty());
        assert(cs.take(j as int).flatten_alt().len() == 0);
        assert(j * s == 0) by (nonlinear_arith)
            requires
                j == 0,
        ;
    } else {
        lemma_chunks_prefix(data, k, (j - 1) as nat);
        let prev = cs.take(j - 1).flatten_alt();
        let c = chunk(data, s, j - 1);
        assert(cs.take(j as int).drop_last() =~= cs.take(j - 1));
        assert(cs.take(j as int).last() == c);
        let f = cs.take(j as int).flatten_alt();
        assert(f == prev + c);
        lemma_chunk_len(data, s, j - 1);
        assert(prev.len() == (j - 1) * s);
        assert(j * s == (j - 1) * s + s) by (nonlinear_arith);
        assert(f.len() == j * s);
        assert forall|t: int| 0 <= t < j * s && t < data.len() implies #[trigger] f[t] == data[t] by {
            if t >= (j - 1) * s {
                let u = t - (j - 1) * s;
                assert(c[u] == data[(j - 1) * s + u]);
            }
        }
    }
}

/// The data shards of `data`, joined, begin with `data`.
proof fn lemma_chunks_join(data: Seq<u8>, k: nat)
    requires
        data.len() >= 1,
        k >= 1,
    ensures
        data_chunks(data, k).flatten_alt().take(data.len() as int) == data,
{
    lemma_shard_size(data.len(), k);
    lemma_chunks_prefix(data, k, k);
    let cs = data_chunks(data, k);
    assert(cs.take(k as int) =~= cs);
    assert(cs.flatten_alt().take(data.len() as int) =~= data);
}

proof fn lemma_present_count_step(x: Seq<Option<Seq<u8>>>, i: int)
    requires
        0 <= i < x.len(),
    ensures
        present_count(x.take(i + 1)) == present_count(x.take(i)) + if x[i] is Some {
            1nat
        } else {
            0nat
        },
{
    assert(x.take(i + 1).drop_last() =~= x.take(i));
}

proof fn lemma_first_fault_prefix(c: DaCommitment, rec: Seq<Option<DaShard>>, j: int)
    requires
        0 <= j <= rec.len(),
        first_fault(c, rec.take(j)) is Some,
    ensures
        first_fault(c, rec) == first_fault(c, rec.take(j)),
    decreases rec.len(),
{
    if rec.len() == j {
        assert(rec.take(j) =~= rec);
    } else {
        assert(rec.drop_last().take(j) =~= rec.take(j));
        lemma_first_fault_prefix(c, rec.drop_last(), j);
    }
}

proof fn lemma_first_fault_step(c: DaCommitment, rec: Seq<Option<DaShard>>, i: int)
    requires
        0 <= i < rec.len(),
        first_fault(c, rec.take(i)) is None,
    ensures
        first_fault(c, rec.take(i + 1)) == match rec[i] {
            Some(sh) => shard_fault(c, sh),
            None => None,
        },
{
    assert(rec.take(i + 1).drop_last() =~= rec.take(i));
}

/// A shard that honest delivery of `data` holds passes every check.
proof fn lemma_honest_shard(data: Seq<u8>, c: DaCommitment, rec: Seq<Option<DaShard>>, i: int)
    requires
        honest_delivery(data, c, rec),
        0 <= i < rec.len(),
        rec[i] is Some,
    ensures
        ({
            let k = c.data_shard_count as nat;
            let m = c.parity_shard_count as nat;
            let e = encoded_shards(data, k, m);
            &&& rec[i]->0.index == i
            &&& rec[i]->0.data@ == base64_standard(e[i])
            &&& e[i].len() == shard_size(c.original_size as nat, k)
            &&& merkle_proof_valid(
                c.merkle_root@,
                hex_lower(sha256_spec(e[i])),
                i,
                views(rec[i]->0.merkle_proof@),
                (k + m) as nat,
            )
        }),
{
    let k = c.data_shard_count as nat;
    let m = c.parity_shard_count as nat;
    let e = encoded_shards(data, k, m);
    assert(is_shard_of(rec[i]->0, data, k, m, i));
    lemma_merkle_proof_verifies(shard_hashes(e), i);
}

/// Honestly delivered shards decode to the data they were made from.
proof fn lemma_honest_decodes(data: Seq<u8>, c: DaCommitment, rec: Seq<Option<DaShard>>)
    requires
        honest_delivery(data, c, rec),
        forall|i: int|
            0 <= i < rec.len() && (#[trigger] rec[i]) is Some ==> b64_value(rec[i]->0.data@)
                == encoded_shards(data, c.data_shard_count as nat, c.parity_shard_count as nat)[i],
        rs_reconstruct(
            received_buffers(rec),
            c.data_shard_count as nat,
            c.parity_shard_count as nat,
        ) == encoded_shards(data, c.data_shard_count as nat, c.parity_shard_count as nat),
    ensures
        decode_outcome(c, rec) == Ok::<Seq<u8>, DaError>(data),
{
    let k = c.data_shard_count as nat;
    let m = c.parity_shard_count as nat;
    let e = encoded_shards(data, k, m);
    assert forall|i: int| 0 <= i < rec.len() && (#[trigger] rec[i]) is Some implies shard_fault(
        c,
        rec[i]->0,
    ) is None by {
        lemma_honest_shard(data, c, rec, i);
        assert(base64_standard(e[i]) == rec[i]->0.data@);
    }
    lemma_no_fault(c, rec);
    lemma_shard_size(data.len(), k);
    let cs = data_chunks(data, k);
    assert(e.take(k as int) =~= cs);
    lemma_chunks_join(data, k);
}

proof fn lemma_no_fault(c: DaCommitment, rec: Seq<Option<DaShard>>)
    requires
        forall|i: int|
            0 <= i < rec.len() && (#[trigger] rec[i]) is Some ==> shard_fault(c, rec[i]->0) is None,
    ensures
        first_fault(c, rec) is None,
    decreases rec.len(),
{
    if rec.len() > 0 {
        let r = rec.drop_last();
        assert forall|i: int| 0 <= i < r.len() && (#[trigger] r[i]) is Some implies shard_fault(
            c,
            r[i]->0,
        ) is None by {
            assert(r[i] == rec[i]);
        }
        lemma_no_fault(c, r);
        assert(rec.last() == rec[rec.len() - 1]);
    }
}


// ---------------------------------------------------------------------
// Encoding and decoding
// ---------------------------------------------------------------------

proof fn lemma_bytes_deep_view(v: Vec<u8>)
    ensures
        v.deep_view() == v@,
{
    assert(v.deep_view() =~= v@);
}

/// Data shard `i` of `data`, `s` bytes, zero-padded.
fn make_chunk(data: &[u8], s: usize, i: usize) -> (c: Vec<u8>)
    requires
        i < MAX_TOTAL_SHARDS,
        s <= MAX_SHARD_SIZE,
    ensures
        c@ == chunk(data@, s as nat, i as int),
{
    assert(i * s + s <= 64 * 4194304) by (nonlinear_arith)
        requires
            i < 64,
            s <= 4194304,
    ;
    let n = data.len();
    let start = i * s;
    let mut c: Vec<u8> = Vec::new();
    if start < n {
        let end = if start + s < n { start + s } else { n };
        let mut j = start;
        while j < end
            invariant
                start <= j <= end <= n == data@.len(),
                c@ == data@.subrange(start as int, j as int),
            decreases end - j,
        {
            c.push(data[j]);
            j = j + 1;
            assert(c@ =~= data@.subrange(start as int, j as int));
        }
    }
    let ghost body = c@;
    assert(body.len() <= s);
    while c.len() < s
        invariant
            body.len() <= c@.len() <= s,
            c@ == body + Seq::new((c@.len() - body.len()) as nat, |j: int| 0u8),
        decreases s - c@.len(),
    {
        c.push(0u8);
        assert(c@ =~= body + Seq::new((c@.len() - body.len()) as nat, |j: int| 0u8));
    }
    c
}

/// `s` zero bytes.
fn zero_shard(s: usize) -> (z: Vec<u8>)
    ensures
        z@ == Seq::new(s as nat, |j: int| 0u8),
{
    let mut z: Vec<u8> = Vec::new();
    while z.len() < s
        invariant
            z@.len() <= s,
            z@ == Seq::new(z@.len(), |j: int| 0u8),
        decreases s - z@.len(),
    {
        z.push(0u8);
        assert(z@ =~= Seq::new(z@.len(), |j: int| 0u8));
    }
    z
}

/// Splits `data` into `data_shards` data shards and `parity_shards`
/// Reed–Solomon parity shards, commits to their hashes with a Merkle root,
/// and returns the commitment with each shard (base64) and its proof.
pub fn encode(data: &[u8], data_shards: usize, parity_shards: usize) -> (res: Result<
    (DaCommitment, Vec<DaShard>),
    DaError,
>)
    ensures
        match res {
            Ok((c, shards)) => {
                &&& encodable(data@.len(), data_shards as nat, parity_shards as nat)
                &&& well_encoded(data@, data_shards as nat, parity_shards as nat)
                &&& commits_to(c, data@, data_shards as nat, parity_shards as nat)
                &&& shards@.len() == data_shards + parity_shards
                &&& forall|i: int|
                    0 <= i < shards@.len() ==> is_shard_of(
                        #[trigger] shards@[i],
                        data@,
                        data_shards as nat,
                        parity_shards as nat,
                        i,
                    )
            },
            Err(e) => {
                &&& !encodable(data@.len(), data_shards as nat, parity_shards as nat)
                &&& e == encode_error(data@.len(), data_shards as nat, parity_shards as nat)
            },
        },
{
    let n = data.len();
    if n == 0 {
        return Err(DaError::EmptyData);
    }
    if n > MAX_ORIGINAL_SIZE {
        return Err(DaError::DataTooLarge);
    }
    if data_shards > MAX_TOTAL_SHARDS || parity_shards > MAX_TOTAL_SHARDS || data_shards
        + parity_shards > MAX_TOTAL_SHARDS {
        return Err(DaError::TooManyShards);
    }
    if data_shards == 0 || parity_shards == 0 {
        return Err(DaError::ZeroShardCount);
    }
    let k = data_shards;
    let m = parity_shards;
    let total = k + m;
    let s = (n + k - 1) / k;
    if s > MAX_SHARD_SIZE {
        return Err(DaError::ShardTooLarge);
    }
    proof { lemma_shard_size(n as nat, k as nat); }
    let ghost chunks = data_chunks(data@, k as nat);
    let mut shards: Vec<Vec<u8>> = Vec::new();
    let mut i: usize = 0;
    while i < k
        invariant
            i <= k < MAX_TOTAL_SHARDS,
            s == shard_size(n as nat, k as nat),
            n == data@.len(),
            s <= MAX_SHARD_SIZE,
            chunks == data_chunks(data@, k as nat),
            shards@.len() == i,
            forall|j: int| 0 <= j < i ==> (#[trigger] shards@[j])@ == chunks[j],
        decreases k - i,
    {
        let c = make_chunk(data, s, i);
        shards.push(c);
        i = i + 1;
    }
    let ghost zeros = Seq::new(s as nat, |j: int| 0u8);
    while i < total
        invariant
            k <= i <= total == k + m,
            shards@.len() == i,
            forall|j: int| 0 <= j < k ==> (#[trigger] shards@[j])@ == chunks[j],
            forall|j: int| k <= j < i ==> (#[trigger] shards@[j])@ == zeros,
            zeros == Seq::new(s as nat, |j: int| 0u8),
        decreases total - i,
    {
        let z = zero_shard(s);
        shards.push(z);
        i = i + 1;
    }
    proof {
        assert forall|j: int| 0 <= j < shards@.len() implies #[trigger] shards.deep_view()[j]
            == shards@[j]@ by {
            lemma_bytes_deep_view(shards@[j]);
        }
        assert(shards.deep_view().take(k as int) =~= chunks);
        assert forall|j: int| 0 <= j < shards.deep_view().len() implies (
        #[trigger] shards.deep_view()[j]).len() == s by {
            if j < k {
                lemma_chunk_len(data@, s as nat, j);
            }
        }
        lemma_chunk_len(data@, s as nat, 0);
    }
    let coded = rs_encode(k, m, &mut shards);
    let ghost enc = encoded_shards(data@, k as nat, m as nat);
    assert(shards.deep_view() =~= enc);
    let mut hashes: Vec<String> = Vec::new();
    let mut i: usize = 0;
    while i < total
        invariant
            i <= total == shards@.len() == k + m <= MAX_TOTAL_SHARDS,
            enc == shards.deep_view(),
            enc == encoded_shards(data@, k as nat, m as nat),
            hashes@.len() == i,
            forall|j: int| 0 <= j < i ==> (#[trigger] hashes@[j])@ == hex_lower(sha256_spec(enc[j])),
        decreases total - i,
    {
        proof { lemma_bytes_deep_view(shards@[i as int]); }
        let h = sha256_hex(shards[i].as_slice());
        hashes.push(h);
        i = i + 1;
    }
    assert(views(hashes@) =~= shard_hashes(enc));
    let root = compute_merkle_root(hashes.as_slice());
    let mut out: Vec<DaShard> = Vec::new();
    let mut i: usize = 0;
    while i < total
        invariant
            i <= total == shards@.len() == hashes@.len() == k + m <= MAX_TOTAL_SHARDS,
            enc == shards.deep_view(),
            enc == encoded_shards(data@, k as nat, m as nat),
            views(hashes@) == shard_hashes(enc),
            out@.len() == i,
            forall|j: int|
                0 <= j < i ==> is_shard_of(#[trigger] out@[j], data@, k as nat, m as nat, j),
        decreases total - i,
    {
        proof { lemma_bytes_deep_view(shards@[i as int]); }
        let proof = compute_merkle_proof(hashes.as_slice(), i);
        let text = base64_encode(shards[i].as_slice());
        let ghost before = out@;
        out.push(DaShard { index: i, data: text, merkle_proof: proof });
        proof {
            assert(enc[i as int] == shards@[i as int]@);
            assert(out@[i as int].data@ == base64_standard(enc[i as int]));
            assert(is_shard_of(out@[i as int], data@, k as nat, m as nat, i as int));
            assert forall|j: int| 0 <= j < i implies is_shard_of(#[trigger] out@[j], data@, k as nat, m as nat, j) by {
                assert(out@[j] == before[j]);
            }
        }
        i = i + 1;
    }
    let commitment = DaCommitment {
        merkle_root: root,
        data_shard_count: k,
        parity_shard_count: m,
        original_size: n,
        compressed: false,
        uncompressed_size: 0,
    };
    Ok((commitment, out))
}


proof fn lemma_some_present(x: Seq<Option<Seq<u8>>>) -> (j: int)
    requires
        present_count(x) > 0,
    ensures
        0 <= j < x.len(),
        x[j] is Some,
    decreases x.len(),
{
    if x.last() is Some {
        x.len() - 1
    } else {
        let j = lemma_some_present(x.drop_last());
        assert(x.drop_last()[j] == x[j]);
        j
    }
}

proof fn lemma_flatten_uniform(x: Seq<Seq<u8>>, s: nat)
    requires
        uniform(x, s),
    ensures
        x.flatten_alt().len() == x.len() * s,
    decreases x.len(),
{
    if x.len() > 0 {
        lemma_flatten_uniform(x.drop_last(), s);
        assert(x.len() * s == (x.len() - 1) * s + s) by (nonlinear_arith);
    }
}

/// Rebuilds the payload from the received shards, each present or absent.
/// It checks the commitment's counts and sizes, then each present shard in
/// order (index, base64 text, size, Merkle proof), then reconstructs the
/// missing shards and joins the data shards.
pub fn decode(commitment: &DaCommitment, received_shards: &[Option<DaShard>]) -> (res: Result<
    Vec<u8>,
    DaError,
>)
    ensures
        match res {
            Ok(v) => decode_outcome(*commitment, received_shards@) == Ok::<Seq<u8>, DaError>(v@),
            Err(e) => decode_outcome(*commitment, received_shards@) == Err::<Seq<u8>, DaError>(e),
        },
        forall|data: Seq<u8>|
            #[trigger] honest_delivery(data, *commitment, received_shards@) ==> (res matches Ok(v)
                && v@ == data),
{
    let ghost c = *commitment;
    let ghost rec = received_shards@;
    let k = commitment.data_shard_count;
    let m = commitment.parity_shard_count;
    let n = commitment.original_size;
    if k > MAX_TOTAL_SHARDS || m > MAX_TOTAL_SHARDS || k + m > MAX_TOTAL_SHARDS {
        return Err(DaError::TooManyShards);
    }
    let total = k + m;
    if n > MAX_ORIGINAL_SIZE {
        return Err(DaError::DataTooLarge);
    }
    if k == 0 || m == 0 {
        return Err(DaError::ZeroShardCount);
    }
    if received_shards.len() != total {
        return Err(DaError::ShardCountMismatch);
    }
    let ghost bufs = received_buffers(rec);
    let mut present: usize = 0;
    let mut i: usize = 0;
    while i < total
        invariant
            i <= total == rec.len(),
            rec == received_shards@,
            bufs == received_buffers(rec),
            present == present_count(bufs.take(i as int)),
            present <= i,
        decreases total - i,
    {
        proof { lemma_present_count_step(bufs, i as int); }
        if received_shards[i].is_some() {
            present = present + 1;
        }
        i = i + 1;
    }
    assert(bufs.take(total as int) =~= bufs);
    if present < k {
        return Err(DaError::InsufficientShards);
    }
    let s = (n + k - 1) / k;
    assert(rec.take(0) =~= Seq::<Option<DaShard>>::empty());
    let mut buffers: Vec<Option<Vec<u8>>> = Vec::new();
    let mut i: usize = 0;
    while i < total
        invariant
            i <= total == rec.len() == k + m <= MAX_TOTAL_SHARDS,
            k > 0,
            m > 0,
            rec == received_shards@,
            c == *commitment,
            k == c.data_shard_count,
            m == c.parity_shard_count,
            n == c.original_size,
            n <= MAX_ORIGINAL_SIZE,
            s == shard_size(n as nat, k as nat),
            bufs == received_buffers(rec),
            present_count(bufs) >= k,
            buffers.deep_view() == bufs.take(i as int),
            first_fault(c, rec.take(i as int)) is None,
            forall|j: int| 0 <= j < i && bufs[j] is Some ==> (#[trigger] bufs[j])->0.len() == s,
            forall|data: Seq<u8>|
                #[trigger] honest_delivery(data, c, rec) ==> forall|j: int|
                    0 <= j < i && rec[j] is Some ==> (#[trigger] bufs[j]) == Some(
                        encoded_shards(data, k as nat, m as nat)[j],
                    ),
        decreases total - i,
    {
        proof { lemma_first_fault_step(c, rec, i as int); }
        let ghost before = buffers.deep_view();
        proof {
            assert(bufs.len() == rec.len());
            assert(before.len() == i);
            assert(buffers@.len() == i);
        }
        match &received_shards[i] {
            Some(shard) => {
                let ghost text = shard.data@;
                if shard.index >= total {
                    proof {
                        lemma_first_fault_prefix(c, rec, i + 1);
                        assert forall|data: Seq<u8>| #[trigger]
                            honest_delivery(data, c, rec) implies false by {
                            lemma_honest_shard(data, c, rec, i as int);
                        }
                    }
                    return Err(DaError::ShardIndexOutOfRange(shard.index));
                }
                let decoded = match base64_decode(shard.data.as_str()) {
                    Ok(v) => v,
                    Err(_) => {
                        proof {
                            lemma_first_fault_prefix(c, rec, i + 1);
                            assert forall|data: Seq<u8>| #[trigger]
                                honest_delivery(data, c, rec) implies false by {
                                lemma_honest_shard(data, c, rec, i as int);
                            }
                        }
                        return Err(DaError::InvalidBase64(shard.index));
                    },
                };
                proof {
                    assert(base64_standard(decoded@) == text);
                    assert(b64_decodes(text));
                    assert(base64_standard(b64_value(text)) == text);
                    assert(b64_value(text) == decoded@);
                }
                if decoded.len() != s {
                    proof {
                        lemma_first_fault_prefix(c, rec, i + 1);
                        assert forall|data: Seq<u8>| #[trigger]
                            honest_delivery(data, c, rec) implies false by {
                            lemma_honest_shard(data, c, rec, i as int);
                        }
                    }
                    return Err(DaError::ShardSizeMismatch(shard.index));
                }
                let leaf = sha256_hex(decoded.as_slice());
                let ok = verify_merkle_proof(
                    commitment.merkle_root.as_str(),
                    leaf.as_str(),
                    shard.index,
                    shard.merkle_proof.as_slice(),
                    total,
                );
                if !ok {
                    proof {
                        lemma_first_fault_prefix(c, rec, i + 1);
                        assert forall|data: Seq<u8>| #[trigger]
                            honest_delivery(data, c, rec) implies false by {
                            lemma_honest_shard(data, c, rec, i as int);
                        }
                    }
                    return Err(DaError::MerkleProofFailed(shard.index));
                }
                proof {
                    lemma_bytes_deep_view(decoded);
                    assert forall|data: Seq<u8>| #[trigger]
                        honest_delivery(data, c, rec) implies bufs[i as int] == Some(
                        encoded_shards(data, k as nat, m as nat)[i as int],
                    ) by {
                        lemma_honest_shard(data, c, rec, i as int);
                    }
                }
                let ghost raw = buffers@;
                buffers.push(Some(decoded));
                proof {
                    assert(buffers@ == raw.push(Some(decoded)));
                    assert(buffers.deep_view()[i as int] == Some(decoded@));
                    assert forall|j: int| 0 <= j < i implies buffers.deep_view()[j] == before[j] by {
                        assert(buffers@[j] == raw[j]);
                    }
                }
            },
            None => {
                let ghost raw = buffers@;
                buffers.push(None);
                proof {
                    assert(buffers@ == raw.push(None));
                    assert(buffers.deep_view()[i as int] == None::<Seq<u8>>);
                    assert forall|j: int| 0 <= j < i implies buffers.deep_view()[j] == before[j] by {
                        assert(buffers@[j] == raw[j]);
                    }
                }
            },
        }
        proof {
            assert(bufs[i as int] == match rec[i as int] {
                Some(sh) => Some(b64_value(sh.data@)),
                None => None::<Seq<u8>>,
            });
            assert(buffers.deep_view() =~= bufs.take(i + 1));
        }
        i = i + 1;
    }
    proof {
        assert(rec.take(total as int) =~= rec);
        assert(buffers.deep_view() =~= bufs);
    }
    let rebuilt = rs_reconstruct_shards(k, m, &mut buffers);
    let ghost recon = rs_reconstruct(bufs, k as nat, m as nat);
    match rebuilt {
        Ok(()) => {},
        Err(_) => {
            proof {
                if s > 0 {
                    assert(present_consistent(bufs));
                }
                assert forall|data: Seq<u8>| #[trigger]
                    honest_delivery(data, c, rec) implies false by {
                    lemma_shard_size(n as nat, k as nat);
                }
            }
            return Err(DaError::ReconstructionFailed);
        },
    }
    proof {
        let w = lemma_some_present(bufs);
        assert(bufs[w] == Some(recon[w]));
        assert(present_consistent(bufs));
        assert(s > 0);
        if n == 0 {
            vstd::arithmetic::div_mod::lemma_basic_div((k - 1) as int, k as int);
        }
        assert(n > 0);
        assert forall|j: int| 0 <= j < recon.take(k as int).len() implies (#[trigger] recon.take(
            k as int,
        )[j]).len() == s by {
            assert(recon[j].len() == recon[w].len());
        }
    }
    let mut result: Vec<u8> = Vec::new();
    let mut i: usize = 0;
    while i < k
        invariant
            i <= k <= total == buffers@.len(),
            recon.len() == total,
            forall|j: int|
                0 <= j < buffers@.len() ==> (#[trigger] buffers.deep_view()[j]) == Some(recon[j]),
            result@ == recon.take(i as int).flatten_alt(),
        decreases k - i,
    {
        match &buffers[i] {
            Some(sd) => {
                proof {
                    assert(buffers.deep_view()[i as int] == Some(recon[i as int]));
                    lemma_bytes_deep_view(*sd);
                    assert(recon.take(i + 1).drop_last() =~= recon.take(i as int));
                }
                push_bytes(&mut result, sd.as_slice());
            },
            None => {
                proof {
                    assert(buffers.deep_view()[i as int] == Some(recon[i as int]));
                }
                return Err(DaError::ReconstructionFailed);
            },
        }
        i = i + 1;
    }
    proof {
        assert(recon.take(k as int).len() == k);
        lemma_flatten_uniform(recon.take(k as int), s as nat);
        lemma_shard_size(n as nat, k as nat);
    }
    result.truncate(n);
    proof {
        assert forall|data: Seq<u8>| #[trigger] honest_delivery(data, c, rec) implies result@
            == data by {
            let d = data_chunks(data, k as nat);
            lemma_chunk_len(data, s as nat, 0);
            assert(uniform(d, d[0].len())) by {
                assert forall|j: int| 0 <= j < d.len() implies (#[trigger] d[j]).len()
                    == d[0].len() by {
                    lemma_chunk_len(data, s as nat, j);
                }
            }
            assert forall|j: int| 0 <= j < rec.len() && (#[trigger] rec[j]) is Some implies b64_value(
                rec[j]->0.data@,
            ) == encoded_shards(data, k as nat, m as nat)[j] by {
                assert(bufs[j] == Some(b64_value(rec[j]->0.data@)));
            }
            assert(agrees_with(bufs, d + rs_parity(d, m as nat)));
            lemma_honest_decodes(data, c, rec);
        }
    }
    Ok(result)
}


// ---------------------------------------------------------------------
// Compression of payloads
// ---------------------------------------------------------------------

/// The raw DEFLATE stream that flate2 writes for `data` at its fast level.
pub uninterp spec fn deflate_fast(data: Seq<u8>) -> Seq<u8>;

/// The first `limit` bytes (or fewer, where the stream ends first) that
/// inflating the raw DEFLATE stream `data` yields; `None` where the stream is
/// corrupt within what is read.
pub uninterp spec fn inflate_limited(data: Seq<u8>, limit: nat) -> Option<Seq<u8>>;

/// Raw DEFLATE of `data` at the fast level, through
/// `flate2::write::DeflateEncoder` over a `Vec` (`new`, `write_all`,
/// `finish`). Trusted: writing into memory does not fail (the encoder
/// reports errors only for misuse of its stream), and the bytes are
/// `deflate_fast` of `data`.
#[verifier::external_body]
fn deflate_into_vec(data: &[u8]) -> (res: Option<Vec<u8>>)
    ensures
        res is Some,
        res matches Some(v) ==> v@ == deflate_fast(data@),
{
    let mut encoder = flate2::write::DeflateEncoder::new(Vec::new(), flate2::Compression::fast());
    match std::io::Write::write_all(&mut encoder, data) {
        Ok(()) => encoder.finish().ok(),
        Err(_) => None,
    }
}

/// Inflates at most `limit` bytes of the raw DEFLATE stream `data`, through
/// `flate2::read::DeflateDecoder`, `take(limit)` and `read_to_end`.
/// Trusted: reading from memory fails only on a corrupt stream, so the
/// result is `inflate_limited(data, limit)`; a stream that the fast encoder
/// wrote for `x`, with `x` no longer than `limit`, inflates back to `x`.
#[verifier::external_body]
fn inflate_from_slice(data: &[u8], limit: usize) -> (res: Option<Vec<u8>>)
    ensures
        match res {
            Some(v) => inflate_limited(data@, limit as nat) == Some(v@),
            None => inflate_limited(data@, limit as nat) is None,
        },
        forall|x: Seq<u8>|
            data@ == #[trigger] deflate_fast(x) && x.len() <= limit ==> res is Some && res->0@ == x,
{
    let mut out: Vec<u8> = Vec::new();
    let decoder = flate2::read::DeflateDecoder::new(data);
    let mut limited = std::io::Read::take(decoder, limit as u64);
    match std::io::Read::read_to_end(&mut limited, &mut out) {
        Ok(_) => Some(out),
        Err(_) => None,
    }
}

/// Compresses a data-availability payload (raw DEFLATE, fast level);
/// compressing into memory always succeeds.
pub fn compress_da_payload(data: &[u8]) -> (res: Result<Vec<u8>, DaError>)
    ensures
        res is Ok,
        match res {
            Ok(v) => v@ == deflate_fast(data@),
            Err(e) => e == DaError::CompressionFailed,
        },
{
    match deflate_into_vec(data) {
        Some(v) => Ok(v),
        None => Err(DaError::CompressionFailed),
    }
}

/// Accepts the inflated bytes `inflated` of a payload declared to be
/// `uncompressed_size` bytes: they must be exactly that long.
pub fn accept_inflated(inflated: Option<Vec<u8>>, uncompressed_size: usize) -> (res: Result<
    Vec<u8>,
    DaError,
>)
    ensures
        match inflated {
            None => res == Err::<Vec<u8>, DaError>(DaError::DecompressionFailed),
            Some(v) => if v@.len() == uncompressed_size {
                res matches Ok(w) && w@ == v@
            } else {
                res == Err::<Vec<u8>, DaError>(DaError::DecompressedSizeMismatch)
            },
        },
{
    match inflated {
        None => Err(DaError::DecompressionFailed),
        Some(v) => {
            if v.len() != uncompressed_size {
                Err(DaError::DecompressedSizeMismatch)
            } else {
                Ok(v)
            }
        },
    }
}

/// Decompresses a payload declared to be `uncompressed_size` bytes, reading
/// no more than twice that (and never above the limit) from the stream.
pub fn decompress_da_payload(data: &[u8], uncompressed_size: usize) -> (res: Result<
    Vec<u8>,
    DaError,
>)
    ensures
        uncompressed_size == 0 || uncompressed_size > MAX_UNCOMPRESSED_SIZE ==> res == Err::<
            Vec<u8>,
            DaError,
        >(DaError::InvalidUncompressedSize),
        0 < uncompressed_size <= MAX_UNCOMPRESSED_SIZE ==> match inflate_limited(
            data@,
            (if 2 * uncompressed_size <= MAX_UNCOMPRESSED_SIZE {
                2 * uncompressed_size
            } else {
                MAX_UNCOMPRESSED_SIZE as int
            }) as nat,
        ) {
            None => res == Err::<Vec<u8>, DaError>(DaError::DecompressionFailed),
            Some(out) => if out.len() == uncompressed_size {
                res matches Ok(v) && v@ == out
            } else {
                res == Err::<Vec<u8>, DaError>(DaError::DecompressedSizeMismatch)
            },
        },
        forall|x: Seq<u8>|
            data@ == #[trigger] deflate_fast(x) && x.len() == uncompressed_size && 0
                < uncompressed_size <= MAX_UNCOMPRESSED_SIZE ==> (res matches Ok(v) && v@ == x),
{
    if uncompressed_size == 0 || uncompressed_size > MAX_UNCOMPRESSED_SIZE {
        return Err(DaError::InvalidUncompressedSize);
    }
    let limit = if uncompressed_size <= MAX_UNCOMPRESSED_SIZE / 2 {
        2 * uncompressed_size
    } else {
        MAX_UNCOMPRESSED_SIZE
    };
    let inflated = inflate_from_slice(data, limit);
    accept_inflated(inflated, uncompressed_size)
}


/// A shard that no check faults passes every check: its index is in range,
/// its text is base64 of one shard size, and its bytes hash to a leaf that
/// its proof verifies under the root at its index.
proof fn lemma_no_fault_checked(c: DaCommitment, sh: DaShard)
    requires
        shard_fault(c, sh) is None,
    ensures
        sh.index < c.data_shard_count + c.parity_shard_count,
        b64_decodes(sh.data@),
        b64_value(sh.data@).len() == shard_size(c.original_size as nat, c.data_shard_count as nat),
        merkle_proof_valid(
            c.merkle_root@,
            hex_lower(sha256_spec(b64_value(sh.data@))),
            sh.index as int,
            views(sh.merkle_proof@),
            (c.data_shard_count + c.parity_shard_count) as nat,
        ),
{
}

proof fn lemma_first_fault_none(c: DaCommitment, rec: Seq<Option<DaShard>>)
    requires
        first_fault(c, rec) is None,
    ensures
        forall|i: int| 0 <= i < rec.len() && (#[trigger] rec[i]) is Some ==> shard_fault(c, rec[i]->0) is None,
    decreases rec.len(),
{
    if rec.len() > 0 {
        lemma_first_fault_none(c, rec.drop_last());
        assert forall|i: int| 0 <= i < rec.len() && (#[trigger] rec[i]) is Some implies shard_fault(
            c,
            rec[i]->0,
        ) is None by {
            if i < rec.len() - 1 {
                assert(rec.drop_last()[i] == rec[i]);
            }
        }
    }
}

/// Law: decoding succeeds only when every received shard, data or parity,
/// was checked: its index is in range, its text is base64 of exactly one
/// shard size, and its bytes hash to a leaf whose Merkle proof verifies under the
/// commitment's root at the shard's index; and only with all slots there
/// and at least as many shards as data shards.
pub proof fn lemma_decoded_shards_verified(c: DaCommitment, rec: Seq<Option<DaShard>>)
    requires
        decode_outcome(c, rec) is Ok,
    ensures
        rec.len() == c.data_shard_count + c.parity_shard_count,
        present_count(received_buffers(rec)) >= c.data_shard_count,
        forall|i: int|
            0 <= i < rec.len() && (#[trigger] rec[i]) is Some ==> {
                let sh = rec[i]->0;
                &&& sh.index < c.data_shard_count + c.parity_shard_count
                &&& b64_decodes(sh.data@)
                &&& b64_value(sh.data@).len() == shard_size(c.original_size as nat, c.data_shard_count as nat)
                &&& merkle_proof_valid(
                    c.merkle_root@,
                    hex_lower(sha256_spec(b64_value(sh.data@))),
                    sh.index as int,
                    views(sh.merkle_proof@),
                    (c.data_shard_count + c.parity_shard_count) as nat,
                )
            },
{
    lemma_first_fault_none(c, rec);
    assert forall|i: int| 0 <= i < rec.len() && (#[trigger] rec[i]) is Some implies {
        let sh = rec[i]->0;
        &&& sh.index < c.data_shard_count + c.parity_shard_count
        &&& b64_decodes(sh.data@)
        &&& b64_value(sh.data@).len() == shard_size(c.original_size as nat, c.data_shard_count as nat)
        &&& merkle_proof_valid(
            c.merkle_root@,
            hex_lower(sha256_spec(b64_value(sh.data@))),
            sh.index as int,
            views(sh.merkle_proof@),
            (c.data_shard_count + c.parity_shard_count) as nat,
        )
    } by {
        lemma_no_fault_checked(c, rec[i]->0);
    }
}

} // verus!
