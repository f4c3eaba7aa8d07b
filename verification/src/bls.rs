//! BLS12-381 keys and signatures (minimal-pubkey-size variant), signer
//! bitmaps and aggregated checkpoint signatures.

use vstd::prelude::*;
use crate::hashing::{hex_encode, hex_lower, sha256_digest, sha256_spec};

verus! {

/// Whether bit `i` (least significant bit first within each byte) is set in `bitmap`.
pub open spec fn bitmap_bit(bitmap: Seq<u8>, i: int) -> bool {
    0 <= i / 8 < bitmap.len() && (bitmap[i / 8] & (1u8 << ((i % 8) as u8))) != 0
}

/// The signer indices of a bitmap are the ascending positions below `total` whose bits are set.
pub open spec fn is_signer_list(bitmap: Seq<u8>, total: int, out: Seq<usize>) -> bool {
    &&& forall|a: int, b: int| 0 <= a < b < out.len() ==> out[a] < out[b]
    &&& forall|k: int| 0 <= k < out.len() ==> out[k] < total && bitmap_bit(bitmap, out[k] as int)
    &&& forall|i: int| 0 <= i < total && bitmap_bit(bitmap, i) ==> out.contains(i as usize)
}

/// The positions below `n` whose bits are set in `bitmap`, ascending.
pub open spec fn signer_indices(bitmap: Seq<u8>, n: nat) -> Seq<usize>
    decreases n,
{
    if n == 0 {
        Seq::empty()
    } else {
        signer_indices(bitmap, (n - 1) as nat) + if bitmap_bit(bitmap, n - 1) {
            seq![(n - 1) as usize]
        } else {
            Seq::empty()
        }
    }
}

proof fn lemma_or_bit(x: u8, b: u8, c: u8)
    requires
        b < 8,
        c < 8,
    ensures
        ((x | (1u8 << b)) & (1u8 << c) != 0) == ((x & (1u8 << c) != 0) || b == c),
{
    assert(((x | (1u8 << b)) & (1u8 << c) != 0) == ((x & (1u8 << c) != 0) || b == c))
        by (bit_vector)
        requires
            b < 8,
            c < 8,
    ;
}

proof fn lemma_zero_bit(c: u8)
    requires
        c < 8,
    ensures
        (0u8 & (1u8 << c)) == 0,
{
    assert((0u8 & (1u8 << c)) == 0) by (bit_vector);
}

proof fn lemma_set_bit(old: Seq<u8>, new: Seq<u8>, idx: int, i: int)
    requires
        0 <= idx,
        0 <= i,
        idx / 8 < old.len(),
        new == old.update(idx / 8, old[idx / 8] | (1u8 << ((idx % 8) as u8))),
    ensures
        bitmap_bit(new, i) == (bitmap_bit(old, i) || i == idx),
{
    let c = (i % 8) as u8;
    let b = (idx % 8) as u8;
    if i / 8 == idx / 8 {
        lemma_or_bit(old[idx / 8], b, c);
        assert(i == 8 * (i / 8) + i % 8);
        assert(idx == 8 * (idx / 8) + idx % 8);
        assert((b == c) == (i == idx));
    } else {
        assert(i != idx);
    }
}

/// Packs signer indices into a bitmap of `(total_validators + 7) / 8` bytes;
/// indices at or beyond `total_validators` are left out.
pub fn create_signer_bitmap(signer_indices: &[usize], total_validators: usize) -> (bitmap: Vec<u8>)
    requires
        total_validators <= usize::MAX - 7,
    ensures
        bitmap@.len() == (total_validators + 7) / 8,
        forall|i: int|
            0 <= i < 8 * bitmap@.len() ==> (bitmap_bit(bitmap@, i) <==> (i < total_validators
                && signer_indices@.contains(i as usize))),
{
    let byte_count = (total_validators + 7) / 8;
    let mut bitmap: Vec<u8> = vec![0u8; byte_count];
    proof {
        assert forall|i: int| 0 <= i < 8 * bitmap@.len() implies !bitmap_bit(bitmap@, i) by {
            lemma_zero_bit((i % 8) as u8);
        }
    }
    let mut k: usize = 0;
    while k < signer_indices.len()
        invariant
            k <= signer_indices@.len(),
            bitmap@.len() == byte_count,
            byte_count == (total_validators + 7) / 8,
            forall|i: int|
                0 <= i < 8 * bitmap@.len() ==> (bitmap_bit(bitmap@, i) <==> (i < total_validators
                    && signer_indices@.subrange(0, k as int).contains(i as usize))),
        decreases signer_indices@.len() - k,
    {
        let idx = signer_indices[k];
        let ghost old_bm = bitmap@;
        let ghost s0 = signer_indices@.subrange(0, k as int);
        if idx < total_validators {
            let byte_idx = idx / 8;
            let bit_idx = (idx % 8) as u8;
            let cur = bitmap[byte_idx];
            bitmap.set(byte_idx, cur | (1u8 << bit_idx));
            proof {
                assert forall|i: int| 0 <= i < 8 * bitmap@.len() implies (bitmap_bit(bitmap@, i)
                    <==> (bitmap_bit(old_bm, i) || (i == idx && idx < total_validators))) by {
                    lemma_set_bit(old_bm, bitmap@, idx as int, i);
                }
            }
        } else {
            proof {
                assert forall|i: int| 0 <= i < 8 * bitmap@.len() implies (bitmap_bit(bitmap@, i)
                    <==> (bitmap_bit(old_bm, i) || (i == idx && idx < total_validators))) by {
                }
            }
        }
        proof {
            let s1 = signer_indices@.subrange(0, k + 1);
            assert(s1 =~= s0.push(idx));
            assert forall|i: int| 0 <= i < 8 * bitmap@.len() implies (bitmap_bit(bitmap@, i)
                <==> (i < total_validators && s1.contains(i as usize))) by {
                assert(bitmap_bit(old_bm, i) <==> (i < total_validators && s0.contains(i as usize)));
                assert(bitmap_bit(bitmap@, i) <==> (bitmap_bit(old_bm, i) || (i == idx && idx < total_validators)));
                if s1.contains(i as usize) && !s0.contains(i as usize) {
                    let j = choose|j: int| 0 <= j < s1.len() && s1[j] == i as usize;
                    assert(j == k);
                }
                if s0.contains(i as usize) {
                    let j = choose|j: int| 0 <= j < s0.len() && s0[j] == i as usize;
                    assert(s1[j] == i as usize);
                }
                if i == idx as int {
                    assert(s1[k as int] == idx);
                }
            }
        }
        k = k + 1;
    }
    proof {
        assert(signer_indices@.subrange(0, signer_indices@.len() as int) =~= signer_indices@);
    }
    bitmap
}

/// The indices below `total_validators` whose bits are set, in ascending order.
pub fn parse_signer_bitmap(bitmap: &[u8], total_validators: usize) -> (indices: Vec<usize>)
    ensures
        is_signer_list(bitmap@, total_validators as int, indices@),
        indices@ == signer_indices(bitmap@, total_validators as nat),
{
    let mut indices: Vec<usize> = Vec::new();
    let mut i: usize = 0;
    while i < total_validators
        invariant
            i <= total_validators,
            forall|a: int, b: int| 0 <= a < b < indices@.len() ==> indices@[a] < indices@[b],
            forall|k: int|
                0 <= k < indices@.len() ==> indices@[k] < i && bitmap_bit(bitmap@, indices@[k] as int),
            forall|j: int| 0 <= j < i && bitmap_bit(bitmap@, j) ==> indices@.contains(j as usize),
            indices@ == signer_indices(bitmap@, i as nat),
        decreases total_validators - i,
    {
        let byte_idx = i / 8;
        let bit_idx = (i % 8) as u8;
        if byte_idx < bitmap.len() && (bitmap[byte_idx] & (1u8 << bit_idx)) != 0 {
            let ghost old = indices@;
            indices.push(i);
            proof {
                assert forall|j: int| 0 <= j < i + 1 && bitmap_bit(bitmap@, j) implies indices@.contains(j as usize) by {
                    if j < i {
                        let w = choose|w: int| 0 <= w < old.len() && old[w] == j as usize;
                        assert(indices@[w] == j as usize);
                    } else {
                        assert(indices@[old.len() as int] == i);
                    }
                }
            }
        } else {
            proof {
                assert(!bitmap_bit(bitmap@, i as int));
            }
        }
        i = i + 1;
    }
    indices
}

/// Law: parsing a bitmap made from some indices gives back exactly the distinct
/// indices below the total, in ascending order.
pub proof fn lemma_bitmap_roundtrip(indices: Seq<usize>, total: usize, bitmap: Seq<u8>, parsed: Seq<usize>)
    requires
        bitmap.len() == (total + 7) / 8,
        forall|i: int|
            0 <= i < 8 * bitmap.len() ==> (bitmap_bit(bitmap, i) <==> (i < total && indices.contains(i as usize))),
        is_signer_list(bitmap, total as int, parsed),
    ensures
        forall|a: int, b: int| 0 <= a < b < parsed.len() ==> parsed[a] < parsed[b],
        forall|x: usize| parsed.contains(x) <==> (x < total && indices.contains(x)),
{
    assert forall|x: usize| parsed.contains(x) <==> (x < total && indices.contains(x)) by {
        if parsed.contains(x) {
            let k = choose|k: int| 0 <= k < parsed.len() && parsed[k] == x;
            assert(bitmap_bit(bitmap, x as int));
            assert((x as int) < 8 * bitmap.len());
        }
        if x < total && indices.contains(x) {
            assert((x as int) < 8 * bitmap.len());
            assert(bitmap_bit(bitmap, x as int));
        }
    }
}


// ---------------------------------------------------------------------
// Keys and signatures
// ---------------------------------------------------------------------

/// A BLS key pair: compressed public key, secret key bytes and the public
/// key's fingerprint.
#[derive(Clone, Debug)]
pub struct BLSKeyPair {
    pub public_key: Vec<u8>,
    pub private_key: Vec<u8>,
    pub fingerprint: String,
}

/// An aggregated signature with the bitmap of who signed.
#[derive(Clone, Debug)]
pub struct AggregatedBLSSignature {
    pub signature: Vec<u8>,
    pub signer_bitmap: Vec<u8>,
    pub signer_count: usize,
}

/// Why a BLS operation refused its input.
#[derive(Clone, Copy, Debug, PartialEq, Eq, Structural)]
pub enum BlsError {
    InvalidPrivateKey,
    NoSignatures,
    InvalidSignature,
    NoPublicKeys,
    InvalidPublicKey,
    NoValidators,
}

/// The domain separation tag of every signature: the text
/// `BLS_SIG_BLS12381G2_XMD:SHA-256_SSWU_RO_NUL_`.
pub open spec fn signature_dst() -> Seq<u8> {
    seq![
        66u8, 76u8, 83u8, 95u8, 83u8, 73u8, 71u8, 95u8, 66u8, 76u8, 83u8, 49u8, 50u8, 51u8, 56u8,
        49u8, 71u8, 50u8, 95u8, 88u8, 77u8, 68u8, 58u8, 83u8, 72u8, 65u8, 45u8, 50u8, 53u8, 54u8,
        95u8, 83u8, 83u8, 87u8, 85u8, 95u8, 82u8, 79u8, 95u8, 78u8, 85u8, 76u8, 95u8,
    ]
}

/// `sk` is the encoding of a BLS secret key.
pub uninterp spec fn bls_secret_key_valid(sk: Seq<u8>) -> bool;

/// The compressed public key of secret key `sk`.
pub uninterp spec fn bls_public_key_of(sk: Seq<u8>) -> Seq<u8>;

/// The compressed signature of `msg` under tag `dst` by secret key `sk`.
pub uninterp spec fn bls_signature_of(msg: Seq<u8>, dst: Seq<u8>, sk: Seq<u8>) -> Seq<u8>;

/// `sig` is a valid signature of `msg` under tag `dst` for public key `pk`
/// (both decoded and group-checked).
pub uninterp spec fn bls_signature_verifies(msg: Seq<u8>, dst: Seq<u8>, sig: Seq<u8>, pk: Seq<u8>) -> bool;

/// The compressed sum of the signatures `sigs`, each decoded and
/// group-checked; `None` where one is not.
pub uninterp spec fn bls_signature_sum(sigs: Seq<Seq<u8>>) -> Option<Seq<u8>>;

/// `sig` is the serialized or compressed encoding of a curve point.
pub uninterp spec fn bls_signature_decodes(sig: Seq<u8>) -> bool;

/// `pk` decodes to a public key that is not the identity and lies in the group.
pub uninterp spec fn bls_public_key_valid(pk: Seq<u8>) -> bool;

/// The compressed sum of the public keys `pks`, each decoded; `None` where
/// one does not decode.
pub uninterp spec fn bls_public_key_sum(pks: Seq<Seq<u8>>) -> Option<Seq<u8>>;

/// The secret key bytes derived from key material `ikm`.
pub uninterp spec fn bls_key_from_ikm(ikm: Seq<u8>) -> Seq<u8>;

/// `sigs` are the signatures of `msg` under tag `dst` by the valid secret
/// keys `sks`, one for one.
pub open spec fn honest_signatures(sigs: Seq<Seq<u8>>, msg: Seq<u8>, dst: Seq<u8>, sks: Seq<Seq<u8>>) -> bool {
    &&& sigs.len() == sks.len()
    &&& forall|i: int|
        0 <= i < sks.len() ==> bls_secret_key_valid(#[trigger] sks[i]) && sigs[i] == bls_signature_of(
            msg,
            dst,
            sks[i],
        )
}

/// The byte contents of each buffer.
pub open spec fn byte_views(v: Seq<Vec<u8>>) -> Seq<Seq<u8>> {
    v.map_values(|x: Vec<u8>| x@)
}

/// The public keys of the secret keys `sks`, one for one.
pub open spec fn public_keys_of(sks: Seq<Seq<u8>>) -> Seq<Seq<u8>> {
    sks.map_values(|sk: Seq<u8>| bls_public_key_of(sk))
}

/// The fingerprint of a public key: hex of the first 20 bytes of its SHA-256.
pub open spec fn fingerprint_of(pk: Seq<u8>) -> Seq<char> {
    hex_lower(sha256_spec(pk).take(20))
}

#[verifier::external_type_specification]
#[verifier::external_body]
pub struct ExBlstError(blst::BLST_ERROR);

/// Public key of a secret key, through `blst::min_pk::SecretKey::from_bytes`,
/// `sk_to_pk` and `compress`. Trusted: succeeds exactly on secret key
/// encodings, with `bls_public_key_of`, which is a valid public key (a
/// secret key is nonzero and below the group order, so its public key is not
/// the identity and lies in the group).
#[verifier::external_body]
fn secret_key_to_public(sk: &[u8]) -> (res: Result<Vec<u8>, blst::BLST_ERROR>)
    ensures
        res is Ok <==> bls_secret_key_valid(sk@),
        res matches Ok(v) ==> v@ == bls_public_key_of(sk@) && bls_public_key_valid(v@),
{
    let key = blst::min_pk::SecretKey::from_bytes(sk)?;
    Ok(key.sk_to_pk().compress().to_vec())
}

/// Signature of `msg`, through `blst::min_pk::SecretKey::from_bytes`, `sign`
/// (no augmentation) and `compress`. Trusted: succeeds exactly on secret key
/// encodings, with `bls_signature_of`, a compressed point of 96 bytes.
#[verifier::external_body]
fn secret_key_sign(msg: &[u8], dst: &[u8], sk: &[u8]) -> (res: Result<Vec<u8>, blst::BLST_ERROR>)
    ensures
        res is Ok <==> bls_secret_key_valid(sk@),
        res matches Ok(v) ==> v@ == bls_signature_of(msg@, dst@, sk@) && v@.len() == 96,
{
    let key = blst::min_pk::SecretKey::from_bytes(sk)?;
    Ok(key.sign(msg, dst, &[]).compress().to_vec())
}

/// Signature check, through `blst::min_pk::PublicKey::from_bytes`,
/// `Signature::from_bytes` and `Signature::verify` with both group checks.
/// Trusted: the answer is `bls_signature_verifies`; it is false unless the
/// signature decodes and the key passes `key_validate`'s checks; a signature
/// made by a valid secret key verifies under that key's public key; and the
/// sum of the signatures of `msg` by several valid secret keys verifies under
/// the sum of their public keys, taken in any order, when that sum is a valid
/// key (the pairing check is linear in both points). That a signature not
/// made so fails rests on BLS itself and is not stated.
#[verifier::external_body]
fn signature_verifies(msg: &[u8], dst: &[u8], sig: &[u8], pk: &[u8]) -> (res: bool)
    ensures
        res == bls_signature_verifies(msg@, dst@, sig@, pk@),
        res ==> bls_signature_decodes(sig@) && bls_public_key_valid(pk@),
        forall|sk: Seq<u8>|
            bls_secret_key_valid(sk) && sig@ == #[trigger] bls_signature_of(msg@, dst@, sk) && pk@
                == bls_public_key_of(sk) ==> res,
        forall|sigs: Seq<Seq<u8>>, sks: Seq<Seq<u8>>, pks: Seq<Seq<u8>>|
            #![trigger honest_signatures(sigs, msg@, dst@, sks), bls_public_key_sum(pks)]
            honest_signatures(sigs, msg@, dst@, sks) && sks.len() > 0 && bls_signature_sum(sigs)
                == Some(sig@) && pks.to_multiset() == public_keys_of(sks).to_multiset()
                && bls_public_key_sum(pks) == Some(pk@) && bls_public_key_valid(pk@) ==> res,
{
    let key = match blst::min_pk::PublicKey::from_bytes(pk) {
        Ok(k) => k,
        Err(_) => return false,
    };
    let signature = match blst::min_pk::Signature::from_bytes(sig) {
        Ok(s) => s,
        Err(_) => return false,
    };
    matches!(signature.verify(true, msg, dst, &[], &key, true), blst::BLST_ERROR::BLST_SUCCESS)
}

/// Sum of signatures, through `blst::min_pk::Signature::from_bytes` on each,
/// `AggregateSignature::aggregate` with group checks, and `compress`.
/// Trusted: the result is `bls_signature_sum`; signatures made by valid
/// secret keys decode and pass the group check, so their sum exists.
#[verifier::external_body]
fn signatures_sum(sigs: &[Vec<u8>]) -> (res: Result<Vec<u8>, blst::BLST_ERROR>)
    requires
        sigs@.len() > 0,
    ensures
        match res {
            Ok(v) => bls_signature_sum(sigs@.map_values(|s: Vec<u8>| s@)) == Some(v@),
            Err(_) => bls_signature_sum(sigs@.map_values(|s: Vec<u8>| s@)) is None,
        },
        forall|msg: Seq<u8>, dst: Seq<u8>, sks: Seq<Seq<u8>>|
            #[trigger] honest_signatures(byte_views(sigs@), msg, dst, sks) ==> res is Ok,
{
    let parsed = sigs.iter().map(|s| blst::min_pk::Signature::from_bytes(s)).collect::<
        Result<Vec<_>, _>,
    >()?;
    let refs: Vec<&blst::min_pk::Signature> = parsed.iter().collect();
    let agg = blst::min_pk::AggregateSignature::aggregate(&refs, true)?;
    Ok(agg.to_signature().compress().to_vec())
}

/// Whether bytes decode as a signature, through
/// `blst::min_pk::Signature::from_bytes`. Trusted: the answer is
/// `bls_signature_decodes`.
#[verifier::external_body]
pub(crate) fn signature_decodes(sig: &[u8]) -> (res: bool)
    ensures
        res == bls_signature_decodes(sig@),
{
    blst::min_pk::Signature::from_bytes(sig).is_ok()
}

/// Public key check, through `blst::min_pk::PublicKey::key_validate`.
/// Trusted: the answer is `bls_public_key_valid`.
#[verifier::external_body]
fn public_key_valid(pk: &[u8]) -> (res: bool)
    ensures
        res == bls_public_key_valid(pk@),
{
    blst::min_pk::PublicKey::key_validate(pk).is_ok()
}

/// Sum of public keys, through `blst::min_pk::PublicKey::from_bytes` on each,
/// `AggregatePublicKey::aggregate` without validation, and `compress`.
/// Trusted: the result is `bls_public_key_sum`; valid keys decode, so the
/// sum of valid keys exists.
#[verifier::external_body]
fn public_keys_sum(pks: &[Vec<u8>]) -> (res: Result<Vec<u8>, blst::BLST_ERROR>)
    requires
        pks@.len() > 0,
    ensures
        match res {
            Ok(v) => bls_public_key_sum(pks@.map_values(|p: Vec<u8>| p@)) == Some(v@),
            Err(_) => bls_public_key_sum(pks@.map_values(|p: Vec<u8>| p@)) is None,
        },
        (forall|i: int| 0 <= i < pks@.len() ==> bls_public_key_valid(#[trigger] pks@[i]@)) ==> res is Ok,
{
    let parsed = pks.iter().map(|p| blst::min_pk::PublicKey::from_bytes(p)).collect::<
        Result<Vec<_>, _>,
    >()?;
    let refs: Vec<&blst::min_pk::PublicKey> = parsed.iter().collect();
    let agg = blst::min_pk::AggregatePublicKey::aggregate(&refs, false)?;
    Ok(agg.to_public_key().compress().to_vec())
}

/// Secret key from key material, through `blst::min_pk::SecretKey::key_gen`
/// (no key info) and `to_bytes`. Trusted: on at least 32 bytes of material
/// it succeeds with a valid 32-byte secret key, `bls_key_from_ikm`.
#[verifier::external_body]
fn secret_key_from_ikm(ikm: &[u8]) -> (res: Result<Vec<u8>, blst::BLST_ERROR>)
    requires
        ikm@.len() >= 32,
    ensures
        match res {
            Ok(v) => v@ == bls_key_from_ikm(ikm@) && v@.len() == 32 && bls_secret_key_valid(v@),
            Err(_) => false,
        },
{
    let key = blst::min_pk::SecretKey::key_gen(ikm, &[])?;
    Ok(key.to_bytes().to_vec())
}

/// 32 random bytes, through `rand::thread_rng` and `RngCore::fill_bytes`.
/// Trusted: only the length is stated.
#[verifier::external_body]
fn random_key_material() -> (res: Vec<u8>)
    ensures
        res@.len() == 32,
{
    let mut ikm = vec![0u8; 32];
    rand::RngCore::fill_bytes(&mut rand::thread_rng(), &mut ikm);
    ikm
}

/// The domain separation tag of every signature.
fn dst_bytes() -> (d: Vec<u8>)
    ensures
        d@ == signature_dst(),
{
    let d: Vec<u8> = vec![
        66u8, 76u8, 83u8, 95u8, 83u8, 73u8, 71u8, 95u8, 66u8, 76u8, 83u8, 49u8, 50u8, 51u8, 56u8,
        49u8, 71u8, 50u8, 95u8, 88u8, 77u8, 68u8, 58u8, 83u8, 72u8, 65u8, 45u8, 50u8, 53u8, 54u8,
        95u8, 83u8, 83u8, 87u8, 85u8, 95u8, 82u8, 79u8, 95u8, 78u8, 85u8, 76u8, 95u8,
    ];
    assert(d@ =~= signature_dst());
    d
}

/// Hex of the first 20 bytes of the public key's SHA-256.
pub fn compute_bls_fingerprint(public_key: &[u8]) -> (res: String)
    ensures
        res@ == fingerprint_of(public_key@),
{
    let digest = sha256_digest(public_key);
    let mut head: Vec<u8> = Vec::new();
    let mut i: usize = 0;
    while i < 20
        invariant
            i <= 20,
            digest@.len() == 32,
            head@ == digest@.take(i as int),
        decreases 20 - i,
    {
        head.push(digest[i]);
        i = i + 1;
        assert(head@ =~= digest@.take(i as int));
    }
    hex_encode(head.as_slice())
}

/// The key pair derived from key material `ikm` (at least 32 bytes).
pub fn bls_keypair_from_material(ikm: &[u8]) -> (kp: BLSKeyPair)
    requires
        ikm@.len() >= 32,
    ensures
        kp.private_key@ == bls_key_from_ikm(ikm@),
        kp.private_key@.len() == 32,
        bls_secret_key_valid(kp.private_key@),
        kp.public_key@ == bls_public_key_of(kp.private_key@),
        bls_public_key_valid(kp.public_key@),
        kp.fingerprint@ == fingerprint_of(kp.public_key@),
{
    let sk = match secret_key_from_ikm(ikm) {
        Ok(v) => v,
        Err(_) => {
            proof { assert(false); }
            Vec::new()
        },
    };
    let pk = match secret_key_to_public(sk.as_slice()) {
        Ok(v) => v,
        Err(_) => {
            proof { assert(false); }
            Vec::new()
        },
    };
    let fingerprint = compute_bls_fingerprint(pk.as_slice());
    BLSKeyPair { public_key: pk, private_key: sk, fingerprint }
}

/// A fresh key pair from 32 bytes of random key material.
pub fn generate_bls_keypair() -> (kp: BLSKeyPair)
    ensures
        kp.private_key@.len() == 32,
        bls_secret_key_valid(kp.private_key@),
        exists|ikm: Seq<u8>| ikm.len() == 32 && kp.private_key@ == bls_key_from_ikm(ikm),
        kp.public_key@ == bls_public_key_of(kp.private_key@),
        kp.fingerprint@ == fingerprint_of(kp.public_key@),
{
    let ikm = random_key_material();
    bls_keypair_from_material(ikm.as_slice())
}

/// The compressed public key of a secret key.
pub fn bls_get_public_key(private_key: &[u8]) -> (res: Result<Vec<u8>, BlsError>)
    ensures
        match res {
            Ok(v) => bls_secret_key_valid(private_key@) && v@ == bls_public_key_of(private_key@)
                && bls_public_key_valid(v@),
            Err(e) => !bls_secret_key_valid(private_key@) && e == BlsError::InvalidPrivateKey,
        },
{
    match secret_key_to_public(private_key) {
        Ok(v) => Ok(v),
        Err(_) => Err(BlsError::InvalidPrivateKey),
    }
}

/// The compressed signature of `message` by a secret key.
pub fn bls_sign(message: &[u8], private_key: &[u8]) -> (res: Result<Vec<u8>, BlsError>)
    ensures
        match res {
            Ok(v) => bls_secret_key_valid(private_key@) && v@ == bls_signature_of(
                message@,
                signature_dst(),
                private_key@,
            ) && v@.len() == 96,
            Err(e) => !bls_secret_key_valid(private_key@) && e == BlsError::InvalidPrivateKey,
        },
{
    let dst = dst_bytes();
    match secret_key_sign(message, dst.as_slice(), private_key) {
        Ok(v) => Ok(v),
        Err(_) => Err(BlsError::InvalidPrivateKey),
    }
}

/// Whether `signature` is a valid signature of `message` under `public_key`.
pub fn bls_verify(message: &[u8], signature: &[u8], public_key: &[u8]) -> (ok: bool)
    ensures
        ok == bls_signature_verifies(message@, signature_dst(), signature@, public_key@),
        ok ==> bls_signature_decodes(signature@) && bls_public_key_valid(public_key@),
        forall|sk: Seq<u8>|
            bls_secret_key_valid(sk) && signature@ == #[trigger] bls_signature_of(
                message@,
                signature_dst(),
                sk,
            ) && public_key@ == bls_public_key_of(sk) ==> ok,
        forall|sigs: Seq<Seq<u8>>, sks: Seq<Seq<u8>>, pks: Seq<Seq<u8>>|
            #![trigger honest_signatures(sigs, message@, signature_dst(), sks), bls_public_key_sum(pks)]
            honest_signatures(sigs, message@, signature_dst(), sks) && sks.len() > 0
                && bls_signature_sum(sigs) == Some(signature@) && pks.to_multiset()
                == public_keys_of(sks).to_multiset() && bls_public_key_sum(pks) == Some(public_key@)
                && bls_public_key_valid(public_key@) ==> ok,
{
    let dst = dst_bytes();
    signature_verifies(message, dst.as_slice(), signature, public_key)
}

/// The sum of the given signatures.
pub fn aggregate_signatures(signatures: &[Vec<u8>]) -> (res: Result<Vec<u8>, BlsError>)
    ensures
        signatures@.len() == 0 ==> res == Err::<Vec<u8>, BlsError>(BlsError::NoSignatures),
        signatures@.len() > 0 ==> match res {
            Ok(v) => bls_signature_sum(signatures@.map_values(|s: Vec<u8>| s@)) == Some(v@),
            Err(e) => bls_signature_sum(signatures@.map_values(|s: Vec<u8>| s@)) is None && e
                == BlsError::InvalidSignature,
        },
        forall|msg: Seq<u8>, dst: Seq<u8>, sks: Seq<Seq<u8>>|
            #[trigger] honest_signatures(byte_views(signatures@), msg, dst, sks) && sks.len() > 0
                ==> res is Ok,
{
    if signatures.len() == 0 {
        return Err(BlsError::NoSignatures);
    }
    match signatures_sum(signatures) {
        Ok(v) => Ok(v),
        Err(_) => Err(BlsError::InvalidSignature),
    }
}

/// The keys can be summed the way the node sums them: when they all decode,
/// every key after the first passes the group check (the node stops with a
/// panic otherwise).
pub open spec fn keys_summable(pks: Seq<Seq<u8>>) -> bool {
    bls_public_key_sum(pks) is Some ==> forall|i: int| 1 <= i < pks.len() ==> bls_public_key_valid(#[trigger] pks[i])
}

/// Whether the keys can be summed (see `keys_summable`).
pub fn public_keys_summable(public_keys: &[Vec<u8>]) -> (ok: bool)
    ensures
        ok == keys_summable(public_keys@.map_values(|p: Vec<u8>| p@)),
{
    let ghost pks = public_keys@.map_values(|p: Vec<u8>| p@);
    if public_keys.len() == 0 {
        return true;
    }
    match public_keys_sum(public_keys) {
        Ok(_) => {},
        Err(_) => return true,
    }
    let mut i: usize = 1;
    while i < public_keys.len()
        invariant
            1 <= i <= public_keys@.len(),
            pks == public_keys@.map_values(|p: Vec<u8>| p@),
            bls_public_key_sum(pks) is Some,
            forall|j: int| 1 <= j < i ==> bls_public_key_valid(#[trigger] pks[j]),
        decreases public_keys@.len() - i,
    {
        if !public_key_valid(public_keys[i].as_slice()) {
            assert(pks[i as int] == public_keys@[i as int]@);
            return false;
        }
        assert(pks[i as int] == public_keys@[i as int]@);
        i = i + 1;
    }
    true
}

/// The sum of the given public keys.
pub fn aggregate_public_keys(public_keys: &[Vec<u8>]) -> (res: Result<Vec<u8>, BlsError>)
    requires
        keys_summable(public_keys@.map_values(|p: Vec<u8>| p@)),
    ensures
        public_keys@.len() == 0 ==> res == Err::<Vec<u8>, BlsError>(BlsError::NoPublicKeys),
        public_keys@.len() > 0 ==> match res {
            Ok(v) => bls_public_key_sum(public_keys@.map_values(|p: Vec<u8>| p@)) == Some(v@),
            Err(e) => e == BlsError::InvalidPublicKey && bls_public_key_sum(
                public_keys@.map_values(|p: Vec<u8>| p@),
            ) is None,
        },
        public_keys@.len() > 0 && (forall|i: int|
            0 <= i < public_keys@.len() ==> bls_public_key_valid(#[trigger] public_keys@[i]@)) ==> res is Ok,
{
    if public_keys.len() == 0 {
        return Err(BlsError::NoPublicKeys);
    }
    match public_keys_sum(public_keys) {
        Ok(v) => Ok(v),
        Err(_) => Err(BlsError::InvalidPublicKey),
    }
}

/// The keys have a sum, and it is a valid public key.
pub open spec fn aggregate_key_valid(pks: Seq<Seq<u8>>) -> bool {
    bls_public_key_sum(pks) matches Some(k) && bls_public_key_valid(k)
}

/// The outcome of checking an aggregated signature against the sum of keys.
pub open spec fn aggregate_verifies(message: Seq<u8>, sig: Seq<u8>, pks: Seq<Seq<u8>>) -> bool {
    &&& pks.len() > 0
    &&& bls_public_key_sum(pks) is Some
    &&& bls_signature_verifies(message, signature_dst(), sig, bls_public_key_sum(pks)->0)
}

/// Whether `aggregated_sig` verifies under the sum of `public_keys`.
pub fn verify_aggregated_signature(message: &[u8], aggregated_sig: &[u8], public_keys: &[Vec<u8>]) -> (ok: bool)
    requires
        keys_summable(public_keys@.map_values(|p: Vec<u8>| p@)),
    ensures
        ok == aggregate_verifies(message@, aggregated_sig@, public_keys@.map_values(|p: Vec<u8>| p@)),
        forall|sigs: Seq<Seq<u8>>, sks: Seq<Seq<u8>>|
            #[trigger] honest_signatures(sigs, message@, signature_dst(), sks) && sks.len() > 0
                && bls_signature_sum(sigs) == Some(aggregated_sig@)
                && public_keys@.map_values(|p: Vec<u8>| p@).to_multiset()
                == public_keys_of(sks).to_multiset()
                && aggregate_key_valid(public_keys@.map_values(|p: Vec<u8>| p@)) ==> ok,
{
    let ghost pks = public_keys@.map_values(|p: Vec<u8>| p@);
    match aggregate_public_keys(public_keys) {
        Ok(agg) => {
            let ok = bls_verify(message, aggregated_sig, agg.as_slice());
            proof {
                assert(bls_public_key_sum(pks) == Some(agg@));
            }
            ok
        },
        Err(_) => {
            proof {
                assert forall|sigs: Seq<Seq<u8>>, sks: Seq<Seq<u8>>|
                    #[trigger] honest_signatures(sigs, message@, signature_dst(), sks) && sks.len() > 0
                        && pks.to_multiset() == public_keys_of(sks).to_multiset() implies bls_public_key_sum(
                    pks,
                ) is None by {
                    vstd::seq_lib::to_multiset_len(pks);
                    vstd::seq_lib::to_multiset_len(public_keys_of(sks));
                }
            }
            false
        },
    }
}


/// `sig` and `bitmap` are an aggregated checkpoint signature of `hash` by
/// the validators `vals` (index, secret key): at least one validator, every
/// key valid, `sig` the sum of their signatures, and `bitmap` marking
/// exactly their indices, all of which it covers.
pub open spec fn aggregated_by(hash: Seq<u8>, vals: Seq<(usize, Seq<u8>)>, sig: Seq<u8>, bitmap: Seq<u8>) -> bool {
    let keys = vals.map_values(|v: (usize, Seq<u8>)| v.1);
    let idx = vals.map_values(|v: (usize, Seq<u8>)| v.0);
    &&& vals.len() > 0
    &&& forall|i: int| 0 <= i < keys.len() ==> bls_secret_key_valid(#[trigger] keys[i])
    &&& bls_signature_sum(keys.map_values(|sk: Seq<u8>| bls_signature_of(hash, signature_dst(), sk)))
        == Some(sig)
    &&& forall|i: int| 0 <= i < 8 * bitmap.len() ==> (bitmap_bit(bitmap, i) <==> idx.contains(i as usize))
    &&& forall|j: int| 0 <= j < idx.len() ==> (#[trigger] idx[j] as int) < 8 * bitmap.len()
}

/// The validators `vals` have distinct indices, and `pks` holds each one's
/// public key at its index.
pub open spec fn keys_placed(vals: Seq<(usize, Seq<u8>)>, pks: Seq<Seq<u8>>) -> bool {
    &&& vals.map_values(|v: (usize, Seq<u8>)| v.0).no_duplicates()
    &&& forall|j: int|
        0 <= j < vals.len() ==> (#[trigger] vals[j]).0 < pks.len() && pks[vals[j].0 as int]
            == bls_public_key_of(vals[j].1)
}

/// The validators as (index, secret key bytes).
pub open spec fn validator_views(validators: Seq<(usize, Vec<u8>)>) -> Seq<(usize, Seq<u8>)> {
    validators.map_values(|v: (usize, Vec<u8>)| (v.0, v.1@))
}

/// The largest of the indices `idx` (zero for none).
pub open spec fn max_index(idx: Seq<usize>) -> nat
    decreases idx.len(),
{
    if idx.len() == 0 {
        0
    } else {
        let m = max_index(idx.drop_last());
        if idx.len() == 1 || idx.last() > m { idx.last() as nat } else { m }
    }
}

proof fn lemma_max_index(idx: Seq<usize>)
    ensures
        forall|i: int| 0 <= i < idx.len() ==> #[trigger] idx[i] <= max_index(idx),
        idx.len() > 0 ==> exists|i: int| 0 <= i < idx.len() && idx[i] == max_index(idx),
    decreases idx.len(),
{
    if idx.len() > 0 {
        let r = idx.drop_last();
        lemma_max_index(r);
        assert forall|i: int| 0 <= i < idx.len() implies #[trigger] idx[i] <= max_index(idx) by {
            if i < idx.len() - 1 {
                assert(idx[i] == r[i]);
            }
        }
        if idx.len() > 1 && idx.last() <= max_index(r) {
            let w = choose|i: int| 0 <= i < r.len() && r[i] == max_index(r);
            assert(idx[w] == r[w]);
        } else {
            assert(idx[idx.len() - 1] == idx.last());
        }
    }
}

/// Signs `checkpoint_hash` with each validator's secret key and aggregates
/// the signatures; the bitmap marks the validators' indices out of one more
/// than the largest index.
pub fn create_aggregated_checkpoint_signature(
    checkpoint_hash: &[u8],
    validators: &[(usize, Vec<u8>)],
) -> (res: Result<AggregatedBLSSignature, BlsError>)
    requires
        forall|i: int| 0 <= i < validators@.len() ==> (#[trigger] validators@[i]).0 < usize::MAX - 8,
    ensures
        ({
            let keys = validators@.map_values(|v: (usize, Vec<u8>)| v.1@);
            let idx = validators@.map_values(|v: (usize, Vec<u8>)| v.0);
            let sigs = keys.map_values(
                |sk: Seq<u8>| bls_signature_of(checkpoint_hash@, signature_dst(), sk),
            );
            if validators@.len() == 0 {
                res == Err::<AggregatedBLSSignature, BlsError>(BlsError::NoValidators)
            } else if exists|i: int| 0 <= i < keys.len() && !bls_secret_key_valid(#[trigger] keys[i]) {
                res == Err::<AggregatedBLSSignature, BlsError>(BlsError::InvalidPrivateKey)
            } else {
                res matches Ok(a) && {
                    &&& aggregated_by(checkpoint_hash@, validator_views(validators@), a.signature@, a.signer_bitmap@)
                    &&& bls_signature_sum(sigs) == Some(a.signature@)
                    &&& a.signer_count == validators@.len()
                    &&& a.signer_bitmap@.len() == (max_index(idx) + 1 + 7) / 8
                    &&& forall|i: int|
                        0 <= i < 8 * a.signer_bitmap@.len() ==> (bitmap_bit(a.signer_bitmap@, i)
                            <==> idx.contains(i as usize))
                    &&& forall|j: int| 0 <= j < idx.len() ==> (#[trigger] idx[j] as int) < 8 * a.signer_bitmap@.len()
                }
            }
        }),
{
    let ghost keys = validators@.map_values(|v: (usize, Vec<u8>)| v.1@);
    let ghost idx = validators@.map_values(|v: (usize, Vec<u8>)| v.0);
    let ghost sigs = keys.map_values(
        |sk: Seq<u8>| bls_signature_of(checkpoint_hash@, signature_dst(), sk),
    );
    if validators.len() == 0 {
        return Err(BlsError::NoValidators);
    }
    let mut signatures: Vec<Vec<u8>> = Vec::new();
    let mut signer_indices: Vec<usize> = Vec::new();
    let mut i: usize = 0;
    while i < validators.len()
        invariant
            i <= validators@.len(),
            keys == validators@.map_values(|v: (usize, Vec<u8>)| v.1@),
            idx == validators@.map_values(|v: (usize, Vec<u8>)| v.0),
            sigs == keys.map_values(
                |sk: Seq<u8>| bls_signature_of(checkpoint_hash@, signature_dst(), sk),
            ),
            signatures@.len() == i,
            signer_indices@ == idx.take(i as int),
            forall|j: int| 0 <= j < i ==> bls_secret_key_valid(#[trigger] keys[j]),
            forall|j: int| 0 <= j < i ==> (#[trigger] signatures@[j])@ == sigs[j],
        decreases validators@.len() - i,
    {
        let sig = match bls_sign(checkpoint_hash, validators[i].1.as_slice()) {
            Ok(v) => v,
            Err(e) => {
                proof {
                    assert(keys[i as int] == validators@[i as int].1@);
                }
                return Err(e);
            },
        };
        signatures.push(sig);
        signer_indices.push(validators[i].0);
        proof {
            assert(signer_indices@ =~= idx.take(i + 1));
        }
        i = i + 1;
    }
    proof {
        assert(signer_indices@ =~= idx);
        assert(signatures@.map_values(|s: Vec<u8>| s@) =~= sigs);
        assert forall|i: int| 0 <= i < keys.len() implies bls_secret_key_valid(#[trigger] keys[i]) by {
        }
    }
    proof {
        assert(byte_views(signatures@) =~= sigs);
        assert(honest_signatures(byte_views(signatures@), checkpoint_hash@, signature_dst(), keys));
    }
    let aggregated = aggregate_signatures(signatures.as_slice())?;
    let mut max: usize = 0;
    let mut j: usize = 0;
    while j < signer_indices.len()
        invariant
            j <= signer_indices@.len() == idx.len() == validators@.len(),
            signer_indices@ == idx,
            j > 0 ==> max == max_index(idx.take(j as int)),
            j == 0 ==> max == 0,
            forall|t: int| 0 <= t < validators@.len() ==> (#[trigger] validators@[t]).0 < usize::MAX - 8,
            idx == validators@.map_values(|v: (usize, Vec<u8>)| v.0),
        decreases signer_indices@.len() - j,
    {
        proof {
            assert(idx.take(j + 1).drop_last() =~= idx.take(j as int));
        }
        if j == 0 || signer_indices[j] > max {
            max = signer_indices[j];
        }
        j = j + 1;
    }
    proof {
        assert(idx.take(idx.len() as int) =~= idx);
        lemma_max_index(idx);
        let w = choose|t: int| 0 <= t < idx.len() && idx[t] == max_index(idx);
        assert(idx[w] == validators@[w].0);
    }
    let total = max + 1;
    let signer_bitmap = create_signer_bitmap(signer_indices.as_slice(), total);
    proof {
        let bl = signer_bitmap@.len() as int;
        let t = total as int;
        assert(bl == (t + 7) / 8);
        assert(8 * bl >= t) by (nonlinear_arith)
            requires
                bl == (t + 7) / 8,
                t >= 1,
        ;
        assert forall|j: int| 0 <= j < idx.len() implies (#[trigger] idx[j] as int) < 8 * signer_bitmap@.len() by {
            assert(idx[j] <= max_index(idx));
        }
        assert forall|i: int| 0 <= i < 8 * signer_bitmap@.len() implies (bitmap_bit(signer_bitmap@, i)
            <==> idx.contains(i as usize)) by {
            if idx.contains(i as usize) {
                let t = choose|t: int| 0 <= t < idx.len() && idx[t] == i as usize;
                assert(idx[t] <= max_index(idx));
            }
        }
    }
    proof {
        let vv = validator_views(validators@);
        assert(vv.map_values(|v: (usize, Seq<u8>)| v.1) =~= keys);
        assert(vv.map_values(|v: (usize, Seq<u8>)| v.0) =~= idx);
        assert forall|i: int| 0 <= i < keys.len() implies bls_secret_key_valid(#[trigger] keys[i]) by {}
        assert(aggregated_by(checkpoint_hash@, vv, aggregated@, signer_bitmap@));
    }
    Ok(AggregatedBLSSignature { signature: aggregated, signer_bitmap, signer_count: validators.len() })
}

/// The public keys of the signers that `bitmap` marks among `pks`.
pub open spec fn signer_keys(bitmap: Seq<u8>, pks: Seq<Seq<u8>>) -> Seq<Seq<u8>> {
    signer_indices(bitmap, pks.len()).map_values(|i: usize| pks[i as int])
}

/// The public keys of the validators that `signer_bitmap` marks, in index order.
fn signer_public_keys(signer_bitmap: &[u8], validator_public_keys: &[Vec<u8>]) -> (keys: Vec<Vec<u8>>)
    ensures
        keys@.map_values(|p: Vec<u8>| p@) == signer_keys(
            signer_bitmap@,
            validator_public_keys@.map_values(|p: Vec<u8>| p@),
        ),
{
    let ghost pks = validator_public_keys@.map_values(|p: Vec<u8>| p@);
    let indices = parse_signer_bitmap(signer_bitmap, validator_public_keys.len());
    let mut keys: Vec<Vec<u8>> = Vec::new();
    let mut t: usize = 0;
    while t < indices.len()
        invariant
            t <= indices@.len(),
            is_signer_list(signer_bitmap@, validator_public_keys@.len() as int, indices@),
            indices@ == signer_indices(signer_bitmap@, validator_public_keys@.len() as nat),
            pks == validator_public_keys@.map_values(|p: Vec<u8>| p@),
            keys@.len() == t,
            forall|u: int| 0 <= u < t ==> (#[trigger] keys@[u])@ == pks[indices@[u] as int],
        decreases indices@.len() - t,
    {
        let k = indices[t];
        let key = validator_public_keys[k].clone();
        proof {
            assert(key@ =~= validator_public_keys@[k as int]@);
        }
        keys.push(key);
        t = t + 1;
    }
    proof {
        assert(keys@.map_values(|p: Vec<u8>| p@) =~= signer_keys(signer_bitmap@, pks));
    }
    keys
}

/// Whether `aggregated_sig` verifies for the validators that `signer_bitmap`
/// marks (at least one) under the sum of their public keys.
pub fn verify_aggregated_checkpoint_signature(
    checkpoint_hash: &[u8],
    aggregated_sig: &[u8],
    signer_bitmap: &[u8],
    validator_public_keys: &[Vec<u8>],
) -> (ok: bool)
    requires
        keys_summable(signer_keys(signer_bitmap@, validator_public_keys@.map_values(|p: Vec<u8>| p@))),
    ensures
        ok == (signer_indices(signer_bitmap@, validator_public_keys@.len()).len() > 0
            && aggregate_verifies(
            checkpoint_hash@,
            aggregated_sig@,
            signer_keys(signer_bitmap@, validator_public_keys@.map_values(|p: Vec<u8>| p@)),
        )),
        forall|sigs: Seq<Seq<u8>>, sks: Seq<Seq<u8>>, idx: Seq<usize>|
            #![trigger honest_signatures(sigs, checkpoint_hash@, signature_dst(), sks), signers_marked(signer_bitmap@, byte_views(validator_public_keys@), idx, sks)]
            honest_signatures(sigs, checkpoint_hash@, signature_dst(), sks) && sks.len() > 0
                && signers_marked(signer_bitmap@, byte_views(validator_public_keys@), idx, sks)
                && bls_signature_sum(sigs) == Some(aggregated_sig@) && aggregate_key_valid(
                signer_keys(signer_bitmap@, byte_views(validator_public_keys@)),
            ) ==> ok,
        forall|vals: Seq<(usize, Seq<u8>)>|
            #[trigger] aggregated_by(checkpoint_hash@, vals, aggregated_sig@, signer_bitmap@) && keys_placed(
                vals,
                byte_views(validator_public_keys@),
            ) && aggregate_key_valid(signer_keys(signer_bitmap@, byte_views(validator_public_keys@)))
                ==> ok,
{
    let ghost pks = byte_views(validator_public_keys@);
    let ghost signers = signer_keys(signer_bitmap@, pks);
    let n = validator_public_keys.len();
    proof {
        assert forall|sigs: Seq<Seq<u8>>, sks: Seq<Seq<u8>>, idx: Seq<usize>|
            #![trigger honest_signatures(sigs, checkpoint_hash@, signature_dst(), sks), signers_marked(signer_bitmap@, pks, idx, sks)]
            honest_signatures(sigs, checkpoint_hash@, signature_dst(), sks) && signers_marked(
                signer_bitmap@,
                pks,
                idx,
                sks,
            ) implies signers.to_multiset() == public_keys_of(sks).to_multiset() by {
            assert(pks.len() == n);
            lemma_marked_signer_keys(signer_bitmap@, pks, idx, sks);
        }
        assert forall|vals: Seq<(usize, Seq<u8>)>|
            #[trigger] aggregated_by(checkpoint_hash@, vals, aggregated_sig@, signer_bitmap@) && keys_placed(
                vals,
                pks,
            ) implies ({
                let keys = vals.map_values(|v: (usize, Seq<u8>)| v.1);
                let idx = vals.map_values(|v: (usize, Seq<u8>)| v.0);
                let sigs = keys.map_values(|sk: Seq<u8>| bls_signature_of(checkpoint_hash@, signature_dst(), sk));
                &&& honest_signatures(sigs, checkpoint_hash@, signature_dst(), keys)
                &&& keys.len() > 0
                &&& bls_signature_sum(sigs) == Some(aggregated_sig@)
                &&& signers.to_multiset() == public_keys_of(keys).to_multiset()
            }) by {
            let keys = vals.map_values(|v: (usize, Seq<u8>)| v.1);
            let idx = vals.map_values(|v: (usize, Seq<u8>)| v.0);
            let sigs = keys.map_values(|sk: Seq<u8>| bls_signature_of(checkpoint_hash@, signature_dst(), sk));
            assert(honest_signatures(sigs, checkpoint_hash@, signature_dst(), keys));
            assert forall|j: int| 0 <= j < idx.len() implies #[trigger] idx[j] < pks.len() && pks[idx[j] as int]
                == bls_public_key_of(keys[j]) by {
                assert(vals[j].0 == idx[j]);
                assert(vals[j].1 == keys[j]);
            }
            assert(signers_marked(signer_bitmap@, pks, idx, keys));
            assert(pks.len() == n);
            lemma_marked_signer_keys(signer_bitmap@, pks, idx, keys);
        }
    }
    let indices = parse_signer_bitmap(signer_bitmap, validator_public_keys.len());
    if indices.len() == 0 {
        proof {
            assert(signers.len() == 0);
            assert forall|sigs: Seq<Seq<u8>>, sks: Seq<Seq<u8>>|
                #[trigger] honest_signatures(sigs, checkpoint_hash@, signature_dst(), sks) && sks.len() > 0
                    implies signers.to_multiset() != public_keys_of(sks).to_multiset() by {
                vstd::seq_lib::to_multiset_len(signers);
                vstd::seq_lib::to_multiset_len(public_keys_of(sks));
            }
            assert forall|vals: Seq<(usize, Seq<u8>)>|
                #[trigger] aggregated_by(checkpoint_hash@, vals, aggregated_sig@, signer_bitmap@)
                    implies !keys_placed(vals, pks) by {
                if keys_placed(vals, pks) {
                    let keys = vals.map_values(|v: (usize, Seq<u8>)| v.1);
                    vstd::seq_lib::to_multiset_len(signers);
                    vstd::seq_lib::to_multiset_len(public_keys_of(keys));
                }
            }
        }
        return false;
    }
    let keys = signer_public_keys(signer_bitmap, validator_public_keys);
    let ok = verify_aggregated_signature(checkpoint_hash, aggregated_sig, keys.as_slice());
    proof {
        assert(keys@.map_values(|p: Vec<u8>| p@) == signers);
    }
    ok
}

/// Checks an aggregated checkpoint signature where the node can: `None`
/// when the marked validators' keys cannot be summed (see
/// `keys_summable`), otherwise the answer of
/// `verify_aggregated_checkpoint_signature`.
pub fn checked_verify_aggregated_checkpoint_signature(
    checkpoint_hash: &[u8],
    aggregated_sig: &[u8],
    signer_bitmap: &[u8],
    validator_public_keys: &[Vec<u8>],
) -> (r: Option<bool>)
    ensures
        ({
            let signers = signer_keys(signer_bitmap@, validator_public_keys@.map_values(|p: Vec<u8>| p@));
            match r {
                None => !keys_summable(signers),
                Some(ok) => keys_summable(signers) && ok == (signer_indices(
                    signer_bitmap@,
                    validator_public_keys@.len(),
                ).len() > 0 && aggregate_verifies(checkpoint_hash@, aggregated_sig@, signers)),
            }
        }),
{
    let keys = signer_public_keys(signer_bitmap, validator_public_keys);
    if !public_keys_summable(keys.as_slice()) {
        return None;
    }
    Some(verify_aggregated_checkpoint_signature(checkpoint_hash, aggregated_sig, signer_bitmap, validator_public_keys))
}


/// Two duplicate-free sequences with the same elements, mapped by `f`, give
/// the same multiset.
proof fn lemma_permutation_map_multiset<A, B>(a: Seq<A>, b: Seq<A>, f: spec_fn(A) -> B)
    requires
        a.no_duplicates(),
        b.no_duplicates(),
        forall|x: A| a.contains(x) <==> b.contains(x),
    ensures
        a.map_values(f).to_multiset() =~= b.map_values(f).to_multiset(),
    decreases a.len(),
{
    broadcast use vstd::multiset::group_multiset_axioms;
    broadcast use vstd::seq_lib::group_to_multiset_ensures;

    if a.len() == 0 {
        if b.len() > 0 {
            assert(b.contains(b[0]));
        }
        assert(a.map_values(f) =~= Seq::<B>::empty());
        assert(b.map_values(f) =~= Seq::<B>::empty());
    } else {
        let x = a.last();
        let a1 = a.drop_last();
        assert(a.contains(x)) by {
            assert(a[a.len() - 1] == x);
        }
        let j = choose|j: int| 0 <= j < b.len() && b[j] == x;
        let b1 = b.remove(j);
        assert forall|y: A| a1.contains(y) <==> b1.contains(y) by {
            if a1.contains(y) {
                let k = choose|k: int| 0 <= k < a1.len() && a1[k] == y;
                assert(a[k] == y);
                assert(y != x);
                assert(a.contains(y));
                let m = choose|m: int| 0 <= m < b.len() && b[m] == y;
                assert(m != j);
                if m < j {
                    assert(b1[m] == y);
                } else {
                    assert(b1[m - 1] == y);
                }
            }
            if b1.contains(y) {
                let k = choose|k: int| 0 <= k < b1.len() && b1[k] == y;
                let m = if k < j { k } else { k + 1 };
                assert(b[m] == y);
                assert(m != j);
                assert(y != x);
                assert(b.contains(y));
                assert(a.contains(y));
                let t = choose|t: int| 0 <= t < a.len() && a[t] == y;
                assert(t != a.len() - 1);
                assert(a1[t] == y);
            }
        }
        assert(b1.no_duplicates()) by {
            assert forall|p: int, q: int| 0 <= p < b1.len() && 0 <= q < b1.len() && p != q implies b1[p]
                != b1[q] by {
                let pp = if p < j { p } else { p + 1 };
                let qq = if q < j { q } else { q + 1 };
                assert(b1[p] == b[pp]);
                assert(b1[q] == b[qq]);
            }
        }
        lemma_permutation_map_multiset(a1, b1, f);
        assert(a.map_values(f) =~= a1.map_values(f).push(f(x)));
        assert(b1.map_values(f) =~= b.map_values(f).remove(j));
        assert(b.map_values(f)[j] == f(x));
        assert(a.map_values(f).to_multiset() =~= a1.map_values(f).to_multiset().insert(f(x)));
        assert(b.map_values(f).remove(j).to_multiset() == b.map_values(f).to_multiset().remove(f(x)));
        assert(b.map_values(f).to_multiset().contains(f(x))) by {
            assert(b.map_values(f).contains(f(x)));
        }
    }
}


/// The positions that `signer_indices` lists are ascending, without
/// repeats, and are exactly the set bits below `n`.
proof fn lemma_signer_indices(bitmap: Seq<u8>, n: nat)
    requires
        n <= usize::MAX,
    ensures
        signer_indices(bitmap, n).no_duplicates(),
        forall|x: usize| signer_indices(bitmap, n).contains(x) <==> (x < n && bitmap_bit(bitmap, x as int)),
        forall|k: int| 0 <= k < signer_indices(bitmap, n).len() ==> signer_indices(bitmap, n)[k] < n,
    decreases n,
{
    if n > 0 {
        let m = (n - 1) as nat;
        lemma_signer_indices(bitmap, m);
        let prev = signer_indices(bitmap, m);
        let tail = if bitmap_bit(bitmap, n - 1) {
            seq![(n - 1) as usize]
        } else {
            Seq::<usize>::empty()
        };
        let cur = signer_indices(bitmap, n);
        assert(cur == prev + tail);
        assert(((n - 1) as usize) as int == n - 1);
        assert forall|x: usize| cur.contains(x) <==> (x < n && bitmap_bit(bitmap, x as int)) by {
            if cur.contains(x) {
                let k = choose|k: int| 0 <= k < cur.len() && cur[k] == x;
                if k < prev.len() {
                    assert(prev[k] == x);
                    assert(prev.contains(x));
                } else {
                    assert(tail[k - prev.len()] == x);
                    assert(x == n - 1);
                }
            }
            if x < n && bitmap_bit(bitmap, x as int) {
                if x < m {
                    assert(prev.contains(x));
                    let k = choose|k: int| 0 <= k < prev.len() && prev[k] == x;
                    assert(cur[k] == x);
                } else {
                    assert(x == n - 1);
                    assert(cur[prev.len() as int] == x);
                }
            }
        }
        assert forall|p: int, q: int| 0 <= p < cur.len() && 0 <= q < cur.len() && p != q implies cur[p]
            != cur[q] by {
            if p < prev.len() && q < prev.len() {
                assert(prev[p] != prev[q]);
            } else if p < prev.len() {
                assert(prev[p] < m);
                assert(cur[q] == tail[q - prev.len()]);
            } else if q < prev.len() {
                assert(prev[q] < m);
                assert(cur[p] == tail[p - prev.len()]);
            } else {
                assert(tail.len() <= 1);
            }
        }
    }
}

/// The validators at distinct indices `idx`, with secret keys `sks`, are
/// those that `bitmap` marks, and `pks` holds each one's public key at its
/// index.
pub open spec fn signers_marked(bitmap: Seq<u8>, pks: Seq<Seq<u8>>, idx: Seq<usize>, sks: Seq<Seq<u8>>) -> bool {
    &&& idx.len() == sks.len()
    &&& idx.no_duplicates()
    &&& forall|j: int|
        0 <= j < idx.len() ==> #[trigger] idx[j] < pks.len() && pks[idx[j] as int] == bls_public_key_of(sks[j])
    &&& forall|i: int| 0 <= i < 8 * bitmap.len() ==> (bitmap_bit(bitmap, i) <==> idx.contains(i as usize))
    &&& forall|j: int| 0 <= j < idx.len() ==> (#[trigger] idx[j] as int) < 8 * bitmap.len()
}

/// Law: the public keys that a bitmap of distinct signer indices selects are
/// the signers' own public keys, as a multiset.
pub proof fn lemma_marked_signer_keys(bitmap: Seq<u8>, pks: Seq<Seq<u8>>, idx: Seq<usize>, sks: Seq<Seq<u8>>)
    requires
        pks.len() <= usize::MAX,
        signers_marked(bitmap, pks, idx, sks),
    ensures
        signer_keys(bitmap, pks).to_multiset() == public_keys_of(sks).to_multiset(),
{
    let sidx = signer_indices(bitmap, pks.len());
    lemma_signer_indices(bitmap, pks.len());
    assert forall|x: usize| sidx.contains(x) <==> idx.contains(x) by {
        let xi = x as int;
        if idx.contains(x) {
            let j = choose|j: int| 0 <= j < idx.len() && idx[j] == x;
            assert(idx[j] < pks.len());
            assert(xi < 8 * bitmap.len());
            assert(bitmap_bit(bitmap, xi) <==> idx.contains(xi as usize));
            assert(bitmap_bit(bitmap, xi));
        }
        if sidx.contains(x) {
            assert(bitmap_bit(bitmap, xi));
            assert(0 <= xi / 8 < bitmap.len());
            assert(xi < 8 * bitmap.len());
            assert(bitmap_bit(bitmap, xi) <==> idx.contains(xi as usize));
        }
    }
    let f = |i: usize| pks[i as int];
    lemma_permutation_map_multiset(sidx, idx, f);
    assert(signer_keys(bitmap, pks) =~= sidx.map_values(f));
    assert(public_keys_of(sks) =~= idx.map_values(f));
}

} // verus!
