//! Systematic Reed–Solomon coding over GF(2^8), as the
//! `reed-solomon-erasure` crate computes it.

use vstd::prelude::*;

verus! {

/// The parity shards that the systematic Reed–Solomon code over GF(2^8)
/// computes, for `parity` parity shards, from the data shards `data`.
pub uninterp spec fn rs_parity(data: Seq<Seq<u8>>, parity: nat) -> Seq<Seq<u8>>;

/// The shards that reconstruction yields from `shards` (each present or
/// absent) in a code of `data` data shards and `parity` parity shards.
pub uninterp spec fn rs_reconstruct(shards: Seq<Option<Seq<u8>>>, data: nat, parity: nat) -> Seq<
    Seq<u8>,
>;

/// Data shards followed by their parity shards.
pub open spec fn codeword(data: Seq<Seq<u8>>, parity: nat) -> Seq<Seq<u8>> {
    data + rs_parity(data, parity)
}

/// Every shard of `shards` is `len` bytes long.
pub open spec fn uniform(shards: Seq<Seq<u8>>, len: nat) -> bool {
    forall|i: int| 0 <= i < shards.len() ==> (#[trigger] shards[i]).len() == len
}

/// How many of `shards` are present.
pub open spec fn present_count(shards: Seq<Option<Seq<u8>>>) -> nat
    decreases shards.len(),
{
    if shards.len() == 0 {
        0
    } else {
        present_count(shards.drop_last()) + if shards.last() is Some { 1nat } else { 0nat }
    }
}

/// The present shards are nonempty and all of one length.
pub open spec fn present_consistent(shards: Seq<Option<Seq<u8>>>) -> bool {
    forall|i: int, j: int|
        0 <= i < shards.len() && 0 <= j < shards.len() && shards[i] is Some && shards[j] is Some
            ==> (#[trigger] shards[i])->0.len() > 0 && shards[i]->0.len() == (
        #[trigger] shards[j])->0.len()
}

/// Reconstruction succeeds on `shards`: at least `data` of them are present,
/// and the present ones are nonempty and of one length.
pub open spec fn reconstructible(shards: Seq<Option<Seq<u8>>>, data: nat) -> bool {
    present_consistent(shards) && present_count(shards) >= data
}

/// The present shards of `shards` equal the shards of `word` at their positions.
pub open spec fn agrees_with(shards: Seq<Option<Seq<u8>>>, word: Seq<Seq<u8>>) -> bool {
    forall|i: int| 0 <= i < shards.len() && (#[trigger] shards[i]) is Some ==> shards[i] == Some(word[i])
}

#[verifier::external_type_specification]
#[verifier::external_body]
pub struct ExRsError(reed_solomon_erasure::Error);

/// Fills in the parity shards of `shards`, through
/// `reed_solomon_erasure::galois_8::ReedSolomon::new(data, parity)` and that
/// codec's `encode`.
/// Trusted: on `data + parity` shards of one nonzero length, with `data` and
/// `parity` positive and at most 256 shards in all, both calls succeed; the
/// data shards are kept and the parity shards become their `rs_parity`, of
/// the same length.
#[verifier::external_body]
pub(crate) fn rs_encode(data: usize, parity: usize, shards: &mut Vec<Vec<u8>>) -> (res: Result<
    (),
    reed_solomon_erasure::Error,
>)
    requires
        0 < data,
        0 < parity,
        data + parity <= 256,
        old(shards)@.len() == data + parity,
        old(shards)@[0]@.len() > 0,
        uniform(old(shards).deep_view(), old(shards)@[0]@.len()),
    ensures
        res is Ok,
        final(shards)@.len() == old(shards)@.len(),
        final(shards).deep_view() == old(shards).deep_view().take(data as int) + rs_parity(
            old(shards).deep_view().take(data as int),
            parity as nat,
        ),
        uniform(final(shards).deep_view(), old(shards)@[0]@.len()),
{
    let codec = reed_solomon_erasure::galois_8::ReedSolomon::new(data, parity)?;
    codec.encode(shards)
}

/// Fills in the absent shards of `shards`, through
/// `reed_solomon_erasure::galois_8::ReedSolomon::new(data, parity)` and that
/// codec's `reconstruct`.
/// Trusted: it succeeds exactly when at least `data` shards are present and
/// the present ones are nonempty and of one length, and then every shard is
/// present, all of one length, the present ones are kept, and the result is
/// `rs_reconstruct` of the input; where the present shards agree with the codeword of some data
/// shards of one nonzero length, the result is that codeword. On failure
/// nothing is touched.
#[verifier::external_body]
pub(crate) fn rs_reconstruct_shards(
    data: usize,
    parity: usize,
    shards: &mut Vec<Option<Vec<u8>>>,
) -> (res: Result<(), reed_solomon_erasure::Error>)
    requires
        0 < data,
        0 < parity,
        data + parity <= 256,
        old(shards)@.len() == data + parity,
    ensures
        res is Ok <==> reconstructible(old(shards).deep_view(), data as nat),
        res is Ok ==> final(shards)@.len() == old(shards)@.len(),
        res is Ok ==> rs_reconstruct(old(shards).deep_view(), data as nat, parity as nat).len()
            == old(shards)@.len(),
        res is Ok ==> forall|i: int|
            0 <= i < final(shards)@.len() ==> (#[trigger] final(shards).deep_view()[i]) == Some(
                rs_reconstruct(old(shards).deep_view(), data as nat, parity as nat)[i],
            ),
        res is Ok ==> forall|i: int, j: int|
            0 <= i < old(shards)@.len() && 0 <= j < old(shards)@.len() ==> (#[trigger] rs_reconstruct(
                old(shards).deep_view(),
                data as nat,
                parity as nat,
            )[i]).len() == (#[trigger] rs_reconstruct(
                old(shards).deep_view(),
                data as nat,
                parity as nat,
            )[j]).len(),
        res is Ok ==> agrees_with(old(shards).deep_view(), rs_reconstruct(old(shards).deep_view(), data as nat, parity as nat)),
        res is Ok ==> forall|d: Seq<Seq<u8>>|
            d.len() == data && d[0].len() > 0 && uniform(d, d[0].len()) && #[trigger] agrees_with(
                old(shards).deep_view(),
                d + rs_parity(d, parity as nat),
            ) ==> rs_reconstruct(old(shards).deep_view(), data as nat, parity as nat) == d + rs_parity(
                d,
                parity as nat,
            ),
        res is Err ==> final(shards).deep_view() == old(shards).deep_view(),
{
    let codec = reed_solomon_erasure::galois_8::ReedSolomon::new(data, parity)?;
    codec.reconstruct(shards.as_mut_slice())
}

} // verus!
