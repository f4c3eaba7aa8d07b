//! Collecting the votes of a quorum certificate for a checkpoint: the
//! two-thirds threshold, each validator counted once, the stake gathered,
//! and the signers' positions among the validators.

use vstd::prelude::*;
use crate::checkpoint::AcceptedVote;
use crate::consensus::{distinct, string_views};
use crate::hashing::str_eq;

verus! {

/// The stake a checkpoint needs: two thirds of the total, rounded up.
pub open spec fn quorum_threshold_of(total_stake: int) -> int {
    (2 * total_stake + 2) / 3
}

/// The threshold is two thirds of the total stake, rounded up: the least
/// stake whose triple is at least twice the total.
pub proof fn lemma_threshold_two_thirds(total_stake: int)
    requires
        0 <= total_stake,
    ensures
        3 * quorum_threshold_of(total_stake) >= 2 * total_stake,
        3 * (quorum_threshold_of(total_stake) - 1) < 2 * total_stake,
{
}

/// The votes gathered so far for one checkpoint.
pub struct QccTally {
    total_stake: u64,
    quorum_threshold: u64,
    collected_stake: u64,
    signers: Vec<String>,
    signatures: Vec<Vec<u8>>,
}

/// The byte strings of a list of buffers.
pub open spec fn buffer_views(v: Seq<Vec<u8>>) -> Seq<Seq<u8>> {
    v.map_values(|b: Vec<u8>| b@)
}

impl QccTally {
    #[verifier::type_invariant]
    spec fn signers_once(self) -> bool {
        distinct(string_views(self.signers@))
    }

    pub closed spec fn total(self) -> int {
        self.total_stake as int
    }

    pub closed spec fn threshold(self) -> int {
        self.quorum_threshold as int
    }

    pub closed spec fn collected(self) -> int {
        self.collected_stake as int
    }

    /// The addresses counted, in the order their votes came.
    pub closed spec fn signer_list(self) -> Seq<Seq<char>> {
        string_views(self.signers@)
    }

    /// The signatures gathered, in order.
    pub closed spec fn signature_list(self) -> Seq<Seq<u8>> {
        buffer_views(self.signatures@)
    }

    /// Starts with this node's own vote (its address and registered stake)
    /// and the signatures the checkpoint already carries.
    pub fn new(total_stake: u64, own_address: String, own_stake: u64, existing: Vec<Vec<u8>>) -> (t: Self)
        requires
            2 * total_stake + 2 <= u64::MAX,
        ensures
            t.total() == total_stake,
            t.threshold() == quorum_threshold_of(total_stake as int),
            t.collected() == own_stake,
            t.signer_list() == seq![own_address@],
            t.signature_list() == buffer_views(existing@),
    {
        let mut signers: Vec<String> = Vec::new();
        let ghost a = own_address@;
        signers.push(own_address);
        proof {
            assert(string_views(signers@) =~= seq![a]);
        }
        QccTally {
            total_stake,
            quorum_threshold: (total_stake * 2 + 2) / 3,
            collected_stake: own_stake,
            signers,
            signatures: existing,
        }
    }

    /// Whether `validator` has been counted.
    pub fn has_signed(&self, validator: &str) -> (r: bool)
        ensures
            r == self.signer_list().contains(validator@),
    {
        let mut i: usize = 0;
        while i < self.signers.len()
            invariant
                i <= self.signers@.len(),
                forall|j: int| 0 <= j < i ==> self.signers@[j]@ != validator@,
            decreases self.signers@.len() - i,
        {
            if str_eq(self.signers[i].as_str(), validator) {
                proof {
                    assert(self.signer_list()[i as int] == validator@);
                }
                return true;
            }
            i = i + 1;
        }
        proof {
            if self.signer_list().contains(validator@) {
                let j = choose|j: int| 0 <= j < self.signer_list().len() && self.signer_list()[j] == validator@;
                assert(self.signers@[j]@ == validator@);
            }
        }
        false
    }

    /// Counts the accepted vote of `validator` unless it was counted before;
    /// tells whether it was.
    pub fn add_vote(&mut self, validator: String, vote: AcceptedVote) -> (counted: bool)
        requires
            old(self).collected() + vote.canonical_stake <= u64::MAX,
        ensures
            counted == !old(self).signer_list().contains(validator@),
            final(self).total() == old(self).total(),
            final(self).threshold() == old(self).threshold(),
            counted ==> final(self).collected() == old(self).collected() + vote.canonical_stake,
            counted ==> final(self).signer_list() == old(self).signer_list().push(validator@),
            counted ==> final(self).signature_list() == old(self).signature_list().push(vote.sig_bytes@),
            !counted ==> final(self).collected() == old(self).collected(),
            !counted ==> final(self).signer_list() == old(self).signer_list(),
            !counted ==> final(self).signature_list() == old(self).signature_list(),
    {
        proof {
            use_type_invariant(&*self);
        }
        if self.has_signed(validator.as_str()) {
            return false;
        }
        let ghost before = self.signer_list();
        let ghost sigs = self.signature_list();
        let ghost a = validator@;
        let ghost s = vote.sig_bytes@;
        let mut signers: Vec<String> = Vec::new();
        std::mem::swap(&mut signers, &mut self.signers);
        signers.push(validator);
        proof {
            assert(string_views(signers@) =~= before.push(a));
            assert forall|i: int, j: int| 0 <= i < j < before.len() + 1 implies string_views(signers@)[i]
                != string_views(signers@)[j] by {
                if j == before.len() {
                    assert(before.contains(before[i]));
                }
            }
        }
        self.signers = signers;
        let mut signatures: Vec<Vec<u8>> = Vec::new();
        std::mem::swap(&mut signatures, &mut self.signatures);
        signatures.push(vote.sig_bytes);
        self.signatures = signatures;
        self.collected_stake = self.collected_stake + vote.canonical_stake;
        proof {
            assert(self.signature_list() =~= sigs.push(s));
        }
        true
    }

    /// Whether the stake gathered reaches the threshold.
    pub fn quorum_reached(&self) -> (r: bool)
        ensures
            r == (self.collected() >= self.threshold()),
    {
        self.collected_stake >= self.quorum_threshold
    }

    pub fn collected_stake(&self) -> (n: u64)
        ensures
            n == self.collected(),
    {
        self.collected_stake
    }

    pub fn quorum_threshold(&self) -> (n: u64)
        ensures
            n == self.threshold(),
    {
        self.quorum_threshold
    }

    /// The signatures gathered, in order.
    pub fn signatures(&self) -> (s: &Vec<Vec<u8>>)
        ensures
            buffer_views(s@) == self.signature_list(),
    {
        &self.signatures
    }

    /// The position in `validators` of each signer found there (the first
    /// match), in the signers' order.
    pub fn signer_positions(&self, validators: &[String]) -> (r: Vec<usize>)
        ensures
            r@.map_values(|i: usize| i as int) == found_positions(self.signer_list(), string_views(validators@)),
    {
        let mut out: Vec<usize> = Vec::new();
        let mut k: usize = 0;
        proof {
            assert(self.signer_list().take(0) =~= Seq::<Seq<char>>::empty());
        }
        while k < self.signers.len()
            invariant
                k <= self.signers@.len(),
                out@.map_values(|i: usize| i as int) == found_positions(
                    self.signer_list().take(k as int),
                    string_views(validators@),
                ),
            decreases self.signers@.len() - k,
        {
            let p = position_of(validators, self.signers[k].as_str());
            let ghost before = out@;
            proof {
                let t = self.signer_list().take(k + 1);
                assert(t.drop_last() =~= self.signer_list().take(k as int));
                assert(t.last() == self.signers@[k as int]@);
            }
            match p {
                Some(i) => {
                    out.push(i);
                    proof {
                        assert(out@.map_values(|i: usize| i as int) =~= before.map_values(|i: usize| i as int).push(
                            i as int,
                        ));
                    }
                },
                None => {},
            }
            k = k + 1;
        }
        proof {
            assert(self.signer_list().take(self.signers@.len() as int) =~= self.signer_list());
        }
        out
    }
}

/// The first position of `a` in `list`, or -1.
pub open spec fn first_position(list: Seq<Seq<char>>, a: Seq<char>) -> int
    decreases list.len(),
{
    if list.len() == 0 {
        -1
    } else if list[0] == a {
        0
    } else {
        let p = first_position(list.drop_first(), a);
        if p < 0 { -1 } else { p + 1 }
    }
}

/// The first positions in `list` of the elements of `signers` found there,
/// in the signers' order.
pub open spec fn found_positions(signers: Seq<Seq<char>>, list: Seq<Seq<char>>) -> Seq<int>
    decreases signers.len(),
{
    if signers.len() == 0 {
        seq![]
    } else {
        let rest = found_positions(signers.drop_last(), list);
        let p = first_position(list, signers.last());
        if p >= 0 { rest.push(p) } else { rest }
    }
}

proof fn lemma_first_position(list: Seq<Seq<char>>, a: Seq<char>, i: int)
    requires
        0 <= i <= list.len(),
        forall|j: int| 0 <= j < i ==> list[j] != a,
    ensures
        i < list.len() && list[i] == a ==> first_position(list, a) == i,
        i == list.len() ==> first_position(list, a) == -1,
    decreases i,
{
    if i > 0 {
        let t = list.drop_first();
        assert forall|j: int| 0 <= j < i - 1 implies t[j] != a by {
            assert(t[j] == list[j + 1]);
        }
        lemma_first_position(t, a, i - 1);
    } else if list.len() > 0 {
    }
}

/// The first position of `a` in `list`.
fn position_of(list: &[String], a: &str) -> (r: Option<usize>)
    ensures
        match r {
            Some(i) => i == first_position(string_views(list@), a@),
            None => first_position(string_views(list@), a@) == -1,
        },
{
    let ghost v = string_views(list@);
    let mut i: usize = 0;
    while i < list.len()
        invariant
            i <= list@.len(),
            v == string_views(list@),
            forall|j: int| 0 <= j < i ==> v[j] != a@,
        decreases list@.len() - i,
    {
        if str_eq(list[i].as_str(), a) {
            proof {
                lemma_first_position(v, a@, i as int);
            }
            return Some(i);
        }
        i = i + 1;
    }
    proof {
        lemma_first_position(v, a@, i as int);
    }
    None
}

} // verus!
