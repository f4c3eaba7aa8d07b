//! Checkpoint votes: the signed vote message, double-sign evidence, and the
//! node's record of past votes, slashed validators and finalized heights.

use vstd::prelude::*;
use vstd::bytes::{spec_u64_to_le_bytes, u64_to_le_bytes, lemma_auto_spec_u64_to_from_le_bytes};
use vstd::utf8::{encode_utf8, encode_utf8_decode_utf8};
use crate::hashing::str_eq;

verus! {

/// The phase of the voting protocol a vote belongs to.
#[derive(Clone, Copy, Debug, PartialEq, Eq, Structural)]
pub enum VoteType {
    Prepare,
    Commit,
    Finalize,
}

/// The wire tag of a vote type.
pub open spec fn vote_type_tag(t: VoteType) -> u8 {
    match t {
        VoteType::Prepare => 0,
        VoteType::Commit => 1,
        VoteType::Finalize => 2,
    }
}

/// A validator's signed vote on a checkpoint.
#[derive(Clone, Debug)]
pub struct Vote {
    pub validator: String,
    pub vote_type: VoteType,
    pub checkpoint_height: u64,
    pub checkpoint_hash: String,
    pub signature: Vec<u8>,
    pub timestamp: u64,
}

/// The bytes a vote's signature covers: the type tag, the height in
/// little-endian, then the checkpoint hash text.
pub open spec fn vote_message(t: VoteType, height: u64, hash: Seq<char>) -> Seq<u8> {
    seq![vote_type_tag(t)] + spec_u64_to_le_bytes(height) + encode_utf8(hash)
}

impl VoteType {
    pub fn tag(&self) -> (b: u8)
        ensures
            b == vote_type_tag(*self),
    {
        match self {
            VoteType::Prepare => 0,
            VoteType::Commit => 1,
            VoteType::Finalize => 2,
        }
    }
}

impl Vote {
    /// The bytes this vote's signature is over; the validator, signature and
    /// timestamp do not enter it.
    pub fn message(&self) -> (msg: Vec<u8>)
        ensures
            msg@ == vote_message(self.vote_type, self.checkpoint_height, self.checkpoint_hash@),
    {
        let mut msg: Vec<u8> = Vec::new();
        msg.push(self.vote_type.tag());
        let h = u64_to_le_bytes(self.checkpoint_height);
        msg.extend_from_slice(h.as_slice());
        msg.extend_from_slice(self.checkpoint_hash.as_str().as_bytes());
        proof {
            assert(msg@ =~= vote_message(self.vote_type, self.checkpoint_height, self.checkpoint_hash@));
        }
        msg
    }
}

/// Law: a vote message determines the vote type, the height and the hash it
/// was made from, so votes that differ in any of them sign different bytes.
pub proof fn lemma_vote_message_injective(
    t1: VoteType,
    h1: u64,
    s1: Seq<char>,
    t2: VoteType,
    h2: u64,
    s2: Seq<char>,
)
    requires
        vote_message(t1, h1, s1) == vote_message(t2, h2, s2),
    ensures
        t1 == t2,
        h1 == h2,
        s1 == s2,
{
    lemma_auto_spec_u64_to_from_le_bytes();
    let m1 = vote_message(t1, h1, s1);
    let m2 = vote_message(t2, h2, s2);
    assert(m1[0] == vote_type_tag(t1));
    assert(m2[0] == vote_type_tag(t2));
    assert(m1.subrange(1, 9) =~= spec_u64_to_le_bytes(h1));
    assert(m2.subrange(1, 9) =~= spec_u64_to_le_bytes(h2));
    assert(m1.subrange(9, m1.len() as int) =~= encode_utf8(s1));
    assert(m2.subrange(9, m2.len() as int) =~= encode_utf8(s2));
    encode_utf8_decode_utf8(s1);
    encode_utf8_decode_utf8(s2);
}

/// Proof that a validator voted for two different hashes at one height.
#[derive(Clone, Debug)]
pub struct DoubleSignEvidence {
    pub validator: String,
    pub height: u64,
    pub hash1: String,
    pub hash2: String,
    pub signature1: Vec<u8>,
    pub signature2: Vec<u8>,
}

/// The outcome of counting a vote.
#[derive(Clone, Copy, Debug, PartialEq, Eq, Structural)]
pub enum VoteResult {
    Accepted,
    Duplicate,
    QuorumReached,
}


// ---------------------------------------------------------------------
// The node's record of votes
// ---------------------------------------------------------------------

/// The votes counted so far for the checkpoint at one height.
#[derive(Debug)]
pub struct VoteRound {
    pub height: u64,
    pub hash: String,
    pub votes: Vec<Vote>,
}

/// Why a vote was not counted.
#[derive(Clone, Copy, Debug, PartialEq, Eq, Structural)]
pub enum VoteError {
    NoVotingRound,
    WrongCheckpointHash,
}

/// What recording a vote found: evidence of a double sign, if any, and
/// whether the vote was counted.
#[derive(Debug)]
pub struct VoteRecord {
    pub evidence: Option<DoubleSignEvidence>,
    pub result: Result<VoteResult, VoteError>,
}

/// Open voting rounds, finalized heights, every validator's last vote per
/// height, and the validators slashed for double signing.
pub struct VoteLedger {
    rounds: Vec<VoteRound>,
    finalized: Vec<u64>,
    last_finalized: u64,
    history: Vec<Vote>,
    slashed: Vec<String>,
}

/// The character views of some strings.
pub open spec fn string_views(v: Seq<String>) -> Seq<Seq<char>> {
    v.map_values(|s: String| s@)
}

/// No two elements of `s` are equal.
pub open spec fn distinct<A>(s: Seq<A>) -> bool {
    forall|i: int, j: int| 0 <= i < j < s.len() ==> s[i] != s[j]
}

/// Two votes are by the same validator at the same height.
pub open spec fn same_slot(a: Vote, b: Vote) -> bool {
    a.validator@ == b.validator@ && a.checkpoint_height == b.checkpoint_height
}

/// At most one round per height, and at most one vote per validator in a round.
pub open spec fn rounds_well_formed(rounds: Seq<VoteRound>) -> bool {
    &&& forall|i: int, j: int| 0 <= i < j < rounds.len() ==> rounds[i].height != rounds[j].height
    &&& forall|r: int| 0 <= r < rounds.len() ==> voters_distinct(#[trigger] rounds[r].votes@)
}

/// At most one vote per validator.
pub open spec fn voters_distinct(votes: Seq<Vote>) -> bool {
    forall|i: int, j: int| 0 <= i < j < votes.len() ==> votes[i].validator@ != votes[j].validator@
}

/// At most one vote per validator and height.
pub open spec fn slots_distinct(votes: Seq<Vote>) -> bool {
    forall|i: int, j: int| 0 <= i < j < votes.len() ==> !same_slot(votes[i], votes[j])
}

/// The last position of `s` whose element satisfies `p`, or -1.
pub open spec fn find_last<A>(s: Seq<A>, p: spec_fn(A) -> bool) -> int
    decreases s.len(),
{
    if s.len() == 0 {
        -1
    } else if p(s.last()) {
        s.len() - 1
    } else {
        find_last(s.drop_last(), p)
    }
}

/// Two votes agree in every field (byte strings by content).
pub open spec fn same_vote(a: Vote, b: Vote) -> bool {
    &&& a.validator@ == b.validator@
    &&& a.vote_type == b.vote_type
    &&& a.checkpoint_height == b.checkpoint_height
    &&& a.checkpoint_hash@ == b.checkpoint_hash@
    &&& a.signature@ == b.signature@
    &&& a.timestamp == b.timestamp
}

proof fn lemma_find_last<A>(s: Seq<A>, p: spec_fn(A) -> bool)
    ensures
        -1 <= find_last(s, p) < s.len(),
        find_last(s, p) >= 0 ==> p(s[find_last(s, p)]),
        forall|k: int| find_last(s, p) < k < s.len() ==> !p(#[trigger] s[k]),
    decreases s.len(),
{
    if s.len() > 0 && !p(s.last()) {
        lemma_find_last(s.drop_last(), p);
        assert forall|k: int| find_last(s, p) < k < s.len() implies !p(#[trigger] s[k]) by {
            if k < s.len() - 1 {
                assert(s[k] == s.drop_last()[k]);
            }
        }
    }
}

/// Searches `s` from the back for `p` at position `i`, with nothing after it matching.
proof fn lemma_find_last_is(s: Seq<Vote>, p: spec_fn(Vote) -> bool, i: int)
    requires
        -1 <= i < s.len(),
        i >= 0 ==> p(s[i]),
        forall|k: int| i < k < s.len() ==> !p(#[trigger] s[k]),
    ensures
        find_last(s, p) == i,
{
    lemma_find_last(s, p);
}

proof fn lemma_find_last_round(s: Seq<VoteRound>, p: spec_fn(VoteRound) -> bool, i: int)
    requires
        -1 <= i < s.len(),
        i >= 0 ==> p(s[i]),
        forall|k: int| i < k < s.len() ==> !p(#[trigger] s[k]),
    ensures
        find_last(s, p) == i,
{
    lemma_find_last(s, p);
}

proof fn lemma_filter_step<A>(s: Seq<A>, p: spec_fn(A) -> bool, j: int)
    requires
        0 <= j < s.len(),
    ensures
        s.take(j + 1).filter(p) == (if p(s[j]) {
            s.take(j).filter(p).push(s[j])
        } else {
            s.take(j).filter(p)
        }),
        s.skip(j) == seq![s[j]] + s.skip(j + 1),
{
    reveal(Seq::filter);
    let t = s.take(j + 1);
    assert(t.drop_last() =~= s.take(j));
    assert(t.last() == s[j]);
    assert(t.len() > 0);
    assert(t.filter(p) == (if p(t.last()) {
        t.drop_last().filter(p).push(t.last())
    } else {
        t.drop_last().filter(p)
    }));
    assert(s.skip(j) =~= seq![s[j]] + s.skip(j + 1));
}

impl VoteLedger {
    #[verifier::type_invariant]
    spec fn well_formed(self) -> bool {
        &&& rounds_well_formed(self.rounds@)
        &&& distinct(self.finalized@)
        &&& slots_distinct(self.history@)
        &&& distinct(string_views(self.slashed@))
    }

    /// The open rounds.
    pub closed spec fn rounds(&self) -> Seq<VoteRound> {
        self.rounds@
    }

    /// The finalized heights.
    pub closed spec fn finalized(&self) -> Seq<u64> {
        self.finalized@
    }

    /// The last height finalized.
    pub closed spec fn last_finalized(&self) -> u64 {
        self.last_finalized
    }

    /// The last vote of each validator at each height.
    pub closed spec fn history(&self) -> Seq<Vote> {
        self.history@
    }

    /// The slashed validators.
    pub closed spec fn slashed(&self) -> Seq<Seq<char>> {
        string_views(self.slashed@)
    }

    /// Nothing recorded.
    pub fn new() -> (l: Self)
        ensures
            l.rounds().len() == 0,
            l.finalized().len() == 0,
            l.last_finalized() == 0,
            l.history().len() == 0,
            l.slashed().len() == 0,
    {
        VoteLedger {
            rounds: Vec::new(),
            finalized: Vec::new(),
            last_finalized: 0,
            history: Vec::new(),
            slashed: Vec::new(),
        }
    }

    /// Whether `validator` was slashed for double signing.
    pub fn is_validator_slashed(&self, validator: &str) -> (b: bool)
        ensures
            b == self.slashed().contains(validator@),
    {
        let mut i: usize = 0;
        while i < self.slashed.len()
            invariant
                i <= self.slashed@.len(),
                forall|j: int| 0 <= j < i ==> self.slashed@[j]@ != validator@,
            decreases self.slashed@.len() - i,
        {
            if str_eq(self.slashed[i].as_str(), validator) {
                proof {
                    assert(self.slashed()[i as int] == validator@);
                }
                return true;
            }
            i = i + 1;
        }
        proof {
            if self.slashed().contains(validator@) {
                let k = choose|k: int| 0 <= k < self.slashed().len() && self.slashed()[k] == validator@;
                assert(self.slashed@[k]@ == validator@);
            }
        }
        false
    }

    /// Records that `validator` was slashed.
    pub fn mark_slashed(&mut self, validator: String)
        ensures
            old(self).slashed().contains(validator@) ==> final(self).slashed() == old(self).slashed(),
            !old(self).slashed().contains(validator@) ==> final(self).slashed() == old(self).slashed().push(validator@),
            final(self).rounds() == old(self).rounds(),
            final(self).history() == old(self).history(),
            final(self).finalized() == old(self).finalized(),
            final(self).last_finalized() == old(self).last_finalized(),
    {
        proof { use_type_invariant(&*self); }
        if self.is_validator_slashed(validator.as_str()) {
            return;
        }
        let ghost before = self.slashed@;
        let mut slashed = Vec::new();
        std::mem::swap(&mut slashed, &mut self.slashed);
        slashed.push(validator);
        proof {
            assert(string_views(slashed@) =~= string_views(before).push(validator@));
            assert forall|i: int, j: int| 0 <= i < j < string_views(slashed@).len() implies string_views(slashed@)[i]
                != string_views(slashed@)[j] by {
                if j == before.len() {
                    assert(string_views(before).contains(string_views(before)[i]));
                }
            }
        }
        self.slashed = slashed;
    }

    /// Forgets all slashed validators.
    pub fn clear_slashed_set(&mut self)
        ensures
            final(self).slashed().len() == 0,
            final(self).rounds() == old(self).rounds(),
            final(self).history() == old(self).history(),
            final(self).finalized() == old(self).finalized(),
            final(self).last_finalized() == old(self).last_finalized(),
    {
        proof { use_type_invariant(&*self); }
        let empty: Vec<String> = Vec::new();
        proof { assert(string_views(empty@) =~= Seq::<Seq<char>>::empty()); }
        self.slashed = empty;
    }

    /// Whether the checkpoint at `height` was finalized.
    pub fn is_finalized(&self, height: u64) -> (b: bool)
        ensures
            b == self.finalized().contains(height),
    {
        let mut i: usize = 0;
        while i < self.finalized.len()
            invariant
                i <= self.finalized@.len(),
                forall|j: int| 0 <= j < i ==> self.finalized@[j] != height,
            decreases self.finalized@.len() - i,
        {
            if self.finalized[i] == height {
                return true;
            }
            i = i + 1;
        }
        false
    }

    /// The last height finalized.
    pub fn last_finalized_height(&self) -> (h: u64)
        ensures
            h == self.last_finalized(),
    {
        self.last_finalized
    }

    /// Marks `height` finalized once quorum is reached there; true when it
    /// was not finalized before.
    pub fn mark_finalized(&mut self, height: u64) -> (newly: bool)
        ensures
            newly == !old(self).finalized().contains(height),
            newly ==> final(self).finalized() == old(self).finalized().push(height)
                && final(self).last_finalized() == height,
            !newly ==> final(self).finalized() == old(self).finalized()
                && final(self).last_finalized() == old(self).last_finalized(),
            final(self).rounds() == old(self).rounds(),
            final(self).history() == old(self).history(),
            final(self).slashed() == old(self).slashed(),
    {
        proof { use_type_invariant(&*self); }
        if self.is_finalized(height) {
            return false;
        }
        let mut finalized = Vec::new();
        std::mem::swap(&mut finalized, &mut self.finalized);
        let ghost before = finalized@;
        finalized.push(height);
        proof {
            assert forall|i: int, j: int| 0 <= i < j < finalized@.len() implies finalized@[i] != finalized@[j] by {
                if j == before.len() {
                    assert(before.contains(before[i]));
                }
            }
        }
        self.finalized = finalized;
        self.last_finalized = height;
        true
    }

    /// Drops the rounds and finalized heights below `keep_after`.
    pub fn cleanup_old_rounds(&mut self, keep_after: u64)
        ensures
            final(self).rounds() == old(self).rounds().filter(|r: VoteRound| r.height >= keep_after),
            final(self).finalized() == old(self).finalized().filter(|h: u64| h >= keep_after),
            final(self).last_finalized() == old(self).last_finalized(),
            final(self).history() == old(self).history(),
            final(self).slashed() == old(self).slashed(),
    {
        proof { use_type_invariant(&*self); }
        let ghost keep = |r: VoteRound| r.height >= keep_after;
        let mut rounds = Vec::new();
        std::mem::swap(&mut rounds, &mut self.rounds);
        let ghost orig = rounds@;
        let n = rounds.len();
        let mut i: usize = 0;
        let mut j: usize = 0;
        while j < n
            invariant
                n == orig.len(),
                j <= orig.len(),
                keep == (|r: VoteRound| r.height >= keep_after),
                i == orig.take(j as int).filter(keep).len(),
                rounds@ == orig.take(j as int).filter(keep) + orig.skip(j as int),
                rounds_well_formed(rounds@),
            decreases orig.len() - j,
        {
            proof {
                lemma_filter_step(orig, keep, j as int);
                assert(rounds@[i as int] == orig[j as int]);
            }
            if rounds[i].height >= keep_after {
                proof {
                    assert(rounds@ =~= orig.take(j + 1).filter(keep) + orig.skip(j + 1));
                }
                i = i + 1;
            } else {
                let ghost before = rounds@;
                let _gone = rounds.remove(i);
                proof {
                    assert(rounds@ =~= orig.take(j + 1).filter(keep) + orig.skip(j + 1));
                    assert forall|a: int, b: int| 0 <= a < b < rounds@.len() implies rounds@[a].height
                        != rounds@[b].height by {
                        let a2 = if a < i { a } else { a + 1 };
                        let b2 = if b < i { b } else { b + 1 };
                        assert(rounds@[a] == before[a2]);
                        assert(rounds@[b] == before[b2]);
                    }
                    assert forall|r: int| 0 <= r < rounds@.len() implies voters_distinct(
                        #[trigger] rounds@[r].votes@,
                    ) by {
                        let r2 = if r < i { r } else { r + 1 };
                        assert(rounds@[r] == before[r2]);
                    }
                }
            }
            j = j + 1;
        }
        proof {
            assert(orig.take(orig.len() as int) =~= orig);
            assert(rounds@ =~= orig.filter(keep));
        }
        self.rounds = rounds;

        let ghost keep_h = |h: u64| h >= keep_after;
        let mut finalized = Vec::new();
        std::mem::swap(&mut finalized, &mut self.finalized);
        let ghost orig_f = finalized@;
        let n = finalized.len();
        let mut i: usize = 0;
        let mut j: usize = 0;
        while j < n
            invariant
                n == orig_f.len(),
                j <= orig_f.len(),
                keep_h == (|h: u64| h >= keep_after),
                i == orig_f.take(j as int).filter(keep_h).len(),
                finalized@ == orig_f.take(j as int).filter(keep_h) + orig_f.skip(j as int),
                distinct(finalized@),
            decreases orig_f.len() - j,
        {
            proof {
                lemma_filter_step(orig_f, keep_h, j as int);
                assert(finalized@[i as int] == orig_f[j as int]);
            }
            if finalized[i] >= keep_after {
                proof {
                    assert(finalized@ =~= orig_f.take(j + 1).filter(keep_h) + orig_f.skip(j + 1));
                }
                i = i + 1;
            } else {
                let ghost before = finalized@;
                let _gone = finalized.remove(i);
                proof {
                    assert(finalized@ =~= orig_f.take(j + 1).filter(keep_h) + orig_f.skip(j + 1));
                    assert forall|a: int, b: int| 0 <= a < b < finalized@.len() implies finalized@[a]
                        != finalized@[b] by {
                        let a2 = if a < i { a } else { a + 1 };
                        let b2 = if b < i { b } else { b + 1 };
                        assert(finalized@[a] == before[a2]);
                        assert(finalized@[b] == before[b2]);
                    }
                }
            }
            j = j + 1;
        }
        proof {
            assert(orig_f.take(orig_f.len() as int) =~= orig_f);
            assert(finalized@ =~= orig_f.filter(keep_h));
        }
        self.finalized = finalized;
    }

    /// Drops the votes of heights below `keep_after` from the history.
    pub fn cleanup_old_vote_history(&mut self, keep_after_height: u64)
        ensures
            final(self).history() == old(self).history().filter(
                |v: Vote| v.checkpoint_height >= keep_after_height,
            ),
            final(self).rounds() == old(self).rounds(),
            final(self).finalized() == old(self).finalized(),
            final(self).last_finalized() == old(self).last_finalized(),
            final(self).slashed() == old(self).slashed(),
    {
        proof { use_type_invariant(&*self); }
        let ghost keep = |v: Vote| v.checkpoint_height >= keep_after_height;
        let mut history = Vec::new();
        std::mem::swap(&mut history, &mut self.history);
        let ghost orig = history@;
        let n = history.len();
        let mut i: usize = 0;
        let mut j: usize = 0;
        while j < n
            invariant
                n == orig.len(),
                j <= orig.len(),
                keep == (|v: Vote| v.checkpoint_height >= keep_after_height),
                i == orig.take(j as int).filter(keep).len(),
                history@ == orig.take(j as int).filter(keep) + orig.skip(j as int),
                slots_distinct(history@),
            decreases orig.len() - j,
        {
            proof {
                lemma_filter_step(orig, keep, j as int);
                assert(history@[i as int] == orig[j as int]);
            }
            if history[i].checkpoint_height >= keep_after_height {
                proof {
                    assert(history@ =~= orig.take(j + 1).filter(keep) + orig.skip(j + 1));
                }
                i = i + 1;
            } else {
                let ghost before = history@;
                let _gone = history.remove(i);
                proof {
                    assert(history@ =~= orig.take(j + 1).filter(keep) + orig.skip(j + 1));
                    assert forall|a: int, b: int| 0 <= a < b < history@.len() implies !same_slot(
                        history@[a],
                        history@[b],
                    ) by {
                        let a2 = if a < i { a } else { a + 1 };
                        let b2 = if b < i { b } else { b + 1 };
                        assert(history@[a] == before[a2]);
                        assert(history@[b] == before[b2]);
                    }
                }
            }
            j = j + 1;
        }
        proof {
            assert(orig.take(orig.len() as int) =~= orig);
            assert(history@ =~= orig.filter(keep));
        }
        self.history = history;
    }

    /// The position of the round at `height`, if one is open.
    fn round_position(&self, height: u64) -> (r: Option<usize>)
        ensures
            match r {
                Some(i) => i == find_last(self.rounds(), |x: VoteRound| x.height == height),
                None => find_last(self.rounds(), |x: VoteRound| x.height == height) == -1,
            },
    {
        let ghost p = |x: VoteRound| x.height == height;
        let mut i = self.rounds.len();
        while i > 0
            invariant
                i <= self.rounds@.len(),
                p == (|x: VoteRound| x.height == height),
                forall|k: int| i <= k < self.rounds@.len() ==> !p(#[trigger] self.rounds@[k]),
            decreases i,
        {
            i = i - 1;
            if self.rounds[i].height == height {
                proof { lemma_find_last_round(self.rounds@, p, i as int); }
                return Some(i);
            }
        }
        proof { lemma_find_last_round(self.rounds@, p, -1); }
        None
    }

    /// Whether a round is open at `height`.
    pub fn has_round(&self, height: u64) -> (b: bool)
        ensures
            b == exists|i: int| 0 <= i < self.rounds().len() && self.rounds()[i].height == height,
    {
        let r = self.round_position(height);
        proof {
            lemma_find_last(self.rounds(), |x: VoteRound| x.height == height);
            if r is None && exists|i: int| 0 <= i < self.rounds().len() && self.rounds()[i].height == height {
                let i = choose|i: int| 0 <= i < self.rounds().len() && self.rounds()[i].height == height;
                assert((|x: VoteRound| x.height == height)(self.rounds()[i]));
            }
        }
        r.is_some()
    }

    /// Opens the round at `height` for checkpoint `hash`, replacing any
    /// round already open there.
    pub fn open_round(&mut self, height: u64, hash: String)
        ensures
            ({
                let r = find_last(old(self).rounds(), |x: VoteRound| x.height == height);
                final(self).rounds().drop_last() == (if r >= 0 {
                    old(self).rounds().remove(r)
                } else {
                    old(self).rounds()
                })
            }),
            final(self).rounds().len() > 0,
            final(self).rounds().last().height == height,
            final(self).rounds().last().hash@ == hash@,
            final(self).rounds().last().votes@.len() == 0,
            final(self).history() == old(self).history(),
            final(self).finalized() == old(self).finalized(),
            final(self).last_finalized() == old(self).last_finalized(),
            final(self).slashed() == old(self).slashed(),
    {
        proof { use_type_invariant(&*self); }
        let pos = self.round_position(height);
        let ghost p = |x: VoteRound| x.height == height;
        proof { lemma_find_last(self.rounds@, p); }
        let mut rounds = Vec::new();
        std::mem::swap(&mut rounds, &mut self.rounds);
        let ghost orig = rounds@;
        match pos {
            Some(i) => {
                let _old_round = rounds.remove(i);
            },
            None => {},
        }
        let ghost kept = rounds@;
        proof {
            assert forall|a: int| 0 <= a < kept.len() implies #[trigger] kept[a].height != height by {
                match pos {
                    Some(i) => {
                        let a2 = if a < i { a } else { a + 1 };
                        assert(kept[a] == orig[a2]);
                        if a2 < i {
                            assert(orig[a2].height != orig[i as int].height);
                        }
                    },
                    None => {},
                }
            }
            assert forall|a: int, b: int| 0 <= a < b < kept.len() implies kept[a].height != kept[b].height by {
                match pos {
                    Some(i) => {
                        let a2 = if a < i { a } else { a + 1 };
                        let b2 = if b < i { b } else { b + 1 };
                        assert(kept[a] == orig[a2]);
                        assert(kept[b] == orig[b2]);
                    },
                    None => {},
                }
            }
            assert forall|a: int| 0 <= a < kept.len() implies voters_distinct(#[trigger] kept[a].votes@) by {
                match pos {
                    Some(i) => {
                        let a2 = if a < i { a } else { a + 1 };
                        assert(kept[a] == orig[a2]);
                    },
                    None => {},
                }
            }
        }
        rounds.push(VoteRound { height, hash, votes: Vec::new() });
        proof {
            assert(rounds@.drop_last() =~= kept);
            assert(voters_distinct(rounds@.last().votes@));
            assert forall|r: int| 0 <= r < rounds@.len() implies voters_distinct(#[trigger] rounds@[r].votes@) by {
                if r < kept.len() {
                    assert(rounds@[r] == kept[r]);
                }
            }
            assert forall|a: int, b: int| 0 <= a < b < rounds@.len() implies rounds@[a].height != rounds@[b].height by {
                if b < kept.len() {
                    assert(rounds@[a] == kept[a]);
                    assert(rounds@[b] == kept[b]);
                } else {
                    assert(rounds@[a] == kept[a]);
                }
            }
        }
        self.rounds = rounds;
    }

    /// Evidence of a double sign: the validator already voted at `height`
    /// in the open round for a different hash.
    pub fn check_double_signing(&self, validator: &str, height: u64, hash: &str, signature: &[u8]) -> (e: Option<DoubleSignEvidence>)
        ensures
            ({
                let r = find_last(self.rounds(), |x: VoteRound| x.height == height);
                let votes = self.rounds()[r].votes@;
                let v = find_last(votes, |x: Vote| x.validator@ == validator@);
                if r >= 0 && v >= 0 && votes[v].checkpoint_hash@ != hash@ {
                    e matches Some(ev) && {
                        &&& ev.validator@ == validator@
                        &&& ev.height == height
                        &&& ev.hash1@ == votes[v].checkpoint_hash@
                        &&& ev.hash2@ == hash@
                        &&& ev.signature1@ == votes[v].signature@
                        &&& ev.signature2@ == signature@
                    }
                } else {
                    e is None
                }
            }),
    {
        let pos = self.round_position(height);
        proof { lemma_find_last(self.rounds(), |x: VoteRound| x.height == height); }
        let r = match pos {
            Some(r) => r,
            None => return None,
        };
        let round = &self.rounds[r];
        let ghost pv = |x: Vote| x.validator@ == validator@;
        let mut i = round.votes.len();
        while i > 0
            invariant
                i <= round.votes@.len(),
                r == find_last(self.rounds(), |x: VoteRound| x.height == height),
                0 <= r < self.rounds().len(),
                *round == self.rounds()[r as int],
                pv == (|x: Vote| x.validator@ == validator@),
                forall|k: int| i <= k < round.votes@.len() ==> !pv(#[trigger] round.votes@[k]),
            decreases i,
        {
            i = i - 1;
            if str_eq(round.votes[i].validator.as_str(), validator) {
                proof {
                    lemma_find_last_is(round.votes@, pv, i as int);
                    assert(find_last(round.votes@, |x: Vote| x.validator@ == validator@) == i);
                }
                let existing = &round.votes[i];
                if str_eq(existing.checkpoint_hash.as_str(), hash) {
                    return None;
                }
                let signature1 = existing.signature.clone();
                proof { assert(signature1@ =~= existing.signature@); }
                return Some(DoubleSignEvidence {
                    validator: validator.to_owned(),
                    height,
                    hash1: existing.checkpoint_hash.clone(),
                    hash2: hash.to_owned(),
                    signature1,
                    signature2: vstd::slice::slice_to_vec(signature),
                });
            }
        }
        proof { lemma_find_last_is(round.votes@, pv, -1); }
        None
    }

    /// The position of the history entry for `vote`'s validator and height.
    fn history_position(&self, vote: &Vote) -> (k: Option<usize>)
        ensures
            match k {
                Some(i) => i == find_last(self.history(), |x: Vote| same_slot(x, *vote)),
                None => find_last(self.history(), |x: Vote| same_slot(x, *vote)) == -1,
            },
    {
        let ghost p = |x: Vote| same_slot(x, *vote);
        let mut i = self.history.len();
        while i > 0
            invariant
                i <= self.history@.len(),
                p == (|x: Vote| same_slot(x, *vote)),
                forall|k: int| i <= k < self.history@.len() ==> !p(#[trigger] self.history@[k]),
            decreases i,
        {
            i = i - 1;
            let h = &self.history[i];
            if h.checkpoint_height == vote.checkpoint_height && str_eq(
                h.validator.as_str(),
                vote.validator.as_str(),
            ) {
                proof { lemma_find_last_is(self.history@, p, i as int); }
                return Some(i);
            }
        }
        proof { lemma_find_last_is(self.history@, p, -1); }
        None
    }

    /// Counts a vote whose signature was checked: it notes evidence of a
    /// double sign against the history (unless the validator was already
    /// slashed), records the vote as the validator's last at its height,
    /// and adds it to the open round when it is for the round's checkpoint
    /// and the validator has not voted there yet.
    pub fn record_vote(&mut self, vote: Vote) -> (rec: VoteRecord)
        ensures
            final(self).finalized() == old(self).finalized(),
            final(self).last_finalized() == old(self).last_finalized(),
            final(self).slashed() == old(self).slashed(),
            ({
                let r = find_last(old(self).rounds(), |x: VoteRound| x.height == vote.checkpoint_height);
                let k = find_last(old(self).history(), |x: Vote| same_slot(x, vote));
                let round = old(self).rounds()[r];
                let v = find_last(round.votes@, |x: Vote| x.validator@ == vote.validator@);
                if r < 0 {
                    &&& rec.evidence is None
                    &&& rec.result == Err::<VoteResult, VoteError>(VoteError::NoVotingRound)
                    &&& final(self).rounds() == old(self).rounds()
                    &&& final(self).history() == old(self).history()
                } else {
                    &&& (rec.evidence is Some) == (k >= 0 && old(self).history()[k].checkpoint_hash@
                        != vote.checkpoint_hash@ && !old(self).slashed().contains(vote.validator@))
                    &&& (rec.evidence matches Some(ev) ==> {
                        &&& ev.validator@ == vote.validator@
                        &&& ev.height == vote.checkpoint_height
                        &&& ev.hash1@ == old(self).history()[k].checkpoint_hash@
                        &&& ev.hash2@ == vote.checkpoint_hash@
                        &&& ev.signature1@ == old(self).history()[k].signature@
                        &&& ev.signature2@ == vote.signature@
                    })
                    &&& final(self).history().len() > 0
                    &&& final(self).history().drop_last() == (if k >= 0 {
                        old(self).history().remove(k)
                    } else {
                        old(self).history()
                    })
                    &&& same_vote(final(self).history().last(), vote)
                    &&& if vote.checkpoint_hash@ != round.hash@ {
                        &&& rec.result == Err::<VoteResult, VoteError>(VoteError::WrongCheckpointHash)
                        &&& final(self).rounds() == old(self).rounds()
                    } else if v >= 0 {
                        &&& rec.result == Ok::<VoteResult, VoteError>(VoteResult::Duplicate)
                        &&& final(self).rounds() == old(self).rounds()
                    } else {
                        &&& rec.result == Ok::<VoteResult, VoteError>(VoteResult::Accepted)
                        &&& final(self).rounds().len() == old(self).rounds().len()
                        &&& forall|i: int|
                            0 <= i < old(self).rounds().len() && i != r ==> final(self).rounds()[i]
                                == old(self).rounds()[i]
                        &&& final(self).rounds()[r].height == round.height
                        &&& final(self).rounds()[r].hash == round.hash
                        &&& final(self).rounds()[r].votes@.len() == round.votes@.len() + 1
                        &&& final(self).rounds()[r].votes@.drop_last() == round.votes@
                        &&& same_vote(final(self).rounds()[r].votes@.last(), vote)
                    }
                }
            }),
    {
        proof { use_type_invariant(&*self); }
        let pos = self.round_position(vote.checkpoint_height);
        proof { lemma_find_last(self.rounds(), |x: VoteRound| x.height == vote.checkpoint_height); }
        let r = match pos {
            Some(r) => r,
            None => {
                return VoteRecord { evidence: None, result: Err(VoteError::NoVotingRound) };
            },
        };
        let hpos = self.history_position(&vote);
        let ghost hp = |x: Vote| same_slot(x, vote);
        proof { lemma_find_last(self.history(), hp); }
        let evidence = match hpos {
            Some(k) => {
                let existing = &self.history[k];
                if !str_eq(existing.checkpoint_hash.as_str(), vote.checkpoint_hash.as_str())
                    && !self.is_validator_slashed(vote.validator.as_str()) {
                    let signature1 = existing.signature.clone();
                    let signature2 = vote.signature.clone();
                    proof {
                        assert(signature1@ =~= existing.signature@);
                        assert(signature2@ =~= vote.signature@);
                    }
                    Some(DoubleSignEvidence {
                        validator: vote.validator.clone(),
                        height: vote.checkpoint_height,
                        hash1: existing.checkpoint_hash.clone(),
                        hash2: vote.checkpoint_hash.clone(),
                        signature1,
                        signature2,
                    })
                } else {
                    None
                }
            },
            None => None,
        };
        let entry = copy_vote(&vote);
        let mut history = Vec::new();
        std::mem::swap(&mut history, &mut self.history);
        let ghost orig = history@;
        match hpos {
            Some(k) => {
                let _replaced = history.remove(k);
            },
            None => {},
        }
        let ghost kept = history@;
        proof {
            assert forall|a: int| 0 <= a < kept.len() implies !same_slot(#[trigger] kept[a], vote) by {
                match hpos {
                    Some(k) => {
                        let a2 = if a < k { a } else { a + 1 };
                        assert(kept[a] == orig[a2]);
                        if a2 < k {
                            assert(!same_slot(orig[a2], orig[k as int]));
                        } else {
                            assert(!hp(orig[a2]));
                        }
                    },
                    None => {
                        assert(kept[a] == orig[a]);
                        assert(!hp(orig[a]));
                    },
                }
            }
            assert forall|a: int, b: int| 0 <= a < b < kept.len() implies !same_slot(kept[a], kept[b]) by {
                match hpos {
                    Some(k) => {
                        let a2 = if a < k { a } else { a + 1 };
                        let b2 = if b < k { b } else { b + 1 };
                        assert(kept[a] == orig[a2]);
                        assert(kept[b] == orig[b2]);
                    },
                    None => {},
                }
            }
        }
        history.push(entry);
        proof {
            assert(history@.drop_last() =~= kept);
            assert forall|a: int, b: int| 0 <= a < b < history@.len() implies !same_slot(history@[a], history@[b]) by {
                assert(history@[a] == kept[a]);
                if b < kept.len() {
                    assert(history@[b] == kept[b]);
                } else {
                    assert(!same_slot(kept[a], vote));
                }
            }
        }
        self.history = history;

        if !str_eq(self.rounds[r].hash.as_str(), vote.checkpoint_hash.as_str()) {
            return VoteRecord { evidence, result: Err(VoteError::WrongCheckpointHash) };
        }
        let already = self.has_voted(r, vote.validator.as_str());
        if already {
            return VoteRecord { evidence, result: Ok(VoteResult::Duplicate) };
        }
        let mut rounds = Vec::new();
        std::mem::swap(&mut rounds, &mut self.rounds);
        let ghost orig_rounds = rounds@;
        let mut round = rounds.remove(r);
        let ghost orig_votes = round.votes@;
        let ghost vp = |x: Vote| x.validator@ == vote.validator@;
        proof { lemma_find_last(orig_votes, vp); }
        round.votes.push(vote);
        proof {
            assert(round.votes@.drop_last() =~= orig_votes);
            assert forall|a: int, b: int| 0 <= a < b < round.votes@.len() implies round.votes@[a].validator@
                != round.votes@[b].validator@ by {
                assert(round.votes@[a] == orig_votes[a]);
                if b < orig_votes.len() {
                    assert(round.votes@[b] == orig_votes[b]);
                } else {
                    assert(!vp(orig_votes[a]));
                }
            }
        }
        rounds.insert(r, round);
        proof {
            assert forall|a: int| 0 <= a < rounds@.len() && a != r implies #[trigger] rounds@[a] == orig_rounds[a] by {}
            assert forall|a: int, b: int| 0 <= a < b < rounds@.len() implies rounds@[a].height != rounds@[b].height by {
                assert(rounds@[a].height == orig_rounds[a].height);
                assert(rounds@[b].height == orig_rounds[b].height);
            }
            assert forall|a: int| 0 <= a < rounds@.len() implies voters_distinct(#[trigger] rounds@[a].votes@) by {
                if a != r {
                    assert(rounds@[a] == orig_rounds[a]);
                }
            }
        }
        self.rounds = rounds;
        VoteRecord { evidence, result: Ok(VoteResult::Accepted) }
    }

    /// Whether `validator` already voted in the round at position `r`.
    fn has_voted(&self, r: usize, validator: &str) -> (b: bool)
        requires
            r < self.rounds().len(),
        ensures
            b == (find_last(self.rounds()[r as int].votes@, |x: Vote| x.validator@ == validator@) >= 0),
    {
        let round = &self.rounds[r];
        let ghost pv = |x: Vote| x.validator@ == validator@;
        let mut i = round.votes.len();
        while i > 0
            invariant
                i <= round.votes@.len(),
                *round == self.rounds()[r as int],
                pv == (|x: Vote| x.validator@ == validator@),
                forall|k: int| i <= k < round.votes@.len() ==> !pv(#[trigger] round.votes@[k]),
            decreases i,
        {
            i = i - 1;
            if str_eq(round.votes[i].validator.as_str(), validator) {
                proof { lemma_find_last_is(round.votes@, pv, i as int); }
                return true;
            }
        }
        proof { lemma_find_last_is(round.votes@, pv, -1); }
        false
    }
}

/// A field-by-field copy of a vote.
fn copy_vote(v: &Vote) -> (c: Vote)
    ensures
        same_vote(c, *v),
{
    let signature = v.signature.clone();
    proof { assert(signature@ =~= v.signature@); }
    Vote {
        validator: v.validator.clone(),
        vote_type: v.vote_type,
        checkpoint_height: v.checkpoint_height,
        checkpoint_hash: v.checkpoint_hash.clone(),
        signature,
        timestamp: v.timestamp,
    }
}

} // verus!
