//! Token emission schedule: checkpoint rewards with halvings, supply
//! accounting and merging of emission snapshots.

use vstd::prelude::*;

verus! {

/// Hard cap on the token supply, in micro-units.
pub const MAX_SUPPLY: u64 = 3_000_000_000_000_000;
/// Supply minted at genesis, in micro-units.
pub const GENESIS_ALLOCATION: u64 = 600_000_000_000_000;
/// Reward paid for a checkpoint before the first halving, in micro-units.
pub const INITIAL_CHECKPOINT_REWARD: u64 = 393_241_100;
/// Number of checkpoints between two halvings.
pub const HALVING_INTERVAL: u64 = 3_150_000;
/// Lower bound on a checkpoint reward, in micro-units.
pub const MIN_CHECKPOINT_REWARD: u64 = 12_288_700;
/// Number of halvings after which the reward stops decreasing.
pub const HALVINGS_COUNT: u32 = 5;
/// Minimum bond (in micro-units) for a validator's age weight to count.
pub const MIN_BOND_FOR_AGE_WEIGHT: u64 = 10_000_000_000;

/// The halving epoch of a height: the number of whole halving intervals
/// below it, as a `u32` (wrapping modulo 2^32 for astronomically large heights).
pub open spec fn halving_epoch_of(height: u64) -> u32 {
    ((height / HALVING_INTERVAL) % 0x1_0000_0000) as u32
}

/// The reward for a checkpoint at `height`.
pub open spec fn checkpoint_reward_of(height: u64) -> u64 {
    let e = halving_epoch_of(height);
    let eff: u32 = if e < HALVINGS_COUNT { e } else { HALVINGS_COUNT };
    let r = INITIAL_CHECKPOINT_REWARD >> eff;
    if r > MIN_CHECKPOINT_REWARD { r } else { MIN_CHECKPOINT_REWARD }
}

/// Persistent form of the emission counters.
#[derive(Clone, Copy, Debug)]
pub struct EmissionSnapshot {
    pub total_emitted: u64,
    pub total_burned: u64,
}

/// Running totals of emitted and burned tokens.
pub struct EmissionService {
    total_emitted: u64,
    total_burned: u64,
}

impl EmissionService {
    /// The total emitted so far.
    pub closed spec fn emitted(&self) -> u64 {
        self.total_emitted
    }

    /// The total burned so far.
    pub closed spec fn burned(&self) -> u64 {
        self.total_burned
    }

    pub fn new() -> (s: Self)
        ensures
            s.emitted() == 0,
            s.burned() == 0,
    {
        Self { total_emitted: 0, total_burned: 0 }
    }

    pub fn with_initial(total_emitted: u64, total_burned: u64) -> (s: Self)
        ensures
            s.emitted() == total_emitted,
            s.burned() == total_burned,
    {
        Self { total_emitted, total_burned }
    }

    pub fn get_checkpoint_reward(&self, checkpoint_height: u64) -> (r: u64)
        ensures
            r == checkpoint_reward_of(checkpoint_height),
    {
        let halvings = self.get_halving_epoch(checkpoint_height);
        let effective_halvings: u32 = if halvings < HALVINGS_COUNT { halvings } else { HALVINGS_COUNT };
        let reward = INITIAL_CHECKPOINT_REWARD >> effective_halvings;
        if reward > MIN_CHECKPOINT_REWARD { reward } else { MIN_CHECKPOINT_REWARD }
    }

    pub fn get_halving_epoch(&self, checkpoint_height: u64) -> (e: u32)
        ensures
            e == halving_epoch_of(checkpoint_height),
    {
        let q = checkpoint_height / HALVING_INTERVAL;
        let e = q as u32;
        assert(q as u32 == (q % 0x1_0000_0000) as u32) by (bit_vector);
        e
    }

    pub fn get_next_halving_height(&self, checkpoint_height: u64) -> (h: u64)
        ensures
            h == (halving_epoch_of(checkpoint_height) as int + 1) * HALVING_INTERVAL,
    {
        let current_epoch = self.get_halving_epoch(checkpoint_height);
        (current_epoch as u64 + 1) * HALVING_INTERVAL
    }

    pub fn record_emission(&mut self, amount: u64)
        requires
            old(self).emitted() + amount <= u64::MAX,
        ensures
            final(self).emitted() == old(self).emitted() + amount,
            final(self).burned() == old(self).burned(),
    {
        self.total_emitted = self.total_emitted + amount;
    }

    pub fn record_burn(&mut self, amount: u64)
        requires
            old(self).burned() + amount <= u64::MAX,
        ensures
            final(self).burned() == old(self).burned() + amount,
            final(self).emitted() == old(self).emitted(),
    {
        self.total_burned = self.total_burned + amount;
    }

    pub fn get_circulating_supply(&self) -> (s: u64)
        requires
            GENESIS_ALLOCATION + self.emitted() <= u64::MAX,
            self.burned() <= GENESIS_ALLOCATION + self.emitted(),
        ensures
            s == GENESIS_ALLOCATION + self.emitted() - self.burned(),
    {
        GENESIS_ALLOCATION + self.total_emitted - self.total_burned
    }

    pub fn get_remaining_to_emit(&self) -> (r: u64)
        ensures
            r == (if self.emitted() <= MAX_SUPPLY - GENESIS_ALLOCATION {
                MAX_SUPPLY - GENESIS_ALLOCATION - self.emitted()
            } else {
                0
            }),
    {
        let max_emittable = MAX_SUPPLY - GENESIS_ALLOCATION;
        max_emittable.saturating_sub(self.total_emitted)
    }

    pub fn get_total_emitted(&self) -> (r: u64)
        ensures
            r == self.emitted(),
    {
        self.total_emitted
    }

    pub fn get_total_burned(&self) -> (r: u64)
        ensures
            r == self.burned(),
    {
        self.total_burned
    }

    pub fn to_json(&self) -> (snap: EmissionSnapshot)
        ensures
            snap.total_emitted == self.emitted(),
            snap.total_burned == self.burned(),
    {
        EmissionSnapshot { total_emitted: self.total_emitted, total_burned: self.total_burned }
    }

    pub fn from_json(snapshot: EmissionSnapshot) -> (s: Self)
        ensures
            s.emitted() == snapshot.total_emitted,
            s.burned() == snapshot.total_burned,
    {
        Self::with_initial(snapshot.total_emitted, snapshot.total_burned)
    }

    /// Takes the larger of the local and the snapshot's counters and returns
    /// by how much each counter grew.
    pub fn merge_from(&mut self, snapshot: EmissionSnapshot) -> (deltas: (u64, u64))
        ensures
            final(self).emitted() == max_u64(old(self).emitted(), snapshot.total_emitted),
            final(self).burned() == max_u64(old(self).burned(), snapshot.total_burned),
            deltas.0 == final(self).emitted() - old(self).emitted(),
            deltas.1 == final(self).burned() - old(self).burned(),
    {
        let old_emitted = self.total_emitted;
        let old_burned = self.total_burned;
        self.total_emitted = if snapshot.total_emitted > self.total_emitted {
            snapshot.total_emitted
        } else {
            self.total_emitted
        };
        self.total_burned = if snapshot.total_burned > self.total_burned {
            snapshot.total_burned
        } else {
            self.total_burned
        };
        (self.total_emitted - old_emitted, self.total_burned - old_burned)
    }
}

impl Default for EmissionService {
    fn default() -> (s: Self)
        ensures
            s.emitted() == 0,
            s.burned() == 0,
    {
        Self::new()
    }
}

/// The reward paid during halving epoch `e`.
pub open spec fn epoch_reward(e: u32) -> u64 {
    let eff: u32 = if e < HALVINGS_COUNT { e } else { HALVINGS_COUNT };
    let r = INITIAL_CHECKPOINT_REWARD >> eff;
    if r > MIN_CHECKPOINT_REWARD { r } else { MIN_CHECKPOINT_REWARD }
}

proof fn lemma_epoch_reward_table()
    ensures
        epoch_reward(0) == 393_241_100,
        epoch_reward(1) == 196_620_550,
        epoch_reward(2) == 98_310_275,
        epoch_reward(3) == 49_155_137,
        epoch_reward(4) == 24_577_568,
        epoch_reward(5) == 12_288_784,
        forall|e: u32| e >= 5 ==> #[trigger] epoch_reward(e) == 12_288_784,
{
    assert(393_241_100u64 >> 0u32 == 393_241_100u64) by (bit_vector);
    assert(393_241_100u64 >> 1u32 == 196_620_550u64) by (bit_vector);
    assert(393_241_100u64 >> 2u32 == 98_310_275u64) by (bit_vector);
    assert(393_241_100u64 >> 3u32 == 49_155_137u64) by (bit_vector);
    assert(393_241_100u64 >> 4u32 == 24_577_568u64) by (bit_vector);
    assert(393_241_100u64 >> 5u32 == 12_288_784u64) by (bit_vector);
}

/// Law: every checkpoint reward lies between the floor and the initial reward.
pub proof fn lemma_reward_bounds(height: u64)
    ensures
        MIN_CHECKPOINT_REWARD <= checkpoint_reward_of(height) <= INITIAL_CHECKPOINT_REWARD,
{
    lemma_epoch_reward_table();
    let e = halving_epoch_of(height);
    assert(checkpoint_reward_of(height) == epoch_reward(e));
    if e < 5 {
        assert(e == 0 || e == 1 || e == 2 || e == 3 || e == 4);
    }
}

/// Law: each halving interval halves the reward (rounding down) until the
/// fifth halving, after which the reward stays constant. Heights are taken
/// below `2^32` intervals, where the epoch counter does not wrap.
pub proof fn lemma_halving(height: u64)
    requires
        height as int + HALVING_INTERVAL < 0x1_0000_0000 * HALVING_INTERVAL,
    ensures
        halving_epoch_of(height) < HALVINGS_COUNT ==> checkpoint_reward_of(
            (height + HALVING_INTERVAL) as u64,
        ) == checkpoint_reward_of(height) / 2,
        halving_epoch_of(height) >= HALVINGS_COUNT ==> checkpoint_reward_of(
            (height + HALVING_INTERVAL) as u64,
        ) == checkpoint_reward_of(height),
{
    lemma_epoch_reward_table();
    let h2 = (height + HALVING_INTERVAL) as u64;
    assert(h2 / HALVING_INTERVAL == height / HALVING_INTERVAL + 1);
    let e = halving_epoch_of(height);
    assert(e as int == height / HALVING_INTERVAL);
    assert(halving_epoch_of(h2) as int == e + 1);
    assert(checkpoint_reward_of(height) == epoch_reward(e));
    assert(checkpoint_reward_of(h2) == epoch_reward((e + 1) as u32));
    if e < 5 {
        assert(e == 0 || e == 1 || e == 2 || e == 3 || e == 4);
    }
}

/// Law: the reward never grows as the height grows (below `2^32` intervals).
pub proof fn lemma_reward_monotone(h1: u64, h2: u64)
    requires
        h1 <= h2,
        (h2 as int) < 0x1_0000_0000 * HALVING_INTERVAL,
    ensures
        checkpoint_reward_of(h2) <= checkpoint_reward_of(h1),
{
    lemma_epoch_reward_table();
    assert(h1 / HALVING_INTERVAL <= h2 / HALVING_INTERVAL) by (nonlinear_arith)
        requires
            h1 <= h2,
    ;
    let e1 = halving_epoch_of(h1);
    let e2 = halving_epoch_of(h2);
    assert(e1 as int == h1 / HALVING_INTERVAL);
    assert(e2 as int == h2 / HALVING_INTERVAL);
    assert(checkpoint_reward_of(h1) == epoch_reward(e1));
    assert(checkpoint_reward_of(h2) == epoch_reward(e2));
    if e1 < 5 {
        assert(e1 == 0 || e1 == 1 || e1 == 2 || e1 == 3 || e1 == 4);
    }
    if e2 < 5 {
        assert(e2 == 0 || e2 == 1 || e2 == 2 || e2 == 3 || e2 == 4);
    }
}

/// Law: merging snapshots keeps the larger counter, so it is idempotent,
/// commutative and associative, and never lowers a counter.
pub proof fn lemma_merge_is_join(a: u64, b: u64, c: u64)
    ensures
        max_u64(max_u64(a, b), b) == max_u64(a, b),
        max_u64(a, b) == max_u64(b, a),
        max_u64(max_u64(a, b), c) == max_u64(a, max_u64(b, c)),
        max_u64(a, b) >= a,
        max_u64(a, b) >= b,
{
}

/// The larger of two counters.
pub open spec fn max_u64(a: u64, b: u64) -> u64 {
    if a >= b { a } else { b }
}


/// Splits a fee once the validators' share has been rounded from the
/// adaptive percentage: the rest (never below zero) is burned.
pub fn fee_split_from_share(fee_amount: u64, validator_share: u64) -> (split: (u64, u64))
    ensures
        split.0 == validator_share,
        split.1 == (if validator_share <= fee_amount { fee_amount - validator_share } else { 0 }),
{
    (validator_share, fee_amount.saturating_sub(validator_share))
}

} // verus!
