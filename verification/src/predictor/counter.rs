//! Implementation of a saturating counter.

use vstd::prelude::*;

use crate::branch::Outcome;
use crate::predictor::StatefulPredictor;

verus! {

/// The least number of bits that can tell `n` values apart: the base-2
/// logarithm of `n`, rounded up.
pub open spec fn ceil_log2(n: nat) -> nat
    decreases n,
{
    if n <= 1 {
        0
    } else {
        1 + ceil_log2((n + 1) / 2)
    }
}

/// Compute [`ceil_log2`] of a byte.
pub fn ceil_log2_u8(n: u8) -> (r: usize)
    ensures
        r == ceil_log2(n as nat),
        r <= 8,
{
    let mut rest: u8 = n;
    let mut bits: usize = 0;
    while rest > 1
        invariant
            bits + ceil_log2(rest as nat) == ceil_log2(n as nat),
            bits <= 8,
            rest as nat <= 255,
            pow2_bound(rest as nat, bits as nat),
        decreases rest,
    {
        rest = rest / 2 + rest % 2;
        bits = bits + 1;
    }
    bits
}

/// Halving `rest` `bits` times from a byte leaves at most `2^(8 - bits)`.
pub open spec fn pow2_bound(rest: nat, bits: nat) -> bool {
    ||| bits == 0 && rest <= 255
    ||| bits == 1 && rest <= 128
    ||| bits == 2 && rest <= 64
    ||| bits == 3 && rest <= 32
    ||| bits == 4 && rest <= 16
    ||| bits == 5 && rest <= 8
    ||| bits == 6 && rest <= 4
    ||| bits == 7 && rest <= 2
    ||| bits == 8 && rest <= 1
}

/// Configuration for building a [`SaturatingCounter`].
#[derive(Clone, Copy, Debug)]
pub struct SaturatingCounterConfig {
    pub max_t_state: u8,
    pub max_n_state: u8,
    pub default_state: Outcome,
}

impl SaturatingCounterConfig {
    /// The greatest strength that a counter may reach while it predicts `dir`.
    pub open spec fn limit(self, dir: Outcome) -> u8 {
        match dir {
            Outcome::T => self.max_t_state,
            Outcome::N => self.max_n_state,
        }
    }

    /// The storage cost in bits: one bit for the direction, and for each
    /// direction the rounded-up logarithm of its limit.
    pub open spec fn spec_storage_bits(self) -> nat {
        ceil_log2(self.max_t_state as nat) + ceil_log2(self.max_n_state as nat) + 1
    }

    /// Return the storage cost of one counter in bits.
    pub fn storage_bits(&self) -> (r: usize)
        ensures
            r == self.spec_storage_bits(),
            r <= 17,
    {
        ceil_log2_u8(self.max_t_state) + ceil_log2_u8(self.max_n_state) + 1
    }

    /// The counter that this configuration builds: it predicts the default
    /// direction without any strength.
    pub open spec fn built(self) -> SaturatingCounter {
        SaturatingCounter { cfg: self, state: self.default_state, ctr: 0 }
    }

    /// Use this configuration to build a counter.
    pub fn build(self) -> (r: SaturatingCounter)
        ensures
            r == self.built(),
            r.config() == self,
            r.direction() == self.default_state,
            r.strength() == 0,
            r.wf(),
    {
        SaturatingCounter { cfg: self, state: self.default_state, ctr: 0 }
    }
}

/// An N-bit saturating counter used to follow the behavior of a branch.
#[derive(Clone, Copy, Debug)]
pub struct SaturatingCounter {
    /// The configuration that the counter was built from
    pub cfg: SaturatingCounterConfig,
    /// The direction that the counter predicts
    pub state: Outcome,
    /// The confidence in the predicted direction
    pub ctr: u8,
}

impl SaturatingCounter {
    /// The configuration that this counter was built from.
    pub open spec fn config(self) -> SaturatingCounterConfig {
        self.cfg
    }

    /// The direction that the counter predicts.
    pub open spec fn direction(self) -> Outcome {
        self.state
    }

    /// The confidence in the predicted direction.
    pub open spec fn strength(self) -> u8 {
        self.ctr
    }

    /// The limit on the strength in the current direction.
    pub open spec fn limit(self) -> u8 {
        self.config().limit(self.direction())
    }

    /// The strength never exceeds the limit of the current direction.
    pub open spec fn wf(self) -> bool {
        self.strength() <= self.limit()
    }

    /// The counter after one step of confidence is added.
    pub open spec fn strengthened(self) -> SaturatingCounter {
        self.with_strength(
            if self.strength() < self.limit() {
                (self.strength() + 1) as u8
            } else {
                self.limit()
            },
        )
    }

    /// The counter after one step of confidence is taken away: a counter
    /// without any confidence left changes its direction instead.
    pub open spec fn weakened(self) -> SaturatingCounter {
        if self.strength() > 0 {
            self.with_strength((self.strength() - 1) as u8)
        } else {
            self.with_direction(self.direction().flipped())
        }
    }

    /// The counter after it has seen `outcome`.
    pub open spec fn updated(self, outcome: Outcome) -> SaturatingCounter {
        if self.direction() == outcome {
            self.strengthened()
        } else {
            self.weakened()
        }
    }

    /// The counter as it was built.
    pub open spec fn cleared(self) -> SaturatingCounter {
        self.with_direction(self.config().default_state).with_strength(0)
    }

    /// This counter with another strength.
    pub open spec fn with_strength(self, strength: u8) -> SaturatingCounter {
        SaturatingCounter { ctr: strength, ..self }
    }

    /// This counter with another direction.
    pub open spec fn with_direction(self, dir: Outcome) -> SaturatingCounter {
        SaturatingCounter { state: dir, ..self }
    }

    /// The strength never exceeds the limit of the direction: a counter as
    /// it is built is within its limit; one that is within it stays so when
    /// it is strengthened, weakened or updated; one that is cleared, or
    /// given a strength cut down to its limit, is within it whatever it was
    /// before. A new direction keeps a counter within its limit where the
    /// strength is within the limit of that direction.
    pub proof fn lemma_wf_kept(self, outcome: Outcome, strength: u8)
        ensures
            self.config().built().wf(),
            self.wf() ==> self.strengthened().wf(),
            self.wf() ==> self.weakened().wf(),
            self.wf() ==> self.updated(outcome).wf(),
            self.cleared().wf(),
            strength <= self.limit() ==> self.with_strength(strength).wf(),
            self.with_strength(self.limit()).wf(),
            self.strength() <= self.config().limit(outcome) ==> self.with_direction(outcome).wf(),
            self.with_direction(outcome).with_strength(0).wf(),
            self.updated(outcome).config() == self.config(),
            self.cleared().config() == self.config(),
    {
    }

    /// After an update the counter stands one step nearer to `outcome`:
    /// where it predicted `outcome`, it has gained strength, unless it was
    /// at its limit; where it did not, it has lost strength, or has turned
    /// to `outcome` if it had none left.
    pub proof fn lemma_updated_towards(self, outcome: Outcome)
        requires
            self.wf(),
        ensures
            self.direction() == outcome ==> {
                &&& self.updated(outcome).direction() == outcome
                &&& self.updated(outcome).strength() == if self.strength() < self.limit() {
                    self.strength() + 1
                } else {
                    self.strength() as int
                }
            },
            self.direction() != outcome && self.strength() > 0 ==> {
                &&& self.updated(outcome).direction() == self.direction()
                &&& self.updated(outcome).strength() == self.strength() - 1
            },
            self.direction() != outcome && self.strength() == 0 ==> {
                &&& self.updated(outcome).direction() == outcome
                &&& self.updated(outcome).strength() == 0
            },
    {
    }

    /// Make a counter with the given limits that predicts `default` without
    /// any strength.
    pub fn new(max_t_state: u8, max_n_state: u8, default: Outcome) -> (r: Self)
        ensures
            r == (SaturatingCounterConfig {
                max_t_state,
                max_n_state,
                default_state: default,
            }).built(),
            r.wf(),
    {
        SaturatingCounterConfig { max_t_state, max_n_state, default_state: default }.build()
    }

    fn limit_of(&self) -> (lim: u8)
        ensures
            lim == self.limit(),
    {
        match self.state {
            Outcome::T => self.cfg.max_t_state,
            Outcome::N => self.cfg.max_n_state,
        }
    }

    /// Add one step of confidence, up to the limit of the direction.
    pub fn strengthen(&mut self)
        ensures
            *final(self) == old(self).strengthened(),
            old(self).wf() ==> final(self).wf(),
    {
        let lim = self.limit_of();
        if self.ctr < lim {
            self.ctr = self.ctr + 1;
        } else {
            self.ctr = lim;
        }
    }

    /// Take one step of confidence away; without any left, change the
    /// direction.
    pub fn weaken(&mut self)
        ensures
            *final(self) == old(self).weakened(),
            old(self).wf() ==> final(self).wf(),
    {
        if self.ctr > 0 {
            self.ctr = self.ctr - 1;
        } else {
            self.state = std::ops::Not::not(self.state);
        }
    }

    /// Set the strength of the current prediction.
    pub fn set_strength(&mut self, val: u8)
        ensures
            *final(self) == old(self).with_strength(
                if val <= old(self).limit() {
                    val
                } else {
                    old(self).limit()
                },
            ),
            final(self).wf(),
    {
        let lim = self.limit_of();
        self.ctr = if val <= lim {
            val
        } else {
            lim
        };
    }

    /// Set the current predicted direction.
    pub fn set_direction(&mut self, outcome: Outcome)
        ensures
            *final(self) == old(self).with_direction(outcome),
            old(self).strength() <= old(self).config().limit(outcome) ==> final(self).wf(),
    {
        self.state = outcome;
    }

    /// Reset the counter.
    pub fn reset(&mut self)
        ensures
            *final(self) == old(self).cleared(),
            final(self).direction() == old(self).config().default_state,
            final(self).strength() == 0,
            final(self).wf(),
    {
        self.state = self.cfg.default_state;
        self.ctr = 0;
    }

    /// Return the current predicted direction.
    pub fn predict(&self) -> (r: Outcome)
        ensures
            r == self.direction(),
    {
        self.state
    }

    /// Return the current strength of the prediction.
    pub fn get_strength(&self) -> (r: u8)
        ensures
            r == self.strength(),
    {
        self.ctr
    }

    /// Update the state of the counter.
    pub fn update(&mut self, outcome: Outcome)
        ensures
            *final(self) == old(self).updated(outcome),
            old(self).wf() ==> final(self).wf(),
    {
        let prediction = self.predict();
        if outcome != prediction {
            self.weaken();
        } else {
            self.strengthen();
        }
    }
}

impl StatefulPredictor for SaturatingCounter {
    fn name(&self) -> (r: &'static str)
        ensures
            r@ == "SaturatingCounter"@,
    {
        "SaturatingCounter"
    }

    fn predict(&self) -> (r: Outcome)
        ensures
            r == self.direction(),
    {
        SaturatingCounter::predict(self)
    }

    fn reset(&mut self)
        ensures
            *final(self) == old(self).cleared(),
    {
        SaturatingCounter::reset(self)
    }

    fn update(&mut self, outcome: Outcome)
        ensures
            *final(self) == old(self).updated(outcome),
    {
        SaturatingCounter::update(self, outcome)
    }
}

} // verus!
