//! Randomness that replays.

use vstd::prelude::*;

verus! {

/// What a zero seed is replaced with: a zero state would never leave zero.
pub const ZERO_SEED: u64 = 0x2545_f491_4f6c_dd1d;

/// What tells the content generator apart from the links' one.
pub const CONTENT_STREAM: u64 = 0x9e37_79b9_7f4a_7c15;

/// How many different values [`SeededRng::unit`] has.
pub const UNITS: u32 = 16_777_216;

/// How likely something is: it happens on this many draws out of [`UNITS`].
///
/// A probability `p` in `0.0..=1.0` is `p` times [`UNITS`], rounded up: a draw is below that
/// number exactly when the draw divided by [`UNITS`] is below `p`.
#[derive(Debug, Clone, Copy, PartialEq, Eq)]
pub struct Probability(pub u32);

/// Seeded xorshift, so a run replays: the tool exists to reproduce bugs, not to find fresh ones
/// every time it runs.
///
/// Also handed to tests for the content they send, so that a scripted "random" drawing or a
/// random walk is as reproducible as the link it crosses.
#[derive(Debug, Clone, Copy, PartialEq, Eq)]
pub struct SeededRng(pub u64);

/// The state that follows `state`, which is also what is drawn.
pub open spec fn xorshift(state: u64) -> u64 {
    let first = state ^ (state << 13);
    let second = first ^ (first >> 7);
    second ^ (second << 17)
}

/// The seed of the content's generator, in a network that is given `seed`.
///
/// The content's stream is a different one from the links', so drawing test content does not
/// perturb which packets a link drops.
pub open spec fn content_seed(seed: u64) -> u64 {
    ((seed << 32) | (seed >> 32)) ^ CONTENT_STREAM
}

impl SeededRng {
    /// The generator a seed starts.
    pub open spec fn seeded(seed: u64) -> SeededRng {
        SeededRng(
            if seed == 0 {
                ZERO_SEED
            } else {
                seed
            },
        )
    }

    /// The generator once a number was drawn. Its state is that number.
    pub open spec fn after(self) -> SeededRng {
        SeededRng(xorshift(self.0))
    }

    /// The next number in `0..UNITS`.
    pub open spec fn next_unit(self) -> u32 {
        (self.after().0 >> 40) as u32
    }

    /// Whether something as likely as `probability` happens on the next draw.
    pub open spec fn next_happens(self, probability: Probability) -> bool {
        self.next_unit() < probability.0
    }

    /// The next number in `0..bound`; zero, without a draw, when `bound` is zero.
    pub open spec fn next_below(self, bound: u64) -> u64 {
        if bound == 0 {
            0
        } else {
            self.after().0 % bound
        }
    }

    /// The generator once [`SeededRng::below`] was asked for a number.
    pub open spec fn after_below(self, bound: u64) -> SeededRng {
        if bound == 0 {
            self
        } else {
            self.after()
        }
    }

    /// A generator that produces the same sequence for the same `seed`. Zero is replaced, because
    /// a zero state never leaves zero.
    pub fn new(seed: u64) -> (rng: Self)
        ensures
            rng == SeededRng::seeded(seed),
            rng.0 != 0,
    {
        if seed == 0 {
            SeededRng(ZERO_SEED)
        } else {
            SeededRng(seed)
        }
    }

    /// The next number.
    pub fn next_u64(&mut self) -> (drawn: u64)
        ensures
            *final(self) == old(self).after(),
            drawn == old(self).after().0,
    {
        let mut state: u64 = self.0;
        state = state ^ (state << 13);
        state = state ^ (state >> 7);
        state = state ^ (state << 17);
        self.0 = state;
        state
    }

    /// Uniform in `0..UNITS`: a number in `[0, 1)`, times [`UNITS`].
    pub fn unit(&mut self) -> (drawn: u32)
        ensures
            *final(self) == old(self).after(),
            drawn == old(self).next_unit(),
            drawn < UNITS,
    {
        let drawn: u64 = self.next_u64();
        assert(drawn >> 40 < 16_777_216) by (bit_vector);
        (drawn >> 40) as u32
    }

    /// Whether something as likely as `probability` happens.
    pub fn happens(&mut self, probability: Probability) -> (happened: bool)
        ensures
            *final(self) == old(self).after(),
            happened == old(self).next_happens(probability),
    {
        self.unit() < probability.0
    }

    /// Uniform in `0..bound`; `0` when `bound` is `0`.
    pub fn below(&mut self, bound: u64) -> (drawn: u64)
        ensures
            *final(self) == old(self).after_below(bound),
            drawn == old(self).next_below(bound),
            bound > 0 ==> drawn < bound,
    {
        if bound == 0 {
            0
        } else {
            self.next_u64() % bound
        }
    }
}

/// A generator never gets stuck at zero.
pub proof fn law_state_never_becomes_zero(rng: SeededRng)
    requires
        rng.0 != 0,
    ensures
        rng.after().0 != 0,
{
    let state = rng.0;
    let first = state ^ (state << 13);
    let second = first ^ (first >> 7);
    assert(state != 0 ==> state ^ (state << 13) != 0) by (bit_vector);
    assert(first != 0 ==> first ^ (first >> 7) != 0) by (bit_vector);
    assert(second != 0 ==> second ^ (second << 17) != 0) by (bit_vector);
}

/// What is certain happens on every draw, and what is impossible on none.
pub proof fn law_certain_and_impossible(rng: SeededRng)
    ensures
        rng.next_happens(Probability(UNITS)),
        !rng.next_happens(Probability(0)),
{
    let drawn = rng.after().0;
    assert(drawn >> 40 < 16_777_216) by (bit_vector);
}

} // verus!
