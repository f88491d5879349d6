//! A tiny xorshift32 generator: the same seed always yields the same stream.
use vstd::prelude::*;

verus! {

/// The state used in place of a zero seed (xorshift never leaves zero).
pub const ZERO_SEED_REPLACEMENT: u32 = 0x9E37_79B9;

/// One xorshift32 step on a state.
pub open spec fn xorshift32(s: u32) -> u32 {
    let a = s ^ (s << 13u32);
    let b = a ^ (a >> 17u32);
    b ^ (b << 5u32)
}

/// The state a generator seeded with `seed` starts from.
pub open spec fn initial_state(seed: u32) -> u32 {
    if seed == 0 { ZERO_SEED_REPLACEMENT } else { seed }
}

pub struct Rng {
    state: u32,
}

impl Rng {
    /// The current state of the generator.
    pub closed spec fn state(&self) -> u32 {
        self.state
    }

    #[verifier::type_invariant]
    closed spec fn wf(self) -> bool {
        self.state != 0
    }

    /// Seeds a generator; a zero seed is replaced by a fixed odd constant.
    pub fn new(seed: u32) -> (r: Rng)
        ensures
            r.state() == initial_state(seed),
            r.state() != 0,
            seed != 0 ==> r.state() == seed,
            seed == 0 ==> r.state() == 0x9E37_79B9u32,
    {
        Rng { state: if seed == 0 { ZERO_SEED_REPLACEMENT } else { seed } }
    }

    /// Advances the generator one xorshift32 step and returns the new state.
    pub fn next_u32(&mut self) -> (x: u32)
        ensures
            x == xorshift32(old(self).state()),
            final(self).state() == x,
            x != 0,
            ({
                let a = old(self).state() ^ (old(self).state() << 13u32);
                let b = a ^ (a >> 17u32);
                x == b ^ (b << 5u32)
            }),
    {
        proof {
            use_type_invariant(&*self);
            lemma_xorshift32_nonzero(self.state);
        }
        let mut x = self.state;
        x ^= x << 13u32;
        x ^= x >> 17u32;
        x ^= x << 5u32;
        self.state = x;
        x
    }

    /// The top 24 bits of the next output: the numerator of a fraction in [0, 1)
    /// with denominator 2^24.
    pub fn next_u24(&mut self) -> (v: u32)
        ensures
            v == xorshift32(old(self).state()) >> 8u32,
            final(self).state() == xorshift32(old(self).state()),
            v < 0x100_0000,
    {
        let x = self.next_u32();
        assert((x >> 8u32) < 0x100_0000u32) by (bit_vector);
        x >> 8u32
    }
}

/// A nonzero seed is the starting state itself, so distinct nonzero seeds
/// start distinct streams; the zero seed starts from 0x9E37_79B9.
pub proof fn lemma_seed_starts_the_stream(seed: u32, other: u32)
    ensures
        seed != 0 ==> initial_state(seed) == seed,
        initial_state(0) == 0x9E37_79B9u32,
        seed != 0 && other != 0 && seed != other ==> initial_state(seed) != initial_state(other),
{
}

/// A nonzero state never steps to zero, so the generator never gets stuck.
pub proof fn lemma_xorshift32_nonzero(s: u32)
    requires
        s != 0,
    ensures
        xorshift32(s) != 0,
{
    let a = s ^ (s << 13u32);
    let b = a ^ (a >> 17u32);
    assert(s != 0 ==> (s ^ (s << 13u32)) != 0) by (bit_vector);
    assert(a != 0 ==> (a ^ (a >> 17u32)) != 0) by (bit_vector);
    assert(b != 0 ==> (b ^ (b << 5u32)) != 0) by (bit_vector);
}

} // verus!
