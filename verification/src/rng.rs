//! A small xorshift pseudo-random generator.
//!
//! The generator is deterministic: the stream is a function of the seed
//! alone. It is meant for laying mines and for nothing that needs
//! unpredictability. Nor may a caller count on the stream to reach every
//! number: from one seed it stands still.

use vstd::prelude::*;

verus! {

/// One step of the generator's transform on its 32-bit state.
pub open spec fn xorshift(x: u32) -> u32 {
    let a = x ^ (x << 13);
    let b = a ^ ((!a) >> 17);
    b ^ (b << 5)
}

/// The state reached from `seed` after `n` draws.
pub open spec fn state_after(seed: u32, n: nat) -> u32
    decreases n,
{
    if n == 0 {
        seed
    } else {
        xorshift(state_after(seed, (n - 1) as nat))
    }
}

/// A state that the transform maps to itself. A generator in this state
/// hands out the same number for ever.
pub const FIXED_STATE: u32 = 0xb047_bfc1;

/// A generator in `FIXED_STATE` never leaves it.
pub proof fn lemma_fixed_state(n: nat)
    ensures
        state_after(FIXED_STATE, n) == FIXED_STATE,
    decreases n,
{
    if n > 0 {
        lemma_fixed_state((n - 1) as nat);
        assert(xorshift(0xb047_bfc1) == 0xb047_bfc1) by (bit_vector);
    }
}

/// The generator. Its view is its current state.
pub struct Random {
    state: u32,
}

impl View for Random {
    type V = u32;

    closed spec fn view(&self) -> u32 {
        self.state
    }
}

impl Random {
    /// A generator whose state is the low 32 bits of `seed`.
    pub fn new_with_seed(seed: u64) -> (r: Random)
        ensures
            r@ == seed % 0x1_0000_0000,
    {
        let low: u64 = seed & 0xffff_ffff;
        assert(low == seed % 0x1_0000_0000) by (bit_vector)
            requires
                low == seed & 0xffff_ffff,
        ;
        Random { state: low as u32 }
    }

    /// Returns the current state and advances the generator by one step.
    pub fn next(&mut self) -> (r: u32)
        ensures
            r == old(self)@,
            final(self)@ == xorshift(old(self)@),
    {
        let before: u32 = self.state;
        let a: u32 = before ^ (before << 13);
        let b: u32 = a ^ ((!a) >> 17);
        self.state = b ^ (b << 5);
        before
    }
}

} // verus!
