//! A tiny xorshift64* pseudo-random generator.

use vstd::prelude::*;

verus! {

/// The constant mixed into every seed.
pub const SEED_MIX: u64 = 0x9E37_79B9_7F4A_7C15u64;

/// The multiplier of the xorshift64* output step.
pub const OUTPUT_MUL: u64 = 0x2545_F491_4F6C_DD1Du64;

/// One xorshift64 state transition: shift-xor by 13 left, 7 right, 17 left.
pub open spec fn xorshift(x: u64) -> u64 {
    let a = x ^ (x << 13u64);
    let b = a ^ (a >> 7u64);
    b ^ (b << 17u64)
}

/// The output of the generator for a given (already advanced) state: the
/// state multiplied by `OUTPUT_MUL` modulo 2^64.
pub open spec fn scramble(x: u64) -> u64 {
    ((x as nat * OUTPUT_MUL as nat) % 0x1_0000_0000_0000_0000nat) as u64
}

/// Pseudo-random generator; its view is the 64-bit internal state.
pub struct Rng {
    state: u64,
}

impl View for Rng {
    type V = u64;

    closed spec fn view(&self) -> u64 {
        self.state
    }
}

impl Rng {
    /// Seeds the generator with `seed ^ SEED_MIX`.
    pub fn new(seed: u64) -> (r: Rng)
        ensures
            r@ == seed ^ SEED_MIX,
    {
        Rng { state: seed ^ SEED_MIX }
    }

    /// The current internal state.
    pub fn state(&self) -> (s: u64)
        ensures
            s == self@,
    {
        self.state
    }

    /// Advances the state with one xorshift step and returns the scrambled
    /// new state.
    pub fn next_u64(&mut self) -> (v: u64)
        ensures
            final(self)@ == xorshift(old(self)@),
            v == scramble(xorshift(old(self)@)),
    {
        let mut x = self.state;
        x = x ^ (x << 13u64);
        x = x ^ (x >> 7u64);
        x = x ^ (x << 17u64);
        self.state = x;
        x.wrapping_mul(OUTPUT_MUL)
    }

    /// A pseudo-random index below `len` (0 when `len` is 0); the generator
    /// advances only when `len` is not 0.
    pub fn gen_index(&mut self, len: usize) -> (i: usize)
        ensures
            len == 0 ==> i == 0 && final(self)@ == old(self)@,
            len > 0 ==> final(self)@ == xorshift(old(self)@) && i == (scramble(
                xorshift(old(self)@),
            ) as usize) % len,
            len > 0 ==> i < len,
    {
        if len == 0 {
            return 0;
        }
        let v = self.next_u64();
        (v as usize) % len
    }
}

} // verus!
