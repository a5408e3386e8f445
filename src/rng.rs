use vstd::prelude::*;

verus! {

/// Multiplier of the 64-bit linear congruential generator.
pub const LCG_MUL: u64 = 6364136223846793005;

/// Increment of the 64-bit linear congruential generator.
pub const LCG_INC: u64 = 1442695040888963407;

/// Seed that every network is built with.
pub const DEFAULT_SEED: u64 = 9999;

/// One step of the generator, modulo 2^64.
pub open spec fn lcg_next(s: u64) -> u64 {
    vstd::wrapping::u64_specs::wrapping_add(
        vstd::wrapping::u64_specs::wrapping_mul(s, LCG_MUL),
        LCG_INC,
    )
}

/// The state after `n` draws from `seed`.
pub open spec fn lcg_state(seed: u64, n: nat) -> u64
    decreases n,
{
    if n == 0 {
        seed
    } else {
        lcg_next(lcg_state(seed, (n - 1) as nat))
    }
}

/// The draw that leaves the generator in state `s`: its top 53 bits.
pub open spec fn draw_of(s: u64) -> u64 {
    s >> 11u64
}

/// The `n`-th draw (counting from 0) of a generator seeded with `seed`.
pub open spec fn lcg_draw(seed: u64, n: nat) -> u64 {
    draw_of(lcg_state(seed, n + 1))
}

/// A seeded pseudo-random source. Its whole future is fixed by `state`.
pub struct Lcg {
    pub state: u64,
}

impl Lcg {
    pub fn new(seed: u64) -> (r: Lcg)
        ensures
            r.state == seed,
    {
        Lcg { state: seed }
    }

    /// Advances the generator once and returns 53 uniform bits.
    pub fn next_bits(&mut self) -> (r: u64)
        ensures
            final(self).state == lcg_next(old(self).state),
            r == draw_of(final(self).state),
            r < 0x20_0000_0000_0000,
    {
        let s = self.state.wrapping_mul(LCG_MUL).wrapping_add(LCG_INC);
        self.state = s;
        let r = s >> 11u64;
        assert(r < 0x20_0000_0000_0000) by (bit_vector)
            requires r == s >> 11u64;
        r
    }
}

} // verus!
