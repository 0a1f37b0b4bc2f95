use vstd::prelude::*;

verus! {

/// Multiplier of the 64-bit linear congruential generator.
pub const LCG_MUL: u64 = 6364136223846793005;

/// Increment of the 64-bit linear congruential generator.
pub const LCG_INC: u64 = 1442695040888963407;

/// One step of the generator: `state * LCG_MUL + LCG_INC (mod 2^64)`.
pub open spec fn lcg_step(state: u64) -> u64 {
    ((state as nat * LCG_MUL as nat + LCG_INC as nat) % 0x1_0000_0000_0000_0000nat) as u64
}

/// The value a bounded draw yields from the already advanced state.
pub open spec fn range_of(drawn: u64, min: usize, max: usize) -> int {
    (drawn as nat % (max - min + 1) as nat) + min
}

/// A deterministic pseudo-random stream driven by one 64-bit state word.
pub struct SimpleRNG {
    pub state: u64,
}

impl SimpleRNG {
    pub fn new(seed: u64) -> (r: SimpleRNG)
        ensures
            r.state == seed,
    {
        SimpleRNG { state: seed }
    }

    /// Advances the state by one generator step and returns the new state.
    pub fn next(&mut self) -> (r: u64)
        ensures
            r == lcg_step(old(self).state),
            final(self).state == r,
    {
        proof {
            lemma_wrapping_step(self.state);
        }
        self.state = self.state.wrapping_mul(LCG_MUL).wrapping_add(LCG_INC);
        self.state
    }

    /// Draws a value in `min..=max` from the next generator step.
    pub fn rand_range(&mut self, min: usize, max: usize) -> (r: usize)
        requires
            min <= max,
            max - min < usize::MAX,
        ensures
            final(self).state == lcg_step(old(self).state),
            r == range_of(final(self).state, min, max),
            min <= r <= max,
    {
        let span: u64 = (max - min + 1) as u64;
        let drawn = self.next();
        let k: u64 = drawn % span;
        proof {
            assert(k < span);
            assert(k as int + min <= max);
        }
        k as usize + min
    }
}

proof fn lemma_wrapping_step(s: u64)
    ensures
        vstd::wrapping::u64_specs::wrapping_add(
            vstd::wrapping::u64_specs::wrapping_mul(s, LCG_MUL),
            LCG_INC,
        ) == lcg_step(s),
{
    let m: int = 0x1_0000_0000_0000_0000int;
    let c: int = LCG_INC as int;
    let p: int = s as int * LCG_MUL as int;
    let a: int = p % m;
    vstd::arithmetic::div_mod::lemma_mod_pos_bound(p, m);
    vstd::arithmetic::div_mod::lemma_add_mod_noop(p, c, m);
    vstd::arithmetic::div_mod::lemma_small_mod(c as nat, m as nat);
    assert((a + c) % m == (p + c) % m);
    if a + c < m {
        vstd::arithmetic::div_mod::lemma_small_mod((a + c) as nat, m as nat);
    } else {
        vstd::arithmetic::div_mod::lemma_small_mod((a + c - m) as nat, m as nat);
        vstd::arithmetic::div_mod::lemma_mod_add_multiples_vanish(a + c - m, m);
    }
}

} // verus!
