use vstd::prelude::*;

verus! {

/// One step of the xorshift state update.
pub open spec fn xorshift(s: u64) -> u64 {
    let a = s ^ (s >> 12u64);
    let b = a ^ (a << 25u64);
    b ^ (b >> 27u64)
}

/// The generator's state after `n` steps from `seed`.
pub open spec fn prng_state(seed: u64, n: nat) -> u64
    decreases n,
{
    if n == 0 {
        seed
    } else {
        xorshift(prng_state(seed, (n - 1) as nat))
    }
}

/// The `n`-th output (counting from 1) of the generator seeded with `seed`.
pub open spec fn prng_output(seed: u64, n: nat) -> u64 {
    prng_state(seed, n).wrapping_mul(2685821657736338717u64)
}

/// A xorshift64* pseudo-random generator: a fixed seed gives a fixed stream.
pub struct Prng {
    s: u64,
}

impl Prng {
    pub closed spec fn state(&self) -> u64 {
        self.s
    }

    pub fn new(seed: u64) -> (r: Prng)
        requires
            seed != 0,
        ensures
            r.state() == seed,
    {
        Prng { s: seed }
    }

    /// Advances the state one step and returns the scrambled new state.
    pub fn rand64(&mut self) -> (r: u64)
        ensures
            final(self).state() == xorshift(old(self).state()),
            r == xorshift(old(self).state()).wrapping_mul(2685821657736338717u64),
    {
        self.s = self.s ^ (self.s >> 12u64);
        self.s = self.s ^ (self.s << 25u64);
        self.s = self.s ^ (self.s >> 27u64);
        self.s.wrapping_mul(2685821657736338717u64)
    }

    /// The next output of the stream.
    pub fn rand(&mut self) -> (r: u64)
        ensures
            final(self).state() == xorshift(old(self).state()),
            r == xorshift(old(self).state()).wrapping_mul(2685821657736338717u64),
    {
        self.rand64()
    }

    /// The AND of the next three outputs: a number with few bits set.
    pub fn sparse_rand(&mut self) -> (r: u64)
        ensures
            final(self).state() == xorshift(xorshift(xorshift(old(self).state()))),
            r == xorshift(old(self).state()).wrapping_mul(2685821657736338717u64)
                & xorshift(xorshift(old(self).state())).wrapping_mul(2685821657736338717u64)
                & xorshift(xorshift(xorshift(old(self).state()))).wrapping_mul(
                2685821657736338717u64,
            ),
    {
        let a = self.rand64();
        let b = self.rand64();
        let c = self.rand64();
        a & b & c
    }
}

} // verus!
