//! Deterministic platform RNG (SplitMix64): same seed, same stream, on any
//! machine. Workers and cases derive independent sub-streams.
use vstd::prelude::*;
use vstd::wrapping::u64_specs::{wrapping_add, wrapping_mul};

verus! {

/// Golden-ratio increment of SplitMix64.
pub const GAMMA: u64 = 0x9E3779B97F4A7C15;

/// First and second multipliers of the SplitMix64 output mix.
pub const MIX1: u64 = 0xBF58476D1CE4E5B9;
pub const MIX2: u64 = 0x94D049BB133111EB;

/// SplitMix64 output function applied to an advanced state.
pub open spec fn mix(z: u64) -> u64 {
    let a = wrapping_mul(z ^ (z >> 30u64), MIX1);
    let b = wrapping_mul(a ^ (a >> 27u64), MIX2);
    b ^ (b >> 31u64)
}

/// State after one step.
pub open spec fn advance(s: u64) -> u64 {
    wrapping_add(s, GAMMA)
}

/// `[0, bound)` draw from state `s` (0 when `bound == 0`); the state always
/// advances once unless `bound == 0`.
pub open spec fn below_value(s: u64, bound: u64) -> u64 {
    if bound == 0 { 0 } else { mix(advance(s)) % bound }
}

pub open spec fn below_state(s: u64, bound: u64) -> u64 {
    if bound == 0 { s } else { advance(s) }
}

#[derive(Debug, Clone, Copy)]
pub struct Rng(u64);

impl Rng {
    /// Current internal state (the whole generator).
    pub closed spec fn state(&self) -> u64 {
        self.0
    }

    pub fn new(seed: u64) -> (r: Rng)
        ensures
            r.state() == advance(seed),
    {
        Rng(seed.wrapping_add(GAMMA))
    }

    pub fn next_u64(&mut self) -> (r: u64)
        ensures
            final(self).state() == advance(old(self).state()),
            r == mix(final(self).state()),
    {
        let mut z = self.0.wrapping_add(GAMMA);
        self.0 = z;
        z = (z ^ (z >> 30u64)).wrapping_mul(MIX1);
        z = (z ^ (z >> 27u64)).wrapping_mul(MIX2);
        z ^ (z >> 31u64)
    }

    /// `[0, bound)`; `bound == 0` gives 0 without consuming the stream.
    pub fn below(&mut self, bound: u64) -> (r: u64)
        ensures
            r == below_value(old(self).state(), bound),
            final(self).state() == below_state(old(self).state(), bound),
            bound > 0 ==> r < bound,
            bound == 0 ==> r == 0,
    {
        if bound == 0 {
            return 0;
        }
        self.next_u64() % bound
    }

    pub fn below_usize(&mut self, bound: usize) -> (r: usize)
        ensures
            r as u64 == below_value(old(self).state(), bound as u64),
            final(self).state() == below_state(old(self).state(), bound as u64),
            bound > 0 ==> r < bound,
            bound == 0 ==> r == 0,
    {
        self.below(bound as u64) as usize
    }

    /// Picks an element (its index is a `below_usize(len)` draw).
    pub fn pick<'a, T>(&mut self, xs: &'a [T]) -> (r: Option<&'a T>)
        ensures
            xs@.len() == 0 ==> r.is_none() && final(self).state() == old(self).state(),
            xs@.len() > 0 ==> {
                let i = below_value(old(self).state(), xs@.len() as u64) as int;
                &&& r == Some(&xs@[i])
                &&& 0 <= i < xs@.len()
                &&& final(self).state() == advance(old(self).state())
            },
    {
        if xs.len() == 0 {
            return None;
        }
        let i = self.below_usize(xs.len());
        Some(&xs[i])
    }

    /// `true` with probability `num/den`.
    pub fn biased(&mut self, num: u64, den: u64) -> (r: bool)
        ensures
            r == (den > 0 && below_value(old(self).state(), den) < num),
            final(self).state() == below_state(old(self).state(), den),
    {
        den > 0 && self.below(den) < num
    }

    /// Independent stream for a worker or case.
    pub fn derive(&self, salt: u64) -> (r: Rng)
        ensures
            r.state() == self.state() ^ wrapping_mul(salt, GAMMA),
    {
        Rng(self.0 ^ salt.wrapping_mul(GAMMA))
    }
}

} // verus!
