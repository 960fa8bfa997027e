//! A tiny xorshift generator, used to pick spawn cells.
use vstd::prelude::*;

verus! {

/// One xorshift step on a 64-bit word.
pub open spec fn xorshift_step(x: u64) -> u64 {
    let x1 = x ^ (x << 13u64);
    let x2 = x1 ^ (x1 >> 7u64);
    x2 ^ (x2 << 17u64)
}

/// A 64-bit xorshift generator; its state is the last value drawn.
pub struct XorShift64 {
    pub a: u64,
}

impl XorShift64 {
    pub fn new(seed: u64) -> (r: XorShift64)
        ensures
            r.a == seed,
    {
        XorShift64 { a: seed }
    }

    /// Advances the state by one step and returns the new state.
    pub fn next(&mut self) -> (r: u64)
        ensures
            r == xorshift_step(old(self).a),
            final(self).a == r,
    {
        let mut x: u64 = self.a;
        x ^= x << 13u64;
        x ^= x >> 7u64;
        x ^= x << 17u64;
        self.a = x;
        x
    }
}

} // verus!
