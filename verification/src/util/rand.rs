use vstd::prelude::*;

verus! {

/// The state that follows `cur` in the linear congruential generator.
pub open spec fn lcg_next(cur: u32) -> u32 {
    ((cur * 214013 + 2531011) % 0x1_0000_0000) as u32
}

/// The number drawn from the state `next`: bits 16 to 30 of it.
pub open spec fn lcg_output(next: u32) -> u32 {
    ((next / 0x1_0000) % 0x8000) as u32
}

/// The state of the pseudo-random number generator.
pub struct Rng {
    next: u32,
}

impl View for Rng {
    type V = u32;

    closed spec fn view(&self) -> u32 {
        self.next
    }
}

impl Rng {
    /// A generator in its initial state, as if seeded with 1.
    pub fn new() -> (r: Rng)
        ensures
            r@ == 1,
    {
        Rng { next: 1 }
    }
}

/// The state that follows `cur`.
pub fn next_state(cur: u32) -> (n: u32)
    ensures
        n == lcg_next(cur),
{
    cur.wrapping_mul(214013).wrapping_add(2531011)
}

/// The number drawn from the state `next`.
pub fn output(next: u32) -> (r: u32)
    ensures
        r == lcg_output(next),
        r < 0x8000,
{
    let r = (next >> 16u32) & 0x7fff;
    assert(r == (next / 0x1_0000) % 0x8000) by (bit_vector)
        requires
            r == (next >> 16u32) & 0x7fff,
    ;
    r
}

/// Advances the generator and draws a number below 0x8000.
pub fn rand(rng: &mut Rng) -> (r: u32)
    ensures
        final(rng)@ == lcg_next(old(rng)@),
        r == lcg_output(final(rng)@),
        r < 0x8000,
{
    let next = next_state(rng.next);
    rng.next = next;
    output(next)
}

/// Restarts the generator from `seed`.
pub fn srand(rng: &mut Rng, seed: u32)
    ensures
        final(rng)@ == seed,
{
    rng.next = seed;
}

} // verus!
