//! The source of every random choice: a seeded stream of 32-bit draws.
//!
//! A source is a seed and a position in the stream that the seed fixes, so
//! the same seed always yields the same run.

use rand::RngCore;
use rand::SeedableRng;
use rand_pcg::Pcg32;
use vstd::prelude::*;

verus! {

/// The draw at `position` of the PCG32 stream that `seed` fixes.
pub uninterp spec fn pcg32_output(seed: u64, position: u64) -> u32;

/// Runs `rand_pcg`'s `Pcg32`: seeds it with `SeedableRng::seed_from_u64`,
/// jumps ahead with `Pcg32::advance` and takes one `RngCore::next_u32`.
/// The generator is a pure function of its seed, and `advance(n)` stands for
/// `n` draws, so the result depends on the two arguments alone.
#[verifier::external_body]
fn pcg32_at(seed: u64, position: u64) -> (r: u32)
    ensures
        r == pcg32_output(seed, position),
{
    let mut generator = Pcg32::seed_from_u64(seed);
    generator.advance(position);
    generator.next_u32()
}

/// A position in the stream of one seed. The stream has period 2^64, so the
/// position wraps.
#[derive(Clone, Copy, Debug, PartialEq, Eq, Structural)]
pub struct RandomSource {
    pub seed: u64,
    pub position: u64,
}

impl RandomSource {
    /// The draw that comes `k` draws from now.
    pub open spec fn peek(self, k: int) -> u32 {
        pcg32_output(self.seed, ((self.position + k) % 0x1_0000_0000_0000_0000) as u64)
    }

    /// The source after `k` draws.
    pub open spec fn skip(self, k: int) -> RandomSource {
        RandomSource {
            seed: self.seed,
            position: ((self.position + k) % 0x1_0000_0000_0000_0000) as u64,
        }
    }

    /// Skipping is additive, and peeking past a skip peeks further.
    pub proof fn lemma_skip(self, a: int, b: int)
        requires
            a >= 0,
            b >= 0,
        ensures
            self.skip(a).skip(b) == self.skip(a + b),
            self.skip(a).peek(b) == self.peek(a + b),
            self.skip(0) == self,
    {
        let m = 0x1_0000_0000_0000_0000int;
        vstd::arithmetic::div_mod::lemma_add_mod_noop(self.position + a, b, m);
        vstd::arithmetic::div_mod::lemma_small_mod(
            ((self.position + a) % m) as nat,
            m as nat,
        );
        if b < m {
            vstd::arithmetic::div_mod::lemma_small_mod(b as nat, m as nat);
        }
        vstd::arithmetic::div_mod::lemma_mod_twice(self.position + a, m);
        vstd::arithmetic::div_mod::lemma_mod_twice(b, m);
        vstd::arithmetic::div_mod::lemma_add_mod_noop((self.position + a) % m, b, m);
        vstd::arithmetic::div_mod::lemma_small_mod(self.position as nat, m as nat);
    }

    /// The start of the stream of `seed`.
    pub fn new(seed: u64) -> (source: RandomSource)
        ensures
            source == (RandomSource { seed, position: 0 }),
    {
        RandomSource { seed, position: 0 }
    }

    /// Takes the next draw.
    pub fn next_u32(&mut self) -> (r: u32)
        ensures
            r == old(self).peek(0),
            *final(self) == old(self).skip(1),
    {
        let r = pcg32_at(self.seed, self.position);
        self.position = self.position.wrapping_add(1);
        r
    }

    /// Takes the next draw, reduced to `0..n`.
    pub fn below(&mut self, n: u32) -> (r: u32)
        requires
            n > 0,
        ensures
            r == old(self).peek(0) % n,
            r < n,
            *final(self) == old(self).skip(1),
    {
        self.next_u32() % n
    }

    /// Takes the next draw as a coin: its top bit.
    pub fn coin(&mut self) -> (b: bool)
        ensures
            b == coin_of(old(self).peek(0)),
            *final(self) == old(self).skip(1),
    {
        self.next_u32() >= 0x8000_0000
    }
}

/// The coin that a draw shows: heads in the upper half of the range.
pub open spec fn coin_of(draw: u32) -> bool {
    draw >= 0x8000_0000
}

/// The start of the stream of the seed `value`.
pub fn seed(value: u64) -> (source: RandomSource)
    ensures
        source == (RandomSource { seed: value, position: 0 }),
{
    RandomSource::new(value)
}

/// The first draw of the stream of the seed `value`.
pub fn random(value: u64) -> (r: u32)
    ensures
        r == pcg32_output(value, 0),
{
    let mut source = seed(value);
    source.next_u32()
}

} // verus!
