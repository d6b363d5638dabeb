//! The injected random source: an abstraction over "draw one integer
//! uniformly from an inclusive range", with an OS-entropy-backed
//! implementation for production and a deterministic one for tests.

use vstd::prelude::*;

use rand::distributions::{Distribution, Uniform};
use rand::rngs::StdRng;
use rand::SeedableRng;

verus! {

/// A capability to draw uniform integers; injected into the evaluator
/// and the self-test so that a deterministic source can be substituted.
pub trait RandomSource {
    /// Draws one integer from the inclusive range `[lo, hi]`; a fair
    /// source draws it uniformly, but only the range is promised.
    fn sample(&mut self, lo: u16, hi: u16) -> (r: u16)
        requires
            lo <= hi,
        ensures
            lo <= r <= hi,
    ;
}

#[verifier::external_type_specification]
#[verifier::external_body]
pub struct ExStdRng(StdRng);

/// A random source backed by the standard generator, freshly seeded
/// from the operating system's entropy source.
pub struct EntropyRandomSource {
    rng: StdRng,
}

impl EntropyRandomSource {
    /// Relies on rand's `StdRng::from_entropy`: a generator seeded from
    /// OS entropy (it aborts only if the OS entropy source itself fails).
    #[verifier::external_body]
    pub fn from_entropy() -> (r: EntropyRandomSource) {
        EntropyRandomSource { rng: StdRng::from_entropy() }
    }
}

/// Relies on rand's `Uniform::from(lo..=hi)` and
/// `Distribution::sample`: a uniform draw that always lies within the
/// requested inclusive range, which must be non-empty.
#[verifier::external_body]
fn sample_uniform(rng: &mut StdRng, lo: u16, hi: u16) -> (r: u16)
    requires
        lo <= hi,
    ensures
        lo <= r <= hi,
{
    Uniform::from(lo..=hi).sample(rng)
}

impl RandomSource for EntropyRandomSource {
    fn sample(&mut self, lo: u16, hi: u16) -> (r: u16) {
        sample_uniform(&mut self.rng, lo, hi)
    }
}

/// A deterministic random source for tests: replays a fixed list of
/// values in a cycle, clamping each into the requested range.
pub struct FixedRandomSource {
    /// The values replayed in order, then again from the start.
    pub values: Vec<u16>,
    /// Index of the next value to hand out.
    pub next: usize,
}

impl FixedRandomSource {
    /// A source that replays `values`; an empty list always yields the
    /// low end of the range.
    pub fn new(values: Vec<u16>) -> (r: FixedRandomSource)
        ensures
            r.values == values,
            r.next == 0,
    {
        FixedRandomSource { values, next: 0 }
    }
}

impl RandomSource for FixedRandomSource {
    fn sample(&mut self, lo: u16, hi: u16) -> (r: u16) {
        if self.values.len() == 0 {
            return lo;
        }
        let i = if self.next >= self.values.len() {
            0
        } else {
            self.next
        };
        let v = self.values[i];
        self.next = i + 1;
        if v < lo {
            lo
        } else if v > hi {
            hi
        } else {
            v
        }
    }
}

} // verus!
