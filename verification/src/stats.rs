//! The distribution self-test: a streaming moment accumulator over
//! integer die rolls, exact in all tracked moments, and the sampling
//! routine that feeds it.
//!
//! The accumulator keeps the exact power sums of the samples (count,
//! sum, sum of squares, sum of cubes) in O(1) memory; mean, sample
//! variance, standard error of the mean and skewness are all functions
//! of these four numbers, so a caller can derive them without the
//! samples ever being stored.

use vstd::prelude::*;

use crate::request::ValidationError;
use crate::rng::RandomSource;

verus! {

/// Sum of a sample sequence.
pub open spec fn sum_of(s: Seq<int>) -> int
    decreases s.len(),
{
    if s.len() == 0 {
        0
    } else {
        sum_of(s.drop_last()) + s.last()
    }
}

/// Sum of the squares of a sample sequence.
pub open spec fn square_sum_of(s: Seq<int>) -> int
    decreases s.len(),
{
    if s.len() == 0 {
        0
    } else {
        square_sum_of(s.drop_last()) + s.last() * s.last()
    }
}

/// Sum of the cubes of a sample sequence.
pub open spec fn cube_sum_of(s: Seq<int>) -> int
    decreases s.len(),
{
    if s.len() == 0 {
        0
    } else {
        cube_sum_of(s.drop_last()) + s.last() * s.last() * s.last()
    }
}

/// Streaming statistics over a sample stream: the exact first three
/// power sums, updated one sample at a time.
pub struct MomentAccumulator {
    /// How many samples were seen.
    pub count: u64,
    /// Exact sum of the samples.
    pub sum: u64,
    /// Exact sum of the squared samples.
    pub sum_squares: u64,
    /// Exact sum of the cubed samples.
    pub sum_cubes: u64,
    /// The samples themselves, kept only in the proof world.
    pub samples: Ghost<Seq<int>>,
}

/// The summary a finished self-test hands back.
pub type Statistics = MomentAccumulator;

impl MomentAccumulator {
    /// The power sums agree exactly with the ghost sample sequence,
    /// every sample is a die roll (at most 100), and the count leaves
    /// room for one more 32-bit batch.
    pub open spec fn wf(self) -> bool {
        &&& self.count == self.samples@.len()
        &&& self.sum == sum_of(self.samples@)
        &&& self.sum_squares == square_sum_of(self.samples@)
        &&& self.sum_cubes == cube_sum_of(self.samples@)
        &&& forall|i: int| 0 <= i < self.samples@.len() ==> 0 <= #[trigger] self.samples@[i] <= 100
        &&& self.count <= 0x1_0000_0000
    }

    /// A fresh accumulator: nothing seen yet.
    pub fn new() -> (r: MomentAccumulator)
        ensures
            r.wf(),
            r.count == 0,
            r.samples@ == Seq::<int>::empty(),
    {
        MomentAccumulator {
            count: 0,
            sum: 0,
            sum_squares: 0,
            sum_cubes: 0,
            samples: Ghost(Seq::empty()),
        }
    }

    /// Feeds one sample into the accumulator.
    pub fn add(&mut self, x: u16)
        requires
            old(self).wf(),
            old(self).count < 0x1_0000_0000,
            x <= 100,
        ensures
            final(self).wf(),
            final(self).samples@ == old(self).samples@.push(x as int),
            final(self).count == old(self).count + 1,
    {
        proof {
            lemma_power_sum_bounds(self.samples@);
            let pushed = self.samples@.push(x as int);
            assert(pushed.drop_last() =~= self.samples@);
            assert(pushed.last() == x as int);
            let xi = x as int;
            assert(0 <= xi * xi <= 10000 && 0 <= xi * xi * xi <= 1000000) by (nonlinear_arith)
                requires
                    0 <= xi <= 100,
            ;
        }
        let w = x as u64;
        self.count = self.count + 1;
        self.sum = self.sum + w;
        self.sum_squares = self.sum_squares + w * w;
        self.sum_cubes = self.sum_cubes + w * w * w;
        proof {
            self.samples@ = self.samples@.push(x as int);
            assert(forall|i: int|
                0 <= i < self.samples@.len() ==> 0 <= #[trigger] self.samples@[i] <= 100);
        }
    }

    /// The sample mean as an exact fraction: sum over count.
    pub fn mean_fraction(&self) -> (r: (u64, u64))
        requires
            self.wf(),
            self.count >= 1,
        ensures
            r.0 == self.sum,
            r.1 == self.count,
    {
        (self.sum, self.count)
    }

    /// The sample variance as an exact fraction:
    /// `(count * sum_squares - sum^2) / (count * (count - 1))`.
    pub fn variance_fraction(&self) -> (r: (i128, u64))
        requires
            self.wf(),
            self.count >= 2,
        ensures
            r.0 == self.count * self.sum_squares - self.sum * self.sum,
            r.1 == self.count * (self.count - 1),
    {
        proof {
            lemma_power_sum_bounds(self.samples@);
            let c = self.count as int;
            let sq = self.sum_squares as int;
            let sm = self.sum as int;
            assert(c * sq <= 0x1_0000_0000 * (10000 * 0x1_0000_0000)) by (nonlinear_arith)
                requires
                    0 <= c <= 0x1_0000_0000,
                    0 <= sq <= 10000 * 0x1_0000_0000,
            ;
            assert(sm * sm <= (100 * 0x1_0000_0000) * (100 * 0x1_0000_0000)) by (nonlinear_arith)
                requires
                    0 <= sm <= 100 * 0x1_0000_0000,
            ;
            assert(0 <= c * sq) by (nonlinear_arith)
                requires
                    0 <= c && 0 <= sq,
            ;
            assert(0 <= sm * sm) by (nonlinear_arith)
                requires
                    0 <= sm,
            ;
            assert(c * (c - 1) <= 0x1_0000_0000 * (0x1_0000_0000 - 1)) by (nonlinear_arith)
                requires
                    2 <= c <= 0x1_0000_0000,
            ;
            assert(0 <= c * (c - 1)) by (nonlinear_arith)
                requires
                    2 <= c,
            ;
        }
        let num: i128 = self.count as i128 * self.sum_squares as i128
            - self.sum as i128 * self.sum as i128;
        let den: u64 = self.count * (self.count - 1);
        (num, den)
    }
}

/// Power sums of die rolls are bounded by the sample count times the
/// largest roll's power.
pub proof fn lemma_power_sum_bounds(s: Seq<int>)
    requires
        forall|i: int| 0 <= i < s.len() ==> 0 <= #[trigger] s[i] <= 100,
    ensures
        0 <= sum_of(s) <= 100 * s.len(),
        0 <= square_sum_of(s) <= 10000 * s.len(),
        0 <= cube_sum_of(s) <= 1000000 * s.len(),
    decreases s.len(),
{
    if s.len() > 0 {
        assert(forall|i: int|
            0 <= i < s.len() - 1 ==> #[trigger] s.drop_last()[i] == s[i]);
        lemma_power_sum_bounds(s.drop_last());
        let x = s.last();
        assert(x * x <= 10000 && 0 <= x * x) by (nonlinear_arith)
            requires
                0 <= x <= 100,
        ;
        assert(x * x * x <= 1000000 && 0 <= x * x * x) by (nonlinear_arith)
            requires
                0 <= x <= 100,
        ;
    }
}

/// The die sizes the self-test supports.
pub open spec fn is_supported_die(faces: int) -> bool {
    ||| faces == 2
    ||| faces == 3
    ||| faces == 4
    ||| faces == 5
    ||| faces == 6
    ||| faces == 7
    ||| faces == 8
    ||| faces == 10
    ||| faces == 12
    ||| faces == 14
    ||| faces == 16
    ||| faces == 20
    ||| faces == 24
    ||| faces == 30
    ||| faces == 100
}

/// Whether a die size is on the self-test allow-list.
pub fn supported_die(faces: u32) -> (b: bool)
    ensures
        b == is_supported_die(faces as int),
{
    match faces {
        2 | 3 | 4 | 5 | 6 | 7 | 8 | 10 | 12 | 14 | 16 | 20 | 24 | 30 | 100 => true,
        _ => false,
    }
}

/// Draws `sample_count` rolls of a `faces`-sided die from `rng` and
/// accumulates their exact moments; fails if and only if the die size
/// is not on the allow-list.
pub fn self_test<R: RandomSource>(sample_count: u32, faces: u32, rng: &mut R) -> (r: Result<
    Statistics,
    ValidationError,
>)
    ensures
        match r {
            Ok(stats) => {
                &&& is_supported_die(faces as int)
                &&& stats.wf()
                &&& stats.count == sample_count
                &&& stats.samples@.len() == sample_count
                &&& forall|i: int|
                    0 <= i < stats.samples@.len() ==> 1 <= #[trigger] stats.samples@[i] <= faces
            },
            Err(e) => {
                &&& !is_supported_die(faces as int)
                &&& e == ValidationError::UnsupportedDieType
            },
        },
{
    if !supported_die(faces) {
        return Err(ValidationError::UnsupportedDieType);
    }
    let faces16: u16 = faces as u16;
    let mut stats = MomentAccumulator::new();
    let mut i: u32 = 0;
    #[verifier::loop_isolation(false)]
    while i < sample_count
        invariant
            i <= sample_count,
            stats.wf(),
            stats.count == i,
            stats.samples@.len() == i,
            forall|k: int|
                0 <= k < stats.samples@.len() ==> 1 <= #[trigger] stats.samples@[k] <= faces,
        decreases sample_count - i,
    {
        let die = rng.sample(1, faces16);
        stats.add(die);
        i = i + 1;
    }
    Ok(stats)
}

} // verus!
