//! The fitness metric: one minus the mean squared byte difference, as a share
//! of the largest possible one, kept as an exact fraction.

use vstd::prelude::*;

verus! {

/// The largest squared difference between two bytes, `255 * 255`.
pub const MAX_SQUARED_DIFF: u128 = 65025;

/// The squared difference of two bytes.
pub open spec fn squared_diff(a: u8, b: u8) -> nat {
    ((a as int - b as int) * (a as int - b as int)) as nat
}

/// The sum of the squared byte differences between `genome` and the prefix of
/// `target` of the same length.
pub open spec fn squared_error(genome: Seq<u8>, target: Seq<u8>) -> nat
    decreases genome.len(),
{
    if genome.len() == 0 {
        0
    } else {
        squared_error(genome.drop_last(), target) + squared_diff(
            genome.last(),
            target[genome.len() - 1],
        )
    }
}

/// The score of a perfect match of `len` bytes: the denominator of every
/// fitness of a genome of that length.
pub open spec fn full_score(len: nat) -> nat {
    65025 * len
}

/// The numerator of the fitness of `genome` against `target`, over
/// `full_score(genome.len())`: the fitness is
/// `1 - (squared_error / len) / 255^2`.
pub open spec fn fitness_score(genome: Seq<u8>, target: Seq<u8>) -> nat {
    (full_score(genome.len()) - squared_error(genome, target)) as nat
}

/// A fitness as the fraction `score / scale`.
///
/// A fitness computed by the metric has `score <= scale`. That of an empty
/// genome is `0 / 0`: it is undefined and exceeds no threshold.
#[derive(Clone, Copy, Debug, PartialEq, Eq, Structural)]
pub struct Fitness {
    pub score: u128,
    pub scale: u128,
}

impl Fitness {
    /// Whether the fraction is strictly greater than `percent / 100`.
    pub open spec fn exceeds(self, percent: nat) -> bool {
        100 * self.score > percent * self.scale
    }

    /// Tests `self > percent / 100` without overflow.
    pub fn exceeds_percent(&self, percent: u8) -> (r: bool)
        requires
            percent <= 100,
        ensures
            r == self.exceeds(percent as nat),
    {
        let q: u128 = self.scale / 100;
        let rem: u128 = self.scale % 100;
        let p: u128 = percent as u128;
        assert(p * q <= self.scale) by (nonlinear_arith)
            requires
                p <= 100,
                q == self.scale / 100,
        ;
        assert(p * rem <= 10000) by (nonlinear_arith)
            requires
                p <= 100,
                rem < 100,
        ;
        let low: u128 = (p * rem) / 100;
        proof {
            assert(p * self.scale == 100 * (p * q) + p * rem) by (nonlinear_arith)
                requires
                    self.scale == 100 * q + rem,
            ;
            assert(p * self.scale <= 100 * self.scale) by (nonlinear_arith)
                requires
                    p <= 100,
            ;
            assert(p * rem == 100 * low + (p * rem) % 100);
        }
        let threshold: u128 = p * q + low;
        self.score > threshold
    }
}

/// Every squared error is at most the full score of its length.
pub proof fn lemma_squared_error_bound(genome: Seq<u8>, target: Seq<u8>)
    requires
        genome.len() <= target.len(),
    ensures
        squared_error(genome, target) <= full_score(genome.len()),
    decreases genome.len(),
{
    if genome.len() > 0 {
        lemma_squared_error_bound(genome.drop_last(), target);
        let a = genome.last() as int;
        let b = target[genome.len() - 1] as int;
        assert(0 <= (a - b) * (a - b) <= 65025) by (nonlinear_arith)
            requires
                0 <= a <= 255,
                0 <= b <= 255,
        ;
    }
}

/// A genome compared with itself has no error, so its fitness is exactly one:
/// the score equals the full score.
pub proof fn lemma_identical_genomes_score_full(genome: Seq<u8>)
    ensures
        squared_error(genome, genome) == 0,
        fitness_score(genome, genome) == full_score(genome.len()),
    decreases genome.len(),
{
    if genome.len() > 0 {
        lemma_identical_genomes_score_full(genome.drop_last());
        lemma_squared_error_prefix(genome.drop_last(), genome.drop_last(), genome);
    }
}

/// The squared error reads the target only where the genome has a byte.
pub proof fn lemma_squared_error_prefix(genome: Seq<u8>, t1: Seq<u8>, t2: Seq<u8>)
    requires
        genome.len() <= t1.len(),
        genome.len() <= t2.len(),
        forall|i: int| 0 <= i < genome.len() ==> t1[i] == t2[i],
    ensures
        squared_error(genome, t1) == squared_error(genome, t2),
    decreases genome.len(),
{
    if genome.len() > 0 {
        lemma_squared_error_prefix(genome.drop_last(), t1, t2);
    }
}

/// The fitness of any genome against a target of its length lies in `[0, 1]`:
/// the score is at most the full score (and, being a natural number, at
/// least zero), and score and squared error add up to the full score.
pub proof fn lemma_fitness_in_unit_interval(genome: Seq<u8>, target: Seq<u8>)
    requires
        genome.len() == target.len(),
    ensures
        fitness_score(genome, target) <= full_score(genome.len()),
        fitness_score(genome, target) + squared_error(genome, target) == full_score(
            genome.len(),
        ),
{
    lemma_squared_error_bound(genome, target);
}

/// Fitness strictly decreases as the mean squared error increases.
///
/// The mean squared error of `a` is `squared_error(a, ta) / a.len()`, its
/// fitness `fitness_score(a, ta) / full_score(a.len())`; both comparisons are
/// written cross-multiplied, so the genomes may differ in length.
pub proof fn lemma_fitness_strictly_decreasing(
    a: Seq<u8>,
    ta: Seq<u8>,
    b: Seq<u8>,
    tb: Seq<u8>,
)
    requires
        a.len() == ta.len(),
        b.len() == tb.len(),
        a.len() > 0,
        b.len() > 0,
        squared_error(a, ta) * b.len() < squared_error(b, tb) * a.len(),
    ensures
        fitness_score(a, ta) * full_score(b.len()) > fitness_score(b, tb) * full_score(a.len()),
{
    lemma_fitness_in_unit_interval(a, ta);
    lemma_fitness_in_unit_interval(b, tb);
    let ea = squared_error(a, ta) as int;
    let eb = squared_error(b, tb) as int;
    let la = a.len() as int;
    let lb = b.len() as int;
    assert((65025 * la - ea) * (65025 * lb) > (65025 * lb - eb) * (65025 * la))
        by (nonlinear_arith)
        requires
            ea * lb < eb * la,
    ;
}

} // verus!
