//! Mutation rates as exact ratios, the number of point mutations a rate asks
//! for, and the schedule that lowers the rate as the search converges.

use crate::fitness::Fitness;
use vstd::arithmetic::div_mod::lemma_fundamental_div_mod;
use vstd::arithmetic::div_mod::lemma_fundamental_div_mod_converse;
use vstd::prelude::*;

verus! {

/// A mutation rate as the ratio `numer / denom`.
#[derive(Clone, Copy, Debug, PartialEq, Eq, Structural)]
pub struct Rate {
    pub numer: u64,
    pub denom: u64,
}

impl Rate {
    /// A rate has a non-zero denominator.
    pub open spec fn wf(self) -> bool {
        self.denom > 0
    }

    /// A rate that the schedule can scale by tenths without leaving `u64`.
    pub open spec fn scalable(self) -> bool {
        &&& self.wf()
        &&& self.numer * 10 <= u64::MAX
        &&& self.denom * 10 <= u64::MAX
    }

    /// A rate that can serve as the base rate of a step: well formed, and
    /// scalable where the schedule is on.
    pub open spec fn usable(self, is_auto: bool) -> bool {
        &&& self.wf()
        &&& is_auto ==> self.scalable()
    }

    /// The rate times `tenths / 10`, numerator and denominator spelled out.
    pub open spec fn scaled(self, tenths: nat) -> Rate {
        Rate { numer: (self.numer * tenths) as u64, denom: (self.denom * 10) as u64 }
    }

    /// Tests `scalable`; `false` also for a zero denominator.
    pub fn is_scalable(&self) -> (r: bool)
        ensures
            r == self.scalable(),
    {
        self.denom > 0 && self.numer <= u64::MAX / 10 && self.denom <= u64::MAX / 10
    }

    /// Tests `usable`.
    pub fn is_usable(&self, is_auto: bool) -> (r: bool)
        ensures
            r == self.usable(is_auto),
    {
        self.denom > 0 && (!is_auto || self.is_scalable())
    }
}

/// `len * rate`, rounded to the nearest integer, halves upwards.
pub open spec fn rounded_share(len: nat, rate: Rate) -> nat {
    ((2 * (len * rate.numer) + rate.denom) / (2 * rate.denom)) as nat
}

/// The number of point mutations that one mutation pass applies to a genome
/// of `len` bytes: `max(1, round(len * rate))`.
pub open spec fn mutation_count(len: nat, rate: Rate) -> nat {
    if rounded_share(len, rate) < 1 {
        1
    } else {
        rounded_share(len, rate)
    }
}

/// Computes [`mutation_count`].
pub fn mutation_count_for(len: usize, rate: Rate) -> (n: u128)
    requires
        rate.wf(),
    ensures
        n == mutation_count(len as nat, rate),
        n >= 1,
{
    let l: u128 = len as u128;
    let num: u128 = rate.numer as u128;
    let d: u128 = rate.denom as u128;
    assert(l * num <= 0xffff_ffff_ffff_ffff * 0xffff_ffff_ffff_ffff) by (nonlinear_arith)
        requires
            l <= 0xffff_ffff_ffff_ffff,
            num <= 0xffff_ffff_ffff_ffff,
    ;
    let x: u128 = l * num;
    let q: u128 = x / d;
    let r: u128 = x % d;
    let up: u128 = if 2 * r >= d { 1 } else { 0 };
    proof {
        let rest: int = 2 * r + d - up * (2 * d);
        lemma_fundamental_div_mod(x as int, d as int);
        assert(2 * x + d == (q + up) * (2 * d) + rest) by (nonlinear_arith)
            requires
                x == d * q + r,
                rest == 2 * r + d - up * (2 * d),
        ;
        lemma_fundamental_div_mod_converse(2 * x + d, 2 * d, (q + up) as int, rest);
    }
    let rounded: u128 = q + up;
    if rounded < 1 {
        1
    } else {
        rounded
    }
}

/// The factor, in tenths, by which the schedule scales the base rate at a
/// given best fitness. The thresholds are exclusive lower bounds and the
/// first that the fitness exceeds decides.
pub open spec fn scale_tenths(fitness: Fitness) -> nat {
    if fitness.exceeds(99) {
        3
    } else if fitness.exceeds(98) {
        5
    } else if fitness.exceeds(97) {
        7
    } else if fitness.exceeds(95) {
        8
    } else if fitness.exceeds(90) {
        9
    } else {
        10
    }
}

/// The rate that a step applies: the base rate itself when the schedule is
/// off or leaves it at ten tenths, else the base rate scaled.
pub open spec fn effective_rate(fitness: Fitness, base_rate: Rate, is_auto: bool) -> Rate {
    if !is_auto || scale_tenths(fitness) == 10 {
        base_rate
    } else {
        base_rate.scaled(scale_tenths(fitness))
    }
}

/// Computes [`scale_tenths`].
pub fn scale_tenths_for(fitness: Fitness) -> (tenths: u64)
    ensures
        tenths == scale_tenths(fitness),
        1 <= tenths <= 10,
{
    if fitness.exceeds_percent(99) {
        3
    } else if fitness.exceeds_percent(98) {
        5
    } else if fitness.exceeds_percent(97) {
        7
    } else if fitness.exceeds_percent(95) {
        8
    } else if fitness.exceeds_percent(90) {
        9
    } else {
        10
    }
}

/// Computes [`effective_rate`].
pub fn calculate_effective_mutation_rate(
    current_fitness: Fitness,
    base_rate: Rate,
    is_auto: bool,
) -> (rate: Rate)
    requires
        base_rate.usable(is_auto),
    ensures
        rate == effective_rate(current_fitness, base_rate, is_auto),
        rate.wf(),
{
    if !is_auto {
        return base_rate;
    }
    let tenths: u64 = scale_tenths_for(current_fitness);
    if tenths == 10 {
        base_rate
    } else {
        assert(base_rate.numer * tenths <= base_rate.numer * 10) by (nonlinear_arith)
            requires
                tenths <= 10,
        ;
        Rate { numer: base_rate.numer * tenths, denom: base_rate.denom * 10 }
    }
}

/// The schedule never raises the rate and never cancels it: the effective
/// rate is at most the base rate and at least three tenths of it.
pub proof fn lemma_effective_rate_bounds(fitness: Fitness, base_rate: Rate, is_auto: bool)
    requires
        base_rate.usable(is_auto),
    ensures
        ({
            let rate = effective_rate(fitness, base_rate, is_auto);
            &&& rate.wf()
            &&& rate.numer * base_rate.denom <= base_rate.numer * rate.denom
            &&& 10 * (rate.numer * base_rate.denom) >= 3 * (base_rate.numer * rate.denom)
        }),
{
    let rate = effective_rate(fitness, base_rate, is_auto);
    let t = scale_tenths(fitness) as int;
    let n = base_rate.numer as int;
    let d = base_rate.denom as int;
    assert(n * d <= n * d && 10 * (n * d) >= 3 * (n * d)) by (nonlinear_arith)
        requires
            0 <= n,
            0 < d,
    ;
    if is_auto && t != 10 {
        assert(n * t <= n * 10) by (nonlinear_arith)
            requires
                0 <= n,
                t <= 10,
        ;
        assert(rate.numer == n * t);
        assert(rate.denom == d * 10);
        assert((n * t) * d <= n * (d * 10) && 10 * ((n * t) * d) >= 3 * (n * (d * 10)))
            by (nonlinear_arith)
            requires
                0 <= n,
                0 < d,
                3 <= t <= 10,
        ;
    }
}

} // verus!
