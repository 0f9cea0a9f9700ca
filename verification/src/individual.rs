//! One candidate: a byte genome and its cached fitness score.

use crate::fitness::fitness_score;
use crate::fitness::full_score;
use crate::fitness::lemma_squared_error_bound;
use crate::fitness::squared_error;
use crate::random::random_in;
use crate::random::random_ratio;
use crate::rate::mutation_count;
use crate::rate::mutation_count_for;
use crate::rate::Rate;
use vstd::prelude::*;

verus! {

/// The widest fine perturbation: a fine draw lies in `[-5, 5]`.
pub const FINE_SPREAD: i16 = 5;

/// The widest coarse perturbation: a coarse draw lies in `[-30, 30]`.
pub const COARSE_SPREAD: i16 = 30;

/// Out of `DRAWS` perturbations, `FINE_DRAWS` are fine on average.
pub const FINE_DRAWS: u32 = 9;

/// See [`FINE_DRAWS`].
pub const DRAWS: u32 = 10;

/// A genome and the score it had when its fitness was last computed.
///
/// `fitness` is a numerator over `full_score(dna.len())`. It is a cache: a
/// mutation leaves it stale until the next evaluation.
#[derive(Debug)]
pub struct Individual {
    pub dna: Vec<u8>,
    pub fitness: u128,
}

/// What an [`Individual`] holds, as plain values.
pub struct IndividualView {
    pub genome: Seq<u8>,
    pub fitness: nat,
}

impl View for Individual {
    type V = IndividualView;

    open spec fn view(&self) -> IndividualView {
        IndividualView { genome: self.dna@, fitness: self.fitness as nat }
    }
}

impl Clone for Individual {
    fn clone(&self) -> (copy: Self)
        ensures
            copy@ == self@,
    {
        Individual { dna: self.dna.clone(), fitness: self.fitness }
    }
}

/// One point mutation: the byte at `index` moves by `noise` and is clamped.
pub struct PointMutation {
    pub index: int,
    pub noise: int,
}

/// `value` clamped to the range of a byte.
pub open spec fn clamp_byte(value: int) -> u8 {
    if value < 0 {
        0
    } else if value > 255 {
        255
    } else {
        value as u8
    }
}

/// `genome` after one point mutation.
pub open spec fn point_mutated(genome: Seq<u8>, m: PointMutation) -> Seq<u8> {
    genome.update(m.index, clamp_byte(genome[m.index] + m.noise))
}

/// `genome` after the point mutations `events`, applied first to last.
pub open spec fn mutated(genome: Seq<u8>, events: Seq<PointMutation>) -> Seq<u8>
    decreases events.len(),
{
    if events.len() == 0 {
        genome
    } else {
        point_mutated(mutated(genome, events.drop_last()), events.last())
    }
}

/// A point mutation that a mutation pass can draw on a genome of `len` bytes.
pub open spec fn drawable(m: PointMutation, len: nat) -> bool {
    &&& 0 <= m.index < len
    &&& -30 <= m.noise <= 30
}

/// `after` is `before` after exactly `count` drawable point mutations.
pub open spec fn is_mutation_of(before: Seq<u8>, after: Seq<u8>, count: nat) -> bool {
    exists|events: Seq<PointMutation>|
        {
            &&& events.len() == count
            &&& forall|k: int| 0 <= k < events.len() ==> drawable(#[trigger] events[k], before.len())
            &&& after == mutated(before, events)
        }
}

/// The genome of `a` with the bytes in `[start, end)` taken from `b`.
pub open spec fn spliced(a: Seq<u8>, b: Seq<u8>, start: int, end: int) -> Seq<u8> {
    Seq::new(a.len(), |i: int| if start <= i < end { b[i] } else { a[i] })
}

/// `child` is a cut-and-splice of `a` and `b`: some segment `[start, end)`
/// with `start <= end < a.len()` comes from `b`, the rest from `a`.
pub open spec fn is_crossover_of(a: Seq<u8>, b: Seq<u8>, child: Seq<u8>) -> bool {
    exists|start: int, end: int|
        0 <= start <= end < a.len() && child == #[trigger] spliced(a, b, start, end)
}

/// Overwrites `dst[start..end]` with `src[start..end]`, byte for byte.
pub fn copy_bytes(dst: &mut Vec<u8>, src: &Vec<u8>, start: usize, end: usize)
    requires
        start <= end <= src.len(),
        old(dst).len() == src.len(),
    ensures
        final(dst)@ == spliced(old(dst)@, src@, start as int, end as int),
{
    let mut i: usize = start;
    while i < end
        invariant
            start <= i <= end <= src.len(),
            dst.len() == src.len(),
            dst@ == spliced(old(dst)@, src@, start as int, i as int),
        decreases end - i,
    {
        dst[i] = src[i];
        i += 1;
    }
}

/// A byte moved by `noise` and clamped.
pub fn perturbed(byte: u8, noise: i16) -> (r: u8)
    ensures
        r == clamp_byte(byte + noise),
{
    let moved: i32 = byte as i32 + noise as i32;
    if moved < 0 {
        0
    } else if moved > 255 {
        255
    } else {
        moved as u8
    }
}

/// Draws an offset uniformly in `[-spread, spread]`.
fn draw_offset(generator: &mut rand::rngs::ThreadRng, spread: i16) -> (offset: i16)
    requires
        0 <= spread <= 30,
    ensures
        -spread <= offset <= spread,
{
    let width: usize = (2 * spread + 1) as usize;
    let drawn: usize = random_in(generator, 0, width);
    offset_of(drawn, spread)
}

/// Draws a perturbation: fine nine times in ten, else coarse.
fn draw_noise(generator: &mut rand::rngs::ThreadRng) -> (noise: i16)
    ensures
        -30 <= noise <= 30,
{
    let fine: bool = random_ratio(generator, FINE_DRAWS, DRAWS);
    draw_offset(generator, spread_for(fine))
}

/// The offset that a draw stands for: the draws `0 ..= 2 * spread` are the
/// offsets `-spread ..= spread`, in order.
pub fn offset_of(drawn: usize, spread: i16) -> (offset: i16)
    requires
        0 <= spread,
        drawn <= 2 * spread,
    ensures
        offset == drawn - spread,
{
    (drawn as i32 - spread as i32) as i16
}

/// The widest perturbation of one draw: that of a fine draw or that of a
/// coarse one.
pub fn spread_for(fine: bool) -> (spread: i16)
    ensures
        spread == if fine { FINE_SPREAD } else { COARSE_SPREAD },
{
    if fine {
        FINE_SPREAD
    } else {
        COARSE_SPREAD
    }
}

impl Individual {
    /// The number of bytes of a square RGBA raster of the given side.
    pub open spec fn genome_len(side: nat) -> nat {
        side * side * 4
    }

    /// A random genome for a raster of side `length`, with fitness zero.
    pub fn new(length: usize) -> (ind: Individual)
        requires
            Self::genome_len(length as nat) <= usize::MAX,
        ensures
            ind.dna@.len() == Self::genome_len(length as nat),
            ind.fitness == 0,
    {
        let size: usize = length * length * 4;
        let mut generator = rand::rng();
        let mut dna: Vec<u8> = Vec::with_capacity(size);
        let mut i: usize = 0;
        while i < size
            invariant
                i <= size,
                dna.len() == i,
            decreases size - i,
        {
            let byte: usize = random_in(&mut generator, 0, 256);
            dna.push(byte as u8);
            i += 1;
        }
        Individual { dna, fitness: 0 }
    }

    /// An all-zero genome for a raster of side `length`, with fitness zero.
    pub fn new_empty(length: usize) -> (ind: Individual)
        requires
            Self::genome_len(length as nat) <= usize::MAX,
        ensures
            ind.dna@.len() == Self::genome_len(length as nat),
            forall|i: int| 0 <= i < ind.dna@.len() ==> ind.dna@[i] == 0,
            ind.fitness == 0,
    {
        let size: usize = length * length * 4;
        let mut dna: Vec<u8> = Vec::with_capacity(size);
        let mut i: usize = 0;
        while i < size
            invariant
                i <= size,
                dna.len() == i,
                forall|k: int| 0 <= k < i ==> dna@[k] == 0,
            decreases size - i,
        {
            dna.push(0);
            i += 1;
        }
        Individual { dna, fitness: 0 }
    }

    /// Computes the fitness score against `target` and caches it.
    pub fn calculate_fitness(&mut self, target: &[u8])
        requires
            target@.len() == old(self).dna@.len(),
        ensures
            final(self).dna@ == old(self).dna@,
            final(self).fitness == fitness_score(old(self).dna@, target@),
            final(self).fitness <= full_score(old(self).dna@.len()),
    {
        let len: usize = self.dna.len();
        let mut sum: u128 = 0;
        let mut i: usize = 0;
        while i < len
            invariant
                i <= len,
                len == self.dna@.len(),
                len == target@.len(),
                sum == squared_error(self.dna@.take(i as int), target@),
                sum <= 65025 * i,
            decreases len - i,
        {
            let a: u8 = self.dna[i];
            let b: u8 = target[i];
            let diff: u128 = if a >= b { (a - b) as u128 } else { (b - a) as u128 };
            proof {
                assert(self.dna@.take(i + 1).drop_last() =~= self.dna@.take(i as int));
                assert(diff * diff == (a as int - b as int) * (a as int - b as int))
                    by (nonlinear_arith)
                    requires
                        diff == a as int - b as int || diff == b as int - a as int,
                ;
                lemma_squared_error_bound(self.dna@.take(i + 1), target@);
            }
            sum += diff * diff;
            i += 1;
        }
        proof {
            assert(self.dna@.take(len as int) =~= self.dna@);
        }
        self.fitness = 65025 * (len as u128) - sum;
    }

    /// Applies one point mutation: the byte at `index` moves by `noise` and
    /// is clamped to a byte. The cached fitness stays as it is.
    pub fn apply_mutation(&mut self, index: usize, noise: i16)
        requires
            index < old(self).dna@.len(),
        ensures
            final(self).fitness == old(self).fitness,
            final(self).dna@ == point_mutated(
                old(self).dna@,
                (PointMutation { index: index as int, noise: noise as int }),
            ),
    {
        let byte: u8 = self.dna[index];
        self.dna[index] = perturbed(byte, noise);
    }

    /// Applies `max(1, round(len * rate))` point mutations, each at an index
    /// drawn uniformly and with a perturbation drawn fine or coarse. An
    /// index may be hit more than once.
    pub fn mutate(&mut self, mutation_rate: Rate)
        requires
            mutation_rate.wf(),
            old(self).dna@.len() > 0,
        ensures
            final(self).fitness == old(self).fitness,
            final(self).dna@.len() == old(self).dna@.len(),
            is_mutation_of(
                old(self).dna@,
                final(self).dna@,
                mutation_count(old(self).dna@.len(), mutation_rate),
            ),
    {
        let mut generator = rand::rng();
        let len: usize = self.dna.len();
        let num_mutations: u128 = mutation_count_for(len, mutation_rate);
        let ghost mut events: Seq<PointMutation> = Seq::empty();
        let mut done: u128 = 0;
        while done < num_mutations
            invariant
                done <= num_mutations,
                len == old(self).dna@.len(),
                len == self.dna@.len(),
                len > 0,
                self.fitness == old(self).fitness,
                events.len() == done,
                forall|k: int| 0 <= k < events.len() ==> drawable(#[trigger] events[k], len as nat),
                self.dna@ == mutated(old(self).dna@, events),
            decreases num_mutations - done,
        {
            let index: usize = random_in(&mut generator, 0, len);
            let noise: i16 = draw_noise(&mut generator);
            self.apply_mutation(index, noise);
            proof {
                let m = PointMutation { index: index as int, noise: noise as int };
                assert(events.push(m).drop_last() =~= events);
                events = events.push(m);
            }
            done += 1;
        }
    }

    /// Cut-and-splice with the cut points given: `child` becomes a copy of
    /// `self` but for the bytes from the smaller of `cut_a` and `cut_b` up to the
    /// larger, which come from `partner`. Its fitness is reset to zero.
    pub fn splice_into(&self, partner: &Individual, child: &mut Individual, cut_a: usize, cut_b: usize)
        requires
            partner.dna@.len() == self.dna@.len(),
            old(child).dna@.len() == self.dna@.len(),
            cut_a <= self.dna@.len(),
            cut_b <= self.dna@.len(),
        ensures
            final(child).fitness == 0,
            final(child).dna@ == spliced(
                self.dna@,
                partner.dna@,
                if cut_a < cut_b { cut_a as int } else { cut_b as int },
                if cut_a < cut_b { cut_b as int } else { cut_a as int },
            ),
    {
        let len: usize = self.dna.len();
        copy_bytes(&mut child.dna, &self.dna, 0, len);
        child.fitness = 0;
        let (start, end) = if cut_a < cut_b { (cut_a, cut_b) } else { (cut_b, cut_a) };
        copy_bytes(&mut child.dna, &partner.dna, start, end);
    }

    /// Cut-and-splice with two cut points drawn uniformly over the genome:
    /// `child` is overwritten in place, without allocating.
    pub fn crossover_into(&self, partner: &Individual, child: &mut Individual)
        requires
            self.dna@.len() > 0,
            partner.dna@.len() == self.dna@.len(),
            old(child).dna@.len() == self.dna@.len(),
        ensures
            final(child).fitness == 0,
            final(child).dna@.len() == self.dna@.len(),
            is_crossover_of(self.dna@, partner.dna@, final(child).dna@),
            forall|i: int|
                0 <= i < self.dna@.len() ==> {
                    ||| final(child).dna@[i] == self.dna@[i]
                    ||| final(child).dna@[i] == partner.dna@[i]
                },
    {
        let mut generator = rand::rng();
        let len: usize = self.dna.len();
        let cut_a: usize = random_in(&mut generator, 0, len);
        let cut_b: usize = random_in(&mut generator, 0, len);
        self.splice_into(partner, child, cut_a, cut_b);
    }

    /// Cut-and-splice into a new individual; see [`Individual::crossover_into`].
    pub fn crossover(&self, partner: &Individual) -> (child: Individual)
        requires
            self.dna@.len() > 0,
            partner.dna@.len() == self.dna@.len(),
        ensures
            child.fitness == 0,
            child.dna@.len() == self.dna@.len(),
            is_crossover_of(self.dna@, partner.dna@, child.dna@),
            forall|i: int|
                0 <= i < self.dna@.len() ==> {
                    ||| child.dna@[i] == self.dna@[i]
                    ||| child.dna@[i] == partner.dna@[i]
                },
    {
        let mut child: Individual = self.clone();
        self.crossover_into(partner, &mut child);
        child
    }

    /// Overwrites genome and fitness with those of `other`, in place.
    pub fn copy_from(&mut self, other: &Individual)
        requires
            old(self).dna@.len() == other.dna@.len(),
        ensures
            final(self)@ == other@,
    {
        let len: usize = other.dna.len();
        copy_bytes(&mut self.dna, &other.dna, 0, len);
        self.fitness = other.fitness;
        assert(self.dna@ =~= other.dna@);
    }
}

/// A mutation pass keeps the length of the genome.
pub proof fn lemma_mutated_len(genome: Seq<u8>, events: Seq<PointMutation>)
    requires
        forall|k: int| 0 <= k < events.len() ==> 0 <= (#[trigger] events[k]).index < genome.len(),
    ensures
        mutated(genome, events).len() == genome.len(),
    decreases events.len(),
{
    if events.len() > 0 {
        lemma_mutated_len(genome, events.drop_last());
    }
}

/// A point mutation changes its byte whenever the perturbation is not zero
/// and the clamp does not absorb it.
pub proof fn lemma_point_mutation_changes_byte(genome: Seq<u8>, m: PointMutation)
    requires
        0 <= m.index < genome.len(),
        m.noise != 0,
        0 <= genome[m.index] + m.noise <= 255,
    ensures
        point_mutated(genome, m)[m.index] != genome[m.index],
        point_mutated(genome, m) != genome,
{
}

/// A mutation pass applies at least one point mutation, whatever the rate;
/// at the rate one, as many as the genome has bytes.
pub proof fn lemma_mutation_pass_not_empty(before: Seq<u8>, after: Seq<u8>, rate: Rate)
    requires
        rate.wf(),
        is_mutation_of(before, after, mutation_count(before.len(), rate)),
    ensures
        mutation_count(before.len(), rate) >= 1,
        rate.numer == rate.denom && before.len() > 0 ==> mutation_count(before.len(), rate)
            == before.len(),
        exists|rest: Seq<PointMutation>, m: PointMutation|
            drawable(m, before.len()) && after == point_mutated(mutated(before, rest), m),
{
    let events = choose|events: Seq<PointMutation>|
        {
            &&& events.len() == mutation_count(before.len(), rate)
            &&& forall|k: int|
                0 <= k < events.len() ==> drawable(#[trigger] events[k], before.len())
            &&& after == mutated(before, events)
        };
    assert(after == point_mutated(mutated(before, events.drop_last()), events.last()));
    if rate.numer == rate.denom && before.len() > 0 {
        let l = before.len() as int;
        let d = rate.denom as int;
        assert(2 * (l * d) + d == l * (2 * d) + d) by (nonlinear_arith);
        vstd::arithmetic::div_mod::lemma_fundamental_div_mod_converse(
            2 * (l * d) + d,
            2 * d,
            l,
            d,
        );
    }
}

/// A crossover keeps the length of the genome, and each byte of the child is
/// the byte of one of its parents at the same index.
pub proof fn lemma_crossover_bytes_from_parents(a: Seq<u8>, b: Seq<u8>, child: Seq<u8>)
    requires
        a.len() == b.len(),
        is_crossover_of(a, b, child),
    ensures
        child.len() == a.len(),
        forall|i: int| 0 <= i < a.len() ==> child[i] == a[i] || child[i] == b[i],
{
}

} // verus!
