//! One island: a population, its scratch buffer of the same shape, and the
//! generational step that ranks the one and breeds the next into the other.

use crate::fitness::fitness_score;
use crate::fitness::Fitness;
use crate::individual::is_crossover_of;
use crate::individual::is_mutation_of;
use crate::individual::Individual;
use crate::individual::IndividualView;
use crate::parallel::par_breed;
use crate::parallel::par_calculate_fitness;
use crate::random::random_in;
use crate::ranking::par_sort_unstable_by_fitness;
use crate::ranking::sort_unstable_by_fitness;
use crate::rate::mutation_count;
use crate::rate::Rate;
use vstd::prelude::*;

verus! {

/// How many of the best are carried over unchanged, at most.
pub const MAX_ELITES: usize = 3;

/// A population, its scratch buffer and the count of completed steps.
#[derive(Debug)]
pub struct Population {
    pub individuals: Vec<Individual>,
    pub buffer: Vec<Individual>,
    pub generation: usize,
}

/// What a [`Population`] holds, as plain values.
pub struct PopulationView {
    pub individuals: Seq<IndividualView>,
    pub buffer: Seq<IndividualView>,
    pub generation: nat,
}

/// The views of a sequence of individuals.
pub open spec fn views(members: Seq<Individual>) -> Seq<IndividualView> {
    Seq::new(members.len(), |i: int| members[i]@)
}

/// Every genome of `members` has `len` bytes.
pub open spec fn uniform(members: Seq<IndividualView>, len: nat) -> bool {
    forall|i: int| 0 <= i < members.len() ==> (#[trigger] members[i]).genome.len() == len
}

/// `members`, each with its fitness score against `target`.
pub open spec fn evaluated(members: Seq<IndividualView>, target: Seq<u8>) -> Seq<IndividualView> {
    Seq::new(
        members.len(),
        |i: int|
            IndividualView {
                genome: members[i].genome,
                fitness: fitness_score(members[i].genome, target),
            },
    )
}

/// No member is followed by a fitter one.
pub open spec fn ranked(members: Seq<IndividualView>) -> bool {
    forall|i: int, j: int|
        0 <= i < j < members.len() ==> (#[trigger] members[i]).fitness >= (
        #[trigger] members[j]).fitness
}

/// `after` holds the members of `before`, each as often, best first.
pub open spec fn is_ranking_of(after: Seq<IndividualView>, before: Seq<IndividualView>) -> bool {
    &&& after.len() == before.len()
    &&& after.to_multiset() == before.to_multiset()
    &&& ranked(after)
}

/// The number of elites of a population of `size`: `min(3, size)`.
pub open spec fn elite_count(size: nat) -> nat {
    if size < 3 {
        size
    } else {
        3
    }
}

/// `child` is bred from `pool`: two parents out of it, the same one twice
/// allowed, are crossed, and the outcome goes through one mutation pass. Its
/// fitness is reset to zero.
pub open spec fn is_offspring(pool: Seq<IndividualView>, child: IndividualView, rate: Rate) -> bool {
    &&& child.fitness == 0
    &&& exists|first_parent: int, second_parent: int, crossed: Seq<u8>|
        {
            &&& 0 <= first_parent < pool.len()
            &&& 0 <= second_parent < pool.len()
            &&& #[trigger] is_crossover_of(pool[first_parent].genome, pool[second_parent].genome, crossed)
            &&& is_mutation_of(crossed, child.genome, mutation_count(crossed.len(), rate))
        }
}

impl PopulationView {
    /// Population and buffer have the same size, and every genome in them
    /// has `genome_len` bytes.
    pub open spec fn wf(self, genome_len: nat) -> bool {
        &&& self.buffer.len() == self.individuals.len()
        &&& uniform(self.individuals, genome_len)
        &&& uniform(self.buffer, genome_len)
    }
}

/// One generational step from `before` to `after`.
///
/// The retired generation, left in the buffer, is `before` evaluated against
/// `target` and ranked. The new generation starts with copies of its
/// `min(3, size)` best, genome and fitness; every other member is an
/// offspring of its better half.
pub open spec fn evolves_to(
    before: PopulationView,
    after: PopulationView,
    target: Seq<u8>,
    rate: Rate,
) -> bool {
    let size = before.individuals.len();
    &&& after.generation == before.generation + 1
    &&& after.individuals.len() == size
    &&& is_ranking_of(after.buffer, evaluated(before.individuals, target))
    &&& forall|i: int|
        0 <= i < elite_count(size) ==> #[trigger] after.individuals[i] == after.buffer[i]
    &&& forall|i: int|
        elite_count(size) <= i < size ==> is_offspring(
            after.buffer.take(size as int / 2),
            #[trigger] after.individuals[i],
            rate,
        )
}

impl View for Population {
    type V = PopulationView;

    open spec fn view(&self) -> PopulationView {
        PopulationView {
            individuals: views(self.individuals@),
            buffer: views(self.buffer@),
            generation: self.generation as nat,
        }
    }
}

/// Every member of a ranking is a member of what was ranked, and the other
/// way round.
pub proof fn lemma_ranking_members(after: Seq<IndividualView>, before: Seq<IndividualView>)
    requires
        is_ranking_of(after, before),
    ensures
        forall|i: int| 0 <= i < after.len() ==> before.contains(#[trigger] after[i]),
        forall|j: int| 0 <= j < before.len() ==> after.contains(#[trigger] before[j]),
{
    after.to_multiset_ensures();
    before.to_multiset_ensures();
    assert forall|i: int| 0 <= i < after.len() implies before.contains(#[trigger] after[i]) by {
        assert(after.to_multiset().count(after[i]) > 0);
    }
    assert forall|j: int| 0 <= j < before.len() implies after.contains(#[trigger] before[j]) by {
        assert(before.to_multiset().count(before[j]) > 0);
    }
}

/// After a step the member at rank zero is at least as fit as every member
/// of the generation before it, evaluated against the target.
pub proof fn lemma_evolved_best_is_maximal(
    before: PopulationView,
    after: PopulationView,
    target: Seq<u8>,
    rate: Rate,
)
    requires
        evolves_to(before, after, target, rate),
    ensures
        forall|j: int|
            0 <= j < before.individuals.len() ==> after.individuals[0].fitness >= fitness_score(
                #[trigger] before.individuals[j].genome,
                target,
            ),
{
    let scored = evaluated(before.individuals, target);
    lemma_ranking_members(after.buffer, scored);
    assert forall|j: int| 0 <= j < before.individuals.len() implies after.individuals[0].fitness
        >= fitness_score(#[trigger] before.individuals[j].genome, target) by {
        assert(after.buffer.contains(scored[j]));
        let i = choose|i: int| 0 <= i < after.buffer.len() && after.buffer[i] == scored[j];
        assert(after.buffer[0].fitness >= after.buffer[i].fitness);
    }
}

/// After a step the fitness cached at rank zero is the true score of the
/// genome at rank zero.
pub proof fn lemma_evolved_best_is_accurate(
    before: PopulationView,
    after: PopulationView,
    target: Seq<u8>,
    rate: Rate,
)
    requires
        evolves_to(before, after, target, rate),
        before.individuals.len() > 0,
    ensures
        after.individuals[0].fitness == fitness_score(after.individuals[0].genome, target),
{
    let scored = evaluated(before.individuals, target);
    lemma_ranking_members(after.buffer, scored);
    assert(scored.contains(after.buffer[0]));
    let j = choose|j: int| 0 <= j < scored.len() && scored[j] == after.buffer[0];
    assert(scored[j].fitness == fitness_score(scored[j].genome, target));
}

/// Elitism: a step never lowers the best fitness. It holds whenever the
/// fitness cached at rank zero before the step does not overstate the score
/// of its genome, as it does not in a fresh population nor after a step.
pub proof fn lemma_evolve_keeps_best(
    before: PopulationView,
    after: PopulationView,
    target: Seq<u8>,
    rate: Rate,
)
    requires
        evolves_to(before, after, target, rate),
        before.individuals.len() > 0,
        before.individuals[0].fitness <= fitness_score(before.individuals[0].genome, target),
    ensures
        after.individuals[0].fitness >= before.individuals[0].fitness,
{
    lemma_evolved_best_is_maximal(before, after, target, rate);
}

/// Breeds one offspring into `child`: draws two parents among the first
/// `pool` of `parents`, crosses them into `child` and mutates it in place.
pub fn breed_into(parents: &Vec<Individual>, pool: usize, child: &mut Individual, mutation_rate: Rate)
    requires
        mutation_rate.wf(),
        0 < pool <= parents@.len(),
        old(child).dna@.len() > 0,
        forall|k: int|
            0 <= k < pool ==> (#[trigger] parents@[k]).dna@.len() == old(child).dna@.len(),
    ensures
        final(child).dna@.len() == old(child).dna@.len(),
        is_offspring(views(parents@).take(pool as int), final(child)@, mutation_rate),
{
    let mut generator = rand::rng();
    let first_parent: usize = random_in(&mut generator, 0, pool);
    let second_parent: usize = random_in(&mut generator, 0, pool);
    parents[first_parent].crossover_into(&parents[second_parent], child);
    let ghost crossed = child.dna@;
    child.mutate(mutation_rate);
    proof {
        let candidates = views(parents@).take(pool as int);
        assert(is_crossover_of(
            candidates[first_parent as int].genome,
            candidates[second_parent as int].genome,
            crossed,
        ));
    }
}

/// Tests that every genome of `members` has `len` bytes.
pub fn all_of_len(members: &Vec<Individual>, len: usize) -> (r: bool)
    ensures
        r == uniform(views(members@), len as nat),
{
    let count: usize = members.len();
    let mut i: usize = 0;
    while i < count
        invariant
            i <= count,
            count == members@.len(),
            forall|k: int| 0 <= k < i ==> (#[trigger] views(members@)[k]).genome.len() == len,
        decreases count - i,
    {
        assert(views(members@)[i as int] == members@[i as int]@);
        if members[i].dna.len() != len {
            return false;
        }
        i += 1;
    }
    true
}

impl Population {
    /// Tests that population and buffer have the same size and that every
    /// genome in them has `genome_len` bytes.
    pub fn is_well_formed(&self, genome_len: usize) -> (r: bool)
        ensures
            r == self@.wf(genome_len as nat),
    {
        self.buffer.len() == self.individuals.len() && all_of_len(&self.individuals, genome_len)
            && all_of_len(&self.buffer, genome_len)
    }

    /// The population can take a step against `target`: it is well formed
    /// for the length of `target`, its counter can grow, and where anything
    /// is bred the genomes are not empty.
    pub open spec fn can_evolve(self, target: Seq<u8>, rate: Rate) -> bool {
        &&& self@.wf(target.len())
        &&& rate.wf()
        &&& self.generation < usize::MAX
        &&& self.individuals@.len() > 3 ==> target.len() > 0
    }

    /// `size` random individuals for a raster of side `length`, a buffer
    /// that is a copy of them, and generation zero.
    pub fn new(size: usize, length: usize) -> (population: Population)
        requires
            Individual::genome_len(length as nat) <= usize::MAX,
        ensures
            population.individuals@.len() == size,
            population@.wf(Individual::genome_len(length as nat)),
            population@.buffer == population@.individuals,
            population.generation == 0,
            forall|i: int| 0 <= i < size ==> (#[trigger] population@.individuals[i]).fitness == 0,
    {
        let mut individuals: Vec<Individual> = Vec::with_capacity(size);
        let mut i: usize = 0;
        while i < size
            invariant
                i <= size,
                individuals@.len() == i,
                Individual::genome_len(length as nat) <= usize::MAX,
                forall|k: int|
                    0 <= k < i ==> {
                        &&& (#[trigger] individuals@[k]).dna@.len() == Individual::genome_len(
                            length as nat,
                        )
                        &&& individuals@[k].fitness == 0
                    },
            decreases size - i,
        {
            individuals.push(Individual::new(length));
            i += 1;
        }
        let buffer: Vec<Individual> = individuals.clone();
        Population { individuals, buffer, generation: 0 }
    }

    /// Computes the fitness of every member against `target`.
    pub fn compute_fitnesses(&mut self, target: &[u8], is_parallel: bool)
        requires
            uniform(old(self)@.individuals, target@.len()),
        ensures
            final(self)@.individuals == evaluated(old(self)@.individuals, target@),
            final(self).buffer == old(self).buffer,
            final(self).generation == old(self).generation,
    {
        if is_parallel {
            assert forall|i: int| 0 <= i < self.individuals@.len() implies (
            #[trigger] self.individuals@[i]).dna@.len() == target@.len() by {
                assert(self@.individuals[i].genome == self.individuals@[i].dna@);
            }
            par_calculate_fitness(&mut self.individuals, target);
        } else {
            let size: usize = self.individuals.len();
            let mut i: usize = 0;
            while i < size
                invariant
                    i <= size,
                    size == self.individuals@.len(),
                    size == old(self).individuals@.len(),
                    self.buffer == old(self).buffer,
                    self.generation == old(self).generation,
                    uniform(old(self)@.individuals, target@.len()),
                    forall|k: int|
                        0 <= k < i ==> (#[trigger] self.individuals@[k])@ == evaluated(
                            old(self)@.individuals,
                            target@,
                        )[k],
                    forall|k: int|
                        i <= k < size ==> #[trigger] self.individuals@[k] == old(
                            self,
                        ).individuals@[k],
                decreases size - i,
            {
                assert(old(self)@.individuals[i as int].genome == self.individuals@[i as int].dna@);
                self.individuals[i].calculate_fitness(target);
                i += 1;
            }
        }
    }

    /// Ranks the members by their cached fitness, best first. Which of two
    /// equally fit members comes first is left open.
    pub fn sort_by_fitness(&mut self, is_parallel: bool)
        ensures
            is_ranking_of(final(self)@.individuals, old(self)@.individuals),
            final(self).buffer == old(self).buffer,
            final(self).generation == old(self).generation,
    {
        if is_parallel {
            par_sort_unstable_by_fitness(&mut self.individuals);
        } else {
            sort_unstable_by_fitness(&mut self.individuals);
        }
    }

    /// One generational step: evaluates and ranks the members, copies the
    /// `min(3, size)` best into the buffer, fills the rest of the buffer with
    /// offspring of the better half, then swaps population and buffer and
    /// counts the generation.
    pub fn evolve(&mut self, target: &[u8], mutation_rate: Rate, is_parallel: bool)
        requires
            old(self).can_evolve(target@, mutation_rate),
        ensures
            final(self)@.wf(target@.len()),
            evolves_to(old(self)@, final(self)@, target@, mutation_rate),
            forall|j: int|
                0 <= j < old(self)@.individuals.len() ==> final(self)@.individuals[0].fitness
                    >= fitness_score(#[trigger] old(self)@.individuals[j].genome, target@),
    {
        self.compute_fitnesses(target, is_parallel);
        let ghost scored = self@.individuals;
        self.sort_by_fitness(is_parallel);
        let ghost ranking = self@.individuals;
        let ghost parents = self.individuals;
        proof {
            lemma_ranking_members(ranking, scored);
        }
        let size: usize = self.individuals.len();
        let num_elites: usize = if size < MAX_ELITES { size } else { MAX_ELITES };
        let mut i: usize = 0;
        while i < num_elites
            invariant
                i <= num_elites <= size,
                size == self.individuals@.len(),
                size == self.buffer@.len(),
                self.individuals == parents,
                views(parents@) == ranking,
                self.generation == old(self).generation,
                uniform(ranking, target@.len()),
                uniform(self@.buffer, target@.len()),
                forall|k: int| 0 <= k < i ==> (#[trigger] self.buffer@[k])@ == ranking[k],
            decreases num_elites - i,
        {
            let ghost slots = self.buffer@;
            assert(self@.buffer[i as int].genome == self.buffer@[i as int].dna@);
            assert(ranking[i as int].genome == self.individuals@[i as int].dna@);
            self.buffer[i].copy_from(&self.individuals[i]);
            i += 1;
            assert forall|k: int| 0 <= k < self@.buffer.len() implies (
            #[trigger] self@.buffer[k]).genome.len() == target@.len() by {
                assert(views(slots)[k] == slots[k]@);
            }
        }
        let pool: usize = size / 2;
        let ghost candidates = ranking.take(pool as int);
        if is_parallel {
            let ghost slots = self.buffer;
            assert forall|i: int, k: int|
                num_elites <= i < slots@.len() && 0 <= k < pool implies (
            #[trigger] parents@[k]).dna@.len() == (#[trigger] slots@[i]).dna@.len() by {
                assert(ranking[k].genome == parents@[k].dna@);
                assert(self@.buffer[i].genome == slots@[i].dna@);
            }
            assert forall|i: int| num_elites <= i < slots@.len() implies (
            #[trigger] slots@[i]).dna@.len() > 0 by {
                assert(self@.buffer[i].genome == slots@[i].dna@);
            }
            par_breed(&mut self.buffer, &self.individuals, num_elites, pool, mutation_rate);
        } else {
            let mut slot: usize = num_elites;
            while slot < size
                invariant
                    num_elites <= slot <= size,
                    num_elites == elite_count(size as nat),
                    pool == size / 2,
                    size == self.individuals@.len(),
                    size == self.buffer@.len(),
                    size > 3 ==> target@.len() > 0,
                    mutation_rate.wf(),
                    self.individuals == parents,
                    views(parents@) == ranking,
                    candidates == ranking.take(pool as int),
                    self.generation == old(self).generation,
                    uniform(ranking, target@.len()),
                    uniform(self@.buffer, target@.len()),
                    forall|k: int| 0 <= k < num_elites ==> (#[trigger] self.buffer@[k])@ == ranking[k],
                    forall|k: int|
                        num_elites <= k < slot ==> is_offspring(
                            candidates,
                            (#[trigger] self.buffer@[k])@,
                            mutation_rate,
                        ),
                decreases size - slot,
            {
                assert(self@.buffer[slot as int].genome == self.buffer@[slot as int].dna@);
                assert forall|k: int| 0 <= k < pool implies (#[trigger] self.individuals@[k]).dna@.len()
                    == self.buffer@[slot as int].dna@.len() by {
                    assert(ranking[k].genome == self.individuals@[k].dna@);
                }
                let ghost slots = self.buffer@;
                breed_into(&self.individuals, pool, &mut self.buffer[slot], mutation_rate);
                slot += 1;
                assert forall|k: int| 0 <= k < self@.buffer.len() implies (
                #[trigger] self@.buffer[k]).genome.len() == target@.len() by {
                    assert(views(slots)[k] == slots[k]@);
                }
            }
        }
        std::mem::swap(&mut self.individuals, &mut self.buffer);
        self.generation += 1;
        proof {
            lemma_evolved_best_is_maximal(old(self)@, self@, target@, mutation_rate);
        }
    }

    /// The cached fitness of the member at rank zero, as a fraction.
    pub fn best_fitness(&self) -> (fitness: Fitness)
        requires
            self.individuals@.len() > 0,
        ensures
            fitness.score == self@.individuals[0].fitness,
            fitness.scale == 65025 * self@.individuals[0].genome.len(),
    {
        let len: usize = self.individuals[0].dna.len();
        Fitness { score: self.individuals[0].fitness, scale: 65025 * (len as u128) }
    }
}

} // verus!
