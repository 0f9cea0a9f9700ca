//! The data-parallel phases, run on the thread pool of `rayon`.
//!
//! Each function hands one verified function of this library to
//! `for_each` of a parallel iterator over disjoint slots. What is claimed
//! is that `rayon` calls it exactly once on every slot it is given and
//! touches no other.

use crate::individual::Individual;
use crate::population::breed_into;
use crate::population::evaluated;
use crate::population::evolves_to;
use crate::population::is_offspring;
use crate::population::views;
use crate::population::Population;
use crate::rate::Rate;
use rayon::iter::IndexedParallelIterator;
use rayon::iter::IntoParallelRefMutIterator;
use rayon::iter::ParallelIterator;
use vstd::prelude::*;

verus! {

/// `par_iter_mut().for_each(..)` of `rayon` with
/// [`Individual::calculate_fitness`]: every individual keeps its genome and
/// gets its score against `target`.
#[verifier::external_body]
pub(crate) fn par_calculate_fitness(individuals: &mut Vec<Individual>, target: &[u8])
    requires
        forall|i: int|
            0 <= i < old(individuals)@.len() ==> (#[trigger] old(individuals)@[i]).dna@.len()
                == target@.len(),
    ensures
        views(final(individuals)@) == evaluated(views(old(individuals)@), target@),
{
    individuals.par_iter_mut().for_each(|individual| individual.calculate_fitness(target));
}

/// `par_iter_mut().skip(first).for_each(..)` of `rayon` with [`breed_into`]:
/// the slots before `first` stay as they are, every later one becomes an
/// offspring of the first `pool` parents.
#[verifier::external_body]
pub(crate) fn par_breed(
    slots: &mut Vec<Individual>,
    parents: &Vec<Individual>,
    first: usize,
    pool: usize,
    mutation_rate: Rate,
)
    requires
        mutation_rate.wf(),
        pool <= parents@.len(),
        first < old(slots)@.len() ==> 0 < pool,
        forall|i: int|
            first <= i < old(slots)@.len() ==> (#[trigger] old(slots)@[i]).dna@.len() > 0,
        forall|i: int, k: int|
            first <= i < old(slots)@.len() && 0 <= k < pool ==> (#[trigger] parents@[k]).dna@.len()
                == (#[trigger] old(slots)@[i]).dna@.len(),
    ensures
        final(slots)@.len() == old(slots)@.len(),
        forall|i: int| 0 <= i < first && i < old(slots)@.len() ==> final(slots)@[i] == old(slots)@[i],
        forall|i: int|
            first <= i < old(slots)@.len() ==> {
                &&& (#[trigger] final(slots)@[i]).dna@.len() == old(slots)@[i].dna@.len()
                &&& is_offspring(views(parents@).take(pool as int), final(slots)@[i]@, mutation_rate)
            },
{
    slots.par_iter_mut().skip(first).for_each(
        |child| breed_into(parents, pool, child, mutation_rate),
    );
}

/// `par_iter_mut().for_each(..)` of `rayon` with [`Population::evolve`] in
/// its parallel mode: every island takes one generational step.
#[verifier::external_body]
pub(crate) fn par_evolve(islands: &mut Vec<Population>, target: &[u8], mutation_rate: Rate)
    requires
        forall|i: int|
            0 <= i < old(islands)@.len() ==> (#[trigger] old(islands)@[i]).can_evolve(
                target@,
                mutation_rate,
            ),
    ensures
        final(islands)@.len() == old(islands)@.len(),
        forall|i: int|
            0 <= i < old(islands)@.len() ==> {
                &&& (#[trigger] final(islands)@[i])@.wf(target@.len())
                &&& evolves_to(old(islands)@[i]@, final(islands)@[i]@, target@, mutation_rate)
            },
{
    islands.par_iter_mut().for_each(|island| island.evolve(target, mutation_rate, true));
}

} // verus!
