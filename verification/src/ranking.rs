//! Ranking by fitness, best first, with the unstable sorts of `std` and of
//! `rayon`.

use crate::individual::Individual;
use crate::population::is_ranking_of;
use crate::population::views;
use rayon::slice::ParallelSliceMut;
use std::cmp::Ordering;
use vstd::prelude::*;

verus! {

/// The order of the ranking: the fitter individual comes first.
pub fn fitness_order(a: &Individual, b: &Individual) -> (order: Ordering)
    ensures
        order == Ordering::Less <==> a.fitness > b.fitness,
        order == Ordering::Equal <==> a.fitness == b.fitness,
        order == Ordering::Greater <==> a.fitness < b.fitness,
{
    if a.fitness > b.fitness {
        Ordering::Less
    } else if a.fitness == b.fitness {
        Ordering::Equal
    } else {
        Ordering::Greater
    }
}

/// `<[T]>::sort_unstable_by` of `std`, with [`fitness_order`]: the slice is
/// rearranged, nothing is added or lost, and afterwards no individual is
/// followed by a fitter one. Which of two equally fit ones comes first is
/// left open.
#[verifier::external_body]
pub(crate) fn sort_unstable_by_fitness(individuals: &mut Vec<Individual>)
    ensures
        is_ranking_of(views(final(individuals)@), views(old(individuals)@)),
{
    individuals.sort_unstable_by(|a, b| fitness_order(a, b));
}

/// `ParallelSliceMut::par_sort_unstable_by` of `rayon`, with
/// [`fitness_order`]: the same claim as for the sort of `std`.
#[verifier::external_body]
pub(crate) fn par_sort_unstable_by_fitness(individuals: &mut Vec<Individual>)
    ensures
        is_ranking_of(views(final(individuals)@), views(old(individuals)@)),
{
    individuals.par_sort_unstable_by(|a, b| fitness_order(a, b));
}

} // verus!
