//! The island ensemble: several populations that evolve in lock-step
//! against one target and, every fifty generations, pass their best on
//! around a ring.

use crate::fitness::Fitness;
use crate::individual::Individual;
use crate::individual::IndividualView;
use crate::parallel::par_evolve;
use crate::population::all_of_len;
use crate::fitness::fitness_score;
use crate::population::evolves_to;
use crate::population::lemma_evolve_keeps_best;
use crate::population::lemma_evolved_best_is_accurate;
use crate::population::uniform;
use crate::population::views;
use crate::population::Population;
use crate::population::PopulationView;
use crate::rate::calculate_effective_mutation_rate;
use crate::rate::effective_rate;
use crate::rate::Rate;
use vstd::prelude::*;
use vstd::slice::slice_to_vec;

verus! {

/// The number of islands of a new ensemble.
pub const ISLAND_COUNT: usize = 4;

/// A migration pass follows every generation that is a multiple of this.
pub const MIGRATION_INTERVAL: usize = 50;

/// The islands, the target they approximate, and one staging slot per
/// island for the migration pass.
#[derive(Debug)]
pub struct GeneticModel {
    pub islands: Vec<Population>,
    pub target: Vec<u8>,
    pub migration_buffer: Vec<Individual>,
}

/// What a [`GeneticModel`] holds, as plain values.
pub struct ModelView {
    pub islands: Seq<PopulationView>,
    pub target: Seq<u8>,
    pub staging: Seq<IndividualView>,
}

/// The views of a sequence of populations.
pub open spec fn island_views(islands: Seq<Population>) -> Seq<PopulationView> {
    Seq::new(islands.len(), |i: int| islands[i]@)
}

/// The index of the best island: the one whose member at rank zero has the
/// highest cached fitness, the last of them where several tie. Zero for an
/// empty sequence.
pub open spec fn best_island(islands: Seq<PopulationView>) -> int
    decreases islands.len(),
{
    if islands.len() <= 1 {
        0
    } else {
        let earlier = best_island(islands.drop_last());
        if islands.last().individuals[0].fitness >= islands[earlier].individuals[0].fitness {
            islands.len() - 1
        } else {
            earlier
        }
    }
}

/// The island before island `j` on a ring of `count` islands, that is the
/// island `i` with `(i + 1) % count == j`.
pub open spec fn ring_predecessor(j: int, count: nat) -> int {
    if j == 0 {
        count - 1
    } else {
        j - 1
    }
}

/// The islands after one migration pass around the ring: the worst member,
/// the last, of every island is overwritten with the member at rank zero
/// that its predecessor had before the pass. Fewer than two islands stay as
/// they are.
pub open spec fn migrated(islands: Seq<PopulationView>) -> Seq<PopulationView> {
    if islands.len() < 2 {
        islands
    } else {
        Seq::new(
            islands.len(),
            |j: int|
                PopulationView {
                    individuals: islands[j].individuals.update(
                        islands[j].individuals.len() - 1,
                        islands[ring_predecessor(j, islands.len())].individuals[0],
                    ),
                    buffer: islands[j].buffer,
                    generation: islands[j].generation,
                },
        )
    }
}

/// The staging slots after one migration pass: the member at rank zero of
/// every island as it was before the pass. With fewer than two islands the
/// slots stay as they are.
pub open spec fn staged(
    islands: Seq<PopulationView>,
    staging: Seq<IndividualView>,
) -> Seq<IndividualView> {
    if islands.len() < 2 {
        staging
    } else {
        Seq::new(islands.len(), |i: int| islands[i].individuals[0])
    }
}

/// Every island of `after` is one generational step away from the island
/// of `before` at the same place.
pub open spec fn all_evolved(
    before: Seq<PopulationView>,
    after: Seq<PopulationView>,
    target: Seq<u8>,
    rate: Rate,
) -> bool {
    &&& after.len() == before.len()
    &&& forall|i: int|
        0 <= i < before.len() ==> {
            &&& (#[trigger] after[i]).wf(target.len())
            &&& evolves_to(before[i], after[i], target, rate)
        }
}

impl ModelView {
    /// Every island is well formed for the length of the target, all
    /// islands have completed the same number of generations, and there is
    /// one staging slot of the same genome length per island.
    pub open spec fn wf(self) -> bool {
        &&& forall|i: int|
            0 <= i < self.islands.len() ==> {
                &&& (#[trigger] self.islands[i]).wf(self.target.len())
                &&& self.islands[i].generation == self.islands[0].generation
            }
        &&& self.staging.len() == self.islands.len()
        &&& uniform(self.staging, self.target.len())
    }

    /// No island is without members.
    pub open spec fn populated(self) -> bool {
        forall|i: int|
            0 <= i < self.islands.len() ==> (#[trigger] self.islands[i]).individuals.len() > 0
    }

    /// The highest cached fitness at rank zero over all islands, as a
    /// fraction.
    pub open spec fn best_fitness(self) -> Fitness {
        let best = self.islands[best_island(self.islands)].individuals[0];
        Fitness { score: best.fitness as u128, scale: (65025 * best.genome.len()) as u128 }
    }

    /// The highest cached score at rank zero over all islands.
    pub open spec fn best_score(self) -> nat {
        self.islands[best_island(self.islands)].individuals[0].fitness
    }

    /// On no island does the fitness cached at rank zero overstate the score
    /// of the genome at rank zero.
    pub open spec fn elites_scored(self) -> bool {
        forall|i: int|
            0 <= i < self.islands.len() ==> (#[trigger] self.islands[i]).individuals[0].fitness
                <= fitness_score(self.islands[i].individuals[0].genome, self.target)
    }

    /// All islands have as many members as the first.
    pub open spec fn evenly_sized(self) -> bool {
        forall|i: int|
            0 <= i < self.islands.len() ==> (#[trigger] self.islands[i]).individuals.len()
                == self.islands[0].individuals.len()
    }

    /// The generation that the islands share; zero without islands.
    pub open spec fn generation(self) -> nat {
        if self.islands.len() == 0 {
            0
        } else {
            self.islands[0].generation
        }
    }

    /// The ensemble is fit for stepping at the base rate `base_rate`: it is
    /// well formed, has an island, no island is empty, the rate can be
    /// used, and where anything is bred the genomes are not empty.
    pub open spec fn ready(self, base_rate: Rate, is_auto: bool) -> bool {
        &&& self.wf()
        &&& self.islands.len() > 0
        &&& self.populated()
        &&& base_rate.usable(is_auto)
        &&& self.target.len() == 0 ==> forall|i: int|
            0 <= i < self.islands.len() ==> (#[trigger] self.islands[i]).individuals.len() <= 3
    }

    /// The ensemble can take a step: it is ready and its generation
    /// counter can grow.
    pub open spec fn can_step(self, base_rate: Rate, is_auto: bool) -> bool {
        &&& self.ready(base_rate, is_auto)
        &&& self.generation() < usize::MAX
    }

    /// One step from `self` to `after`: every island takes one generational
    /// step at the effective rate for the best fitness before the step, and
    /// where the generation then reached is a multiple of fifty a migration
    /// pass follows.
    pub open spec fn steps_to(self, after: ModelView, base_rate: Rate, is_auto: bool) -> bool {
        let rate = effective_rate(self.best_fitness(), base_rate, is_auto);
        &&& after.target == self.target
        &&& exists|evolved: Seq<PopulationView>|
            {
                &&& #[trigger] all_evolved(self.islands, evolved, self.target, rate)
                &&& after.islands == if evolved[0].generation % 50 == 0 {
                    migrated(evolved)
                } else {
                    evolved
                }
                &&& after.staging == if evolved[0].generation % 50 == 0 {
                    staged(evolved, self.staging)
                } else {
                    self.staging
                }
            }
    }

    /// `after` is reached from `self` in exactly `count` steps: some run of
    /// `count + 1` states starts at `self` and ends at `after`.
    pub open spec fn steps_to_in(
        self,
        after: ModelView,
        count: nat,
        base_rate: Rate,
        is_auto: bool,
    ) -> bool {
        exists|run: Seq<ModelView>|
            {
                &&& #[trigger] is_run(run, base_rate, is_auto)
                &&& run.len() == count + 1
                &&& run[0] == self
                &&& run.last() == after
            }
    }
}

/// Every state of `run` but the last can take a step, and that step leads
/// to the next state.
pub open spec fn is_run(run: Seq<ModelView>, base_rate: Rate, is_auto: bool) -> bool {
    forall|i: int|
        0 <= i < run.len() - 1 ==> {
            &&& (#[trigger] run[i]).can_step(base_rate, is_auto)
            &&& run[i].steps_to(run[i + 1], base_rate, is_auto)
        }
}

impl View for GeneticModel {
    type V = ModelView;

    open spec fn view(&self) -> ModelView {
        ModelView {
            islands: island_views(self.islands@),
            target: self.target@,
            staging: views(self.migration_buffer@),
        }
    }
}

/// The best island is one of the islands, and no island has a fitter member
/// at rank zero.
pub proof fn lemma_best_island_is_maximal(islands: Seq<PopulationView>)
    requires
        islands.len() > 0,
    ensures
        0 <= best_island(islands) < islands.len(),
        forall|i: int|
            0 <= i < islands.len() ==> islands[best_island(islands)].individuals[0].fitness >= (
            #[trigger] islands[i]).individuals[0].fitness,
    decreases islands.len(),
{
    if islands.len() > 1 {
        let shorter = islands.drop_last();
        lemma_best_island_is_maximal(shorter);
        assert forall|i: int| 0 <= i < islands.len() implies islands[best_island(
            islands,
        )].individuals[0].fitness >= (#[trigger] islands[i]).individuals[0].fitness by {
            if i < islands.len() - 1 {
                assert(shorter[i] == islands[i]);
            }
        }
    }
}

/// On a ring of `count` islands the island after the predecessor of `j` is
/// `j` itself, and the predecessor is `(j + count - 1) % count`.
pub proof fn lemma_ring_predecessor(j: int, count: nat)
    requires
        0 <= j < count,
    ensures
        0 <= ring_predecessor(j, count) < count,
        (ring_predecessor(j, count) + 1) % (count as int) == j,
        ring_predecessor(j, count) == (j + count - 1) % (count as int),
{
    let n = count as int;
    if j == 0 {
        vstd::arithmetic::div_mod::lemma_fundamental_div_mod_converse(n, n, 1, 0);
        vstd::arithmetic::div_mod::lemma_fundamental_div_mod_converse(n - 1, n, 0, n - 1);
    } else {
        vstd::arithmetic::div_mod::lemma_fundamental_div_mod_converse(j, n, 0, j);
        vstd::arithmetic::div_mod::lemma_fundamental_div_mod_converse(j + n - 1, n, 1, j - 1);
    }
}

/// A migration pass changes nothing where there are fewer than two islands.
pub proof fn lemma_migration_needs_two_islands(islands: Seq<PopulationView>)
    requires
        islands.len() < 2,
    ensures
        migrated(islands) == islands,
{
}

/// Elitism across the ensemble: a step never lowers the best score over the
/// islands. It holds where the islands are of one size and no island
/// overstates the score of its member at rank zero, as in a new ensemble; a
/// step keeps both.
pub proof fn lemma_step_keeps_best(
    before: ModelView,
    after: ModelView,
    base_rate: Rate,
    is_auto: bool,
)
    requires
        before.can_step(base_rate, is_auto),
        before.steps_to(after, base_rate, is_auto),
        before.elites_scored(),
        before.evenly_sized(),
    ensures
        after.best_score() >= before.best_score(),
        after.elites_scored(),
        after.evenly_sized(),
{
    let rate = effective_rate(before.best_fitness(), base_rate, is_auto);
    let target = before.target;
    let evolved = choose|evolved: Seq<PopulationView>|
        {
            &&& #[trigger] all_evolved(before.islands, evolved, target, rate)
            &&& after.islands == if evolved[0].generation % 50 == 0 {
                migrated(evolved)
            } else {
                evolved
            }
        };
    let count = before.islands.len();
    let best = best_island(before.islands);
    lemma_best_island_is_maximal(before.islands);
    lemma_best_island_is_maximal(after.islands);
    assert forall|i: int| 0 <= i < count implies {
        &&& (#[trigger] evolved[i]).individuals.len() == before.islands[0].individuals.len()
        &&& evolved[i].individuals[0].fitness >= before.islands[i].individuals[0].fitness
        &&& evolved[i].individuals[0].fitness == fitness_score(
            evolved[i].individuals[0].genome,
            target,
        )
    } by {
        lemma_evolve_keeps_best(before.islands[i], evolved[i], target, rate);
        lemma_evolved_best_is_accurate(before.islands[i], evolved[i], target, rate);
    }
    if after.islands == evolved || count < 2 {
        assert forall|i: int| 0 <= i < count implies (#[trigger] after.islands[i]) == evolved[i] by {}
    } else {
        let size = before.islands[0].individuals.len();
        let next = if best == count - 1 {
            0
        } else {
            best + 1
        };
        assert forall|i: int| 0 <= i < count implies {
            &&& (#[trigger] after.islands[i]).individuals.len() == size
            &&& after.islands[i].individuals[0] == if size >= 2 {
                evolved[i].individuals[0]
            } else {
                evolved[ring_predecessor(i, count)].individuals[0]
            }
        } by {}
        if size >= 2 {
            assert(after.islands[best].individuals[0] == evolved[best].individuals[0]);
        } else {
            assert(after.islands[next].individuals[0] == evolved[best].individuals[0]);
        }
        assert forall|i: int| 0 <= i < count implies (
        #[trigger] after.islands[i]).individuals[0].fitness <= fitness_score(
            after.islands[i].individuals[0].genome,
            after.target,
        ) by {}
    }
}

/// Where every island has at least two members a second migration pass
/// right after the first changes nothing: the members at rank zero, which
/// the pass reads, are not among those it writes.
pub proof fn lemma_migration_is_idempotent(islands: Seq<PopulationView>)
    requires
        forall|i: int| 0 <= i < islands.len() ==> (#[trigger] islands[i]).individuals.len() >= 2,
    ensures
        migrated(migrated(islands)) == migrated(islands),
{
    let once = migrated(islands);
    let twice = migrated(once);
    if islands.len() >= 2 {
        assert forall|j: int| 0 <= j < islands.len() implies #[trigger] twice[j] == once[j] by {
            assert(twice[j].individuals =~= once[j].individuals);
        }
    }
}

/// A migration pass keeps the number of islands, the size of every island,
/// its buffer and its generation.
pub proof fn lemma_migration_keeps_shape(islands: Seq<PopulationView>)
    requires
        forall|i: int| 0 <= i < islands.len() ==> (#[trigger] islands[i]).individuals.len() > 0,
    ensures
        migrated(islands).len() == islands.len(),
        forall|i: int|
            0 <= i < islands.len() ==> {
                &&& (#[trigger] migrated(islands)[i]).individuals.len()
                    == islands[i].individuals.len()
                &&& migrated(islands)[i].buffer == islands[i].buffer
                &&& migrated(islands)[i].generation == islands[i].generation
            },
{
}

impl GeneticModel {
    /// Four islands of `population_size / 4` random individuals each, for a
    /// raster of side `length`, with a copy of the target and four zeroed
    /// staging slots. The remainder of the division is dropped.
    pub fn new(target_image_data: &[u8], population_size: usize, length: usize) -> (model:
        GeneticModel)
        requires
            Individual::genome_len(length as nat) <= usize::MAX,
        ensures
            model@.target == target_image_data@,
            model@.islands.len() == 4,
            model@.staging.len() == 4,
            forall|i: int|
                0 <= i < 4 ==> {
                    &&& (#[trigger] model@.islands[i]).individuals.len() == population_size / 4
                    &&& model@.islands[i].wf(Individual::genome_len(length as nat))
                    &&& model@.islands[i].buffer == model@.islands[i].individuals
                    &&& model@.islands[i].generation == 0
                    &&& forall|k: int|
                        0 <= k < model@.islands[i].individuals.len() ==> (
                        #[trigger] model@.islands[i].individuals[k]).fitness == 0
                },
            forall|i: int|
                0 <= i < 4 ==> {
                    &&& (#[trigger] model@.staging[i]).fitness == 0
                    &&& model@.staging[i].genome.len() == Individual::genome_len(length as nat)
                    &&& forall|k: int|
                        0 <= k < model@.staging[i].genome.len() ==> model@.staging[i].genome[k]
                            == 0
                },
            target_image_data@.len() == Individual::genome_len(length as nat) ==> model@.wf(),
    {
        let target: Vec<u8> = slice_to_vec(target_image_data);
        let size_per_island: usize = population_size / ISLAND_COUNT;
        let mut migration_buffer: Vec<Individual> = Vec::with_capacity(ISLAND_COUNT);
        let mut islands: Vec<Population> = Vec::with_capacity(ISLAND_COUNT);
        let mut i: usize = 0;
        while i < ISLAND_COUNT
            invariant
                i <= ISLAND_COUNT,
                Individual::genome_len(length as nat) <= usize::MAX,
                size_per_island == population_size / 4,
                islands@.len() == i,
                migration_buffer@.len() == i,
                forall|k: int|
                    0 <= k < i ==> {
                        &&& (#[trigger] islands@[k])@.individuals.len() == size_per_island
                        &&& islands@[k]@.wf(Individual::genome_len(length as nat))
                        &&& islands@[k]@.buffer == islands@[k]@.individuals
                        &&& forall|m: int|
                            0 <= m < islands@[k]@.individuals.len() ==> (
                            #[trigger] islands@[k]@.individuals[m]).fitness == 0
                        &&& islands@[k].generation == 0
                    },
                forall|k: int|
                    0 <= k < i ==> {
                        &&& (#[trigger] migration_buffer@[k]).fitness == 0
                        &&& migration_buffer@[k].dna@.len() == Individual::genome_len(
                            length as nat,
                        )
                        &&& forall|b: int|
                            0 <= b < migration_buffer@[k].dna@.len() ==> migration_buffer@[k].dna@[b]
                                == 0
                    },
            decreases ISLAND_COUNT - i,
        {
            islands.push(Population::new(size_per_island, length));
            migration_buffer.push(Individual::new_empty(length));
            i += 1;
        }
        let model = GeneticModel { islands, target, migration_buffer };
        model
    }

    /// The index of the best island.
    pub fn best_island_index(&self) -> (best: usize)
        requires
            self@.islands.len() > 0,
            self@.populated(),
        ensures
            best == best_island(self@.islands),
            best < self@.islands.len(),
    {
        let count: usize = self.islands.len();
        let mut best: usize = 0;
        let mut i: usize = 1;
        while i < count
            invariant
                1 <= i <= count,
                count == self.islands@.len(),
                count == self@.islands.len(),
                self@.populated(),
                best < i,
                best == best_island(self@.islands.take(i as int)),
            decreases count - i,
        {
            proof {
                let longer = self@.islands.take(i + 1);
                assert(longer.drop_last() =~= self@.islands.take(i as int));
                assert(self@.islands[i as int].individuals[0]
                    == self.islands@[i as int].individuals@[0]@);
            }
            if self.islands[i].individuals[0].fitness >= self.islands[best].individuals[0].fitness {
                best = i;
            }
            i += 1;
        }
        assert(self@.islands.take(count as int) =~= self@.islands);
        best
    }

    /// The best island.
    pub fn get_best_island(&self) -> (island: &Population)
        requires
            self@.islands.len() > 0,
            self@.populated(),
        ensures
            island@ == self@.islands[best_island(self@.islands)],
            island@.individuals.len() > 0,
    {
        let best: usize = self.best_island_index();
        &self.islands[best]
    }

    /// A copy of the genome at rank zero of the best island.
    pub fn get_best_image(&self) -> (image: Vec<u8>)
        requires
            self@.islands.len() > 0,
            self@.populated(),
        ensures
            image@ == self@.islands[best_island(self@.islands)].individuals[0].genome,
    {
        let island: &Population = self.get_best_island();
        island.individuals[0].dna.clone()
    }

    /// The fitness cached at rank zero of the best island.
    pub fn get_best_fitness(&self) -> (fitness: Fitness)
        requires
            self@.islands.len() > 0,
            self@.populated(),
        ensures
            fitness == self@.best_fitness(),
    {
        self.get_best_island().best_fitness()
    }

    /// The generation of the first island, which all islands share; zero
    /// without islands.
    pub fn get_generation(&self) -> (generation: usize)
        ensures
            generation == self@.generation(),
    {
        if self.islands.len() == 0 {
            return 0;
        }
        self.islands[0].generation
    }

    /// Tests whether there is an island and no island is without members,
    /// which is what looking up the best island takes.
    pub fn is_populated(&self) -> (r: bool)
        ensures
            r == (self@.islands.len() > 0 && self@.populated()),
    {
        let count: usize = self.islands.len();
        if count == 0 {
            return false;
        }
        let mut i: usize = 0;
        while i < count
            invariant
                i <= count,
                count == self.islands@.len(),
                count == self@.islands.len(),
                forall|k: int| 0 <= k < i ==> (#[trigger] self@.islands[k]).individuals.len() > 0,
            decreases count - i,
        {
            assert(self@.islands[i as int] == self.islands@[i as int]@);
            if self.islands[i].individuals.len() == 0 {
                return false;
            }
            i += 1;
        }
        true
    }

    /// Tests whether the ensemble is fit for stepping at `base_rate`.
    pub fn is_ready(&self, base_rate: Rate, is_auto: bool) -> (r: bool)
        ensures
            r == self@.ready(base_rate, is_auto),
    {
        let count: usize = self.islands.len();
        let len: usize = self.target.len();
        if count == 0 || !base_rate.is_usable(is_auto) || self.migration_buffer.len() != count
            || !all_of_len(&self.migration_buffer, len) {
            return false;
        }
        let generation: usize = self.islands[0].generation;
        let mut i: usize = 0;
        while i < count
            invariant
                i <= count,
                count == self.islands@.len(),
                count == self@.islands.len(),
                len == self.target@.len(),
                generation == self@.islands[0].generation,
                forall|k: int|
                    0 <= k < i ==> {
                        &&& (#[trigger] self@.islands[k]).wf(len as nat)
                        &&& self@.islands[k].generation == generation
                        &&& self@.islands[k].individuals.len() > 0
                        &&& len == 0 ==> self@.islands[k].individuals.len() <= 3
                    },
            decreases count - i,
        {
            assert(self@.islands[i as int] == self.islands@[i as int]@);
            let size: usize = self.islands[i].individuals.len();
            if !self.islands[i].is_well_formed(len) || self.islands[i].generation != generation
                || size == 0 || (len == 0 && size > 3) {
                return false;
            }
            i += 1;
        }
        true
    }

    /// One migration pass around the ring. The member at rank zero of every
    /// island is first copied to its staging slot; then the worst member,
    /// the last, of every island is overwritten with the staged copy of its
    /// predecessor. With fewer than two islands nothing changes.
    pub fn migrate(&mut self)
        requires
            old(self)@.wf(),
            old(self)@.islands.len() >= 2 ==> old(self)@.populated(),
        ensures
            final(self)@.wf(),
            final(self)@.target == old(self)@.target,
            final(self)@.islands == migrated(old(self)@.islands),
            final(self)@.staging == staged(old(self)@.islands, old(self)@.staging),
            old(self)@.islands.len() < 2 ==> final(self)@ == old(self)@,
    {
        let num_islands: usize = self.islands.len();
        if num_islands < 2 {
            return;
        }
        let ghost before = self@.islands;
        let mut i: usize = 0;
        while i < num_islands
            invariant
                i <= num_islands,
                num_islands == self.islands@.len(),
                num_islands == self.migration_buffer@.len(),
                self.islands == old(self).islands,
                self.target == old(self).target,
                before == old(self)@.islands,
                old(self)@.wf(),
                old(self)@.populated(),
                uniform(self@.staging, self.target@.len()),
                forall|k: int|
                    0 <= k < i ==> (#[trigger] self.migration_buffer@[k])@
                        == before[k].individuals[0],
            decreases num_islands - i,
        {
            let ghost slots = self.migration_buffer@;
            proof {
                assert(before[i as int].individuals[0] == self.islands@[i as int].individuals@[0]@);
                assert(self@.staging[i as int] == slots[i as int]@);
            }
            self.migration_buffer[i].copy_from(&self.islands[i].individuals[0]);
            i += 1;
            assert forall|k: int| 0 <= k < self@.staging.len() implies (
            #[trigger] self@.staging[k]).genome.len() == self.target@.len() by {
                assert(views(slots)[k] == slots[k]@);
            }
        }
        let ghost slots_after = self.migration_buffer;
        let mut i: usize = 0;
        while i < num_islands
            invariant
                i <= num_islands,
                2 <= num_islands,
                num_islands == self.islands@.len(),
                num_islands == before.len(),
                self.migration_buffer == slots_after,
                num_islands == slots_after@.len(),
                self.target == old(self).target,
                before == old(self)@.islands,
                old(self)@.wf(),
                old(self)@.populated(),
                forall|k: int|
                    0 <= k < num_islands ==> (#[trigger] slots_after@[k])@ == before[k].individuals[0],
                forall|j: int|
                    0 <= j < num_islands ==> (#[trigger] self.islands@[j])@ == if (1 <= j <= i) || (
                    j == 0 && i == num_islands) {
                        migrated(before)[j]
                    } else {
                        before[j]
                    },
            decreases num_islands - i,
        {
            let target_idx: usize = (i + 1) % num_islands;
            assert(target_idx == if i + 1 == num_islands { 0 } else { i + 1 }) by (nonlinear_arith)
                requires
                    target_idx == (i + 1) % (num_islands as int),
                    0 <= i < num_islands,
            ;
            let ghost islands_before = self.islands@;
            proof {
                let worst = before[target_idx as int].individuals.len() - 1;
                assert(before[target_idx as int].individuals[worst]
                    == islands_before[target_idx as int].individuals@[worst]@);
            }
            let worst_idx: usize = self.islands[target_idx].individuals.len() - 1;
            self.islands[target_idx].individuals[worst_idx].copy_from(&self.migration_buffer[i]);
            i += 1;
            proof {
                let moved = self.islands@[target_idx as int]@;
                let expected = migrated(before)[target_idx as int];
                assert(moved.individuals =~= expected.individuals);
            }
        }
    }

    /// One step of the ensemble: every island takes one generational step at
    /// the effective rate for the current best fitness, and a migration pass
    /// follows where the generation then reached is a multiple of fifty.
    pub fn step(&mut self, base_mutation_rate: Rate, is_auto: bool, is_parallel: bool)
        requires
            old(self)@.can_step(base_mutation_rate, is_auto),
        ensures
            old(self)@.steps_to(final(self)@, base_mutation_rate, is_auto),
            final(self)@.ready(base_mutation_rate, is_auto),
            final(self)@.generation() == old(self)@.generation() + 1,
            final(self)@.islands.len() == old(self)@.islands.len(),
            forall|i: int|
                0 <= i < old(self)@.islands.len() ==> (
                #[trigger] final(self)@.islands[i]).individuals.len() == old(
                    self,
                )@.islands[i].individuals.len(),
    {
        let current_fitness: Fitness = self.get_best_fitness();
        let rate: Rate = calculate_effective_mutation_rate(
            current_fitness,
            base_mutation_rate,
            is_auto,
        );
        let count: usize = self.islands.len();
        let ghost before = self@.islands;
        assert forall|i: int| 0 <= i < count implies (#[trigger] self.islands@[i]).can_evolve(
            self.target@,
            rate,
        ) by {
            assert(before[i] == self.islands@[i]@);
        }
        if is_parallel {
            par_evolve(&mut self.islands, self.target.as_slice(), rate);
        } else {
            let mut i: usize = 0;
            while i < count
                invariant
                    i <= count,
                    count == self.islands@.len(),
                    self.target == old(self).target,
                    self.migration_buffer == old(self).migration_buffer,
                    forall|k: int|
                        i <= k < count ==> (#[trigger] self.islands@[k]).can_evolve(
                            self.target@,
                            rate,
                        ),
                    forall|k: int| i <= k < count ==> (#[trigger] self.islands@[k])@ == before[k],
                    forall|k: int|
                        0 <= k < i ==> {
                            &&& (#[trigger] self.islands@[k])@.wf(self.target@.len())
                            &&& evolves_to(before[k], self.islands@[k]@, self.target@, rate)
                        },
                decreases count - i,
            {
                self.islands[i].evolve(self.target.as_slice(), rate, false);
                i += 1;
            }
        }
        let ghost evolved = self@.islands;
        proof {
            assert(all_evolved(before, evolved, self.target@, rate));
        }
        if self.get_generation() % MIGRATION_INTERVAL == 0 {
            self.migrate();
        }
    }

    /// Takes `batch_size` steps, one after the other.
    pub fn step_batch(
        &mut self,
        batch_size: usize,
        base_mutation_rate: Rate,
        is_auto: bool,
        is_parallel: bool,
    )
        requires
            old(self)@.ready(base_mutation_rate, is_auto),
            old(self)@.generation() + batch_size <= usize::MAX,
        ensures
            old(self)@.steps_to_in(final(self)@, batch_size as nat, base_mutation_rate, is_auto),
            final(self)@.ready(base_mutation_rate, is_auto),
            final(self)@.generation() == old(self)@.generation() + batch_size,
            final(self)@.islands.len() == old(self)@.islands.len(),
            forall|i: int|
                0 <= i < old(self)@.islands.len() ==> (
                #[trigger] final(self)@.islands[i]).individuals.len() == old(
                    self,
                )@.islands[i].individuals.len(),
    {
        let ghost mut run: Seq<ModelView> = seq![self@];
        let mut done: usize = 0;
        while done < batch_size
            invariant
                done <= batch_size,
                old(self)@.generation() + batch_size <= usize::MAX,
                self@.ready(base_mutation_rate, is_auto),
                self@.generation() == old(self)@.generation() + done,
                self@.islands.len() == old(self)@.islands.len(),
                forall|i: int|
                    0 <= i < old(self)@.islands.len() ==> (
                    #[trigger] self@.islands[i]).individuals.len() == old(
                        self,
                    )@.islands[i].individuals.len(),
                is_run(run, base_mutation_rate, is_auto),
                run.len() == done + 1,
                run[0] == old(self)@,
                run.last() == self@,
            decreases batch_size - done,
        {
            self.step(base_mutation_rate, is_auto, is_parallel);
            done += 1;
            proof {
                run = run.push(self@);
            }
        }
    }
}

} // verus!
