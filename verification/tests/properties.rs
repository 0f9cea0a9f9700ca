use image_ga::calculate_effective_mutation_rate;
use image_ga::fitness::MAX_SQUARED_DIFF;
use image_ga::individual::offset_of;
use image_ga::individual::perturbed;
use image_ga::individual::spread_for;
use image_ga::rate::mutation_count_for;
use image_ga::rate::scale_tenths_for;
use image_ga::Fitness;
use image_ga::GeneticModel;
use image_ga::Individual;
use image_ga::Population;
use image_ga::Rate;

fn individual(dna: Vec<u8>, fitness: u128) -> Individual {
    Individual { dna, fitness }
}

fn rate(numer: u64, denom: u64) -> Rate {
    Rate { numer, denom }
}

fn population_of(genomes: Vec<Vec<u8>>) -> Population {
    let individuals: Vec<Individual> = genomes.into_iter().map(|dna| individual(dna, 0)).collect();
    let buffer: Vec<Individual> = individuals.clone();
    Population { individuals, buffer, generation: 0 }
}

#[test]
fn fitness_of_identical_genomes_is_one() {
    let genome: Vec<u8> = vec![0, 17, 128, 255, 3, 99];
    let mut ind = individual(genome.clone(), 0);
    ind.calculate_fitness(&genome);
    assert_eq!(ind.fitness, 65025 * 6);
    assert_eq!(ind.dna, genome);
}

#[test]
fn fitness_of_opposite_genomes_is_zero() {
    let mut ind = individual(vec![0, 255, 0, 255], 7);
    ind.calculate_fitness(&[255, 0, 255, 0]);
    assert_eq!(ind.fitness, 0);
}

#[test]
fn fitness_score_is_full_score_minus_squared_error() {
    let mut ind = individual(vec![10, 20], 0);
    ind.calculate_fitness(&[13, 16]);
    assert_eq!(ind.fitness, 2 * 65025 - 25);
    assert_eq!(MAX_SQUARED_DIFF, 255 * 255);
}

#[test]
fn fitness_of_empty_genome_is_zero_over_zero() {
    let mut ind = individual(Vec::new(), 5);
    ind.calculate_fitness(&[]);
    assert_eq!(ind.fitness, 0);
}

#[test]
fn fitness_falls_as_error_grows() {
    let target: Vec<u8> = vec![100; 16];
    let mut near = individual(vec![101; 16], 0);
    let mut far = individual(vec![110; 16], 0);
    near.calculate_fitness(&target);
    far.calculate_fitness(&target);
    assert!(near.fitness > far.fitness);
    assert!(near.fitness <= 65025 * 16);
    assert_eq!(near.fitness, 65025 * 16 - 16);
    assert_eq!(far.fitness, 65025 * 16 - 1600);
}

#[test]
fn fitness_over_blocks_and_remainder_matches_plain_sum() {
    let genome: Vec<u8> = (0..19).map(|i| (i * 13 % 256) as u8).collect();
    let target: Vec<u8> = (0..19).map(|i| (255 - i * 7 % 256) as u8).collect();
    let mut expected: u128 = 65025 * 19;
    for i in 0..19 {
        let d = genome[i] as i64 - target[i] as i64;
        expected -= (d * d) as u128;
    }
    let mut ind = individual(genome, 0);
    ind.calculate_fitness(&target);
    assert_eq!(ind.fitness, expected);
}

#[test]
fn exceeds_percent_is_exclusive() {
    assert!(!Fitness { score: 99, scale: 100 }.exceeds_percent(99));
    assert!(Fitness { score: 991, scale: 1000 }.exceeds_percent(99));
    assert!(!Fitness { score: 0, scale: 0 }.exceeds_percent(90));
    assert!(Fitness { score: 1, scale: 1 }.exceeds_percent(99));
    assert!(!Fitness { score: 1, scale: 1 }.exceeds_percent(100));
    let scale: u128 = 65025 * 4096;
    assert!(!Fitness { score: scale / 100 * 95, scale }.exceeds_percent(95));
    assert!(Fitness { score: scale / 100 * 95 + 1, scale }.exceeds_percent(95));
    assert!(Fitness { score: u128::MAX, scale: u128::MAX }.exceeds_percent(99));
}

#[test]
fn mutation_count_is_rounded_and_at_least_one() {
    assert_eq!(mutation_count_for(4096, rate(1, 1)), 4096);
    assert_eq!(mutation_count_for(4096, rate(1, 10)), 410);
    assert_eq!(mutation_count_for(4096, rate(1, 100)), 41);
    assert_eq!(mutation_count_for(10, rate(1, 100)), 1);
    assert_eq!(mutation_count_for(5, rate(1, 10)), 1);
    assert_eq!(mutation_count_for(3, rate(1, 2)), 2);
    assert_eq!(mutation_count_for(4, rate(1, 10)), 1);
    assert_eq!(mutation_count_for(4096, rate(0, 1)), 1);
    assert_eq!(mutation_count_for(0, rate(1, 1)), 1);
    assert_eq!(mutation_count_for(100, rate(3, 1)), 300);
    assert_eq!(
        mutation_count_for(usize::MAX, rate(u64::MAX, 1)),
        usize::MAX as u128 * u64::MAX as u128
    );
}

#[test]
fn schedule_thresholds_in_order() {
    assert_eq!(scale_tenths_for(Fitness { score: 995, scale: 1000 }), 3);
    assert_eq!(scale_tenths_for(Fitness { score: 990, scale: 1000 }), 5);
    assert_eq!(scale_tenths_for(Fitness { score: 981, scale: 1000 }), 5);
    assert_eq!(scale_tenths_for(Fitness { score: 980, scale: 1000 }), 7);
    assert_eq!(scale_tenths_for(Fitness { score: 971, scale: 1000 }), 7);
    assert_eq!(scale_tenths_for(Fitness { score: 970, scale: 1000 }), 8);
    assert_eq!(scale_tenths_for(Fitness { score: 951, scale: 1000 }), 8);
    assert_eq!(scale_tenths_for(Fitness { score: 950, scale: 1000 }), 9);
    assert_eq!(scale_tenths_for(Fitness { score: 901, scale: 1000 }), 9);
    assert_eq!(scale_tenths_for(Fitness { score: 900, scale: 1000 }), 10);
    assert_eq!(scale_tenths_for(Fitness { score: 0, scale: 1000 }), 10);
    assert_eq!(scale_tenths_for(Fitness { score: 0, scale: 0 }), 10);
}

#[test]
fn effective_rate_scenarios() {
    let base = rate(1, 10);
    let at_threshold = calculate_effective_mutation_rate(Fitness { score: 99, scale: 100 }, base, true);
    assert_eq!(at_threshold, rate(5, 100));
    let above = calculate_effective_mutation_rate(Fitness { score: 991, scale: 1000 }, base, true);
    assert_eq!(above, rate(3, 100));
    assert!((above.numer as f64 / above.denom as f64 - 0.03).abs() < 1e-10);
    let low = calculate_effective_mutation_rate(Fitness { score: 5, scale: 10 }, base, true);
    assert_eq!(low, base);
    for score in [0u128, 50, 90, 95, 99, 100] {
        let off = calculate_effective_mutation_rate(Fitness { score, scale: 100 }, base, false);
        assert_eq!(off, base);
    }
    let wide = rate(u64::MAX, 1);
    assert!(!wide.is_scalable());
    assert!(wide.is_usable(false));
    assert!(!wide.is_usable(true));
    assert!(!rate(1, 0).is_usable(false));
    assert_eq!(calculate_effective_mutation_rate(Fitness { score: 1, scale: 1 }, wide, false), wide);
}

#[test]
fn perturbed_byte_is_clamped() {
    assert_eq!(perturbed(100, 7), 107);
    assert_eq!(perturbed(250, 30), 255);
    assert_eq!(perturbed(3, -5), 0);
    assert_eq!(perturbed(0, 0), 0);
    assert_eq!(perturbed(255, i16::MAX), 255);
    assert_eq!(perturbed(255, i16::MIN), 0);
    assert_eq!(perturbed(30, -30), 0);
    assert_eq!(perturbed(225, 30), 255);
}

#[test]
fn point_mutation_changes_one_byte() {
    let mut ind = individual(vec![10, 20, 30, 40], 77);
    ind.apply_mutation(2, -4);
    assert_eq!(ind.dna, vec![10, 20, 26, 40]);
    assert_eq!(ind.fitness, 77);
    ind.apply_mutation(0, -30);
    assert_eq!(ind.dna, vec![0, 20, 26, 40]);
}

#[test]
fn mutation_pass_keeps_length_and_fitness_and_moves_bytes() {
    let mut ind = individual(vec![128; 4096], 42);
    ind.mutate(rate(1, 1));
    assert_eq!(ind.dna.len(), 4096);
    assert_eq!(ind.fitness, 42);
    assert!(ind.dna.iter().any(|&b| b != 128));
}

#[test]
fn single_mutation_moves_at_most_one_byte_by_at_most_thirty() {
    for _ in 0..200 {
        let mut ind = individual(vec![128; 64], 0);
        ind.mutate(rate(0, 1));
        let changed: Vec<&u8> = ind.dna.iter().filter(|&&b| b != 128).collect();
        assert!(changed.len() <= 1);
        for &b in changed {
            assert!((98..=158).contains(&b));
        }
    }
}

#[test]
fn splice_takes_segment_from_partner() {
    let a = individual(vec![0; 8], 11);
    let b = individual(vec![255; 8], 22);
    let mut child = individual(vec![168; 8], 33);
    a.splice_into(&b, &mut child, 6, 2);
    assert_eq!(child.dna, vec![0, 0, 255, 255, 255, 255, 0, 0]);
    assert_eq!(child.fitness, 0);
    a.splice_into(&b, &mut child, 3, 3);
    assert_eq!(child.dna, vec![0; 8]);
    a.splice_into(&b, &mut child, 0, 8);
    assert_eq!(child.dna, vec![255; 8]);
}

#[test]
fn crossover_bytes_come_from_parents_at_same_index() {
    for _ in 0..100 {
        let a = Individual::new(4);
        let b = Individual::new(4);
        let mut child = individual(vec![7; 64], 9);
        a.crossover_into(&b, &mut child);
        assert_eq!(child.dna.len(), 64);
        assert_eq!(child.fitness, 0);
        for i in 0..64 {
            assert!(child.dna[i] == a.dna[i] || child.dna[i] == b.dna[i]);
        }
        assert_eq!(child.dna[63], a.dna[63]);
    }
}

#[test]
fn crossover_returns_a_child_of_both_parents() {
    for _ in 0..100 {
        let a = individual(vec![0; 32], 5);
        let b = individual(vec![255; 32], 6);
        let child = a.crossover(&b);
        assert_eq!(child.dna.len(), 32);
        assert_eq!(child.fitness, 0);
        assert_eq!(a.dna, vec![0; 32]);
        let first = child.dna.iter().position(|&x| x == 255);
        let last = child.dna.iter().rposition(|&x| x == 255);
        if let (Some(first), Some(last)) = (first, last) {
            assert!(last < 31);
            for i in 0..32 {
                assert_eq!(child.dna[i], if first <= i && i <= last { 255 } else { 0 });
            }
        }
    }
}

#[test]
fn new_individuals_are_random_and_unscored() {
    let ind = Individual::new(16);
    assert_eq!(ind.dna.len(), 1024);
    assert_eq!(ind.fitness, 0);
    assert!(ind.dna.iter().any(|&b| b != ind.dna[0]));
    let empty = Individual::new(0);
    assert!(empty.dna.is_empty());
}

#[test]
fn empty_individuals_are_zeroed() {
    let ind = Individual::new_empty(3);
    assert_eq!(ind.dna, vec![0u8; 36]);
    assert_eq!(ind.fitness, 0);
}

#[test]
fn clone_copies_genome_and_fitness() {
    let ind = individual(vec![1, 2, 3, 4], 5);
    let copy = ind.clone();
    assert_eq!(copy.dna, vec![1, 2, 3, 4]);
    assert_eq!(copy.fitness, 5);
}

#[test]
fn population_new_has_uniform_shape() {
    let pop = Population::new(7, 5);
    assert_eq!(pop.individuals.len(), 7);
    assert_eq!(pop.buffer.len(), 7);
    assert_eq!(pop.generation, 0);
    assert!(pop.is_well_formed(100));
    assert!(!pop.is_well_formed(99));
    for i in 0..7 {
        assert_eq!(pop.individuals[i].dna.len(), 100);
        assert_eq!(pop.individuals[i].fitness, 0);
        assert_eq!(pop.buffer[i].dna, pop.individuals[i].dna);
    }
    let none = Population::new(0, 5);
    assert!(none.individuals.is_empty());
}

#[test]
fn sort_ranks_best_first_in_both_modes() {
    for parallel in [false, true] {
        let mut pop = population_of((0..50u8).map(|i| vec![i; 4]).collect());
        for i in 0..50 {
            pop.individuals[i].fitness = ((i * 37) % 50) as u128;
        }
        pop.sort_by_fitness(parallel);
        for i in 0..50 {
            assert_eq!(pop.individuals[i].fitness, 49 - i as u128);
            let origin = pop.individuals[i].dna[0] as usize;
            assert_eq!((origin * 37) % 50, 49 - i);
        }
    }
}

#[test]
fn compute_fitnesses_scores_every_member_in_both_modes() {
    for parallel in [false, true] {
        let mut pop = population_of((0..20u8).map(|i| vec![i; 4]).collect());
        pop.compute_fitnesses(&[0, 0, 0, 0], parallel);
        for i in 0..20u128 {
            assert_eq!(pop.individuals[i as usize].fitness, 4 * 65025 - 4 * i * i);
            assert_eq!(pop.individuals[i as usize].dna, vec![i as u8; 4]);
        }
    }
}

#[test]
fn evolve_keeps_elites_and_breeds_the_rest_in_both_modes() {
    for parallel in [false, true] {
        let target: Vec<u8> = vec![0; 16];
        let mut pop = population_of((0..10u8).map(|i| vec![100 + 10 * (9 - i); 16]).collect());
        for slot in pop.buffer.iter_mut() {
            slot.dna.fill(7);
            slot.fitness = 1;
        }
        pop.evolve(&target, rate(0, 1), parallel);
        assert_eq!(pop.generation, 1);
        assert_eq!(pop.individuals.len(), 10);
        assert_eq!(pop.buffer.len(), 10);
        for i in 0..10u128 {
            let byte = 100 + 10 * i;
            assert_eq!(pop.buffer[i as usize].dna, vec![byte as u8; 16]);
            assert_eq!(pop.buffer[i as usize].fitness, 16 * 65025 - 16 * byte * byte);
        }
        for i in 0..3 {
            assert_eq!(pop.individuals[i].dna, pop.buffer[i].dna);
            assert_eq!(pop.individuals[i].fitness, pop.buffer[i].fitness);
        }
        for i in 3..10 {
            let child = &pop.individuals[i];
            assert_eq!(child.fitness, 0);
            assert_eq!(child.dna.len(), 16);
            let mut off_pool: usize = 0;
            for &b in child.dna.iter() {
                if ![100u8, 110, 120, 130, 140].contains(&b) {
                    off_pool += 1;
                    assert!((70..=170).contains(&b));
                }
            }
            assert!(off_pool <= 1);
        }
    }
}

#[test]
fn evolve_of_small_populations_only_copies() {
    for size in 0..4usize {
        let target: Vec<u8> = vec![50; 4];
        let mut pop = population_of((0..size).map(|i| vec![i as u8; 4]).collect());
        pop.evolve(&target, rate(1, 1), false);
        assert_eq!(pop.generation, 1);
        assert_eq!(pop.individuals.len(), size);
        for i in 0..size {
            assert_eq!(pop.individuals[i].dna, pop.buffer[i].dna);
            assert_eq!(pop.individuals[i].fitness, pop.buffer[i].fitness);
            assert_eq!(pop.individuals[i].dna, vec![(size - 1 - i) as u8; 4]);
        }
    }
}

#[test]
fn best_fitness_never_falls_over_many_steps() {
    for parallel in [false, true] {
        let target: Vec<u8> = vec![90; 64];
        let mut pop = Population::new(12, 4);
        let mut best: u128 = 0;
        for generation in 1..=30 {
            pop.evolve(&target, rate(1, 10), parallel);
            assert_eq!(pop.generation, generation);
            let now = pop.best_fitness();
            assert_eq!(now.scale, 65025 * 64);
            assert!(now.score >= best);
            assert!(now.score <= now.scale);
            best = now.score;
        }
    }
}

#[test]
fn model_new_splits_population_over_four_islands() {
    let target: Vec<u8> = vec![1; 16];
    let model = GeneticModel::new(&target, 10, 2);
    assert_eq!(model.islands.len(), 4);
    assert_eq!(model.migration_buffer.len(), 4);
    assert_eq!(model.target, target);
    for island in model.islands.iter() {
        assert_eq!(island.individuals.len(), 2);
        assert_eq!(island.generation, 0);
        assert!(island.is_well_formed(16));
    }
    for slot in model.migration_buffer.iter() {
        assert_eq!(slot.dna, vec![0u8; 16]);
        assert_eq!(slot.fitness, 0);
    }
    assert!(model.is_populated());
    assert!(model.is_ready(rate(1, 10), true));
    assert_eq!(model.get_generation(), 0);
}

#[test]
fn model_is_not_ready_for_a_target_of_another_length() {
    let model = GeneticModel::new(&[1, 2, 3], 8, 2);
    assert!(!model.is_ready(rate(1, 10), false));
    let unpopulated = GeneticModel::new(&[0; 16], 3, 2);
    assert!(!unpopulated.is_populated());
    assert!(!unpopulated.is_ready(rate(1, 10), false));
    let ready = GeneticModel::new(&[0; 16], 8, 2);
    assert!(!ready.is_ready(rate(1, 0), false));
    assert!(!ready.is_ready(rate(u64::MAX, 1), true));
    assert!(ready.is_ready(rate(u64::MAX, 1), false));
}

#[test]
fn migrate_moves_each_elite_to_the_next_island() {
    let target: Vec<u8> = vec![0; 4];
    let mut model = GeneticModel::new(&target, 12, 1);
    for i in 0..4 {
        for (k, ind) in model.islands[i].individuals.iter_mut().enumerate() {
            ind.dna.fill((10 * i + k) as u8);
            ind.fitness = (100 * i + k) as u128;
        }
    }
    model.migrate();
    for i in 0..4usize {
        let donor = (i + 3) % 4;
        let island = &model.islands[i];
        assert_eq!(island.individuals.len(), 3);
        assert_eq!(island.individuals[0].dna, vec![(10 * i) as u8; 4]);
        assert_eq!(island.individuals[0].fitness, (100 * i) as u128);
        assert_eq!(island.individuals[1].dna, vec![(10 * i + 1) as u8; 4]);
        assert_eq!(island.individuals[1].fitness, (100 * i + 1) as u128);
        assert_eq!(island.individuals[2].dna, vec![(10 * donor) as u8; 4]);
        assert_eq!(island.individuals[2].fitness, (100 * donor) as u128);
        assert_eq!(model.migration_buffer[i].dna, vec![(10 * i) as u8; 4]);
        assert_eq!(model.migration_buffer[i].fitness, (100 * i) as u128);
        assert_eq!(island.generation, 0);
    }
}

#[test]
fn migrate_with_single_member_islands_rotates_the_elites() {
    let target: Vec<u8> = vec![0; 4];
    let mut model = GeneticModel::new(&target, 4, 1);
    for i in 0..4 {
        model.islands[i].individuals[0].dna.fill(i as u8 + 1);
        model.islands[i].individuals[0].fitness = i as u128 + 1;
    }
    model.migrate();
    for i in 0..4usize {
        let donor = (i + 3) % 4;
        assert_eq!(model.islands[i].individuals[0].dna, vec![donor as u8 + 1; 4]);
        assert_eq!(model.islands[i].individuals[0].fitness, donor as u128 + 1);
    }
}

#[test]
fn second_migration_in_a_row_changes_nothing() {
    let target: Vec<u8> = vec![0; 16];
    let mut model = GeneticModel::new(&target, 20, 2);
    model.migrate();
    let once: Vec<Vec<Vec<u8>>> = model
        .islands
        .iter()
        .map(|island| island.individuals.iter().map(|ind| ind.dna.clone()).collect())
        .collect();
    model.migrate();
    for (i, island) in model.islands.iter().enumerate() {
        for (k, ind) in island.individuals.iter().enumerate() {
            assert_eq!(ind.dna, once[i][k]);
        }
        let donor = (i + 3) % 4;
        assert_eq!(island.individuals[4].dna, model.islands[donor].individuals[0].dna);
    }
}

#[test]
fn migrate_twice_keeps_member_counts() {
    let target: Vec<u8> = vec![0u8; 4096];
    let mut model = GeneticModel::new(&target, 100, 32);
    model.migrate();
    model.migrate();
    assert_eq!(model.islands.len(), 4);
    for island in model.islands.iter() {
        assert_eq!(island.individuals.len(), 25);
        assert_eq!(island.buffer.len(), 25);
    }
}

#[test]
fn migrate_with_fewer_than_two_islands_changes_nothing() {
    let mut alone = GeneticModel {
        islands: vec![population_of(vec![vec![1, 2, 3, 4], vec![5, 6, 7, 8]])],
        target: vec![0; 4],
        migration_buffer: vec![individual(vec![9; 4], 3)],
    };
    alone.islands[0].individuals[0].fitness = 12;
    alone.migrate();
    assert_eq!(alone.islands.len(), 1);
    assert_eq!(alone.islands[0].individuals[0].dna, vec![1, 2, 3, 4]);
    assert_eq!(alone.islands[0].individuals[0].fitness, 12);
    assert_eq!(alone.islands[0].individuals[1].dna, vec![5, 6, 7, 8]);
    assert_eq!(alone.islands[0].buffer[0].dna, vec![1, 2, 3, 4]);
    assert_eq!(alone.migration_buffer[0].dna, vec![9; 4]);
    assert_eq!(alone.migration_buffer[0].fitness, 3);

    let mut none = GeneticModel { islands: Vec::new(), target: vec![0; 4], migration_buffer: Vec::new() };
    none.migrate();
    assert!(none.islands.is_empty());
    assert_eq!(none.get_generation(), 0);
    assert!(!none.is_populated());
}

#[test]
fn best_island_is_the_last_of_the_fittest() {
    let target: Vec<u8> = vec![0; 4];
    let mut model = GeneticModel::new(&target, 8, 1);
    let scores: [u128; 4] = [5, 7, 7, 3];
    for i in 0..4 {
        model.islands[i].individuals[0].fitness = scores[i];
        model.islands[i].individuals[0].dna.fill(i as u8 + 20);
    }
    assert_eq!(model.best_island_index(), 2);
    assert_eq!(model.get_best_image(), vec![22u8; 4]);
    assert_eq!(model.get_best_fitness(), Fitness { score: 7, scale: 65025 * 4 });
    assert_eq!(model.get_best_island().individuals[0].dna, vec![22u8; 4]);
}

#[test]
fn step_advances_every_island_in_both_modes() {
    for parallel in [false, true] {
        let target: Vec<u8> = vec![200; 16];
        let mut model = GeneticModel::new(&target, 40, 2);
        let mut best: u128 = 0;
        for generation in 1..=3usize {
            model.step(rate(1, 10), true, parallel);
            assert_eq!(model.get_generation(), generation);
            for island in model.islands.iter() {
                assert_eq!(island.generation, generation);
                assert_eq!(island.individuals.len(), 10);
                assert!(island.is_well_formed(16));
            }
            let now = model.get_best_fitness();
            assert!(now.score >= best);
            best = now.score;
        }
    }
}

#[test]
fn step_batch_migrates_at_generation_fifty() {
    let target: Vec<u8> = vec![33; 4];
    let mut model = GeneticModel::new(&target, 16, 1);
    model.step_batch(49, rate(1, 10), false, false);
    assert_eq!(model.get_generation(), 49);
    model.step_batch(0, rate(1, 10), false, false);
    assert_eq!(model.get_generation(), 49);
    model.step(rate(1, 10), false, false);
    assert_eq!(model.get_generation(), 50);
    for i in 0..4usize {
        let donor = (i + 3) % 4;
        assert_eq!(model.islands[i].individuals.len(), 4);
        assert_eq!(model.islands[i].individuals[3].dna, model.islands[donor].individuals[0].dna);
        assert_eq!(
            model.islands[i].individuals[3].fitness,
            model.islands[donor].individuals[0].fitness
        );
        assert_eq!(model.migration_buffer[i].dna, model.islands[i].individuals[0].dna);
    }
    assert!(model.is_ready(rate(1, 10), false));
}

#[test]
fn fitter_individual_ranks_first() {
    let strong = individual(vec![1], 9);
    let weak = individual(vec![2], 4);
    let peer = individual(vec![3], 9);
    assert_eq!(image_ga::ranking::fitness_order(&strong, &weak), std::cmp::Ordering::Less);
    assert_eq!(image_ga::ranking::fitness_order(&weak, &strong), std::cmp::Ordering::Greater);
    assert_eq!(image_ga::ranking::fitness_order(&strong, &peer), std::cmp::Ordering::Equal);
}

#[test]
fn copy_bytes_overwrites_the_segment_only() {
    let mut dst: Vec<u8> = vec![1, 2, 3, 4, 5];
    let src: Vec<u8> = vec![9, 8, 7, 6, 5];
    image_ga::individual::copy_bytes(&mut dst, &src, 1, 3);
    assert_eq!(dst, vec![1, 8, 7, 4, 5]);
    image_ga::individual::copy_bytes(&mut dst, &src, 2, 2);
    assert_eq!(dst, vec![1, 8, 7, 4, 5]);
    image_ga::individual::copy_bytes(&mut dst, &src, 0, 5);
    assert_eq!(dst, src);
}

#[test]
fn offspring_comes_from_the_pool_only() {
    let parents: Vec<Individual> = vec![
        individual(vec![10; 32], 3),
        individual(vec![20; 32], 2),
        individual(vec![200; 32], 1),
    ];
    for _ in 0..100 {
        let mut child = individual(vec![99; 32], 8);
        image_ga::population::breed_into(&parents, 2, &mut child, rate(0, 1));
        assert_eq!(child.fitness, 0);
        assert_eq!(child.dna.len(), 32);
        let off_pool = child.dna.iter().filter(|&&b| b != 10 && b != 20).count();
        assert!(off_pool <= 1);
        assert!(child.dna.iter().all(|&b| b <= 50));
    }
}

#[test]
fn all_of_len_tests_every_genome() {
    let members = vec![individual(vec![0; 4], 0), individual(vec![0; 4], 0)];
    assert!(image_ga::population::all_of_len(&members, 4));
    assert!(!image_ga::population::all_of_len(&members, 3));
    let uneven = vec![individual(vec![0; 4], 0), individual(vec![0; 5], 0)];
    assert!(!image_ga::population::all_of_len(&uneven, 4));
    assert!(image_ga::population::all_of_len(&Vec::new(), 7));
}

#[test]
fn draws_map_to_offsets_in_order() {
    assert_eq!(offset_of(0, 5), -5);
    assert_eq!(offset_of(5, 5), 0);
    assert_eq!(offset_of(10, 5), 5);
    assert_eq!(offset_of(0, 30), -30);
    assert_eq!(offset_of(37, 30), 7);
    assert_eq!(offset_of(60, 30), 30);
    assert_eq!(offset_of(0, 0), 0);
    assert_eq!(offset_of(65534, i16::MAX), i16::MAX);
    assert_eq!(offset_of(0, i16::MAX), -i16::MAX);
}

#[test]
fn spread_is_five_for_fine_and_thirty_for_coarse() {
    assert_eq!(spread_for(true), 5);
    assert_eq!(spread_for(false), 30);
}
