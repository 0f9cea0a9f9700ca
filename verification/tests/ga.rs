use image_ga::Individual;
use image_ga::Population;
use image_ga::Rate;

/// The fitness of an individual as a float: its score over the full score
/// of its genome length.
fn fitness_of(ind: &Individual) -> f64 {
    ind.fitness as f64 / (65025.0 * ind.dna.len() as f64)
}

/// The score that stands for `fitness` on a genome of `len` bytes.
fn score_for(fitness: f64, len: usize) -> u128 {
    (fitness * 65025.0 * len as f64).round() as u128
}

fn rate(numer: u64, denom: u64) -> Rate {
    Rate { numer, denom }
}

#[test]
fn test_individual_size() {
    let ind: Individual = Individual::new(32);
    assert_eq!(ind.dna.len(), 4096);
}

#[test]
fn test_fitness_perfect_match() {
    let mut ind: Individual = Individual::new(32);
    let target: Vec<u8> = vec![0; 4096];
    ind.dna = vec![0u8; 4096];

    ind.calculate_fitness(&target);

    assert_eq!(fitness_of(&ind), 1.0);
    assert_eq!(ind.fitness, 65025 * 4096);
}

#[test]
fn test_mutation_changes_dna() {
    let mut ind: Individual = Individual::new(32);
    ind.mutate(rate(1, 1));

    let is_changed: bool = ind.dna.iter().any(|&x| x != 0);
    assert!(is_changed, "DNA should change when mutation rate is 1.0");
}

#[test]
fn test_population_new() {
    let size: usize = 10;
    let length: usize = 32;
    let pop: Population = Population::new(size, length);

    assert_eq!(pop.individuals.len(), size);
}

#[test]
fn test_compute_fitnesses() {
    let mut pop: Population = Population::new(10, 32);
    let target: Vec<u8> = vec![0u8; 4096];

    assert_eq!(fitness_of(&pop.individuals[0]), 0.0);

    pop.compute_fitnesses(&target, false);

    assert!(0.0 < fitness_of(&pop.individuals[0]));
}

#[test]
fn test_sort() {
    let mut pop: Population = Population::new(3, 32);
    pop.individuals[0].fitness = score_for(0.1, 4096);
    pop.individuals[1].fitness = score_for(0.9, 4096);
    pop.individuals[2].fitness = score_for(0.5, 4096);

    pop.sort_by_fitness(false);

    assert_eq!(fitness_of(&pop.individuals[0]), 0.9);
}

#[test]
fn test_evolve() {
    let size: usize = 10;
    let target: Vec<u8> = vec![0u8; 4096];
    let mut pop: Population = Population::new(size, 32);

    pop.compute_fitnesses(&target, false);
    pop.sort_by_fitness(false);
    let prevscore: f64 = fitness_of(&pop.individuals[0]);

    pop.evolve(&target, rate(1, 10), false);

    assert_eq!(pop.generation, 1);
    assert_eq!(pop.individuals.len(), size);
    assert!(prevscore <= fitness_of(&pop.individuals[0]));
}

#[test]
fn test_elitism() {
    let size: usize = 10;
    let mut pop: Population = Population::new(size, 32);
    let target: Vec<u8> = vec![100u8; 4096];

    pop.compute_fitnesses(&target, false);
    pop.sort_by_fitness(false);

    let best_fitness_gen0: f64 = fitness_of(&pop.individuals[0]);

    pop.evolve(&target, rate(1, 10), false);

    assert!(
        fitness_of(&pop.individuals[0]) >= best_fitness_gen0,
        "Best fitness decreased! Elitism might be broken."
    );
}

#[test]
fn test_individual_dynamic_size() {
    let length: usize = 64;
    let ind: Individual = Individual::new(length);

    assert_eq!(ind.dna.len(), 64 * 64 * 4);
}

#[test]
fn test_parallel_execution() {
    let size: usize = 100;
    let target: Vec<u8> = vec![0u8; 4096];
    let mut pop: Population = Population::new(size, 32);

    pop.compute_fitnesses(&target, true);

    assert!(fitness_of(&pop.individuals[0]) > 0.0);
}

#[test]
fn test_crossover_into() {
    let length: usize = 10;
    let mut parent_a: Individual = Individual::new(length);
    parent_a.dna.fill(0);
    let mut parent_b: Individual = Individual::new(length);
    parent_b.dna.fill(255);
    let mut child: Individual = Individual::new(length);
    child.dna.fill(168);

    parent_a.crossover_into(&parent_b, &mut child);

    assert_eq!(child.dna.len(), parent_a.dna.len());

    let has_zero: bool = child.dna.iter().any(|&x| x == 0);
    let has_255: bool = child.dna.iter().any(|&x| x == 255);
    assert!(has_zero || has_255, "DNA should be overwritten by parents");
}

#[test]
fn test_copy_from() {
    let length: usize = 10;
    let mut ind1: Individual = Individual::new(length);
    ind1.dna.fill(10);
    ind1.fitness = score_for(0.5, 400);

    let mut ind2: Individual = Individual::new(length);
    ind2.dna.fill(20);
    ind2.fitness = score_for(0.1, 400);

    ind2.copy_from(&ind1);

    assert_eq!(ind2.dna, ind1.dna);
    assert_eq!(fitness_of(&ind2), fitness_of(&ind1));
    assert_eq!(fitness_of(&ind2), 0.5);

    assert_eq!(ind1.dna[0], 10);
}
