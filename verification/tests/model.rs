use image_ga::calculate_effective_mutation_rate;
use image_ga::Fitness;
use image_ga::GeneticModel;
use image_ga::Rate;

fn fitness(percent_times_ten: u128) -> Fitness {
    Fitness { score: percent_times_ten, scale: 1000 }
}

fn as_float(rate: Rate) -> f64 {
    rate.numer as f64 / rate.denom as f64
}

#[test]
fn test_mutation_rate_auto_off() {
    let rate = calculate_effective_mutation_rate(fitness(990), Rate { numer: 5, denom: 100 }, false);
    assert_eq!(as_float(rate), 0.05);
}

#[test]
fn test_mutation_rate_auto_on_low_fitness() {
    let rate = calculate_effective_mutation_rate(fitness(500), Rate { numer: 5, denom: 100 }, true);
    assert_eq!(as_float(rate), 0.05);
}

#[test]
fn test_mutation_rate_auto_on_high_fitness() {
    let rate = calculate_effective_mutation_rate(fitness(960), Rate { numer: 1, denom: 10 }, true);
    assert!((as_float(rate) - 0.08).abs() < 1e-10);
}

#[test]
fn test_mutation_rate_auto_on_very_high_fitness() {
    let rate = calculate_effective_mutation_rate(fitness(991), Rate { numer: 1, denom: 10 }, true);
    assert!((as_float(rate) - 0.03).abs() < 1e-10);
}

#[test]
fn test_mutation_rate_gradient() {
    let base = Rate { numer: 1, denom: 10 };
    assert_eq!(as_float(calculate_effective_mutation_rate(fitness(500), base, true)), 0.1);
    assert!((as_float(calculate_effective_mutation_rate(fitness(920), base, true)) - 0.09).abs() < 1e-10);
    assert!((as_float(calculate_effective_mutation_rate(fitness(960), base, true)) - 0.08).abs() < 1e-10);
    assert!((as_float(calculate_effective_mutation_rate(fitness(975), base, true)) - 0.07).abs() < 1e-10);
    assert!((as_float(calculate_effective_mutation_rate(fitness(985), base, true)) - 0.05).abs() < 1e-10);
    assert!((as_float(calculate_effective_mutation_rate(fitness(995), base, true)) - 0.03).abs() < 1e-10);
}

#[test]
fn test_migrate_execution() {
    let target: Vec<u8> = vec![0u8; 4096];
    let mut model: GeneticModel = GeneticModel::new(&target, 100, 32);

    model.migrate();

    model.migrate();
}
