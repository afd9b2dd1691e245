use genetic_alg::bits::{exchange_low, flip_bit, low_mask};
use genetic_alg::chromosome::Chromosome;
use genetic_alg::random::trial_succeeds;
use genetic_alg::run::{pairing_order, swap_entries, ConfigError, GenerationStats, Run};
use genetic_alg::selection::{select_index, weight_total};

fn chromosomes(values: &[u64]) -> Vec<Chromosome> {
    values.iter().map(|&v| Chromosome { data: v, fitness: 0 }).collect()
}

#[test]
fn new_chromosome() {
    let test = Chromosome::new(30);
    assert_eq!(test.data.count_ones() + test.data.count_zeros(), 64);
}

#[test]
fn new_run() {
    let run = Run::new(200_000, 500_000, 32, 32, 16).unwrap();
    assert!(
        run.p_cross == 200_000
            && run.p_mut == 500_000
            && run.width == 32
            && run.n == 32
            && run.z == 16
            && run.period == 0
            && run.population.len() == 32
    );
}

#[test]
fn select_test() {
    let test_run = Run::new(200_000, 500_000, 32, 32, 16).unwrap();
    let weights: Vec<u64> = (0..32).map(|_| rand::random::<u32>() as u64).collect();
    let new_var = test_run.select(&weights);
    assert!(test_run.population.contains(&new_var));
}

#[test]
fn recomb_test() {
    let mut test_run = Run::new(200_000, 500_000, 32, 32, 16).unwrap();
    test_run.recomb();
    assert_eq!(test_run.population.len(), 32);
}

#[test]
fn shift_test() {
    let number = exchange_low(0b0000_1100, 14, 3, 8);
    assert_eq!(number, 14);
}

#[test]
fn flip_test() {
    let ind = flip_bit(0b1000_0000, 7, 8);
    assert_eq!(ind, 0);
}

#[test]
fn cross_test() {
    let mut test_run = Run::new(200_000, 500_000, 64, 32, 16).unwrap();
    let old_population = test_run.population.clone();
    test_run.cross();
    assert!((test_run.population != old_population) && (old_population.len() == test_run.population.len()));
}

#[test]
fn run_test() {
    let mut test_run = Run::new(322_000, 3_220, 10, 30, 2).unwrap();
    let old_population = test_run.population.clone();
    let result = test_run.run(10000).0;
    assert!((result != old_population) && (result.len() == old_population.len()));
}

#[test]
fn construction_rejects_each_bad_parameter() {
    assert_eq!(Run::new(1_000_001, 0, 8, 4, 2).unwrap_err(), ConfigError::ProbabilityAboveOne);
    assert_eq!(Run::new(0, 1_000_001, 8, 4, 2).unwrap_err(), ConfigError::ProbabilityAboveOne);
    assert_eq!(Run::new(0, 0, 0, 4, 0).unwrap_err(), ConfigError::WidthOutOfRange);
    assert_eq!(Run::new(0, 0, 65, 4, 2).unwrap_err(), ConfigError::WidthOutOfRange);
    assert_eq!(Run::new(0, 0, 8, 0, 2).unwrap_err(), ConfigError::EmptyPopulation);
    assert_eq!(Run::new(0, 0, 8, 4, 9).unwrap_err(), ConfigError::SegmentTooWide);
    assert!(Run::new(1_000_000, 1_000_000, 64, 1, 64).is_ok());
    assert!(Run::new(0, 0, 1, 1, 0).is_ok());
}

#[test]
fn fresh_engine_fits_width() {
    for &(width, n) in &[(3u8, 17usize), (10, 30), (64, 5), (1, 2)] {
        let run = Run::new(500_000, 500_000, width, n, 0).unwrap();
        assert_eq!(run.population.len(), n);
        for c in &run.population {
            assert!(width == 64 || c.data < (1u64 << width));
            assert!(c.data < 1023);
            assert_eq!(c.fitness, 0);
        }
    }
}

#[test]
fn run_zero_keeps_population() {
    let mut run = Run::new(500_000, 500_000, 16, 12, 4).unwrap();
    let before = run.population.clone();
    let (population, stats) = run.run(0);
    assert_eq!(population, before);
    assert!(stats.is_empty());
    assert_eq!(run.period, 0);
}

#[test]
fn run_keeps_size() {
    for &n in &[1usize, 2, 7, 16] {
        let mut run = Run::new(700_000, 300_000, 12, n, 5).unwrap();
        let (population, stats) = run.run(5);
        assert_eq!(population.len(), n);
        assert_eq!(stats.len(), 5);
        assert_eq!(run.period, 5);
        assert_eq!(stats[4].aggregate, run.data_sum);
    }
}

#[test]
fn roulette_index_by_cumulative_weight() {
    let w = vec![1u64, 0, 3];
    assert_eq!(weight_total(&w), 4);
    assert_eq!(select_index(&w, 0), 0);
    assert_eq!(select_index(&w, 1), 2);
    assert_eq!(select_index(&w, 3), 2);
    assert_eq!(select_index(&w, 4), 2);
    assert_eq!(select_index(&w, u128::MAX), 2);
    assert_eq!(select_index(&vec![0u64, 0, 0], 0), 2);
    assert_eq!(select_index(&vec![5u64, 5], 4), 0);
    assert_eq!(select_index(&vec![5u64, 5], 5), 1);
}

#[test]
fn select_skips_zero_weights() {
    let mut run = Run::new(0, 0, 16, 4, 0).unwrap();
    run.population = chromosomes(&[1, 2, 3, 4]);
    for _ in 0..50 {
        assert_eq!(run.select(&vec![0, 0, 5, 0]).data, 3);
    }
}

#[test]
fn full_crossover_swaps_whole_values() {
    assert_eq!(exchange_low(0xAB, 0x3C, 8, 8), 0x3C);
    assert_eq!(exchange_low(0xAB, 0x3C, 0, 8), 0xAB);
    assert_eq!(exchange_low(u64::MAX, 0, 64, 64), 0);
    assert_eq!(exchange_low(u64::MAX, 0, 0, 64), u64::MAX);
    assert_eq!(exchange_low(0xF0F0, 0x0F0F, 4, 16), 0xF0FF);

    let mut run = Run::new(1_000_000, 0, 10, 4, 10).unwrap();
    run.population = chromosomes(&[1, 2, 3, 4]);
    run.cross_in_order(&vec![0, 1, 2, 3]);
    let values: Vec<u64> = run.population.iter().map(|c| c.data).collect();
    assert_eq!(values, vec![2, 1, 4, 3]);
}

#[test]
fn crossover_without_exchanged_bits_keeps_values() {
    let mut run = Run::new(1_000_000, 0, 10, 5, 0).unwrap();
    run.population = chromosomes(&[10, 20, 30, 40, 50]);
    run.cross_in_order(&vec![4, 2, 0, 1, 3]);
    let values: Vec<u64> = run.population.iter().map(|c| c.data).collect();
    assert_eq!(values, vec![50, 30, 10, 20, 40]);
}

#[test]
fn pairing_order_is_a_permutation() {
    for n in 0..20usize {
        let mut o = pairing_order(n);
        o.sort();
        assert_eq!(o, (0..n).collect::<Vec<usize>>());
    }
}

#[test]
fn certain_mutation_flips_one_bit() {
    let mut run = Run::new(0, 1_000_000, 6, 20, 0).unwrap();
    let before = run.population.clone();
    run.mutate();
    for (a, b) in before.iter().zip(run.population.iter()) {
        assert_eq!((a.data ^ b.data).count_ones(), 1);
        assert!(b.data < 64);
    }
}

#[test]
fn no_mutation_keeps_values() {
    let mut run = Run::new(0, 0, 6, 20, 0).unwrap();
    let before = run.population.clone();
    run.mutate();
    assert_eq!(run.population, before);
}

#[test]
fn fitness_exact_values() {
    let c = Chromosome { data: 100, fitness: 0 };
    assert_eq!(c.calculate_fitness(300), 49_490_000);
    assert_eq!(c.calculate_fitness(100), 49_750_000);
    assert_eq!(c.calculate_fitness(99), 0);
    assert_eq!(c.calculate_fitness(u128::MAX), 0);
    assert_eq!(Chromosome { data: 20000, fitness: 0 }.calculate_fitness(20000), 0);
    assert_eq!(Chromosome { data: 0, fitness: 0 }.calculate_fitness(50), 0);
    assert_eq!(Chromosome { data: u64::MAX, fitness: 0 }.calculate_fitness(u64::MAX as u128), 0);
}

#[test]
fn evaluation_against_aggregate() {
    let mut run = Run::new(0, 0, 16, 2, 0).unwrap();
    run.population = chromosomes(&[100, 200]);
    run.calculate_data_sum();
    assert_eq!(run.data_sum, 300);
    run.calculate_iteration_fitness();
    assert_eq!(run.population[0].fitness, 49_490_000);
    assert_eq!(run.population[1].fitness, 98_740_000);
    assert_eq!(run.total_fitness, 148_230_000);
}

#[test]
fn statistics_moments() {
    let mut run = Run::new(0, 0, 64, 3, 0).unwrap();
    run.population = chromosomes(&[1, 2, 3]);
    assert_eq!(run.iter_stats(), GenerationStats { aggregate: 6, squares_high: 0, squares_low: 14 });
    run.population = chromosomes(&[u64::MAX, u64::MAX]);
    let s = run.iter_stats();
    assert_eq!(s.aggregate, 2 * (u64::MAX as u128));
    assert_eq!(s.squares_high, 1);
    assert_eq!(s.squares_low, 340282366920938463389587631136930004994);
}

#[test]
fn masks_and_flips() {
    assert_eq!(low_mask(0), 0);
    assert_eq!(low_mask(3), 7);
    assert_eq!(low_mask(64), u64::MAX);
    assert_eq!(flip_bit(0, 63, 64), 1u64 << 63);
    assert_eq!(flip_bit(5, 0, 3), 4);
}

#[test]
fn new_chromosome_below_bound() {
    for _ in 0..200 {
        assert!(Chromosome::new(30).data < 30);
        assert_eq!(Chromosome::new(1).data, 0);
    }
}

#[test]
fn scenario_thousand_generations() {
    let mut run = Run::new(322_000, 5_220, 10, 30, 2).unwrap();
    let (population, stats) = run.run(1000);
    assert_eq!(stats.len(), 1000);
    assert_eq!(population.len(), 30);
    assert!(population.iter().all(|c| c.data < 1024));
}

#[test]
fn scenario_wide_cross_keeps_size() {
    let mut run = Run::new(200_000, 500_000, 64, 32, 16).unwrap();
    run.cross();
    assert_eq!(run.population.len(), 32);
}

#[test]
fn zero_crossover_probability_only_clones() {
    let mut run = Run::new(0, 0, 10, 4, 10).unwrap();
    run.population = chromosomes(&[1, 2, 3, 4]);
    run.cross_in_order(&vec![3, 1, 0, 2]);
    let values: Vec<u64> = run.population.iter().map(|c| c.data).collect();
    assert_eq!(values, vec![4, 2, 1, 3]);
}

#[test]
fn trial_draw_below_probability_succeeds() {
    assert!(trial_succeeds(0, 1));
    assert!(!trial_succeeds(1, 1));
    assert!(!trial_succeeds(0, 0));
    assert!(trial_succeeds(999_999, 1_000_000));
}

#[test]
fn swap_entries_exchanges_two_positions() {
    let mut o = vec![0usize, 1, 2, 3];
    swap_entries(&mut o, 3, 1);
    assert_eq!(o, vec![0, 3, 2, 1]);
    swap_entries(&mut o, 2, 2);
    assert_eq!(o, vec![0, 3, 2, 1]);
}

#[test]
fn first_record_describes_initial_population() {
    let mut run = Run::new(500_000, 500_000, 16, 3, 4).unwrap();
    run.population = chromosomes(&[1, 2, 3]);
    let (_, stats) = run.run(2);
    assert_eq!(stats[0], GenerationStats { aggregate: 6, squares_high: 0, squares_low: 14 });
}
