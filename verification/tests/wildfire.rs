use wildfire_sim::config::{burn_threshold, FireConfig, DEFAULT_SIMULATIONS, PROB_DENOM};
use wildfire_sim::driver::{count_over_threshold, run_batch};
use wildfire_sim::sim::{simulate_fire, simulate_fire_counting};

fn uniform(rows: usize, cols: usize, p: u32) -> FireConfig {
    FireConfig {
        rows,
        cols,
        p_left: p,
        p_right: p,
        p_up: p,
        p_down: p,
        simulations: 1,
        threshold: 0,
    }
}

#[test]
fn no_spread_burns_only_ignition_cell() {
    let cfg = uniform(4, 6, 0);
    for _ in 0..20 {
        assert_eq!(simulate_fire(&cfg), 1);
    }
}

#[test]
fn certain_spread_burns_whole_reference_grid() {
    let mut cfg = FireConfig::reference();
    cfg.p_left = PROB_DENOM;
    cfg.p_right = PROB_DENOM;
    cfg.p_up = PROB_DENOM;
    cfg.p_down = PROB_DENOM;
    assert_eq!(simulate_fire(&cfg), 1000);
}

#[test]
fn certain_spread_burns_small_grids() {
    assert_eq!(simulate_fire(&uniform(1, 1, PROB_DENOM)), 1);
    assert_eq!(simulate_fire(&uniform(5, 7, PROB_DENOM)), 35);
    assert_eq!(simulate_fire(&uniform(1, 9, PROB_DENOM)), 9);
    assert_eq!(simulate_fire(&uniform(9, 1, PROB_DENOM)), 9);
}

#[test]
fn forced_probabilities_are_deterministic() {
    let zero = uniform(3, 3, 0);
    let one = uniform(3, 3, PROB_DENOM);
    let first_zero = simulate_fire(&zero);
    let first_one = simulate_fire(&one);
    for _ in 0..10 {
        assert_eq!(simulate_fire(&zero), first_zero);
        assert_eq!(simulate_fire(&one), first_one);
    }
    let right_only = FireConfig {
        rows: 4,
        cols: 6,
        p_left: 0,
        p_right: PROB_DENOM,
        p_up: 0,
        p_down: 0,
        simulations: 1,
        threshold: 0,
    };
    for _ in 0..10 {
        assert_eq!(simulate_fire(&right_only), 6);
    }
}

#[test]
fn burned_count_stays_within_grid_bounds() {
    let cfg = FireConfig::reference();
    for _ in 0..50 {
        let burned = simulate_fire(&cfg);
        assert!(1 <= burned && burned <= 1000);
    }
}

#[test]
fn rounds_never_exceed_grid_size() {
    let cfg = FireConfig::reference();
    for _ in 0..20 {
        let (burned, rounds) = simulate_fire_counting(&cfg);
        assert!(1 <= burned && burned <= 1000);
        assert!(rounds <= 1000);
    }
}

#[test]
fn count_over_threshold_counts_exactly() {
    let results = vec![5usize, 1, 7, 3, 4];
    assert_eq!(count_over_threshold(&results, 3), 3);
    assert_eq!(count_over_threshold(&results, 0), 5);
    assert_eq!(count_over_threshold(&results, 4), 2);
    assert_eq!(count_over_threshold(&results, 7), 0);
    assert_eq!(count_over_threshold(&Vec::new(), 0), 0);
}

#[test]
fn aggregate_count_stays_within_batch_size() {
    let cfg = FireConfig::reference();
    let over = run_batch(&cfg, 30);
    assert!(over <= 30);
}

#[test]
fn threshold_below_any_result_gives_probability_one() {
    let mut cfg = uniform(2, 2, 0);
    cfg.threshold = 0;
    let runs = 1;
    let over = run_batch(&cfg, runs);
    assert_eq!(over, 1);
    let probability = over as f64 / runs as f64;
    assert_eq!(probability, 1.0);
}

#[test]
fn threshold_at_grid_size_gives_probability_zero() {
    let mut cfg = uniform(2, 3, PROB_DENOM);
    cfg.threshold = 6;
    let runs = 25;
    let over = run_batch(&cfg, runs);
    assert_eq!(over, 0);
    let probability = over as f64 / runs as f64;
    assert_eq!(probability, 0.0);
}

#[test]
fn reference_threshold_truncates_thirty_percent() {
    let cfg = FireConfig::reference();
    assert_eq!(cfg.threshold, 300);
    assert_eq!(cfg.simulations, DEFAULT_SIMULATIONS);
    assert_eq!(burn_threshold(1000), 300);
    assert_eq!(burn_threshold(1001), 300);
    assert_eq!(burn_threshold(9), 2);
    assert_eq!(burn_threshold(10), 3);
}
