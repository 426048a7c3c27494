use heat_diffusion::config::Config;
use heat_diffusion::seed::{seed_uniform, seed_uniform_random};
use heat_diffusion::solver::Solver;

/// A 4x4 grid, chunk size 2, cold everywhere except a hot bottom row.
fn cold_over_hot() -> Solver {
    let cfg = Config::standard(4, 4, 2);
    let mut seed = vec![0i64; 16];
    for x in 0..4 {
        seed[3 * 4 + x] = 100_000;
    }
    Solver::new(cfg, seed).unwrap()
}

#[test]
fn initial_state() {
    let s = cold_over_hot();
    assert_eq!(s.width(), 4);
    assert_eq!(s.height(), 4);
    assert_eq!(s.min_heat(), 0);
    assert_eq!(s.max_heat(), 100_000);
    assert_eq!(s.chunk_cursor(), (0, 0));
    assert!(!s.is_sweep_complete());
    for x in 0..4 {
        for y in 0..4 {
            assert_eq!(s.accumulated_flux(x, y), 0);
            assert_eq!(s.temperature(x, y), if y == 3 { 100_000 } else { 0 });
        }
    }
}

#[test]
fn cursor_walks_chunks_in_row_major_order() {
    let mut s = cold_over_hot();
    let expected = [(1, 0), (0, 1), (1, 1), (0, 0), (1, 0), (0, 1), (1, 1), (0, 0)];
    for &want in expected.iter() {
        s.tick(15);
        assert_eq!(s.chunk_cursor(), want);
    }
}

#[test]
fn integration_runs_exactly_once_per_sweep() {
    // ceil(4 / 2) * ceil(4 / 2) = 4 chunks: integration fires every 4th tick.
    let mut s = cold_over_hot();
    for tick_number in 1..=12 {
        let integrated = s.tick(15);
        assert_eq!(integrated, tick_number % 4 == 0);
    }
}

#[test]
fn accumulator_sums_to_zero_mid_sweep() {
    let mut s = cold_over_hot();
    s.tick(15);
    s.tick(15);
    s.tick(15);
    // Three chunks accumulated, none integrated: the hot bottom edge has
    // been visited for the two west columns.
    assert_eq!(s.accumulated_flux(0, 2), 561_250_000_000);
    assert_eq!(s.accumulated_flux(1, 2), 561_250_000_000);
    assert_eq!(s.accumulated_flux(0, 3), -561_250_000_000);
    assert_eq!(s.accumulated_flux(1, 3), -561_250_000_000);
    let mut sum: i128 = 0;
    for x in 0..4 {
        for y in 0..4 {
            sum += s.accumulated_flux(x, y);
        }
    }
    assert_eq!(sum, 0);
}

#[test]
fn one_sweep_moves_heat_from_hot_row_to_cold_neighbor_row() {
    let mut s = cold_over_hot();
    for _ in 0..4 {
        s.tick(15);
    }
    // The flux accumulated across the row-2/row-3 boundary is
    // 5_612_500 * 100_000 = 561_250_000_000 per cell; the delta is
    // 561_250_000_000 * 1000 * 15 / (500 * 10^10) = 1683 (truncated from
    // 1683.75, toward zero on both signs).
    for x in 0..4 {
        assert_eq!(s.temperature(x, 0), 0);
        assert_eq!(s.temperature(x, 1), 0);
        assert_eq!(s.temperature(x, 2), 1683);
        assert_eq!(s.temperature(x, 3), 98_317);
        assert_eq!(s.accumulated_flux(x, 2), 0);
        assert_eq!(s.accumulated_flux(x, 3), 0);
    }
}

#[test]
fn temperatures_stay_within_bounds_under_extreme_ticks() {
    let cfg = Config::standard(2, 1, 1);
    let mut s = Solver::new(cfg, vec![0, 100_000]).unwrap();
    for _ in 0..10 {
        let integrated = s.tick(3_600_000);
        let _ = integrated;
        for x in 0..2 {
            let t = s.temperature(x, 0);
            assert!((0..=100_000).contains(&t));
        }
    }
}

#[test]
fn uniform_field_is_unchanged_by_any_number_of_sweeps() {
    // A 3 by 3 grid with chunk size 2 also exercises clamped trailing
    // chunks: the sweep is ceil(3/2) * ceil(3/2) = 4 ticks long.
    let cfg = Config::standard(3, 3, 2);
    let mut s = Solver::new(cfg, seed_uniform(&cfg, 42_000)).unwrap();
    let mut integrations = 0;
    for _ in 0..12 {
        if s.tick(1000) {
            integrations += 1;
        }
        for x in 0..3 {
            for y in 0..3 {
                assert_eq!(s.temperature(x, y), 42_000);
            }
        }
    }
    assert_eq!(integrations, 3);
}

#[test]
fn single_cell_grid_integrates_every_tick() {
    let cfg = Config::standard(1, 1, 1);
    let mut s = Solver::new(cfg, vec![77_000]).unwrap();
    for _ in 0..5 {
        assert!(s.tick(1000));
        assert_eq!(s.temperature(0, 0), 77_000);
        assert_eq!(s.chunk_cursor(), (0, 0));
    }
}

#[test]
fn split_steps_match_the_sweep_signal() {
    let mut s = cold_over_hot();
    for step in 1..=4 {
        s.accumulate_step();
        assert_eq!(s.is_sweep_complete(), step == 4);
        let integrated = s.integrate_step(15);
        assert_eq!(integrated, step == 4);
        assert!(!s.is_sweep_complete());
    }
    assert_eq!(s.temperature(0, 2), 1683);
}

#[test]
fn random_seed_stays_within_clamp_range() {
    let cfg = Config::standard(8, 8, 4);
    let seed = seed_uniform_random(&cfg);
    assert_eq!(seed.len(), 64);
    for &t in seed.iter() {
        assert!((0..=100_000).contains(&t));
    }
    let s = Solver::new(cfg, seed).unwrap();
    for x in 0..8 {
        for y in 0..8 {
            let t = s.temperature(x, y);
            assert!((0..=100_000).contains(&t));
        }
    }
}

#[test]
fn uniform_seed_fills_every_cell() {
    let cfg = Config::standard(5, 3, 2);
    let seed = seed_uniform(&cfg, 12_345);
    assert_eq!(seed.len(), 15);
    assert!(seed.iter().all(|&t| t == 12_345));
}
