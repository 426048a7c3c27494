use heat_diffusion::config::{Config, ConfigError};
use heat_diffusion::flux::heat_flux;
use heat_diffusion::solver::Solver;

fn standard_4x4() -> Config {
    Config::standard(4, 4, 2)
}

#[test]
fn flux_between_equal_temperatures_is_zero() {
    let cfg = standard_4x4();
    // Fifty degrees on both sides: no temperature difference, no flux,
    // whatever the conductivity polynomial evaluates to at the midpoint.
    assert_eq!(heat_flux(&cfg, 50_000, 50_000), 0);
    assert_eq!(heat_flux(&cfg, 0, 0), 0);
    assert_eq!(heat_flux(&cfg, 100_000, 100_000), 0);
    assert_eq!(heat_flux(&cfg, -1_000, -1_000), 0);
}

#[test]
fn flux_between_equal_temperatures_is_zero_for_other_polynomials() {
    let mut cfg = standard_4x4();
    cfg.cond_base = 123_456;
    cfg.cond_linear = 789;
    cfg.cond_quadratic = -321;
    assert_eq!(heat_flux(&cfg, 50_000, 50_000), 0);
    cfg.cond_base = -1;
    cfg.cond_linear = 0;
    cfg.cond_quadratic = 0;
    assert_eq!(heat_flux(&cfg, 77_000, 77_000), 0);
}

#[test]
fn flux_exact_value_cold_against_hot() {
    let cfg = standard_4x4();
    // Midpoint 50 degrees: conductivity is
    // 6_065_000 - 12_200 * 50 + 63 * 50 * 50 = 5_612_500 (ten-millionths),
    // times the difference of -100_000 thousandths.
    assert_eq!(heat_flux(&cfg, 0, 100_000), -561_250_000_000);
    // The reverse direction carries the opposite sign.
    assert_eq!(heat_flux(&cfg, 100_000, 0), 561_250_000_000);
}

#[test]
fn flux_truncates_conductivity_terms_toward_zero() {
    let cfg = standard_4x4();
    // Midpoint 50_001 thousandths: the linear term -12_200 * 50_001 / 1000
    // truncates -610_012.2 toward zero to -610_012 (not down to -610_013),
    // and the quadratic term truncates 157_506.3 to 157_506, so the
    // conductivity is 6_065_000 - 610_012 + 157_506 = 5_612_494.
    assert_eq!(heat_flux(&cfg, 1, 100_001), -561_249_400_000);
}

#[test]
fn flux_exact_value_below_zero_midpoint() {
    let cfg = standard_4x4();
    // Midpoint -50_000 thousandths: conductivity is
    // 6_065_000 + 610_000 + 157_500 = 6_832_500, difference +100_000.
    assert_eq!(heat_flux(&cfg, 0, -100_000), 683_250_000_000);
}

#[test]
fn flux_sign_follows_heat_source() {
    let cfg = standard_4x4();
    // Positive flux means heat flows from the first sample to the second.
    assert!(heat_flux(&cfg, 80_000, 20_000) > 0);
    assert!(heat_flux(&cfg, 20_000, 80_000) < 0);
}

#[test]
fn config_rejects_zero_width() {
    let mut cfg = Config::standard(0, 4, 2);
    assert_eq!(cfg.validate(), Err(ConfigError::ZeroWidth));
    cfg.width = 4;
    assert_eq!(cfg.validate(), Ok(()));
}

#[test]
fn config_rejects_zero_height() {
    let cfg = Config::standard(4, 0, 2);
    assert_eq!(cfg.validate(), Err(ConfigError::ZeroHeight));
}

#[test]
fn config_rejects_zero_chunk_size() {
    let cfg = Config::standard(4, 4, 0);
    assert_eq!(cfg.validate(), Err(ConfigError::ZeroChunkSize));
}

#[test]
fn config_rejects_non_positive_mass_capacity() {
    let mut cfg = standard_4x4();
    cfg.mass_capacity = 0;
    assert_eq!(cfg.validate(), Err(ConfigError::NonPositiveMassCapacity));
    cfg.mass_capacity = -7;
    assert_eq!(cfg.validate(), Err(ConfigError::NonPositiveMassCapacity));
}

#[test]
fn config_rejects_negative_heat_speed() {
    let mut cfg = standard_4x4();
    cfg.heat_speed = -1;
    assert_eq!(cfg.validate(), Err(ConfigError::NegativeHeatSpeed));
}

#[test]
fn config_rejects_inverted_heat_bounds() {
    let mut cfg = standard_4x4();
    cfg.min_heat = 200;
    cfg.max_heat = 100;
    assert_eq!(cfg.validate(), Err(ConfigError::InvertedHeatBounds));
}

#[test]
fn config_rejects_oversized_grid() {
    let cfg = Config::standard(5000, 4, 2);
    assert_eq!(cfg.validate(), Err(ConfigError::LimitExceeded));
}

#[test]
fn solver_rejects_wrong_seed_cell_count() {
    let cfg = standard_4x4();
    let seed = vec![0i64; 15];
    match Solver::new(cfg, seed) {
        Err(e) => assert_eq!(e, ConfigError::SeedCellCount),
        Ok(_) => panic!("a seed of the wrong cell count must be rejected"),
    }
}

#[test]
fn solver_reports_config_error_of_invalid_config() {
    let cfg = Config::standard(4, 4, 0);
    match Solver::new(cfg, vec![0i64; 16]) {
        Err(e) => assert_eq!(e, ConfigError::ZeroChunkSize),
        Ok(_) => panic!("an invalid configuration must be rejected"),
    }
}

#[test]
fn solver_clamps_out_of_range_seed_values() {
    let cfg = Config::standard(2, 2, 1);
    let seed = vec![-5i64, 200_000, 50_000, 0];
    let s = Solver::new(cfg, seed).unwrap();
    assert_eq!(s.temperature(0, 0), 0);
    assert_eq!(s.temperature(1, 0), 100_000);
    assert_eq!(s.temperature(0, 1), 50_000);
    assert_eq!(s.temperature(1, 1), 0);
}
