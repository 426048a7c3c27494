//! Seeding strategies for the temperature field: a uniform value, or one
//! drawn uniformly at random per cell within the configured clamp range.
use vstd::prelude::*;

use crate::config::Config;

verus! {

/// Relies on rand::random: one machine-word sample from the thread-local
/// generator. Nothing is assumed about its value; callers bound the result
/// themselves.
#[verifier::external_body]
fn random_u64() -> u64 {
    rand::random::<u64>()
}

/// A seed field holding the same temperature in every cell.
pub fn seed_uniform(cfg: &Config, t: i64) -> (r: Vec<i64>)
    requires
        cfg.valid(),
    ensures
        r@.len() == cfg.width * cfg.height,
        forall|i: int| 0 <= i < r@.len() ==> #[trigger] r@[i] == t,
{
    proof {
        assert(cfg.width * cfg.height <= 16_777_216) by (nonlinear_arith)
            requires
                0 < cfg.width <= 4096,
                0 < cfg.height <= 4096,
        ;
    }
    let cells: usize = cfg.width * cfg.height;
    let mut r: Vec<i64> = Vec::new();
    let mut i: usize = 0;
    while i < cells
        invariant
            r@.len() == i,
            i <= cells,
            forall|k: int| 0 <= k < i as int ==> #[trigger] r@[k] == t,
        decreases cells - i,
    {
        r.push(t);
        i = i + 1;
    }
    r
}

/// A seed field drawn uniformly at random per cell, each temperature inside
/// the configured clamp range: whatever the generator returns, the reduction
/// into the range holds of it.
pub fn seed_uniform_random(cfg: &Config) -> (r: Vec<i64>)
    requires
        cfg.valid(),
    ensures
        r@.len() == cfg.width * cfg.height,
        forall|i: int|
            0 <= i < r@.len() ==> cfg.min_heat <= #[trigger] r@[i] <= cfg.max_heat,
{
    proof {
        assert(cfg.width * cfg.height <= 16_777_216) by (nonlinear_arith)
            requires
                0 < cfg.width <= 4096,
                0 < cfg.height <= 4096,
        ;
    }
    let cells: usize = cfg.width * cfg.height;
    let span: u64 = ((cfg.max_heat - cfg.min_heat) as u64) + 1;
    let mut r: Vec<i64> = Vec::new();
    let mut i: usize = 0;
    while i < cells
        invariant
            cfg.valid(),
            span == cfg.max_heat - cfg.min_heat + 1,
            r@.len() == i,
            i <= cells,
            forall|k: int|
                0 <= k < i as int ==> cfg.min_heat <= #[trigger] r@[k] <= cfg.max_heat,
        decreases cells - i,
    {
        let sample = random_u64();
        let offset: u64 = sample % span;
        let t: i64 = cfg.min_heat + (offset as i64);
        r.push(t);
        i = i + 1;
    }
    r
}

} // verus!
