//! The flux model: a temperature-dependent conductivity polynomial and the
//! directional heat flux between two neighboring temperature samples.
//!
//! Positive flux from a sample `t1` to a sample `t2` means heat leaves the
//! first and enters the second; the accumulator subtracts it at the source
//! cell and adds it at the target cell.
use vstd::arithmetic::div_mod::{
    lemma_div_is_ordered, lemma_div_multiples_vanish, lemma_div_pos_is_pos,
};
use vstd::prelude::*;

use crate::config::{
    Config, COND_BASE_LIMIT, COND_LINEAR_LIMIT, COND_QUADRATIC_LIMIT, LINEAR_UNIT, QUADRATIC_UNIT,
    TEMP_LIMIT,
};

verus! {

/// Largest magnitude the conductivity polynomial can reach on admissible
/// inputs under a valid configuration.
pub const COND_ABS: i64 = 12_000_000_000;

/// Largest magnitude a single flux sample can reach on admissible inputs
/// under a valid configuration.
pub const FLUX_ABS: i64 = 24_000_000_000_000_000;

/// Integer division truncating toward zero, as the executable code computes
/// it, for a positive divisor.
pub open spec fn div_trunc(n: int, d: int) -> int {
    if n >= 0 {
        n / d
    } else {
        -((-n) / d)
    }
}

/// Truncating division keeps a quotient within `k` whenever the dividend is
/// within `k` times the divisor, and it never changes the sign.
pub proof fn lemma_div_trunc_bound(n: int, d: int, k: int)
    requires
        0 < d,
        0 <= k,
        -(k * d) <= n <= k * d,
    ensures
        -k <= div_trunc(n, d) <= k,
        n >= 0 ==> div_trunc(n, d) >= 0,
        n < 0 ==> div_trunc(n, d) <= 0,
{
    assert(k * d == d * k) by (nonlinear_arith);
    lemma_div_multiples_vanish(k, d);
    if n >= 0 {
        lemma_div_pos_is_pos(n, d);
        lemma_div_is_ordered(n, k * d, d);
    } else {
        lemma_div_pos_is_pos(-n, d);
        lemma_div_is_ordered(-n, k * d, d);
    }
}

/// Truncating division of zero is zero.
pub proof fn lemma_div_trunc_zero(d: int)
    requires
        0 < d,
    ensures
        div_trunc(0, d) == 0,
{
    lemma_div_trunc_bound(0, d, 0);
}

/// Truncating division of an `i64` dividend by a positive divisor.
pub fn div_trunc_i64(n: i64, d: i64) -> (q: i64)
    requires
        0 < d,
        i64::MIN < n,
    ensures
        q == div_trunc(n as int, d as int),
{
    if n >= 0 {
        proof {
            lemma_div_pos_is_pos(n as int, d as int);
            lemma_div_is_ordered(n as int, i64::MAX as int, d as int);
            lemma_div_is_ordered(1 * (d as int), i64::MAX * (d as int), d as int);
            lemma_div_multiples_vanish(i64::MAX as int, d as int);
            assert(i64::MAX * (d as int) == (d as int) * (i64::MAX as int)) by (nonlinear_arith);
            assert(i64::MAX as int <= i64::MAX * (d as int)) by (nonlinear_arith)
                requires
                    0 < d,
            ;
        }
        let q: u64 = (n as u64) / (d as u64);
        q as i64
    } else {
        proof {
            lemma_div_pos_is_pos(-n as int, d as int);
            lemma_div_is_ordered(-n as int, i64::MAX as int, d as int);
            assert(i64::MAX as int <= i64::MAX * (d as int)) by (nonlinear_arith)
                requires
                    0 < d,
            ;
            lemma_div_is_ordered(i64::MAX as int, i64::MAX * (d as int), d as int);
            lemma_div_multiples_vanish(i64::MAX as int, d as int);
            assert(i64::MAX * (d as int) == (d as int) * (i64::MAX as int)) by (nonlinear_arith);
        }
        let m: i64 = -n;
        let q: u64 = (m as u64) / (d as u64);
        -(q as i64)
    }
}

/// Truncating division of an `i128` dividend by a positive divisor.
pub fn div_trunc_i128(n: i128, d: i128) -> (q: i128)
    requires
        0 < d,
        i128::MIN < n,
    ensures
        q == div_trunc(n as int, d as int),
{
    proof {
        let m: int = if n >= 0 {
            n as int
        } else {
            -(n as int)
        };
        lemma_div_pos_is_pos(m, d as int);
        lemma_div_is_ordered(m, i128::MAX as int, d as int);
        assert(i128::MAX as int <= i128::MAX * (d as int)) by (nonlinear_arith)
            requires
                0 < d,
        ;
        lemma_div_is_ordered(i128::MAX as int, i128::MAX * (d as int), d as int);
        lemma_div_multiples_vanish(i128::MAX as int, d as int);
        assert(i128::MAX * (d as int) == (d as int) * (i128::MAX as int)) by (nonlinear_arith);
    }
    if n >= 0 {
        let q: u128 = (n as u128) / (d as u128);
        q as i128
    } else {
        let m: i128 = -n;
        let q: u128 = (m as u128) / (d as u128);
        -(q as i128)
    }
}

/// Midpoint of two temperature samples, as the executable code computes it.
pub open spec fn midpoint_spec(t1: int, t2: int) -> int {
    div_trunc(t1 + t2, 2)
}

/// The conductivity polynomial at temperature `t`: a constant term, a linear
/// term scaled per degree, and a quadratic term scaled per squared degree.
pub open spec fn conductivity_spec(cfg: Config, t: int) -> int {
    cfg.cond_base + div_trunc(cfg.cond_linear * t, LINEAR_UNIT as int) + div_trunc(
        cfg.cond_quadratic * t * t,
        QUADRATIC_UNIT as int,
    )
}

/// Net heat flux from a sample at `t1` to a neighboring sample at `t2`:
/// the conductivity at their midpoint times their difference.
pub open spec fn flux_spec(cfg: Config, t1: int, t2: int) -> int {
    conductivity_spec(cfg, midpoint_spec(t1, t2)) * (t1 - t2)
}

/// The product of two values is bounded by the product of their bounds.
pub proof fn lemma_mul_abs_bound(a: int, ab: int, b: int, bb: int)
    requires
        -ab <= a <= ab,
        -bb <= b <= bb,
    ensures
        -(ab * bb) <= a * b <= ab * bb,
{
    assert(-(ab * bb) <= a * b <= ab * bb) by (nonlinear_arith)
        requires
            -ab <= a <= ab,
            -bb <= b <= bb,
    ;
}

/// On admissible temperatures, a valid configuration keeps the conductivity
/// polynomial within `COND_ABS`.
pub proof fn lemma_conductivity_bound(cfg: Config, t: int)
    requires
        cfg.valid(),
        -TEMP_LIMIT <= t <= TEMP_LIMIT,
    ensures
        -(COND_ABS as int) <= conductivity_spec(cfg, t) <= COND_ABS as int,
{
    lemma_mul_abs_bound(cfg.cond_linear as int, COND_LINEAR_LIMIT as int, t, TEMP_LIMIT as int);
    lemma_div_trunc_bound(cfg.cond_linear * t, LINEAR_UNIT as int, 1_000_000_000);
    lemma_mul_abs_bound(cfg.cond_quadratic as int, COND_QUADRATIC_LIMIT as int, t, TEMP_LIMIT as int);
    lemma_mul_abs_bound(
        cfg.cond_quadratic * t,
        COND_QUADRATIC_LIMIT * TEMP_LIMIT,
        t,
        TEMP_LIMIT as int,
    );
    lemma_div_trunc_bound(cfg.cond_quadratic * t * t, QUADRATIC_UNIT as int, 10_000_000_000);
}

/// On admissible temperatures, a valid configuration keeps each flux sample
/// within `FLUX_ABS`.
pub proof fn lemma_flux_bound(cfg: Config, t1: int, t2: int)
    requires
        cfg.valid(),
        -TEMP_LIMIT <= t1 <= TEMP_LIMIT,
        -TEMP_LIMIT <= t2 <= TEMP_LIMIT,
    ensures
        -(FLUX_ABS as int) <= flux_spec(cfg, t1, t2) <= FLUX_ABS as int,
{
    lemma_div_trunc_bound(t1 + t2, 2, TEMP_LIMIT as int);
    lemma_conductivity_bound(cfg, midpoint_spec(t1, t2));
    lemma_mul_abs_bound(
        conductivity_spec(cfg, midpoint_spec(t1, t2)),
        COND_ABS as int,
        t1 - t2,
        2 * TEMP_LIMIT,
    );
}

/// Flux between two equal temperatures is exactly zero, whatever the
/// conductivity polynomial: diffusion leaves a uniform field alone.
pub proof fn lemma_equal_temperatures_no_flux(cfg: Config, t: int)
    ensures
        flux_spec(cfg, t, t) == 0,
{
}

/// Executable flux model: conductivity at the midpoint of the two samples,
/// times their difference.
pub fn heat_flux(cfg: &Config, t1: i64, t2: i64) -> (f: i64)
    requires
        cfg.valid(),
        -TEMP_LIMIT <= t1 <= TEMP_LIMIT,
        -TEMP_LIMIT <= t2 <= TEMP_LIMIT,
    ensures
        f == flux_spec(*cfg, t1 as int, t2 as int),
        -FLUX_ABS <= f <= FLUX_ABS,
{
    proof {
        lemma_div_trunc_bound((t1 + t2) as int, 2, TEMP_LIMIT as int);
    }
    let mid: i64 = div_trunc_i64(t1 + t2, 2);
    proof {
        lemma_mul_abs_bound(cfg.cond_linear as int, COND_LINEAR_LIMIT as int, mid as int, TEMP_LIMIT as int);
        lemma_div_trunc_bound(cfg.cond_linear * mid, LINEAR_UNIT as int, 1_000_000_000);
        lemma_mul_abs_bound(cfg.cond_quadratic as int, COND_QUADRATIC_LIMIT as int, mid as int, TEMP_LIMIT as int);
        lemma_mul_abs_bound(
            cfg.cond_quadratic * mid,
            COND_QUADRATIC_LIMIT * TEMP_LIMIT,
            mid as int,
            TEMP_LIMIT as int,
        );
        lemma_div_trunc_bound(cfg.cond_quadratic * mid * mid, QUADRATIC_UNIT as int, 10_000_000_000);
    }
    let lin: i64 = div_trunc_i64(cfg.cond_linear * mid, LINEAR_UNIT);
    let quad: i64 = div_trunc_i64(cfg.cond_quadratic * mid * mid, QUADRATIC_UNIT);
    let c: i64 = cfg.cond_base + lin + quad;
    proof {
        lemma_conductivity_bound(*cfg, mid as int);
        lemma_mul_abs_bound(c as int, COND_ABS as int, (t1 - t2) as int, 2 * TEMP_LIMIT);
    }
    c * (t1 - t2)
}

} // verus!
