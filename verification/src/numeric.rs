//! Fixed-point arithmetic shared by the whole crate.
//!
//! A market value is an `i64` holding the real quantity scaled by
//! [`SCALE`], so `1.5` is stored as `1_500_000_000`. Growth factors are
//! compounded step by step with a flooring division after each
//! multiplication, which keeps every intermediate result representable.

use vstd::prelude::*;
use vstd::arithmetic::div_mod::{lemma_div_is_ordered, lemma_div_multiples_vanish};
use vstd::arithmetic::mul::{lemma_mul_inequality, lemma_mul_upper_bound};

verus! {

/// One whole unit in fixed-point representation.
pub const SCALE: i64 = 1_000_000_000;

/// Largest magnitude any cached or derived market value may take
/// (ten million whole units).
pub const VALUE_LIMIT: i64 = 10_000_000_000_000_000;

/// Largest magnitude a single quarterly observation may take (one
/// million whole units), so that a four-quarter sum stays within
/// [`VALUE_LIMIT`].
pub const QUARTER_VALUE_LIMIT: i64 = 1_000_000_000_000_000;

/// Cap on a reported growth rate: one thousand whole units per year.
pub const GROWTH_LIMIT: i64 = 1_000_000_000_000;

/// Default tolerance under which a re-observed quarterly value is
/// considered unchanged (`0.001` in real terms).
pub const MATERIAL_CHANGE_EPSILON: i64 = 1_000_000;

/// Bound on the elapsed-years argument of a growth-rate computation:
/// wide enough for any difference of two representable years.
pub const YEARS_LIMIT: i64 = 4_000_000;

/// `v` lies in the representable range for a cached or annual value.
pub open spec fn fits_value(v: int) -> bool {
    -VALUE_LIMIT <= v <= VALUE_LIMIT
}

/// `v` lies in the representable range for a quarterly observation.
pub open spec fn fits_quarter_value(v: int) -> bool {
    -QUARTER_VALUE_LIMIT <= v <= QUARTER_VALUE_LIMIT
}

/// A growth factor `f` (scaled by [`SCALE`]) compounded over `n`
/// periods, flooring after each step: the fixed-point counterpart of
/// `(f / SCALE)^n`, scaled by [`SCALE`].
pub open spec fn growth_pow(f: int, n: nat) -> int
    decreases n,
{
    if n == 0 {
        SCALE as int
    } else {
        growth_pow(f, (n - 1) as nat) * f / (SCALE as int)
    }
}

/// The fixed-point ratio `end / start`, scaled by [`SCALE`].
pub open spec fn cagr_ratio(start: int, end: int) -> int {
    end * SCALE / start
}

/// `g` is the compound annual growth rate of `start` growing to `end`
/// over `years` periods: the greatest scaled rate, capped at
/// [`GROWTH_LIMIT`], whose compounded factor does not exceed the
/// end-to-start ratio. Degenerate inputs (a non-positive endpoint or
/// period count) are assigned the neutral rate zero.
pub open spec fn is_cagr(start: int, end: int, years: int, g: int) -> bool {
    if start <= 0 || end <= 0 || years <= 0 {
        g == 0
    } else {
        &&& -SCALE <= g <= GROWTH_LIMIT
        &&& growth_pow(SCALE + g, years as nat) <= cagr_ratio(start, end)
        &&& (g == GROWTH_LIMIT || growth_pow(SCALE + g + 1, years as nat) > cagr_ratio(start, end))
    }
}

/// Compounding a non-negative factor never produces a negative value.
pub proof fn lemma_growth_pow_nonneg(f: int, n: nat)
    requires
        0 <= f,
    ensures
        0 <= growth_pow(f, n),
    decreases n,
{
    if n > 0 {
        lemma_growth_pow_nonneg(f, (n - 1) as nat);
        lemma_mul_nonneg(growth_pow(f, (n - 1) as nat), f);
        lemma_div_is_ordered(0, growth_pow(f, (n - 1) as nat) * f, SCALE as int);
    }
}

proof fn lemma_mul_nonneg(x: int, y: int)
    requires
        0 <= x,
        0 <= y,
    ensures
        0 <= x * y,
{
    lemma_mul_inequality(0, x, y);
}

/// Compounding is monotone in the growth factor.
pub proof fn lemma_growth_pow_mono(f1: int, f2: int, n: nat)
    requires
        0 <= f1 <= f2,
    ensures
        growth_pow(f1, n) <= growth_pow(f2, n),
    decreases n,
{
    if n > 0 {
        let m = (n - 1) as nat;
        lemma_growth_pow_mono(f1, f2, m);
        lemma_growth_pow_nonneg(f1, m);
        lemma_mul_inequality(growth_pow(f1, m), growth_pow(f2, m), f1);
        lemma_mul_inequality(f1, f2, growth_pow(f2, m));
        assert(growth_pow(f2, m) * f1 == f1 * growth_pow(f2, m)) by (nonlinear_arith);
        assert(growth_pow(f2, m) * f2 == f2 * growth_pow(f2, m)) by (nonlinear_arith);
        lemma_div_is_ordered(growth_pow(f1, m) * f1, growth_pow(f2, m) * f2, SCALE as int);
    }
}

/// A factor of at least one whole unit keeps every compounded value at
/// or above one whole unit.
pub proof fn lemma_growth_pow_ge_scale(f: int, n: nat)
    requires
        SCALE <= f,
    ensures
        SCALE as int <= growth_pow(f, n),
    decreases n,
{
    if n > 0 {
        let m = (n - 1) as nat;
        lemma_growth_pow_ge_scale(f, m);
        lemma_mul_inequality(SCALE as int, growth_pow(f, m), f);
        lemma_mul_inequality(SCALE as int, f, growth_pow(f, m));
        assert(growth_pow(f, m) * f == f * growth_pow(f, m)) by (nonlinear_arith);
        assert((SCALE as int) * (SCALE as int) / (SCALE as int) == SCALE as int) by {
            lemma_div_multiples_vanish(SCALE as int, SCALE as int);
        }
        lemma_div_is_ordered((SCALE as int) * (SCALE as int), growth_pow(f, m) * f, SCALE as int);
    }
}

/// A factor of at most one whole unit keeps every compounded value at
/// or below one whole unit.
pub proof fn lemma_growth_pow_le_scale(f: int, n: nat)
    requires
        0 <= f <= SCALE,
    ensures
        growth_pow(f, n) <= SCALE as int,
    decreases n,
{
    if n > 0 {
        let m = (n - 1) as nat;
        lemma_growth_pow_le_scale(f, m);
        lemma_growth_pow_nonneg(f, m);
        lemma_mul_upper_bound(growth_pow(f, m), SCALE as int, f, SCALE as int);
        assert((SCALE as int) * (SCALE as int) / (SCALE as int) == SCALE as int) by {
            lemma_div_multiples_vanish(SCALE as int, SCALE as int);
        }
        lemma_div_is_ordered(growth_pow(f, m) * f, (SCALE as int) * (SCALE as int), SCALE as int);
    }
}

/// With a factor of at least one whole unit, compounding for longer
/// never lowers the value.
pub proof fn lemma_growth_pow_mono_steps(f: int, m: nat, n: nat)
    requires
        SCALE <= f,
        m <= n,
    ensures
        growth_pow(f, m) <= growth_pow(f, n),
    decreases n,
{
    if m < n {
        let k = (n - 1) as nat;
        lemma_growth_pow_mono_steps(f, m, k);
        lemma_growth_pow_ge_scale(f, k);
        lemma_mul_inequality(SCALE as int, f, growth_pow(f, k));
        assert(growth_pow(f, k) * f == f * growth_pow(f, k)) by (nonlinear_arith);
        assert(growth_pow(f, k) * (SCALE as int) == (SCALE as int) * growth_pow(f, k))
            by (nonlinear_arith);
        lemma_div_multiples_vanish(growth_pow(f, k), SCALE as int);
        lemma_div_is_ordered(
            (SCALE as int) * growth_pow(f, k),
            growth_pow(f, k) * f,
            SCALE as int,
        );
    }
}

/// The growth rate of a series is uniquely determined: two rates that
/// both satisfy [`is_cagr`] for the same inputs are equal.
pub proof fn lemma_cagr_unique(start: int, end: int, years: int, g1: int, g2: int)
    requires
        is_cagr(start, end, years, g1),
        is_cagr(start, end, years, g2),
    ensures
        g1 == g2,
{
    if !(start <= 0 || end <= 0 || years <= 0) {
        if g1 < g2 {
            lemma_growth_pow_mono(SCALE + g1 + 1, SCALE + g2, years as nat);
        }
        if g2 < g1 {
            lemma_growth_pow_mono(SCALE + g2 + 1, SCALE + g1, years as nat);
        }
    }
}

/// No growth: a positive value that stays the same over any positive
/// number of periods has growth rate exactly zero.
pub proof fn lemma_cagr_no_growth(x: int, years: int)
    requires
        0 < x,
        0 < years,
    ensures
        is_cagr(x, x, years, 0),
{
    let n = years as nat;
    assert(cagr_ratio(x, x) == SCALE as int) by {
        assert(x * SCALE == SCALE * x) by (nonlinear_arith);
        lemma_div_multiples_vanish(SCALE as int, x);
        assert((x * (SCALE as int)) / x == SCALE as int);
    }
    lemma_growth_pow_le_scale(SCALE as int, n);
    lemma_growth_pow_gain(n);
}

/// Compounding a factor one tick above one whole unit strictly exceeds
/// one whole unit after any positive number of periods.
proof fn lemma_growth_pow_gain(n: nat)
    requires
        1 <= n,
    ensures
        (SCALE as int) < growth_pow(SCALE as int + 1, n),
    decreases n,
{
    let f = SCALE as int + 1;
    let m = (n - 1) as nat;
    if m == 0 {
        assert(growth_pow(f, 0) == SCALE as int);
        assert((SCALE as int) * f / (SCALE as int) == f - 1 + (SCALE as int) / (SCALE as int)) by {
            lemma_scale_step_exact(f);
        }
    } else {
        lemma_growth_pow_gain(m);
        let p = growth_pow(f, m);
        lemma_mul_inequality(SCALE as int + 1, p, f);
        assert(p * f == f * p) by (nonlinear_arith);
        lemma_mul_inequality(SCALE as int + 1, f, p);
        assert((SCALE as int + 1) * f <= p * f);
        vstd::arithmetic::mul::lemma_mul_strict_inequality(SCALE as int, SCALE as int + 1, f);
        assert((SCALE as int) * f < (SCALE as int + 1) * f);
        assert((SCALE as int) * f / (SCALE as int) <= p * f / (SCALE as int)) by {
            lemma_div_is_ordered((SCALE as int) * f, p * f, SCALE as int);
        }
        lemma_scale_step_exact(f);
    }
}

/// Exact value of one compounding step applied to one whole unit.
proof fn lemma_scale_step_exact(f: int)
    requires
        0 <= f,
    ensures
        (SCALE as int) * f / (SCALE as int) == f,
{
    assert((SCALE as int) * f == f * (SCALE as int)) by (nonlinear_arith);
    vstd::arithmetic::div_mod::lemma_div_by_multiple(f, SCALE as int);
}

} // verus!
