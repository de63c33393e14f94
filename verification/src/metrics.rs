//! Growth metrics over the annual series: compound annual growth rates
//! and average dividend yield.

use vstd::prelude::*;
use crate::annual::{HistoricalRecord, annual_wf};
use crate::errors::MetricsError;
use crate::numeric::{
    SCALE, VALUE_LIMIT, GROWTH_LIMIT, YEARS_LIMIT, growth_pow, cagr_ratio, is_cagr,
    lemma_growth_pow_nonneg, lemma_growth_pow_ge_scale, lemma_growth_pow_le_scale,
    lemma_growth_pow_mono_steps,
};
use vstd::arithmetic::div_mod::{
    lemma_div_by_multiple, lemma_div_is_ordered, lemma_div_is_ordered_by_denominator,
};
use vstd::arithmetic::mul::lemma_mul_inequality;

verus! {

/// Largest possible end-to-start ratio: [`VALUE_LIMIT`] scaled by
/// [`SCALE`].
pub const RATIO_LIMIT: u128 = 10_000_000_000_000_000_000_000_000;

/// Decides whether the factor `f`, compounded over `years` periods,
/// stays within `ratio`.
fn growth_within(ratio: u128, f: i64, years: u32) -> (r: bool)
    requires
        ratio <= RATIO_LIMIT,
        0 <= f <= SCALE + GROWTH_LIMIT,
    ensures
        r == (growth_pow(f as int, years as nat) <= ratio as int),
{
    if f <= SCALE {
        let fu: u128 = f as u128;
        let mut p: u128 = SCALE as u128;
        let mut i: u32 = 0;
        while i < years
            invariant
                i <= years,
                0 <= f <= SCALE,
                fu == f as u128,
                p as int == growth_pow(f as int, i as nat),
                p <= SCALE as u128,
            decreases years - i,
        {
            proof {
                lemma_growth_pow_nonneg(f as int, i as nat);
                lemma_growth_pow_le_scale(f as int, (i + 1) as nat);
            }
            p = p * fu / (SCALE as u128);
            i = i + 1;
        }
        p <= ratio
    } else {
        if (SCALE as u128) > ratio {
            proof {
                lemma_growth_pow_ge_scale(f as int, years as nat);
            }
            return false;
        }
        let fu: u128 = f as u128;
        let mut p: u128 = SCALE as u128;
        let mut i: u32 = 0;
        while i < years
            invariant
                i <= years,
                SCALE < f <= SCALE + GROWTH_LIMIT,
                fu == f as u128,
                p as int == growth_pow(f as int, i as nat),
                p <= ratio <= RATIO_LIMIT,
            ensures
                (i == years && p as int == growth_pow(f as int, years as nat) && p <= ratio)
                    || growth_pow(f as int, years as nat) > ratio as int,
            decreases years - i,
        {
            proof {
                lemma_growth_pow_nonneg(f as int, i as nat);
                vstd::arithmetic::mul::lemma_mul_upper_bound(
                    p as int,
                    RATIO_LIMIT as int,
                    fu as int,
                    SCALE + GROWTH_LIMIT,
                );
            }
            let next: u128 = p * fu / (SCALE as u128);
            if next > ratio {
                proof {
                    lemma_growth_pow_mono_steps(f as int, (i + 1) as nat, years as nat);
                }
                break;
            }
            p = next;
            i = i + 1;
        }
        p <= ratio && i == years
    }
}

/// Compound annual growth rate of `start_value` growing to `end_value`
/// over `years` periods, as a scaled rate. Degenerate inputs (a
/// non-positive value or period count) yield the neutral rate zero
/// rather than an error.
pub fn calculate_cagr(start_value: i64, end_value: i64, years: i64) -> (rate: i64)
    requires
        start_value <= VALUE_LIMIT,
        end_value <= VALUE_LIMIT,
        years <= YEARS_LIMIT,
    ensures
        is_cagr(start_value as int, end_value as int, years as int, rate as int),
{
    if start_value <= 0 || end_value <= 0 || years <= 0 {
        return 0;
    }
    proof {
        vstd::arithmetic::mul::lemma_mul_upper_bound(
            end_value as int,
            VALUE_LIMIT as int,
            SCALE as int,
            SCALE as int,
        );
    }
    let ratio: u128 = (end_value as u128) * (SCALE as u128) / (start_value as u128);
    proof {
        assert(ratio as int == cagr_ratio(start_value as int, end_value as int));
        lemma_div_is_ordered_by_denominator(
            end_value as int * SCALE as int,
            1,
            start_value as int,
        );
        assert(ratio <= RATIO_LIMIT);
    }
    let yrs: u32 = years as u32;
    let mut lo: i64 = -SCALE;
    let mut hi: i64 = GROWTH_LIMIT;
    proof {
        assert(growth_pow(0, years as nat) == growth_pow(0, (years - 1) as nat) * 0 / (
        SCALE as int));
        assert(growth_pow(0, years as nat) == 0);
        lemma_div_is_ordered(0, end_value as int * SCALE as int, start_value as int);
    }
    while lo < hi
        invariant
            (-(SCALE as int)) <= lo <= hi <= GROWTH_LIMIT,
            0 < years <= YEARS_LIMIT,
            yrs == years as u32,
            0 < start_value <= VALUE_LIMIT,
            0 < end_value <= VALUE_LIMIT,
            ratio as int == cagr_ratio(start_value as int, end_value as int),
            ratio <= RATIO_LIMIT,
            growth_pow(SCALE + lo, years as nat) <= ratio as int,
            hi == GROWTH_LIMIT || growth_pow(SCALE + hi + 1, years as nat) > ratio as int,
        decreases hi - lo,
    {
        let step: i64 = (((hi - lo) as u64 + 1) / 2) as i64;
        let mid: i64 = lo + step;
        let f: i64 = SCALE + mid;
        if growth_within(ratio, f, yrs) {
            lo = mid;
        } else {
            hi = mid - 1;
        }
    }
    lo
}

/// The sum of a sequence of values.
pub open spec fn sum_of(s: Seq<i64>) -> int
    decreases s.len(),
{
    if s.len() == 0 {
        0
    } else {
        sum_of(s.drop_last()) + s.last()
    }
}

/// The arithmetic mean of a sequence of values, zero when empty.
pub open spec fn average_spec(s: Seq<i64>) -> int {
    if s.len() == 0 {
        0
    } else {
        sum_of(s) / s.len() as int
    }
}

/// Arithmetic mean of the given values, zero for an empty list.
pub fn calculate_average(values: &Vec<i64>) -> (avg: i64)
    requires
        forall|i: int| 0 <= i < values@.len() ==> 0 <= #[trigger] values@[i] <= VALUE_LIMIT,
    ensures
        avg as int == average_spec(values@),
        0 <= avg <= VALUE_LIMIT,
{
    let ghost s = values@;
    let n = values.len();
    if n == 0 {
        return 0;
    }
    proof {
        assert(s.subrange(0, 0) =~= Seq::<i64>::empty());
    }
    let mut i: usize = 0;
    let mut sum: u128 = 0;
    while i < n
        invariant
            0 <= i <= n == s.len(),
            values@ == s,
            forall|j: int| 0 <= j < s.len() ==> 0 <= #[trigger] s[j] <= VALUE_LIMIT,
            sum as int == sum_of(s.subrange(0, i as int)),
            sum as int <= (i as int) * (VALUE_LIMIT as int),
        decreases n - i,
    {
        proof {
            assert(s.subrange(0, i as int + 1).drop_last() =~= s.subrange(0, i as int));
            assert(s.subrange(0, i as int + 1).last() == s[i as int]);
        }
        sum = sum + (values[i] as u128);
        i = i + 1;
    }
    proof {
        assert(s.subrange(0, n as int) =~= s);
        lemma_mul_inequality(n as int, u64::MAX as int, VALUE_LIMIT as int);
        assert((n as int) * (VALUE_LIMIT as int) == (VALUE_LIMIT as int) * (n as int))
            by (nonlinear_arith);
        lemma_div_by_multiple(VALUE_LIMIT as int, n as int);
        lemma_div_is_ordered(sum as int, (VALUE_LIMIT as int) * (n as int), n as int);
        vstd::arithmetic::div_mod::lemma_div_pos_is_pos(sum as int, n as int);
    }
    (sum / (n as u128)) as i64
}

/// Which indicator of an annual record a growth computation reads.
#[derive(Clone, Copy, PartialEq, Eq, Structural, Debug)]
pub enum Indicator {
    Inflation,
    Eps,
    Cape,
    CumulativeReturn,
}

/// The reading of `ind` in an annual record.
pub open spec fn indicator_of(rec: HistoricalRecord, ind: Indicator) -> i64 {
    match ind {
        Indicator::Inflation => rec.inflation,
        Indicator::Eps => rec.eps,
        Indicator::Cape => rec.cape,
        Indicator::CumulativeReturn => rec.cumulative_return,
    }
}

/// The sub-series with a positive reading of `ind`, in order —
/// zero or absent readings are excluded, not treated as real zeros.
pub open spec fn valid_entries(s: Seq<HistoricalRecord>, ind: Indicator) -> Seq<HistoricalRecord>
    decreases s.len(),
{
    if s.len() == 0 {
        Seq::empty()
    } else if indicator_of(s.last(), ind) > 0 {
        valid_entries(s.drop_last(), ind).push(s.last())
    } else {
        valid_entries(s.drop_last(), ind)
    }
}

/// The dividend yields that are positive, in order.
pub open spec fn positive_yields(s: Seq<HistoricalRecord>) -> Seq<i64>
    decreases s.len(),
{
    if s.len() == 0 {
        Seq::empty()
    } else if s.last().dividend_yield > 0 {
        positive_yields(s.drop_last()).push(s.last().dividend_yield)
    } else {
        positive_yields(s.drop_last())
    }
}

/// The latest entry whose year is at or before `target`, scanning from
/// the end; none when every entry is later.
pub open spec fn trailing_start(v: Seq<HistoricalRecord>, target: int) -> Option<HistoricalRecord>
    decreases v.len(),
{
    if v.len() == 0 {
        None
    } else if v.last().year <= target {
        Some(v.last())
    } else {
        trailing_start(v.drop_last(), target)
    }
}

/// `g` is the whole-period growth rate of `ind` over the series:
/// between the first and last valid entries over the elapsed years,
/// or zero with fewer than two valid entries.
pub open spec fn whole_period_cagr_ok(s: Seq<HistoricalRecord>, ind: Indicator, g: int) -> bool {
    let v = valid_entries(s, ind);
    if v.len() < 2 {
        g == 0
    } else {
        is_cagr(
            indicator_of(v.first(), ind) as int,
            indicator_of(v.last(), ind) as int,
            v.last().year - v.first().year,
            g,
        )
    }
}

/// `g` is the trailing-ten-year growth rate of `ind` over the series:
/// from the latest valid entry at or before ten years ago to the last
/// valid entry, over the actual elapsed years; zero when no such
/// start entry exists or fewer than two valid entries do.
pub open spec fn trailing_cagr_ok(s: Seq<HistoricalRecord>, ind: Indicator, g: int) -> bool {
    let v = valid_entries(s, ind);
    if v.len() < 2 {
        g == 0
    } else {
        match trailing_start(v, v.last().year - 10) {
            Option::Some(start) => is_cagr(
                indicator_of(start, ind) as int,
                indicator_of(v.last(), ind) as int,
                v.last().year - start.year,
                g,
            ),
            Option::None => g == 0,
        }
    }
}

/// The valid sub-series inherits well-formedness, positivity of the
/// indicator, strict year order, and membership from the series.
proof fn lemma_valid_entries(s: Seq<HistoricalRecord>, ind: Indicator)
    requires
        annual_wf(s),
    ensures
        forall|i: int|
            0 <= i < valid_entries(s, ind).len() ==> (#[trigger] valid_entries(s, ind)[i]).wf()
                && indicator_of(valid_entries(s, ind)[i], ind) > 0,
        forall|i: int, j: int|
            0 <= i < j < valid_entries(s, ind).len() ==> #[trigger] valid_entries(s, ind)[i].year
                < #[trigger] valid_entries(s, ind)[j].year,
        forall|i: int|
            0 <= i < valid_entries(s, ind).len() ==> exists|j: int|
                0 <= j < s.len() && #[trigger] valid_entries(s, ind)[i] == s[j],
    decreases s.len(),
{
    if s.len() > 0 {
        let pre = s.drop_last();
        assert(annual_wf(pre)) by {
            assert forall|i: int| 0 <= i < pre.len() implies (#[trigger] pre[i]).wf() by {
                assert(pre[i] == s[i]);
            }
            assert forall|i: int, j: int| 0 <= i < j < pre.len() implies #[trigger] pre[i].year
                < #[trigger] pre[j].year by {
                assert(pre[i] == s[i] && pre[j] == s[j]);
            }
        }
        lemma_valid_entries(pre, ind);
        let vp = valid_entries(pre, ind);
        assert forall|i: int| 0 <= i < vp.len() implies #[trigger] vp[i].year < s.last().year by {
            let j = choose|j: int| 0 <= j < pre.len() && vp[i] == pre[j];
            assert(pre[j] == s[j]);
            assert(s[j].year < s[s.len() - 1].year);
        }
        if indicator_of(s.last(), ind) > 0 {
            let v = valid_entries(s, ind);
            assert(v == vp.push(s.last()));
            assert forall|i: int| 0 <= i < v.len() implies exists|j: int|
                0 <= j < s.len() && #[trigger] v[i] == s[j] by {
                if i < v.len() - 1 {
                    let j = choose|j: int| 0 <= j < pre.len() && vp[i] == pre[j];
                    assert(v[i] == s[j]);
                } else {
                    assert(v[i] == s[s.len() - 1]);
                }
            }
        }
    }
}

/// Whole-period and trailing-ten-year growth rates of one indicator
/// over the annual series.
#[verifier::rlimit(50)]
fn indicator_cagrs(data: &Vec<HistoricalRecord>, ind: Indicator) -> (r: (i64, i64))
    requires
        annual_wf(data@),
    ensures
        whole_period_cagr_ok(data@, ind, r.0 as int),
        trailing_cagr_ok(data@, ind, r.1 as int),
{
    let ghost s = data@;
    proof {
        assert(s.subrange(0, 0) =~= Seq::<HistoricalRecord>::empty());
        lemma_valid_entries(s, ind);
    }
    let n = data.len();
    let mut valid: Vec<HistoricalRecord> = Vec::new();
    let mut i: usize = 0;
    while i < n
        invariant
            0 <= i <= n == s.len(),
            data@ == s,
            annual_wf(s),
            valid@ == valid_entries(s.subrange(0, i as int), ind),
        decreases n - i,
    {
        proof {
            assert(s.subrange(0, i as int + 1).drop_last() =~= s.subrange(0, i as int));
            assert(s.subrange(0, i as int + 1).last() == s[i as int]);
        }
        let rec = data[i];
        let v = match ind {
            Indicator::Inflation => rec.inflation,
            Indicator::Eps => rec.eps,
            Indicator::Cape => rec.cape,
            Indicator::CumulativeReturn => rec.cumulative_return,
        };
        if v > 0 {
            valid.push(rec);
        }
        i = i + 1;
    }
    proof {
        assert(s.subrange(0, n as int) =~= s);
    }
    let ghost vseq = valid_entries(s, ind);
    let m = valid.len();
    if m < 2 {
        return (0, 0);
    }
    let first = valid[0];
    let last = valid[m - 1];
    proof {
        assert(vseq[0] == vseq.first());
        assert(vseq[m - 1] == vseq.last());
        assert(first.wf() && last.wf());
        assert(first.year < last.year);
    }
    let past_years: i64 = (last.year as i64) - (first.year as i64);
    let fv = match ind {
        Indicator::Inflation => first.inflation,
        Indicator::Eps => first.eps,
        Indicator::Cape => first.cape,
        Indicator::CumulativeReturn => first.cumulative_return,
    };
    let lv = match ind {
        Indicator::Inflation => last.inflation,
        Indicator::Eps => last.eps,
        Indicator::Cape => last.cape,
        Indicator::CumulativeReturn => last.cumulative_return,
    };
    let past = calculate_cagr(fv, lv, past_years);
    let target: i64 = (last.year as i64) - 10;
    let mut k: usize = m;
    let mut start: Option<HistoricalRecord> = None;
    proof {
        assert(vseq.subrange(0, m as int) =~= vseq);
    }
    while k > 0 && start.is_none()
        invariant
            0 <= k <= m == vseq.len(),
            valid@ == vseq,
            target as int == vseq.last().year - 10,
            forall|i: int| 0 <= i < vseq.len() ==> (#[trigger] vseq[i]).wf(),
            (match start {
                Option::Some(rec) => trailing_start(vseq, target as int) == Some(rec),
                Option::None => trailing_start(vseq, target as int) == trailing_start(
                    vseq.subrange(0, k as int),
                    target as int,
                ),
            }),
        decreases k,
    {
        k = k - 1;
        proof {
            assert(vseq.subrange(0, k as int + 1).drop_last() =~= vseq.subrange(0, k as int));
            assert(vseq.subrange(0, k as int + 1).last() == vseq[k as int]);
        }
        let rec = valid[k];
        if rec.year as i64 <= target {
            start = Some(rec);
        }
    }
    proof {
        if start is None {
            assert(vseq.subrange(0, 0) =~= Seq::<HistoricalRecord>::empty());
        }
    }
    let current = match start {
        Option::Some(st) => {
            let sv = match ind {
                Indicator::Inflation => st.inflation,
                Indicator::Eps => st.eps,
                Indicator::Cape => st.cape,
                Indicator::CumulativeReturn => st.cumulative_return,
            };
            proof {
                assert(trailing_start(vseq, target as int) == Some(st));
                lemma_trailing_start_member(vseq, target as int);
            }
            calculate_cagr(sv, lv, (last.year as i64) - (st.year as i64))
        },
        Option::None => 0,
    };
    (past, current)
}

/// A found trailing start is one of the series' entries.
proof fn lemma_trailing_start_member(v: Seq<HistoricalRecord>, target: int)
    requires
        trailing_start(v, target) is Some,
    ensures
        exists|j: int| 0 <= j < v.len() && trailing_start(v, target)->Some_0 == #[trigger] v[j],
    decreases v.len(),
{
    if v.len() > 0 {
        if v.last().year <= target {
            assert(trailing_start(v, target)->Some_0 == v[v.len() - 1]);
        } else {
            lemma_trailing_start_member(v.drop_last(), target);
            let j = choose|j: int|
                0 <= j < v.drop_last().len() && trailing_start(v.drop_last(), target)->Some_0
                    == v.drop_last()[j];
            assert(trailing_start(v, target)->Some_0 == v[j]);
        }
    }
}

/// Long-run statistics over the annual series: average dividend yield
/// and, per indicator, the whole-period and trailing-ten-year growth
/// rates.
#[derive(Clone, Copy, Debug)]
pub struct MarketMetrics {
    pub avg_dividend_yield: i64,
    pub past_inflation_cagr: i64,
    pub current_inflation_cagr: i64,
    pub past_earnings_cagr: i64,
    pub current_earnings_cagr: i64,
    pub past_cape_cagr: i64,
    pub current_cape_cagr: i64,
    pub past_returns_cagr: i64,
    pub current_returns_cagr: i64,
}

/// Computes the market metrics over the annual series, sorted
/// ascending by year. Fails only on an empty series; every
/// per-indicator degeneracy resolves to a zero rate instead, so a
/// partial result is always served.
pub fn calculate_market_metrics(historical_data: &Vec<HistoricalRecord>) -> (r: Result<
    MarketMetrics,
    MetricsError,
>)
    requires
        annual_wf(historical_data@),
    ensures
        r is Err <==> historical_data@.len() == 0,
        r is Err ==> r->Err_0 == MetricsError::InsufficientData,
        r is Ok ==> ({
            let m = r->Ok_0;
            &&& m.avg_dividend_yield as int == average_spec(positive_yields(historical_data@))
            &&& whole_period_cagr_ok(historical_data@, Indicator::Inflation, m.past_inflation_cagr as int)
            &&& trailing_cagr_ok(historical_data@, Indicator::Inflation, m.current_inflation_cagr as int)
            &&& whole_period_cagr_ok(historical_data@, Indicator::Eps, m.past_earnings_cagr as int)
            &&& trailing_cagr_ok(historical_data@, Indicator::Eps, m.current_earnings_cagr as int)
            &&& whole_period_cagr_ok(historical_data@, Indicator::Cape, m.past_cape_cagr as int)
            &&& trailing_cagr_ok(historical_data@, Indicator::Cape, m.current_cape_cagr as int)
            &&& whole_period_cagr_ok(
                historical_data@,
                Indicator::CumulativeReturn,
                m.past_returns_cagr as int,
            )
            &&& trailing_cagr_ok(
                historical_data@,
                Indicator::CumulativeReturn,
                m.current_returns_cagr as int,
            )
        }),
{
    let ghost s = historical_data@;
    if historical_data.len() == 0 {
        return Err(MetricsError::InsufficientData);
    }
    proof {
        assert(s.subrange(0, 0) =~= Seq::<HistoricalRecord>::empty());
    }
    let n = historical_data.len();
    let mut yields: Vec<i64> = Vec::new();
    let mut i: usize = 0;
    while i < n
        invariant
            0 <= i <= n == s.len(),
            historical_data@ == s,
            annual_wf(s),
            yields@ == positive_yields(s.subrange(0, i as int)),
            forall|j: int| 0 <= j < yields@.len() ==> 0 < #[trigger] yields@[j] <= VALUE_LIMIT,
        decreases n - i,
    {
        proof {
            assert(s.subrange(0, i as int + 1).drop_last() =~= s.subrange(0, i as int));
            assert(s.subrange(0, i as int + 1).last() == s[i as int]);
            assert(s[i as int].wf());
        }
        let rec = historical_data[i];
        if rec.dividend_yield > 0 {
            yields.push(rec.dividend_yield);
        }
        i = i + 1;
    }
    proof {
        assert(s.subrange(0, n as int) =~= s);
    }
    let avg_dividend_yield = calculate_average(&yields);
    let (past_inflation_cagr, current_inflation_cagr) = indicator_cagrs(
        historical_data,
        Indicator::Inflation,
    );
    let (past_earnings_cagr, current_earnings_cagr) = indicator_cagrs(
        historical_data,
        Indicator::Eps,
    );
    let (past_cape_cagr, current_cape_cagr) = indicator_cagrs(historical_data, Indicator::Cape);
    let (past_returns_cagr, current_returns_cagr) = indicator_cagrs(
        historical_data,
        Indicator::CumulativeReturn,
    );
    Ok(
        MarketMetrics {
            avg_dividend_yield,
            past_inflation_cagr,
            current_inflation_cagr,
            past_earnings_cagr,
            current_earnings_cagr,
            past_cape_cagr,
            current_cape_cagr,
            past_returns_cagr,
            current_returns_cagr,
        },
    )
}

} // verus!
