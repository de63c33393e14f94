//! Refresh orchestration: which sources are due, and how a cycle's
//! fetch outcomes merge into the snapshot.
//!
//! The orchestrator that runs the cycle performs the actual network
//! fetches outside this crate; here live the decisions. A failed or
//! skipped fetch arrives as `None` and leaves its source's value and
//! timestamp untouched — partial successes never corrupt
//! previously-good values.

use vstd::prelude::*;
use crate::cache::MarketCache;
use crate::clock::{MARKET_CLOSE_MINUTE, central_minute_of_day, fits_timestamp, should_update_daily};
use crate::numeric::{SCALE, fits_quarter_value, fits_value};
use crate::period::{MonthKey, QuarterKey};
use crate::quarterly::{
    QuarterlyData, QuarterlyValue, compute_ttm_dividend, forward_eps_spec, forward_eps_sum,
    latest_actual_eps, latest_eps_spec, quarters_wf, ttm_dividend_spec,
};

verus! {

/// Refresh interval of the spot price: fifteen minutes.
pub const SPOT_REFRESH_SECS: i64 = 900;

/// Refresh interval of treasury yields and of inflation: one hour.
pub const HOURLY_REFRESH_SECS: i64 = 3600;

/// Which staleness classes are due for a fetch at a given instant.
#[derive(Clone, Copy, PartialEq, Eq, Structural, Debug)]
pub struct RefreshPlan {
    pub spot_due: bool,
    pub fundamentals_due: bool,
    pub treasury_due: bool,
    pub inflation_due: bool,
}

/// Consults the staleness policy of every source: the spot price is
/// due when never fetched or older than its fifteen-minute interval,
/// the fundamentals batch once per day at the market-close minute, and
/// treasury yields and inflation when older than one hour.
pub fn plan_refresh(cache: &MarketCache, now: i64) -> (plan: RefreshPlan)
    requires
        cache.wf(),
        fits_timestamp(now as int),
    ensures
        plan.spot_due == (cache.current_sp500_price == 0 || cache.timestamps.yahoo_price
            + SPOT_REFRESH_SECS < now),
        plan.fundamentals_due == (central_minute_of_day(now as int) == MARKET_CLOSE_MINUTE),
        plan.treasury_due == (cache.timestamps.treasury_data + HOURLY_REFRESH_SECS < now),
        plan.inflation_due == (cache.timestamps.bls_data + HOURLY_REFRESH_SECS < now),
{
    RefreshPlan {
        spot_due: cache.current_sp500_price == 0 || cache.timestamps.yahoo_price
            + SPOT_REFRESH_SECS < now,
        fundamentals_due: should_update_daily(now),
        treasury_due: cache.timestamps.treasury_data + HOURLY_REFRESH_SECS < now,
        inflation_due: cache.timestamps.bls_data + HOURLY_REFRESH_SECS < now,
    }
}

/// The up-to-five independent observations one fundamentals batch
/// fetch can yield; each field is independently optional.
#[derive(Clone, Copy, Debug)]
pub struct FundamentalsBatch {
    pub quarterly_dividend: Option<(QuarterKey, i64)>,
    pub eps_actual: Option<(QuarterKey, i64)>,
    pub eps_estimated: Option<(QuarterKey, i64)>,
    pub cape: Option<(i64, Option<MonthKey>)>,
    pub monthly_return: Option<(MonthKey, i64)>,
}

impl FundamentalsBatch {
    /// Every observation present is representable and carries a real
    /// period.
    pub open spec fn wf(self) -> bool {
        &&& (self.quarterly_dividend is Some ==> self.quarterly_dividend->Some_0.0.wf()
            && fits_quarter_value(self.quarterly_dividend->Some_0.1 as int))
        &&& (self.eps_actual is Some ==> self.eps_actual->Some_0.0.wf() && fits_quarter_value(
            self.eps_actual->Some_0.1 as int,
        ))
        &&& (self.eps_estimated is Some ==> self.eps_estimated->Some_0.0.wf()
            && fits_quarter_value(self.eps_estimated->Some_0.1 as int))
        &&& (self.cape is Some ==> fits_value(self.cape->Some_0.0 as int) && (self.cape->Some_0.1
            is Some ==> self.cape->Some_0.1->Some_0.wf()))
        &&& (self.monthly_return is Some ==> self.monthly_return->Some_0.0.wf() && -SCALE
            <= self.monthly_return->Some_0.1 <= SCALE)
    }
}

/// What one refresh cycle's adapters returned. `None` marks a source
/// that was not due or whose fetch failed or timed out — the two are
/// treated identically.
#[derive(Clone, Copy, Debug)]
pub struct RefreshOutcomes {
    pub spot_price: Option<i64>,
    pub daily_close: Option<i64>,
    pub fundamentals: Option<FundamentalsBatch>,
    pub bond_yield_20y: Option<i64>,
    pub tips_yield_20y: Option<i64>,
    pub tbill_yield: Option<i64>,
    pub inflation_rate: Option<i64>,
}

impl RefreshOutcomes {
    /// Every value present is representable.
    pub open spec fn wf(self) -> bool {
        &&& (self.spot_price is Some ==> fits_value(self.spot_price->Some_0 as int))
        &&& (self.daily_close is Some ==> fits_value(self.daily_close->Some_0 as int))
        &&& (self.fundamentals is Some ==> self.fundamentals->Some_0.wf())
        &&& (self.bond_yield_20y is Some ==> fits_value(self.bond_yield_20y->Some_0 as int))
        &&& (self.tips_yield_20y is Some ==> fits_value(self.tips_yield_20y->Some_0 as int))
        &&& (self.tbill_yield is Some ==> fits_value(self.tbill_yield->Some_0 as int))
        &&& (self.inflation_rate is Some ==> fits_value(self.inflation_rate->Some_0 as int))
    }

    /// At least one fetch succeeded.
    pub open spec fn any_success(self) -> bool {
        self.spot_price is Some || self.daily_close is Some || self.fundamentals is Some
            || self.bond_yield_20y is Some || self.tips_yield_20y is Some || self.tbill_yield
            is Some || self.inflation_rate is Some
    }
}

/// Merges one cycle's outcomes into the snapshot, per source: a
/// successful fetch installs the value and advances that source's
/// timestamp to `now`; a failed or skipped one leaves both untouched.
/// The three treasury yields share one timestamp, advanced only when
/// all three succeeded. The daily close also becomes the current
/// price, as the freshest observation. Returns whether anything
/// changed, i.e. whether the snapshot needs persisting.
pub fn apply_refresh(cache: &mut MarketCache, now: i64, outcomes: &RefreshOutcomes) -> (changed:
    bool)
    requires
        old(cache).wf(),
        fits_timestamp(now as int),
        outcomes.wf(),
    ensures
        final(cache).wf(),
        changed == outcomes.any_success(),
        final(cache).current_sp500_price == (if outcomes.daily_close is Some {
            outcomes.daily_close->Some_0
        } else if outcomes.spot_price is Some {
            outcomes.spot_price->Some_0
        } else {
            old(cache).current_sp500_price
        }),
        final(cache).daily_close_sp500_price == (if outcomes.daily_close is Some {
            outcomes.daily_close->Some_0
        } else {
            old(cache).daily_close_sp500_price
        }),
        final(cache).timestamps.yahoo_price == (if outcomes.spot_price is Some {
            now
        } else {
            old(cache).timestamps.yahoo_price
        }),
        final(cache).timestamps.ycharts_data == (if outcomes.fundamentals is Some {
            now
        } else {
            old(cache).timestamps.ycharts_data
        }),
        final(cache).current_cape == (if outcomes.fundamentals is Some
            && outcomes.fundamentals->Some_0.cape is Some {
            outcomes.fundamentals->Some_0.cape->Some_0.0
        } else {
            old(cache).current_cape
        }),
        final(cache).cape_period == (if outcomes.fundamentals is Some
            && outcomes.fundamentals->Some_0.cape is Some {
            outcomes.fundamentals->Some_0.cape->Some_0.1
        } else {
            old(cache).cape_period
        }),
        final(cache).latest_month == (if outcomes.fundamentals is Some
            && outcomes.fundamentals->Some_0.monthly_return is Some {
            Some(outcomes.fundamentals->Some_0.monthly_return->Some_0.0)
        } else {
            old(cache).latest_month
        }),
        final(cache).latest_monthly_return == (if outcomes.fundamentals is Some
            && outcomes.fundamentals->Some_0.monthly_return is Some {
            outcomes.fundamentals->Some_0.monthly_return->Some_0.1
        } else {
            old(cache).latest_monthly_return
        }),
        final(cache).bond_yield_20y == (if outcomes.bond_yield_20y is Some {
            outcomes.bond_yield_20y->Some_0
        } else {
            old(cache).bond_yield_20y
        }),
        final(cache).tips_yield_20y == (if outcomes.tips_yield_20y is Some {
            outcomes.tips_yield_20y->Some_0
        } else {
            old(cache).tips_yield_20y
        }),
        final(cache).tbill_yield == (if outcomes.tbill_yield is Some {
            outcomes.tbill_yield->Some_0
        } else {
            old(cache).tbill_yield
        }),
        final(cache).timestamps.treasury_data == (if outcomes.bond_yield_20y is Some
            && outcomes.tips_yield_20y is Some && outcomes.tbill_yield is Some {
            now
        } else {
            old(cache).timestamps.treasury_data
        }),
        final(cache).inflation_rate == (if outcomes.inflation_rate is Some {
            outcomes.inflation_rate->Some_0
        } else {
            old(cache).inflation_rate
        }),
        final(cache).timestamps.bls_data == (if outcomes.inflation_rate is Some {
            now
        } else {
            old(cache).timestamps.bls_data
        }),
{
    let mut changed = false;
    if let Option::Some(price) = outcomes.spot_price {
        cache.current_sp500_price = price;
        cache.timestamps.yahoo_price = now;
        changed = true;
    }
    if let Option::Some(close) = outcomes.daily_close {
        cache.daily_close_sp500_price = close;
        cache.current_sp500_price = close;
        changed = true;
    }
    if let Option::Some(batch) = outcomes.fundamentals {
        if let Option::Some(cape) = batch.cape {
            cache.current_cape = cape.0;
            cache.cape_period = cape.1;
        }
        if let Option::Some(monthly) = batch.monthly_return {
            cache.latest_month = Some(monthly.0);
            cache.latest_monthly_return = monthly.1;
        }
        cache.timestamps.ycharts_data = now;
        changed = true;
    }
    if let Option::Some(bond) = outcomes.bond_yield_20y {
        cache.bond_yield_20y = bond;
        changed = true;
    }
    if let Option::Some(tips) = outcomes.tips_yield_20y {
        cache.tips_yield_20y = tips;
        changed = true;
    }
    if let Option::Some(tbill) = outcomes.tbill_yield {
        cache.tbill_yield = tbill;
        changed = true;
    }
    if outcomes.bond_yield_20y.is_some() && outcomes.tips_yield_20y.is_some()
        && outcomes.tbill_yield.is_some() {
        cache.timestamps.treasury_data = now;
    }
    if let Option::Some(rate) = outcomes.inflation_rate {
        cache.inflation_rate = rate;
        cache.timestamps.bls_data = now;
        changed = true;
    }
    changed
}

/// The snapshot served to callers after a refresh cycle: current and
/// daily-close prices, the three quarterly aggregates, and the CAPE
/// reading with its period.
#[derive(Clone, Copy, Debug)]
pub struct MarketData {
    pub daily_close_sp500_price: i64,
    pub current_sp500_price: i64,
    pub ttm_dividend: Option<QuarterlyValue>,
    pub latest_eps_actual: Option<QuarterlyValue>,
    pub estimated_eps_sum: Option<QuarterlyValue>,
    pub cape: i64,
    pub cape_period: Option<MonthKey>,
    pub last_update: i64,
}

/// Assembles the caller-facing snapshot from the cache and the
/// quarterly table: prices and CAPE straight from the cache, the three
/// aggregates computed from the table.
pub fn market_snapshot(cache: &MarketCache, quarterly: &Vec<QuarterlyData>) -> (data: MarketData)
    requires
        cache.wf(),
        quarters_wf(quarterly@),
    ensures
        data.daily_close_sp500_price == cache.daily_close_sp500_price,
        data.current_sp500_price == cache.current_sp500_price,
        data.cape == cache.current_cape,
        data.cape_period == cache.cape_period,
        data.last_update == cache.timestamps.ycharts_data,
        (match data.ttm_dividend {
            Option::Some(qv) => ttm_dividend_spec(quarterly@) == Some(
                (qv.final_quarter, qv.value as int),
            ),
            Option::None => ttm_dividend_spec(quarterly@) is None,
        }),
        (match data.latest_eps_actual {
            Option::Some(qv) => latest_eps_spec(quarterly@) == Some(
                (qv.final_quarter, qv.value as int),
            ),
            Option::None => latest_eps_spec(quarterly@) is None,
        }),
        (match data.estimated_eps_sum {
            Option::Some(qv) => forward_eps_spec(quarterly@) == Some(
                (qv.final_quarter, qv.value as int),
            ),
            Option::None => forward_eps_spec(quarterly@) is None,
        }),
{
    MarketData {
        daily_close_sp500_price: cache.daily_close_sp500_price,
        current_sp500_price: cache.current_sp500_price,
        ttm_dividend: compute_ttm_dividend(quarterly),
        latest_eps_actual: latest_actual_eps(quarterly),
        estimated_eps_sum: forward_eps_sum(quarterly),
        cape: cache.current_cape,
        cape_period: cache.cape_period,
        last_update: cache.timestamps.ycharts_data,
    }
}

} // verus!
