//! The in-memory market snapshot: one value and one last-success
//! timestamp per data source. A failed fetch never advances a
//! timestamp nor overwrites the last good value; a value of zero is
//! the never-fetched sentinel.

use vstd::prelude::*;
use crate::clock::fits_timestamp;
use crate::errors::ApiError;
use crate::numeric::{SCALE, fits_value};
use crate::period::MonthKey;

verus! {

/// Last-success Unix timestamps, one per source: each reflects only
/// its own source's last successful write.
#[derive(Clone, Copy, Debug)]
pub struct Timestamps {
    pub yahoo_price: i64,
    pub ycharts_data: i64,
    pub treasury_data: i64,
    pub bls_data: i64,
}

impl Timestamps {
    /// Every timestamp is a representable Unix time.
    pub open spec fn wf(self) -> bool {
        &&& fits_timestamp(self.yahoo_price as int)
        &&& fits_timestamp(self.ycharts_data as int)
        &&& fits_timestamp(self.treasury_data as int)
        &&& fits_timestamp(self.bls_data as int)
    }
}

/// The current snapshot of all market indicators, persisted between
/// refresh cycles.
#[derive(Clone, Copy, Debug)]
pub struct MarketCache {
    pub timestamps: Timestamps,
    pub daily_close_sp500_price: i64,
    pub current_sp500_price: i64,
    pub current_cape: i64,
    pub cape_period: Option<MonthKey>,
    pub tips_yield_20y: i64,
    pub bond_yield_20y: i64,
    pub tbill_yield: i64,
    pub inflation_rate: i64,
    pub latest_month: Option<MonthKey>,
    pub latest_monthly_return: i64,
}

impl MarketCache {
    /// Timestamps and every cached value are representable.
    pub open spec fn wf(self) -> bool {
        &&& self.timestamps.wf()
        &&& fits_value(self.daily_close_sp500_price as int)
        &&& fits_value(self.current_sp500_price as int)
        &&& fits_value(self.current_cape as int)
        &&& (self.cape_period is Some ==> self.cape_period->Some_0.wf())
        &&& fits_value(self.tips_yield_20y as int)
        &&& fits_value(self.bond_yield_20y as int)
        &&& fits_value(self.tbill_yield as int)
        &&& fits_value(self.inflation_rate as int)
        &&& (self.latest_month is Some ==> self.latest_month->Some_0.wf())
        &&& -SCALE <= self.latest_monthly_return <= SCALE
    }

    /// The all-unset snapshot a fresh deployment starts from: every
    /// value at its zero sentinel and every timestamp at the epoch.
    pub fn unset() -> (cache: MarketCache)
        ensures
            cache.wf(),
            cache.timestamps.yahoo_price == 0 && cache.timestamps.ycharts_data == 0
                && cache.timestamps.treasury_data == 0 && cache.timestamps.bls_data == 0,
            cache.daily_close_sp500_price == 0 && cache.current_sp500_price == 0,
            cache.current_cape == 0 && cache.cape_period is None,
            cache.tips_yield_20y == 0 && cache.bond_yield_20y == 0 && cache.tbill_yield == 0
                && cache.inflation_rate == 0,
            cache.latest_month is None && cache.latest_monthly_return == 0,
    {
        MarketCache {
            timestamps: Timestamps {
                yahoo_price: 0,
                ycharts_data: 0,
                treasury_data: 0,
                bls_data: 0,
            },
            daily_close_sp500_price: 0,
            current_sp500_price: 0,
            current_cape: 0,
            cape_period: None,
            tips_yield_20y: 0,
            bond_yield_20y: 0,
            tbill_yield: 0,
            inflation_rate: 0,
            latest_month: None,
            latest_monthly_return: 0,
        }
    }
}

/// The real (inflation-adjusted) short-term yield: T-bill yield minus
/// inflation rate. Owed whenever both components have been fetched at
/// least once; reported as a cache error exactly when either is still
/// at its zero sentinel.
pub fn real_yield(cache: &MarketCache) -> (r: Result<i64, ApiError>)
    requires
        cache.wf(),
    ensures
        r is Err <==> (cache.tbill_yield == 0 || cache.inflation_rate == 0),
        r is Ok ==> r->Ok_0 == cache.tbill_yield - cache.inflation_rate,
        r is Err ==> r->Err_0 is CacheError,
{
    if cache.tbill_yield == 0 || cache.inflation_rate == 0 {
        Err(ApiError::cache_error("Missing required T-bill or inflation data".to_string()))
    } else {
        Ok(cache.tbill_yield - cache.inflation_rate)
    }
}

} // verus!
