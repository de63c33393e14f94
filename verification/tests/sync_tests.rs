use macro_dashboard::cache::{MarketCache, real_yield};
use macro_dashboard::clock::{previous_year, should_update_daily, year_rolled_over};
use macro_dashboard::errors::ApiError;
use macro_dashboard::numeric::SCALE;
use macro_dashboard::period::{MonthKey, QuarterKey};
use macro_dashboard::quarterly::QuarterlyData;
use macro_dashboard::store::SheetNames;
use macro_dashboard::sync::{
    FundamentalsBatch, RefreshOutcomes, apply_refresh, market_snapshot, plan_refresh,
};

fn scaled(x: f64) -> i64 {
    (x * SCALE as f64).round() as i64
}

// 2024-01-15 21:30:00 UTC == 15:30 in US Central (CST, UTC-6).
const WINTER_CLOSE: i64 = 1705354200;
// 2024-07-10 20:30:00 UTC == 15:30 in US Central (CDT, UTC-5).
const SUMMER_CLOSE: i64 = 1720643400;

fn no_outcomes() -> RefreshOutcomes {
    RefreshOutcomes {
        spot_price: None,
        daily_close: None,
        fundamentals: None,
        bond_yield_20y: None,
        tips_yield_20y: None,
        tbill_yield: None,
        inflation_rate: None,
    }
}

fn empty_batch() -> FundamentalsBatch {
    FundamentalsBatch {
        quarterly_dividend: None,
        eps_actual: None,
        eps_estimated: None,
        cape: None,
        monthly_return: None,
    }
}

#[test]
fn daily_update_window_is_market_close_minute() {
    assert!(should_update_daily(WINTER_CLOSE));
    assert!(should_update_daily(SUMMER_CLOSE));
    assert!(!should_update_daily(WINTER_CLOSE + 3600));
    assert!(!should_update_daily(WINTER_CLOSE + 60));
}

#[test]
fn previous_year_is_one_before_now() {
    assert_eq!(previous_year(WINTER_CLOSE), 2023);
    assert_eq!(previous_year(SUMMER_CLOSE), 2023);
}

#[test]
fn year_rollover_detection() {
    // 2022-12-25 versus early 2024.
    assert!(year_rolled_over(1671926400, WINTER_CLOSE));
    // Two instants of the same year.
    assert!(!year_rolled_over(WINTER_CLOSE, SUMMER_CLOSE));
}

#[test]
fn plan_marks_stale_sources_due() {
    let mut cache = MarketCache::unset();
    cache.current_sp500_price = scaled(5000.0);
    cache.timestamps.yahoo_price = WINTER_CLOSE - 100;
    cache.timestamps.treasury_data = WINTER_CLOSE - 7200;
    cache.timestamps.bls_data = WINTER_CLOSE - 100;
    let plan = plan_refresh(&cache, WINTER_CLOSE);
    assert!(!plan.spot_due);
    assert!(plan.treasury_due);
    assert!(!plan.inflation_due);
    assert!(plan.fundamentals_due);
}

#[test]
fn plan_spot_due_when_never_fetched_or_stale() {
    let cache = MarketCache::unset();
    let plan = plan_refresh(&cache, WINTER_CLOSE + 3600);
    assert!(plan.spot_due);
    assert!(!plan.fundamentals_due);

    let mut warm = MarketCache::unset();
    warm.current_sp500_price = scaled(5000.0);
    warm.timestamps.yahoo_price = WINTER_CLOSE - 1000;
    let plan = plan_refresh(&warm, WINTER_CLOSE + 3600);
    assert!(plan.spot_due);
}

#[test]
fn inflation_failure_leaves_value_while_spot_succeeds() {
    let mut cache = MarketCache::unset();
    cache.inflation_rate = scaled(0.031);
    cache.timestamps.bls_data = 1700000000;
    let mut outcomes = no_outcomes();
    outcomes.spot_price = Some(scaled(4800.0));
    let changed = apply_refresh(&mut cache, WINTER_CLOSE, &outcomes);
    assert!(changed);
    assert_eq!(cache.current_sp500_price, scaled(4800.0));
    assert_eq!(cache.timestamps.yahoo_price, WINTER_CLOSE);
    assert_eq!(cache.inflation_rate, scaled(0.031));
    assert_eq!(cache.timestamps.bls_data, 1700000000);
}

#[test]
fn all_failures_change_nothing() {
    let mut cache = MarketCache::unset();
    cache.tbill_yield = scaled(0.05);
    let before = cache;
    let changed = apply_refresh(&mut cache, WINTER_CLOSE, &no_outcomes());
    assert!(!changed);
    assert_eq!(cache.tbill_yield, before.tbill_yield);
    assert_eq!(cache.timestamps.treasury_data, before.timestamps.treasury_data);
}

#[test]
fn daily_close_becomes_current_price() {
    let mut cache = MarketCache::unset();
    let mut outcomes = no_outcomes();
    outcomes.daily_close = Some(scaled(4790.0));
    apply_refresh(&mut cache, WINTER_CLOSE, &outcomes);
    assert_eq!(cache.daily_close_sp500_price, scaled(4790.0));
    assert_eq!(cache.current_sp500_price, scaled(4790.0));
}

#[test]
fn fundamentals_merge_is_per_field() {
    let mut cache = MarketCache::unset();
    cache.current_cape = scaled(30.0);
    cache.cape_period = Some(MonthKey { year: 2023, month: 11 });
    let mut batch = empty_batch();
    batch.monthly_return = Some((MonthKey { year: 2023, month: 12 }, scaled(0.012)));
    // No CAPE observation in this batch: the cached one must survive.
    let mut outcomes = no_outcomes();
    outcomes.fundamentals = Some(batch);
    let changed = apply_refresh(&mut cache, WINTER_CLOSE, &outcomes);
    assert!(changed);
    assert_eq!(cache.current_cape, scaled(30.0));
    assert_eq!(cache.cape_period, Some(MonthKey { year: 2023, month: 11 }));
    assert_eq!(cache.latest_month, Some(MonthKey { year: 2023, month: 12 }));
    assert_eq!(cache.latest_monthly_return, scaled(0.012));
    assert_eq!(cache.timestamps.ycharts_data, WINTER_CLOSE);
}

#[test]
fn treasury_timestamp_needs_all_three_yields() {
    let mut cache = MarketCache::unset();
    let mut outcomes = no_outcomes();
    outcomes.bond_yield_20y = Some(scaled(0.045));
    outcomes.tips_yield_20y = Some(scaled(0.02));
    let changed = apply_refresh(&mut cache, WINTER_CLOSE, &outcomes);
    assert!(changed);
    assert_eq!(cache.bond_yield_20y, scaled(0.045));
    assert_eq!(cache.timestamps.treasury_data, 0);

    outcomes.tbill_yield = Some(scaled(0.053));
    apply_refresh(&mut cache, WINTER_CLOSE, &outcomes);
    assert_eq!(cache.timestamps.treasury_data, WINTER_CLOSE);
}

#[test]
fn snapshot_reflects_cache_and_table() {
    let mut cache = MarketCache::unset();
    cache.daily_close_sp500_price = scaled(4700.0);
    cache.current_sp500_price = scaled(4720.0);
    cache.current_cape = scaled(31.5);
    cache.cape_period = Some(MonthKey { year: 2023, month: 12 });
    cache.timestamps.ycharts_data = WINTER_CLOSE;
    let table = vec![
        QuarterlyData {
            quarter: QuarterKey { year: 2023, quarter: 1 },
            dividend: Some(scaled(1.0)),
            eps_actual: Some(scaled(5.0)),
            eps_estimated: None,
        },
        QuarterlyData {
            quarter: QuarterKey { year: 2023, quarter: 2 },
            dividend: Some(scaled(1.0)),
            eps_actual: None,
            eps_estimated: None,
        },
    ];
    let data = market_snapshot(&cache, &table);
    assert_eq!(data.daily_close_sp500_price, scaled(4700.0));
    assert_eq!(data.current_sp500_price, scaled(4720.0));
    assert_eq!(data.cape, scaled(31.5));
    assert_eq!(data.cape_period, Some(MonthKey { year: 2023, month: 12 }));
    assert_eq!(data.last_update, WINTER_CLOSE);
    assert!(data.ttm_dividend.is_none());
    let latest = data.latest_eps_actual.unwrap();
    assert_eq!(latest.final_quarter, QuarterKey { year: 2023, quarter: 1 });
    assert_eq!(latest.value, scaled(5.0));
    assert!(data.estimated_eps_sum.is_none());
}

#[test]
fn real_yield_requires_both_components() {
    let mut cache = MarketCache::unset();
    cache.tbill_yield = scaled(0.05);
    let r = real_yield(&cache);
    assert!(matches!(r, Err(ApiError::CacheError(_))));

    cache.inflation_rate = scaled(0.03);
    assert_eq!(real_yield(&cache).unwrap(), scaled(0.02));
}

#[test]
fn api_error_constructors_carry_messages() {
    let e = ApiError::database_error("row missing".to_string());
    assert!(matches!(e, ApiError::DatabaseError(_)));
    assert_eq!(e.message(), "row missing");
    let e = ApiError::external_error("fetch failed".to_string());
    assert!(matches!(e, ApiError::ExternalServiceError(_)));
    let e = ApiError::cache_error("cold".to_string());
    assert!(matches!(e, ApiError::CacheError(_)));
    let e = ApiError::parse_error("bad number".to_string());
    assert!(matches!(e, ApiError::ParseError(_)));
    assert_eq!(e.message(), "bad number");
}

#[test]
fn sheet_names_default() {
    let names = SheetNames::default();
    assert_eq!(names.market_cache, "MarketCache");
    assert_eq!(names.quarterly_data, "QuarterlyData");
    assert_eq!(names.historical_data, "HistoricalData");
}
