//! One full cycle through the engine: fundamentals outcomes merge
//! into the cache, observations land in the quarterly and monthly
//! tables, the backfill completes the annual record, and the metrics
//! engine reads the series.

use macro_dashboard::annual::{backfill_annual, HistoricalRecord};
use macro_dashboard::cache::MarketCache;
use macro_dashboard::metrics::calculate_market_metrics;
use macro_dashboard::monthly::{upsert_monthly, MonthlyData};
use macro_dashboard::numeric::{MATERIAL_CHANGE_EPSILON, SCALE};
use macro_dashboard::period::{MonthKey, QuarterKey};
use macro_dashboard::quarterly::{upsert_quarterly, QuarterlyData, QuarterlyField};
use macro_dashboard::sync::{apply_refresh, market_snapshot, FundamentalsBatch, RefreshOutcomes};

fn scaled(x: f64) -> i64 {
    (x * SCALE as f64).round() as i64
}

#[test]
fn full_cycle_from_outcomes_to_metrics() {
    let mut cache = MarketCache::unset();
    let mut quarterly: Vec<QuarterlyData> = Vec::new();
    let mut monthly: Vec<MonthlyData> = Vec::new();
    let now: i64 = 1705354200; // early 2024

    // A cycle's outcomes: a daily close and a fundamentals batch with
    // a December CAPE and a December monthly return.
    let batch = FundamentalsBatch {
        quarterly_dividend: Some((QuarterKey { year: 2023, quarter: 4 }, scaled(1.0))),
        eps_actual: Some((QuarterKey { year: 2023, quarter: 4 }, scaled(8.0))),
        eps_estimated: None,
        cape: Some((scaled(31.0), Some(MonthKey { year: 2023, month: 12 }))),
        monthly_return: Some((MonthKey { year: 2023, month: 12 }, scaled(0.01))),
    };
    let outcomes = RefreshOutcomes {
        spot_price: None,
        daily_close: Some(scaled(4800.0)),
        fundamentals: Some(batch),
        bond_yield_20y: None,
        tips_yield_20y: None,
        tbill_yield: None,
        inflation_rate: None,
    };
    assert!(apply_refresh(&mut cache, now, &outcomes));
    assert_eq!(cache.current_cape, scaled(31.0));
    assert_eq!(cache.daily_close_sp500_price, scaled(4800.0));

    // The batch's observations land in the tables; the first three
    // quarters and eleven months were already recorded in past cycles.
    for q in 1..=3u8 {
        upsert_quarterly(
            &mut quarterly,
            QuarterKey { year: 2023, quarter: q },
            QuarterlyField::Dividend,
            scaled(1.0),
            MATERIAL_CHANGE_EPSILON,
        );
        upsert_quarterly(
            &mut quarterly,
            QuarterKey { year: 2023, quarter: q },
            QuarterlyField::EpsActual,
            scaled(4.0 + q as f64),
            MATERIAL_CHANGE_EPSILON,
        );
    }
    for m in 1..=11u8 {
        upsert_monthly(&mut monthly, MonthKey { year: 2023, month: m }, scaled(0.01));
    }
    let (div_q, div_v) = outcomes.fundamentals.unwrap().quarterly_dividend.unwrap();
    upsert_quarterly(&mut quarterly, div_q, QuarterlyField::Dividend, div_v, MATERIAL_CHANGE_EPSILON);
    let (eps_q, eps_v) = outcomes.fundamentals.unwrap().eps_actual.unwrap();
    upsert_quarterly(&mut quarterly, eps_q, QuarterlyField::EpsActual, eps_v, MATERIAL_CHANGE_EPSILON);
    let (ret_m, ret_v) = outcomes.fundamentals.unwrap().monthly_return.unwrap();
    upsert_monthly(&mut monthly, ret_m, ret_v);

    // The snapshot now reports a full trailing-twelve-month dividend.
    let snapshot = market_snapshot(&cache, &quarterly);
    let ttm = snapshot.ttm_dividend.unwrap();
    assert_eq!(ttm.value, scaled(4.0));
    assert_eq!(ttm.final_quarter, QuarterKey { year: 2023, quarter: 1 });

    // The backfill finds 2023 complete on every gate.
    let rec = backfill_annual(None, &quarterly, &monthly, &cache, 2023, true).unwrap();
    assert_eq!(rec.year, 2023);
    assert_eq!(rec.eps, scaled(26.0));
    assert_eq!(rec.dividend, scaled(4.0));
    assert_eq!(rec.sp500_price, scaled(4800.0));
    assert_eq!(rec.cape, scaled(31.0));
    let expected_return = 1.01f64.powi(12) - 1.0;
    assert!((rec.total_return as f64 / SCALE as f64 - expected_return).abs() < 1e-7);

    // The metrics engine reads the finished series.
    let mut earlier = HistoricalRecord::unset(2013);
    earlier.cape = scaled(25.0);
    earlier.dividend_yield = scaled(0.02);
    let series = vec![earlier, rec];
    let metrics = calculate_market_metrics(&series).unwrap();
    assert!(metrics.past_cape_cagr > 0);
    // 2013 is exactly ten years before 2023, so the trailing window
    // spans the same period.
    assert_eq!(metrics.current_cape_cagr, metrics.past_cape_cagr);
}
