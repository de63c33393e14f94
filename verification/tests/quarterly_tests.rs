use macro_dashboard::numeric::{MATERIAL_CHANGE_EPSILON, SCALE};
use macro_dashboard::period::QuarterKey;
use macro_dashboard::quarterly::{
    QuarterlyData, QuarterlyField, compute_ttm_dividend, forward_eps_sum, latest_actual_eps,
    upsert_quarterly,
};

fn scaled(x: f64) -> i64 {
    (x * SCALE as f64).round() as i64
}

fn q(year: i32, quarter: u8) -> QuarterKey {
    QuarterKey { year, quarter }
}

fn rec(year: i32, quarter: u8, dividend: Option<f64>, eps_actual: Option<f64>, eps_estimated: Option<f64>) -> QuarterlyData {
    QuarterlyData {
        quarter: q(year, quarter),
        dividend: dividend.map(scaled),
        eps_actual: eps_actual.map(scaled),
        eps_estimated: eps_estimated.map(scaled),
    }
}

#[test]
fn upsert_creates_record_in_order() {
    let mut table = vec![rec(2023, 1, Some(1.0), None, None), rec(2023, 3, Some(1.0), None, None)];
    let updated = upsert_quarterly(&mut table, q(2023, 2), QuarterlyField::Dividend, scaled(1.5), MATERIAL_CHANGE_EPSILON);
    assert!(updated);
    assert_eq!(table.len(), 3);
    assert_eq!(table[1].quarter, q(2023, 2));
    assert_eq!(table[1].dividend, Some(scaled(1.5)));
    assert_eq!(table[1].eps_actual, None);
}

#[test]
fn upsert_same_value_is_noop() {
    let mut table = vec![rec(2023, 1, Some(1.5), None, None)];
    let updated = upsert_quarterly(&mut table, q(2023, 1), QuarterlyField::Dividend, scaled(1.5), MATERIAL_CHANGE_EPSILON);
    assert!(!updated);
    assert_eq!(table.len(), 1);
    assert_eq!(table[0].dividend, Some(scaled(1.5)));
}

#[test]
fn upsert_within_epsilon_is_noop() {
    let mut table = vec![rec(2023, 1, Some(1.5), None, None)];
    // 0.0005 below the stored value: within the 0.001 tolerance.
    let close = scaled(1.5) - 500_000;
    let updated = upsert_quarterly(&mut table, q(2023, 1), QuarterlyField::Dividend, close, MATERIAL_CHANGE_EPSILON);
    assert!(!updated);
    assert_eq!(table[0].dividend, Some(scaled(1.5)));
}

#[test]
fn upsert_material_difference_overwrites() {
    let mut table = vec![rec(2023, 1, Some(1.5), None, None)];
    let updated = upsert_quarterly(&mut table, q(2023, 1), QuarterlyField::Dividend, scaled(1.6), MATERIAL_CHANGE_EPSILON);
    assert!(updated);
    assert_eq!(table[0].dividend, Some(scaled(1.6)));
}

#[test]
fn upsert_fills_missing_field_independently() {
    let mut table = vec![rec(2023, 1, Some(1.5), None, None)];
    let updated = upsert_quarterly(&mut table, q(2023, 1), QuarterlyField::EpsActual, scaled(5.0), MATERIAL_CHANGE_EPSILON);
    assert!(updated);
    assert_eq!(table[0].dividend, Some(scaled(1.5)));
    assert_eq!(table[0].eps_actual, Some(scaled(5.0)));
}

#[test]
fn ttm_dividend_needs_four_nonnull() {
    let table = vec![
        rec(2023, 1, Some(1.0), None, None),
        rec(2023, 2, Some(1.0), None, None),
        rec(2023, 3, None, None, None),
        rec(2023, 4, Some(1.0), None, None),
    ];
    assert!(compute_ttm_dividend(&table).is_none());
}

#[test]
fn ttm_dividend_sums_most_recent_four() {
    let table = vec![
        rec(2022, 4, Some(9.0), None, None),
        rec(2023, 1, Some(1.0), None, None),
        rec(2023, 2, Some(2.0), None, None),
        rec(2023, 3, Some(3.0), None, None),
        rec(2023, 4, Some(4.0), None, None),
    ];
    let ttm = compute_ttm_dividend(&table).unwrap();
    assert_eq!(ttm.value, scaled(10.0));
    // The as-of quarter is the oldest of the four included.
    assert_eq!(ttm.final_quarter, q(2023, 1));
}

#[test]
fn ttm_dividend_skips_null_quarters() {
    let table = vec![
        rec(2022, 3, Some(1.0), None, None),
        rec(2022, 4, Some(2.0), None, None),
        rec(2023, 1, Some(3.0), None, None),
        rec(2023, 2, None, None, None),
        rec(2023, 3, Some(4.0), None, None),
    ];
    let ttm = compute_ttm_dividend(&table).unwrap();
    assert_eq!(ttm.value, scaled(10.0));
    assert_eq!(ttm.final_quarter, q(2022, 3));
}

#[test]
fn latest_actual_eps_picks_most_recent() {
    let table = vec![
        rec(2023, 1, None, Some(5.0), None),
        rec(2023, 2, None, Some(6.0), None),
        rec(2023, 3, None, None, None),
    ];
    let latest = latest_actual_eps(&table).unwrap();
    assert_eq!(latest.value, scaled(6.0));
    assert_eq!(latest.final_quarter, q(2023, 2));
}

#[test]
fn latest_actual_eps_none_when_absent() {
    let table = vec![rec(2023, 1, Some(1.0), None, None)];
    assert!(latest_actual_eps(&table).is_none());
}

#[test]
fn forward_eps_sums_four_consecutive() {
    let table = vec![
        rec(2023, 4, None, Some(8.0), None),
        rec(2024, 1, None, None, Some(5.0)),
        rec(2024, 2, None, None, Some(6.0)),
        rec(2024, 3, None, None, Some(7.0)),
        rec(2024, 4, None, None, Some(8.0)),
    ];
    let fwd = forward_eps_sum(&table).unwrap();
    assert_eq!(fwd.value, scaled(26.0));
    assert_eq!(fwd.final_quarter, q(2024, 4));
}

#[test]
fn forward_eps_gap_in_run_yields_none() {
    // Four estimates exist, but the run starting at the earliest one
    // breaks at 2024Q2: the gap invalidates the whole estimate.
    let table = vec![
        rec(2024, 1, None, None, Some(5.0)),
        rec(2024, 2, None, None, None),
        rec(2024, 3, None, None, Some(7.0)),
        rec(2024, 4, None, None, Some(8.0)),
        rec(2025, 1, None, None, Some(9.0)),
    ];
    assert!(forward_eps_sum(&table).is_none());
}

#[test]
fn forward_eps_missing_quarter_row_is_a_gap() {
    // 2024Q2 has no record at all: the quarters present are not
    // calendar-consecutive, so the estimate is invalidated.
    let table = vec![
        rec(2024, 1, None, None, Some(5.0)),
        rec(2024, 3, None, None, Some(7.0)),
        rec(2024, 4, None, None, Some(8.0)),
        rec(2025, 1, None, None, Some(9.0)),
    ];
    assert!(forward_eps_sum(&table).is_none());
}

#[test]
fn forward_eps_none_when_no_estimates() {
    let table = vec![rec(2024, 1, Some(1.0), Some(2.0), None)];
    assert!(forward_eps_sum(&table).is_none());
}

#[test]
fn forward_eps_run_crosses_year_boundary() {
    let table = vec![
        rec(2024, 3, None, None, Some(1.0)),
        rec(2024, 4, None, None, Some(2.0)),
        rec(2025, 1, None, None, Some(3.0)),
        rec(2025, 2, None, None, Some(4.0)),
    ];
    let fwd = forward_eps_sum(&table).unwrap();
    assert_eq!(fwd.value, scaled(10.0));
    assert_eq!(fwd.final_quarter, q(2025, 2));
}
