use macro_dashboard::monthly::{MonthlyData, compute_yearly_return, upsert_monthly};
use macro_dashboard::numeric::SCALE;
use macro_dashboard::period::MonthKey;

fn scaled(x: f64) -> i64 {
    (x * SCALE as f64).round() as i64
}

fn m(year: i32, month: u8) -> MonthKey {
    MonthKey { year, month }
}

fn entry(year: i32, month: u8, total_return: f64) -> MonthlyData {
    MonthlyData { month: m(year, month), total_return: scaled(total_return) }
}

#[test]
fn upsert_inserts_new_month_in_order() {
    let mut table = vec![entry(2024, 1, 0.01), entry(2024, 4, 0.02)];
    let inserted = upsert_monthly(&mut table, m(2024, 3), scaled(0.015));
    assert!(inserted);
    assert_eq!(table.len(), 3);
    assert_eq!(table[1].month, m(2024, 3));
    assert_eq!(table[1].total_return, scaled(0.015));
}

#[test]
fn upsert_existing_month_twice_is_noop() {
    let mut table: Vec<MonthlyData> = Vec::new();
    assert!(upsert_monthly(&mut table, m(2024, 3), scaled(0.02)));
    assert_eq!(table.len(), 1);
    // A second upsert for "2024-03", even with another value, changes
    // nothing: the series stays at length one with the old value.
    let inserted = upsert_monthly(&mut table, m(2024, 3), scaled(0.05));
    assert!(!inserted);
    assert_eq!(table.len(), 1);
    assert_eq!(table[0].total_return, scaled(0.02));
}

#[test]
fn yearly_return_compounds_exactly_twelve_months() {
    let returns = [0.01, -0.02, 0.03, 0.0, 0.01, 0.02, -0.01, 0.04, 0.0, 0.01, 0.02, 0.01];
    let mut table: Vec<MonthlyData> = Vec::new();
    for (i, r) in returns.iter().enumerate() {
        table.push(entry(2023, (i + 1) as u8, *r));
    }
    let yearly = compute_yearly_return(&table, 2023).unwrap();
    let expected: f64 = returns.iter().fold(1.0, |acc, r| acc * (1.0 + r)) - 1.0;
    let got = yearly as f64 / SCALE as f64;
    assert!((got - expected).abs() < 1e-7);
}

#[test]
fn yearly_return_none_with_eleven_months() {
    let mut table: Vec<MonthlyData> = Vec::new();
    for i in 1..=11u8 {
        table.push(entry(2023, i, 0.01));
    }
    assert!(compute_yearly_return(&table, 2023).is_none());
}

#[test]
fn yearly_return_ignores_other_years() {
    let mut table: Vec<MonthlyData> = Vec::new();
    for i in 1..=12u8 {
        table.push(entry(2022, i, 0.5));
    }
    for i in 1..=12u8 {
        table.push(entry(2023, i, 0.0));
    }
    let yearly = compute_yearly_return(&table, 2023).unwrap();
    assert_eq!(yearly, 0);
}

#[test]
fn yearly_return_none_on_empty_table() {
    let table: Vec<MonthlyData> = Vec::new();
    assert!(compute_yearly_return(&table, 2023).is_none());
}
