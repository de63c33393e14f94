//! Civil-time questions the refresh policy asks: the wall-clock minute
//! at the exchange's home time zone, and the UTC calendar year of a
//! timestamp. Both are functions of the timestamp alone; computing
//! them is delegated to the `chrono` and `chrono-tz` crates.

use vstd::prelude::*;
use chrono::{Datelike, Timelike};

verus! {

/// Largest Unix timestamp the engine accepts (around the year 5100),
/// comfortably inside chrono's supported range.
pub const TIMESTAMP_LIMIT: i64 = 100_000_000_000;

/// The wall-clock minute of the trading day at which the daily
/// fundamentals refresh runs: 15:30 in the market's home time zone.
pub const MARKET_CLOSE_MINUTE: u16 = 930;

/// `t` is a representable Unix timestamp.
pub open spec fn fits_timestamp(t: int) -> bool {
    0 <= t <= TIMESTAMP_LIMIT
}

/// The minute of the civil day (0 to 1439) in the US Central time zone
/// at Unix time `t`.
pub uninterp spec fn central_minute_of_day(t: int) -> int;

/// The UTC calendar year at Unix time `t`.
pub uninterp spec fn utc_year_of(t: int) -> int;

/// Relies on chrono's `DateTime::from_timestamp` and chrono-tz's
/// `US::Central` zone: the Central wall-clock minute is a function of
/// the timestamp alone, and a minute of day is below 1440.
#[verifier::external_body]
fn central_minute(t: i64) -> (r: u16)
    requires
        fits_timestamp(t as int),
    ensures
        r as int == central_minute_of_day(t as int),
        r < 1440,
{
    let local = chrono::DateTime::from_timestamp(t, 0)
        .unwrap()
        .with_timezone(&chrono_tz::US::Central);
    (local.hour() * 60 + local.minute()) as u16
}

/// Relies on chrono's `DateTime::from_timestamp`: the UTC calendar
/// year is a function of the timestamp alone, and for timestamps
/// between the epoch and [`TIMESTAMP_LIMIT`] it lies between 1970 and
/// 5200.
#[verifier::external_body]
fn year_of(t: i64) -> (r: i32)
    requires
        fits_timestamp(t as int),
    ensures
        r as int == utc_year_of(t as int),
        1970 <= r <= 5200,
{
    chrono::DateTime::from_timestamp(t, 0).unwrap().year()
}

/// Whether `now` falls in the one-minute window at which the daily
/// fundamentals refresh is due: the configured market-close instant in
/// the market's home time zone.
pub fn should_update_daily(now: i64) -> (due: bool)
    requires
        fits_timestamp(now as int),
    ensures
        due == (central_minute_of_day(now as int) == MARKET_CLOSE_MINUTE),
{
    central_minute(now) == MARKET_CLOSE_MINUTE
}

/// The calendar year before the current one: the year whose annual
/// record the backfill engine works on.
pub fn previous_year(now: i64) -> (year: i32)
    requires
        fits_timestamp(now as int),
    ensures
        year as int == utc_year_of(now as int) - 1,
        1969 <= year <= 5199,
{
    year_of(now) - 1
}

/// Whether the calendar year has rolled over since Unix time `last`:
/// true when `last` falls in an earlier UTC year than `now`.
pub fn year_rolled_over(last: i64, now: i64) -> (rolled: bool)
    requires
        fits_timestamp(last as int),
        fits_timestamp(now as int),
    ensures
        rolled == (utc_year_of(last as int) < utc_year_of(now as int)),
{
    year_of(last) < year_of(now)
}

} // verus!
