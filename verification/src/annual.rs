//! Annual backfill: once a calendar year's quarterly and monthly data
//! is complete, its annual record is produced or updated. Each field
//! is gated independently on its own completeness condition, so
//! partial-year data never blocks already-complete fields.

use vstd::prelude::*;
use crate::cache::MarketCache;
use crate::monthly::{MonthlyData, compute_yearly_return, months_wf, year_compound, year_count};
use crate::numeric::{SCALE, VALUE_LIMIT, fits_value};
use crate::period::{MonthKey, QuarterKey, YEAR_LIMIT};
use crate::quarterly::{QuarterlyData, quarters_wf};
use vstd::arithmetic::div_mod::lemma_div_is_ordered_by_denominator;
use vstd::arithmetic::mul::lemma_mul_upper_bound;

verus! {

/// One calendar year's record in the historical series.
#[derive(Clone, Copy, Debug)]
pub struct HistoricalRecord {
    pub year: i32,
    pub sp500_price: i64,
    pub dividend: i64,
    pub dividend_yield: i64,
    pub eps: i64,
    pub cape: i64,
    pub inflation: i64,
    pub total_return: i64,
    pub cumulative_return: i64,
}

impl HistoricalRecord {
    /// The year is representable and every field fits the value range.
    pub open spec fn wf(self) -> bool {
        &&& -YEAR_LIMIT < self.year < YEAR_LIMIT
        &&& fits_value(self.sp500_price as int)
        &&& fits_value(self.dividend as int)
        &&& fits_value(self.dividend_yield as int)
        &&& fits_value(self.eps as int)
        &&& fits_value(self.cape as int)
        &&& fits_value(self.inflation as int)
        &&& fits_value(self.total_return as int)
        &&& fits_value(self.cumulative_return as int)
    }

    /// The zero-valued record a year starts from when no record exists
    /// yet.
    pub open spec fn unset_spec(year: i32) -> HistoricalRecord {
        HistoricalRecord {
            year,
            sp500_price: 0,
            dividend: 0,
            dividend_yield: 0,
            eps: 0,
            cape: 0,
            inflation: 0,
            total_return: 0,
            cumulative_return: 0,
        }
    }

    /// Builds the zero-valued record for `year`.
    pub fn unset(year: i32) -> (rec: HistoricalRecord)
        requires
            -YEAR_LIMIT < year < YEAR_LIMIT,
        ensures
            rec == HistoricalRecord::unset_spec(year),
            rec.wf(),
    {
        HistoricalRecord {
            year,
            sp500_price: 0,
            dividend: 0,
            dividend_yield: 0,
            eps: 0,
            cape: 0,
            inflation: 0,
            total_return: 0,
            cumulative_return: 0,
        }
    }
}

/// The annual series is well-formed: records are well-formed and
/// sorted strictly ascending by year.
pub open spec fn annual_wf(s: Seq<HistoricalRecord>) -> bool {
    &&& (forall|i: int| 0 <= i < s.len() ==> (#[trigger] s[i]).wf())
    &&& (forall|i: int, j: int| 0 <= i < j < s.len() ==> #[trigger] s[i].year < #[trigger] s[j].year)
}

/// The first record of the table keyed by `key`, scanning front to
/// back; none when the quarter is absent.
pub open spec fn find_quarter(s: Seq<QuarterlyData>, key: QuarterKey) -> Option<QuarterlyData>
    decreases s.len(),
{
    if s.len() == 0 {
        None
    } else if s[0].quarter == key {
        Some(s[0])
    } else {
        find_quarter(s.subrange(1, s.len() as int), key)
    }
}

/// The actual-EPS observation stored for quarter `q` of `year`.
pub open spec fn quarter_eps(s: Seq<QuarterlyData>, year: i32, q: u8) -> Option<i64> {
    match find_quarter(s, QuarterKey { year, quarter: q }) {
        Option::Some(rec) => rec.eps_actual,
        Option::None => None,
    }
}

/// The dividend observation stored for quarter `q` of `year`.
pub open spec fn quarter_dividend(s: Seq<QuarterlyData>, year: i32, q: u8) -> Option<i64> {
    match find_quarter(s, QuarterKey { year, quarter: q }) {
        Option::Some(rec) => rec.dividend,
        Option::None => None,
    }
}

/// All four quarters of `year` carry an actual-EPS observation.
pub open spec fn eps_complete(s: Seq<QuarterlyData>, year: i32) -> bool {
    &&& quarter_eps(s, year, 1) is Some
    &&& quarter_eps(s, year, 2) is Some
    &&& quarter_eps(s, year, 3) is Some
    &&& quarter_eps(s, year, 4) is Some
}

/// The sum of the four quarterly actual-EPS observations of `year`.
pub open spec fn eps_sum(s: Seq<QuarterlyData>, year: i32) -> int {
    quarter_eps(s, year, 1)->Some_0 + quarter_eps(s, year, 2)->Some_0 + quarter_eps(
        s,
        year,
        3,
    )->Some_0 + quarter_eps(s, year, 4)->Some_0
}

/// All four quarters of `year` carry a dividend observation.
pub open spec fn dividend_complete(s: Seq<QuarterlyData>, year: i32) -> bool {
    &&& quarter_dividend(s, year, 1) is Some
    &&& quarter_dividend(s, year, 2) is Some
    &&& quarter_dividend(s, year, 3) is Some
    &&& quarter_dividend(s, year, 4) is Some
}

/// The sum of the four quarterly dividend observations of `year`.
pub open spec fn dividend_sum(s: Seq<QuarterlyData>, year: i32) -> int {
    quarter_dividend(s, year, 1)->Some_0 + quarter_dividend(s, year, 2)->Some_0
        + quarter_dividend(s, year, 3)->Some_0 + quarter_dividend(s, year, 4)->Some_0
}

/// Dividend yield: the scaled quotient `dividend / price`, capped at
/// the representable range.
pub open spec fn yield_spec(dividend: int, price: int) -> int {
    let q = dividend * SCALE / price;
    if q > VALUE_LIMIT {
        VALUE_LIMIT as int
    } else {
        q
    }
}

/// Looks up the record of `key` in the quarterly table.
fn find_quarter_record(records: &Vec<QuarterlyData>, key: QuarterKey) -> (r: Option<
    QuarterlyData,
>)
    requires
        quarters_wf(records@),
        key.wf(),
    ensures
        r == find_quarter(records@, key),
{
    let ghost s = records@;
    proof {
        assert(s.subrange(0, s.len() as int) =~= s);
    }
    let n = records.len();
    let mut i: usize = 0;
    while i < n
        invariant
            0 <= i <= n == s.len(),
            records@ == s,
            quarters_wf(s),
            find_quarter(s, key) == find_quarter(s.subrange(i as int, s.len() as int), key),
        decreases n - i,
    {
        proof {
            let suffix = s.subrange(i as int, s.len() as int);
            assert(suffix[0] == s[i as int]);
            assert(suffix.subrange(1, suffix.len() as int) =~= s.subrange(
                i as int + 1,
                s.len() as int,
            ));
        }
        if records[i].quarter == key {
            return Some(records[i]);
        }
        i = i + 1;
    }
    proof {
        assert(s.subrange(i as int, s.len() as int).len() == 0);
    }
    None
}

/// Produces the updated annual record for `prev_year`, or none when no
/// completeness condition fired.
///
/// `existing` is the stored record for `prev_year`, if any; a missing
/// record starts zero-valued. `rolled` says whether the calendar year
/// has rolled over since the last successful spot-price fetch. Annual
/// EPS and dividend are each set only from a complete set of four
/// quarters; the year-end price is captured from the cached daily
/// close on a year rollover; the annual total return only from exactly
/// twelve monthly records; the year-end CAPE only when the cached CAPE
/// period is December of `prev_year`. When anything fired, the
/// dividend yield is recomputed from the record's dividend and price,
/// zero unless both are positive.
pub fn backfill_annual(
    existing: Option<HistoricalRecord>,
    quarters: &Vec<QuarterlyData>,
    months: &Vec<MonthlyData>,
    cache: &MarketCache,
    prev_year: i32,
    rolled: bool,
) -> (r: Option<HistoricalRecord>)
    requires
        quarters_wf(quarters@),
        months_wf(months@),
        cache.wf(),
        -YEAR_LIMIT < prev_year < YEAR_LIMIT,
        existing is Some ==> existing->Some_0.wf() && existing->Some_0.year == prev_year,
    ensures
        ({
            let base = if existing is Some {
                existing->Some_0
            } else {
                HistoricalRecord::unset_spec(prev_year)
            };
            let eps_ok = eps_complete(quarters@, prev_year);
            let div_ok = dividend_complete(quarters@, prev_year);
            let price_ok = rolled && cache.daily_close_sp500_price > 0;
            let tr_ok = year_count(months@, prev_year) == 12;
            let cape_ok = cache.cape_period == Some(MonthKey { year: prev_year, month: 12 });
            let changed = eps_ok || div_ok || price_ok || tr_ok || cape_ok;
            match r {
                Option::Some(rec) => {
                    &&& changed
                    &&& rec.wf()
                    &&& rec.year == prev_year
                    &&& rec.eps as int == (if eps_ok {
                        eps_sum(quarters@, prev_year)
                    } else {
                        base.eps as int
                    })
                    &&& rec.dividend as int == (if div_ok {
                        dividend_sum(quarters@, prev_year)
                    } else {
                        base.dividend as int
                    })
                    &&& rec.sp500_price == (if price_ok {
                        cache.daily_close_sp500_price
                    } else {
                        base.sp500_price
                    })
                    &&& rec.total_return as int == (if tr_ok {
                        year_compound(months@, prev_year) - SCALE
                    } else {
                        base.total_return as int
                    })
                    &&& rec.cape == (if cape_ok {
                        cache.current_cape
                    } else {
                        base.cape
                    })
                    &&& rec.inflation == base.inflation
                    &&& rec.cumulative_return == base.cumulative_return
                    &&& rec.dividend_yield as int == (if rec.sp500_price > 0 && rec.dividend > 0 {
                        yield_spec(rec.dividend as int, rec.sp500_price as int)
                    } else {
                        0
                    })
                },
                Option::None => !changed,
            }
        }),
{
    let mut record = match existing {
        Option::Some(rec) => rec,
        Option::None => HistoricalRecord::unset(prev_year),
    };
    let mut changed = false;

    let q1 = find_quarter_record(quarters, QuarterKey { year: prev_year, quarter: 1 });
    let q2 = find_quarter_record(quarters, QuarterKey { year: prev_year, quarter: 2 });
    let q3 = find_quarter_record(quarters, QuarterKey { year: prev_year, quarter: 3 });
    let q4 = find_quarter_record(quarters, QuarterKey { year: prev_year, quarter: 4 });
    proof {
        lemma_find_quarter_wf(quarters@, QuarterKey { year: prev_year, quarter: 1 });
        lemma_find_quarter_wf(quarters@, QuarterKey { year: prev_year, quarter: 2 });
        lemma_find_quarter_wf(quarters@, QuarterKey { year: prev_year, quarter: 3 });
        lemma_find_quarter_wf(quarters@, QuarterKey { year: prev_year, quarter: 4 });
    }
    let e1 = match q1 {
        Option::Some(rec) => rec.eps_actual,
        Option::None => None,
    };
    let e2 = match q2 {
        Option::Some(rec) => rec.eps_actual,
        Option::None => None,
    };
    let e3 = match q3 {
        Option::Some(rec) => rec.eps_actual,
        Option::None => None,
    };
    let e4 = match q4 {
        Option::Some(rec) => rec.eps_actual,
        Option::None => None,
    };
    if let (Option::Some(a), Option::Some(b), Option::Some(c), Option::Some(d)) = (e1, e2, e3, e4) {
        record.eps = a + b + c + d;
        changed = true;
    }
    let d1 = match q1 {
        Option::Some(rec) => rec.dividend,
        Option::None => None,
    };
    let d2 = match q2 {
        Option::Some(rec) => rec.dividend,
        Option::None => None,
    };
    let d3 = match q3 {
        Option::Some(rec) => rec.dividend,
        Option::None => None,
    };
    let d4 = match q4 {
        Option::Some(rec) => rec.dividend,
        Option::None => None,
    };
    if let (Option::Some(a), Option::Some(b), Option::Some(c), Option::Some(d)) = (d1, d2, d3, d4) {
        record.dividend = a + b + c + d;
        changed = true;
    }

    if rolled && cache.daily_close_sp500_price > 0 {
        record.sp500_price = cache.daily_close_sp500_price;
        changed = true;
    }

    if let Option::Some(yearly) = compute_yearly_return(months, prev_year) {
        record.total_return = yearly;
        changed = true;
    }

    let cape_matches = match cache.cape_period {
        Option::Some(p) => p.year == prev_year && p.month == 12,
        Option::None => false,
    };
    if cape_matches {
        record.cape = cache.current_cape;
        changed = true;
    }

    if changed {
        if record.sp500_price > 0 && record.dividend > 0 {
            proof {
                lemma_mul_upper_bound(
                    record.dividend as int,
                    VALUE_LIMIT as int,
                    SCALE as int,
                    SCALE as int,
                );
                lemma_div_is_ordered_by_denominator(
                    record.dividend as int * SCALE as int,
                    1,
                    record.sp500_price as int,
                );
            }
            let q: u128 = (record.dividend as u128) * (SCALE as u128) / (
            record.sp500_price as u128);
            record.dividend_yield = if q > VALUE_LIMIT as u128 {
                VALUE_LIMIT
            } else {
                q as i64
            };
        } else {
            record.dividend_yield = 0;
        }
        Some(record)
    } else {
        None
    }
}

/// A record found in a well-formed table is well-formed.
pub open spec fn quarter_wf_of(s: Seq<QuarterlyData>, key: QuarterKey) -> bool {
    find_quarter(s, key) is Some ==> find_quarter(s, key)->Some_0.wf()
}

/// Looking a quarter up in a well-formed table yields a well-formed
/// record keyed by what was asked.
pub proof fn lemma_find_quarter_wf(s: Seq<QuarterlyData>, key: QuarterKey)
    requires
        quarters_wf(s),
    ensures
        quarter_wf_of(s, key),
        find_quarter(s, key) is Some ==> find_quarter(s, key)->Some_0.quarter == key,
    decreases s.len(),
{
    if s.len() > 0 && s[0].quarter != key {
        let rest = s.subrange(1, s.len() as int);
        assert forall|i: int| 0 <= i < rest.len() implies (#[trigger] rest[i]).wf() by {
            assert(rest[i] == s[i + 1]);
        }
        assert forall|i: int, j: int| 0 <= i < j < rest.len() implies #[trigger] rest[i].quarter.index()
            < #[trigger] rest[j].quarter.index() by {
            assert(rest[i] == s[i + 1] && rest[j] == s[j + 1]);
        }
        lemma_find_quarter_wf(rest, key);
    }
}

/// The sub-series of the annual table whose years lie in
/// `[start_year, end_year]`, in order.
pub fn filter_year_range(records: &Vec<HistoricalRecord>, start_year: i32, end_year: i32) -> (r:
    Vec<HistoricalRecord>)
    ensures
        r@ == records@.filter(
            |rec: HistoricalRecord| start_year <= rec.year && rec.year <= end_year,
        ),
{
    let ghost pred = |rec: HistoricalRecord| start_year <= rec.year && rec.year <= end_year;
    let ghost s = records@;
    let mut out: Vec<HistoricalRecord> = Vec::new();
    proof {
        reveal(Seq::filter);
        assert(s.subrange(0, 0) =~= Seq::<HistoricalRecord>::empty());
    }
    let n = records.len();
    let mut i: usize = 0;
    while i < n
        invariant
            0 <= i <= n == s.len(),
            records@ == s,
            out@ == s.subrange(0, i as int).filter(pred),
            pred == (|rec: HistoricalRecord| start_year <= rec.year && rec.year <= end_year),
        decreases n - i,
    {
        proof {
            reveal(Seq::filter);
            assert(s.subrange(0, i as int + 1).drop_last() =~= s.subrange(0, i as int));
            assert(s.subrange(0, i as int + 1).last() == s[i as int]);
        }
        let rec = records[i];
        if start_year <= rec.year && rec.year <= end_year {
            out.push(rec);
        }
        i = i + 1;
    }
    proof {
        assert(s.subrange(0, n as int) =~= s);
    }
    out
}

} // verus!
