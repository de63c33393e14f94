//! Month-indexed total returns: insert-only upserts and the compounded
//! yearly return.
//!
//! The table is a vector of records sorted strictly ascending by
//! month, one record per month; a month's return, once recorded, is
//! final.

use vstd::prelude::*;
use crate::numeric::{SCALE, fits_value};
use crate::period::{MonthKey, lemma_month_index_injective};
use vstd::arithmetic::div_mod::{lemma_div_is_ordered, lemma_div_by_multiple};
use vstd::arithmetic::mul::lemma_mul_inequality;
use vstd::arithmetic::power2::{pow2, lemma_pow2_unfold, lemma_pow2_strictly_increases, lemma2_to64};

verus! {

/// One month's total return, as a scaled decimal fraction (not a
/// percentage), never below a total loss nor above a doubling.
#[derive(Clone, Copy, Debug)]
pub struct MonthlyData {
    pub month: MonthKey,
    pub total_return: i64,
}

impl MonthlyData {
    /// The key is a real month and the return is a representable
    /// fraction.
    pub open spec fn wf(self) -> bool {
        &&& self.month.wf()
        &&& -SCALE <= self.total_return <= SCALE
    }
}

/// A month appears in the table.
pub open spec fn has_month(s: Seq<MonthlyData>, key: MonthKey) -> bool {
    exists|i: int| 0 <= i < s.len() && s[i].month == key
}

/// The records are sorted strictly ascending by month, so each month
/// appears at most once.
pub open spec fn months_sorted(s: Seq<MonthlyData>) -> bool {
    forall|i: int, j: int|
        0 <= i < j < s.len() ==> #[trigger] s[i].month.index() < #[trigger] s[j].month.index()
}

/// Well-formed monthly table: well-formed records in strictly
/// ascending month order.
pub open spec fn months_wf(s: Seq<MonthlyData>) -> bool {
    &&& (forall|i: int| 0 <= i < s.len() ==> (#[trigger] s[i]).wf())
    &&& months_sorted(s)
}

/// Records a month's total return, insert-only: if the month is
/// already present the table is left untouched — monthly returns,
/// once recorded, are treated as final. Returns whether a record was
/// added.
pub fn upsert_monthly(records: &mut Vec<MonthlyData>, month: MonthKey, total_return: i64) -> (inserted:
    bool)
    requires
        months_wf(old(records)@),
        month.wf(),
        -SCALE <= total_return <= SCALE,
    ensures
        months_wf(final(records)@),
        has_month(old(records)@, month) ==> final(records)@ == old(records)@ && !inserted,
        !has_month(old(records)@, month) ==> inserted && (exists|i: int|
            0 <= i <= old(records)@.len() && final(records)@ == old(records)@.subrange(0, i).push(
                MonthlyData { month, total_return },
            ) + old(records)@.subrange(i, old(records)@.len() as int)),
{
    let ghost s_old = records@;
    let key_idx = month.timeline_index();
    let mut i: usize = 0;
    while i < records.len() && records[i].month.timeline_index() < key_idx
        invariant
            0 <= i <= records@.len(),
            records@ == s_old,
            months_wf(records@),
            month.wf(),
            key_idx as int == month.index(),
            forall|j: int| 0 <= j < i ==> #[trigger] records@[j].month.index() < month.index(),
        decreases records@.len() - i,
    {
        i = i + 1;
    }
    if i < records.len() && records[i].month == month {
        proof {
            assert(has_month(s_old, month));
        }
        false
    } else {
        proof {
            assert forall|j: int| 0 <= j < s_old.len() implies s_old[j].month != month by {
                if j < i {
                    if s_old[j].month == month {
                        assert(s_old[j].month.index() == month.index());
                    }
                } else if i < s_old.len() {
                    if j > i {
                        assert(s_old[i as int].month.index() < s_old[j].month.index());
                    }
                    if s_old[j].month == month {
                        lemma_month_index_injective(s_old[i as int].month, month);
                    }
                }
            }
            assert(!has_month(s_old, month));
        }
        let newrec = MonthlyData { month, total_return };
        records.insert(i, newrec);
        proof {
            let s_new = records@;
            assert(s_new =~= s_old.subrange(0, i as int).push(newrec) + s_old.subrange(
                i as int,
                s_old.len() as int,
            ));
            if i < s_old.len() {
                if s_old[i as int].month.index() == month.index() {
                    lemma_month_index_injective(s_old[i as int].month, month);
                }
                assert(month.index() < s_old[i as int].month.index());
            }
            assert forall|a: int, b: int| 0 <= a < b < s_new.len() implies #[trigger] s_new[a].month.index()
                < #[trigger] s_new[b].month.index() by {
                if b < i {
                    assert(s_new[a] == s_old[a] && s_new[b] == s_old[b]);
                } else if b == i {
                    assert(s_new[a] == s_old[a]);
                } else {
                    assert(s_new[b] == s_old[b - 1]);
                    if a < i {
                        assert(s_new[a] == s_old[a]);
                        assert(s_old[a].month.index() < s_old[b - 1].month.index());
                    } else if a == i {
                        if i < b - 1 {
                            assert(s_old[i as int].month.index() < s_old[b - 1].month.index());
                        }
                    } else {
                        assert(s_new[a] == s_old[a - 1]);
                        assert(s_old[a - 1].month.index() < s_old[b - 1].month.index());
                    }
                }
            }
            assert forall|j: int| 0 <= j < s_new.len() implies (#[trigger] s_new[j]).wf() by {
                if j < i {
                    assert(s_new[j] == s_old[j]);
                } else if j > i {
                    assert(s_new[j] == s_old[j - 1]);
                }
            }
        }
        true
    }
}

/// How many records belong to calendar year `year`.
pub open spec fn year_count(s: Seq<MonthlyData>, year: i32) -> nat
    decreases s.len(),
{
    if s.len() == 0 {
        0
    } else {
        year_count(s.drop_last(), year) + if s.last().month.year == year {
            1nat
        } else {
            0nat
        }
    }
}

/// The compounded growth of one unit over the returns of `year`, in
/// table order: the fixed-point product of `(1 + r)` across the
/// year's records.
pub open spec fn year_compound(s: Seq<MonthlyData>, year: i32) -> int
    decreases s.len(),
{
    if s.len() == 0 {
        SCALE as int
    } else if s.last().month.year == year {
        year_compound(s.drop_last(), year) * (SCALE + s.last().total_return) / (SCALE as int)
    } else {
        year_compound(s.drop_last(), year)
    }
}

/// A prefix of the table never holds more of a year's records than the
/// whole table.
proof fn lemma_year_count_prefix(s: Seq<MonthlyData>, year: i32, i: int)
    requires
        0 <= i <= s.len(),
    ensures
        year_count(s.subrange(0, i), year) <= year_count(s, year),
    decreases s.len(),
{
    if i < s.len() && s.len() > 0 {
        assert(s.drop_last().subrange(0, i) =~= s.subrange(0, i));
        lemma_year_count_prefix(s.drop_last(), year, i);
    } else if i == s.len() {
        assert(s.subrange(0, i) =~= s);
    }
}

/// Compounded annual total return for `year`: only if exactly twelve
/// monthly records of that year are present, the product of
/// `(1 + monthly return)` across the twelve, minus one. Eleven records
/// signal incompleteness and thirteen a data error; both yield none.
pub fn compute_yearly_return(records: &Vec<MonthlyData>, year: i32) -> (r: Option<i64>)
    requires
        months_wf(records@),
    ensures
        r is Some <==> year_count(records@, year) == 12,
        r is Some ==> r->Some_0 as int == year_compound(records@, year) - SCALE,
        r is Some ==> fits_value(r->Some_0 as int),
{
    let ghost s = records@;
    let n = records.len();
    let mut i: usize = 0;
    let mut count: usize = 0;
    let mut acc: i64 = SCALE;
    proof {
        assert(s.subrange(0, 0) =~= Seq::<MonthlyData>::empty());
        lemma2_to64();
    }
    while i < n
        invariant
            0 <= i <= n == s.len(),
            records@ == s,
            months_wf(s),
            count <= 12,
            count == year_count(s.subrange(0, i as int), year),
            acc as int == year_compound(s.subrange(0, i as int), year),
            0 <= acc as int <= (SCALE as int) * (pow2(count as nat) as int),
        decreases n - i,
    {
        proof {
            assert(s.subrange(0, i as int + 1).drop_last() =~= s.subrange(0, i as int));
            assert(s.subrange(0, i as int + 1).last() == s[i as int]);
            assert(s[i as int].wf());
        }
        let rec = records[i];
        if rec.month.year == year {
            if count == 12 {
                proof {
                    lemma_year_count_prefix(s, year, i as int + 1);
                }
                return None;
            }
            proof {
                let p = acc as int;
                let f = SCALE + rec.total_return as int;
                lemma_mul_inequality(0, f, p);
                assert(f * p == p * f) by (nonlinear_arith);
                lemma_div_is_ordered(0, p * f, SCALE as int);
                lemma_mul_inequality(f, 2 * (SCALE as int), p);
                assert((2 * (SCALE as int)) * p == (2 * p) * (SCALE as int)) by (nonlinear_arith);
                lemma_div_by_multiple(2 * p, SCALE as int);
                lemma_div_is_ordered(p * f, (2 * p) * (SCALE as int), SCALE as int);
                assert(p * f / (SCALE as int) <= 2 * p);
                lemma_pow2_unfold((count + 1) as nat);
                assert(2 * p <= (SCALE as int) * (pow2((count + 1) as nat) as int)) by (nonlinear_arith)
                    requires
                        p <= (SCALE as int) * (pow2(count as nat) as int),
                        pow2((count + 1) as nat) == 2 * pow2(count as nat),
                ;
                lemma_pow2_strictly_increases((count + 1) as nat, 13);
                lemma2_to64();
            }
            let next: u128 = (acc as u128) * ((SCALE + rec.total_return) as u128) / (
            SCALE as u128);
            acc = next as i64;
            count = count + 1;
        }
        i = i + 1;
    }
    proof {
        assert(s.subrange(0, n as int) =~= s);
        lemma_pow2_strictly_increases(count as nat, 13);
        lemma2_to64();
    }
    if count == 12 {
        Some(acc - SCALE)
    } else {
        None
    }
}

} // verus!
