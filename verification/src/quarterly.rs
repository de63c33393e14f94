//! Quarter-indexed fundamentals: idempotent upserts and the trailing /
//! forward aggregates computed over the quarterly table.
//!
//! The table is a vector of records sorted strictly ascending by
//! quarter, one record per quarter; fields are updated independently
//! and never cleared once set.

use vstd::prelude::*;
use crate::numeric::{QUARTER_VALUE_LIMIT, fits_quarter_value};
use crate::period::{QuarterKey, lemma_quarter_index_injective};

verus! {

/// Which of the three quarterly fundamentals an observation updates.
#[derive(Clone, Copy, PartialEq, Eq, Structural, Debug)]
pub enum QuarterlyField {
    Dividend,
    EpsActual,
    EpsEstimated,
}

/// One quarter's fundamentals. A field is `None` until first observed.
#[derive(Clone, Copy, Debug)]
pub struct QuarterlyData {
    pub quarter: QuarterKey,
    pub dividend: Option<i64>,
    pub eps_actual: Option<i64>,
    pub eps_estimated: Option<i64>,
}

impl QuarterlyData {
    /// The key is a real quarter and every observed value is
    /// representable.
    pub open spec fn wf(self) -> bool {
        &&& self.quarter.wf()
        &&& (self.dividend is Some ==> fits_quarter_value(self.dividend->Some_0 as int))
        &&& (self.eps_actual is Some ==> fits_quarter_value(self.eps_actual->Some_0 as int))
        &&& (self.eps_estimated is Some ==> fits_quarter_value(self.eps_estimated->Some_0 as int))
    }

    /// The observation stored for `field`.
    pub open spec fn field_of(self, field: QuarterlyField) -> Option<i64> {
        match field {
            QuarterlyField::Dividend => self.dividend,
            QuarterlyField::EpsActual => self.eps_actual,
            QuarterlyField::EpsEstimated => self.eps_estimated,
        }
    }

    /// This record with `field` overwritten by `value`.
    pub open spec fn with_field(self, field: QuarterlyField, value: i64) -> QuarterlyData {
        match field {
            QuarterlyField::Dividend => QuarterlyData { dividend: Some(value), ..self },
            QuarterlyField::EpsActual => QuarterlyData { eps_actual: Some(value), ..self },
            QuarterlyField::EpsEstimated => QuarterlyData { eps_estimated: Some(value), ..self },
        }
    }
}

/// A quarter appears in the table.
pub open spec fn has_quarter(s: Seq<QuarterlyData>, key: QuarterKey) -> bool {
    exists|i: int| 0 <= i < s.len() && s[i].quarter == key
}

/// The records are sorted strictly ascending by quarter, so each
/// quarter appears at most once.
pub open spec fn quarters_sorted(s: Seq<QuarterlyData>) -> bool {
    forall|i: int, j: int|
        0 <= i < j < s.len() ==> #[trigger] s[i].quarter.index() < #[trigger] s[j].quarter.index()
}

/// Well-formed quarterly table: well-formed records in strictly
/// ascending quarter order.
pub open spec fn quarters_wf(s: Seq<QuarterlyData>) -> bool {
    &&& (forall|i: int| 0 <= i < s.len() ==> (#[trigger] s[i]).wf())
    &&& quarters_sorted(s)
}

/// A re-observed value differs materially from the stored one: there
/// was no stored value, or the two differ by more than `epsilon`.
pub open spec fn materially_different(prev: Option<i64>, value: i64, epsilon: i64) -> bool {
    match prev {
        Option::None => true,
        Option::Some(p) => p - value > epsilon || value - p > epsilon,
    }
}

/// A quarterly aggregate: a value together with the quarter that
/// completes it.
#[derive(Clone, Copy, Debug)]
pub struct QuarterlyValue {
    pub final_quarter: QuarterKey,
    pub value: i64,
}

/// Walking the table backward from the most recent quarter, the sum of
/// the `needed` most recent non-null dividends, paired with the oldest
/// quarter included; none when fewer than `needed` exist.
pub open spec fn ttm_walk(s: Seq<QuarterlyData>, needed: nat) -> Option<(QuarterKey, int)>
    decreases s.len(),
{
    if s.len() == 0 {
        None
    } else {
        match s.last().dividend {
            Option::Some(d) => if needed <= 1 {
                Some((s.last().quarter, d as int))
            } else {
                match ttm_walk(s.drop_last(), (needed - 1) as nat) {
                    Option::Some(p) => Some((p.0, p.1 + d)),
                    Option::None => None,
                }
            },
            Option::None => ttm_walk(s.drop_last(), needed),
        }
    }
}

/// The trailing-twelve-month dividend of the table: sum of the four
/// most recent non-null dividends, as of the oldest quarter included.
pub open spec fn ttm_dividend_spec(s: Seq<QuarterlyData>) -> Option<(QuarterKey, int)> {
    ttm_walk(s, 4)
}

/// How many records carry a dividend observation.
pub open spec fn dividend_count(s: Seq<QuarterlyData>) -> nat
    decreases s.len(),
{
    if s.len() == 0 {
        0
    } else {
        dividend_count(s.drop_last()) + if s.last().dividend is Some {
            1nat
        } else {
            0nat
        }
    }
}

/// The backward walk succeeds exactly when the table holds at least
/// `needed` dividend observations.
pub proof fn lemma_ttm_walk_count(s: Seq<QuarterlyData>, needed: nat)
    requires
        1 <= needed,
    ensures
        ttm_walk(s, needed) is Some <==> dividend_count(s) >= needed,
    decreases s.len(),
{
    if s.len() > 0 {
        lemma_ttm_walk_count(s.drop_last(), needed);
        if needed > 1 {
            lemma_ttm_walk_count(s.drop_last(), (needed - 1) as nat);
        }
    }
}

/// Applies one observation to the quarterly table.
///
/// Idempotent: re-applying a value within `epsilon` of the stored one
/// is a no-op; a materially different value overwrites; a quarter not
/// yet in the table gains a record with only this field set. Returns
/// whether the table changed.
pub fn upsert_quarterly(
    records: &mut Vec<QuarterlyData>,
    quarter: QuarterKey,
    field: QuarterlyField,
    value: i64,
    epsilon: i64,
) -> (updated: bool)
    requires
        quarters_wf(old(records)@),
        quarter.wf(),
        fits_quarter_value(value as int),
        0 <= epsilon,
    ensures
        quarters_wf(final(records)@),
        has_quarter(old(records)@, quarter) ==> {
            let i = choose|i: int| 0 <= i < old(records)@.len() && old(records)@[i].quarter == quarter;
            if materially_different(old(records)@[i].field_of(field), value, epsilon) {
                final(records)@ == old(records)@.update(i, old(records)@[i].with_field(field, value))
                    && updated
            } else {
                final(records)@ == old(records)@ && !updated
            }
        },
        !has_quarter(old(records)@, quarter) ==> updated && (exists|i: int|
            0 <= i <= old(records)@.len() && final(records)@ == old(records)@.subrange(0, i).push(
                QuarterlyData {
                    quarter,
                    dividend: None,
                    eps_actual: None,
                    eps_estimated: None,
                }.with_field(field, value),
            ) + old(records)@.subrange(i, old(records)@.len() as int)),
{
    let ghost s_old = records@;
    let key_idx = quarter.timeline_index();
    let mut i: usize = 0;
    while i < records.len() && records[i].quarter.timeline_index() < key_idx
        invariant
            0 <= i <= records@.len(),
            records@ == s_old,
            quarters_wf(records@),
            quarter.wf(),
            key_idx as int == quarter.index(),
            forall|j: int| 0 <= j < i ==> #[trigger] records@[j].quarter.index() < quarter.index(),
        decreases records@.len() - i,
    {
        i = i + 1;
    }
    if i < records.len() && records[i].quarter == quarter {
        proof {
            assert(has_quarter(s_old, quarter));
            let w = choose|w: int| 0 <= w < s_old.len() && s_old[w].quarter == quarter;
            if w != i {
                assert(s_old[w].quarter.index() == s_old[i as int].quarter.index());
            }
        }
        let rec = records[i];
        let prev = match field {
            QuarterlyField::Dividend => rec.dividend,
            QuarterlyField::EpsActual => rec.eps_actual,
            QuarterlyField::EpsEstimated => rec.eps_estimated,
        };
        let differs = match prev {
            Option::None => true,
            Option::Some(p) => {
                if p >= value {
                    p - value > epsilon
                } else {
                    value - p > epsilon
                }
            },
        };
        if differs {
            let newrec = match field {
                QuarterlyField::Dividend => QuarterlyData { dividend: Some(value), ..rec },
                QuarterlyField::EpsActual => QuarterlyData { eps_actual: Some(value), ..rec },
                QuarterlyField::EpsEstimated => QuarterlyData { eps_estimated: Some(value), ..rec },
            };
            records.set(i, newrec);
            proof {
                assert(records@ =~= s_old.update(i as int, s_old[i as int].with_field(field, value)));
                assert forall|a: int, b: int| 0 <= a < b < records@.len() implies #[trigger] records@[a].quarter.index()
                    < #[trigger] records@[b].quarter.index() by {
                    assert(records@[a].quarter == s_old[a].quarter);
                    assert(records@[b].quarter == s_old[b].quarter);
                    assert(s_old[a].quarter.index() < s_old[b].quarter.index());
                }
                assert forall|j: int| 0 <= j < records@.len() implies (#[trigger] records@[j]).wf() by {
                    assert(s_old[j].wf());
                }
            }
            true
        } else {
            false
        }
    } else {
        proof {
            assert forall|j: int| 0 <= j < s_old.len() implies s_old[j].quarter != quarter by {
                if j < i {
                    if s_old[j].quarter == quarter {
                        assert(s_old[j].quarter.index() == quarter.index());
                    }
                } else {
                    if i < s_old.len() {
                        if j > i {
                            assert(s_old[i as int].quarter.index() < s_old[j].quarter.index());
                        }
                        if s_old[j].quarter == quarter {
                            lemma_quarter_index_injective(s_old[i as int].quarter, quarter);
                        }
                    }
                }
            }
            assert(!has_quarter(s_old, quarter));
        }
        let newrec = match field {
            QuarterlyField::Dividend => QuarterlyData {
                quarter,
                dividend: Some(value),
                eps_actual: None,
                eps_estimated: None,
            },
            QuarterlyField::EpsActual => QuarterlyData {
                quarter,
                dividend: None,
                eps_actual: Some(value),
                eps_estimated: None,
            },
            QuarterlyField::EpsEstimated => QuarterlyData {
                quarter,
                dividend: None,
                eps_actual: None,
                eps_estimated: Some(value),
            },
        };
        records.insert(i, newrec);
        proof {
            let s_new = records@;
            assert(s_new =~= s_old.subrange(0, i as int).push(newrec) + s_old.subrange(
                i as int,
                s_old.len() as int,
            ));
            if i < s_old.len() {
                if s_old[i as int].quarter.index() == quarter.index() {
                    lemma_quarter_index_injective(s_old[i as int].quarter, quarter);
                }
                assert(quarter.index() < s_old[i as int].quarter.index());
            }
            assert forall|a: int, b: int| 0 <= a < b < s_new.len() implies #[trigger] s_new[a].quarter.index()
                < #[trigger] s_new[b].quarter.index() by {
                if b < i {
                    assert(s_new[a] == s_old[a] && s_new[b] == s_old[b]);
                } else if b == i {
                    assert(s_new[a] == s_old[a]);
                    assert(s_old[a].quarter.index() < quarter.index());
                } else {
                    assert(s_new[b] == s_old[b - 1]);
                    if a < i {
                        assert(s_new[a] == s_old[a]);
                        assert(s_old[a].quarter.index() < s_old[b - 1].quarter.index());
                    } else if a == i {
                        assert(quarter.index() <= s_old[i as int].quarter.index());
                        if i < b - 1 {
                            assert(s_old[i as int].quarter.index() < s_old[b - 1].quarter.index());
                        }
                    } else {
                        assert(s_new[a] == s_old[a - 1]);
                        assert(s_old[a - 1].quarter.index() < s_old[b - 1].quarter.index());
                    }
                }
            }
            assert forall|j: int| 0 <= j < s_new.len() implies (#[trigger] s_new[j]).wf() by {
                if j < i {
                    assert(s_new[j] == s_old[j]);
                } else if j > i {
                    assert(s_new[j] == s_old[j - 1]);
                }
            }
        }
        true
    }
}

/// Trailing-twelve-month dividend: walks backward from the most recent
/// quarter summing non-null dividends until exactly four are included,
/// reporting the oldest of the four as the as-of quarter. None when
/// fewer than four quarters carry a dividend.
pub fn compute_ttm_dividend(records: &Vec<QuarterlyData>) -> (r: Option<QuarterlyValue>)
    requires
        quarters_wf(records@),
    ensures
        match r {
            Option::Some(qv) => ttm_dividend_spec(records@) == Some(
                (qv.final_quarter, qv.value as int),
            ),
            Option::None => ttm_dividend_spec(records@) is None,
        },
        r is None <==> dividend_count(records@) < 4,
{
    let ghost s = records@;
    proof {
        assert(s.subrange(0, s.len() as int) =~= s);
    }
    let mut i: usize = records.len();
    let mut count: usize = 0;
    let mut sum: i64 = 0;
    while i > 0
        invariant
            0 <= i <= s.len(),
            records@ == s,
            quarters_wf(s),
            count <= 3,
            -((count as int) * QUARTER_VALUE_LIMIT) <= sum as int <= (count as int)
                * QUARTER_VALUE_LIMIT,
            ttm_walk(s, 4) == (match ttm_walk(s.subrange(0, i as int), (4 - count) as nat) {
                Option::Some(p) => Some((p.0, p.1 + sum)),
                Option::None => None::<(QuarterKey, int)>,
            }),
        decreases i,
    {
        i = i - 1;
        proof {
            assert(s.subrange(0, i as int + 1).drop_last() =~= s.subrange(0, i as int));
            assert(s.subrange(0, i as int + 1).last() == s[i as int]);
            assert(s[i as int].wf());
        }
        let rec = records[i];
        if let Option::Some(d) = rec.dividend {
            if count == 3 {
                proof {
                    lemma_ttm_walk_count(s, 4);
                }
                return Some(QuarterlyValue { final_quarter: rec.quarter, value: sum + d });
            }
            sum = sum + d;
            count = count + 1;
        }
    }
    proof {
        assert(s.subrange(0, 0) =~= Seq::<QuarterlyData>::empty());
        lemma_ttm_walk_count(s, 4);
    }
    None
}

/// The most recent quarter with a non-null actual-EPS observation.
pub open spec fn latest_eps_spec(s: Seq<QuarterlyData>) -> Option<(QuarterKey, int)>
    decreases s.len(),
{
    if s.len() == 0 {
        None
    } else {
        match s.last().eps_actual {
            Option::Some(e) => Some((s.last().quarter, e as int)),
            Option::None => latest_eps_spec(s.drop_last()),
        }
    }
}

/// Most recent actual EPS: the latest quarter carrying a non-null
/// actual-EPS value, or none if no quarter does.
pub fn latest_actual_eps(records: &Vec<QuarterlyData>) -> (r: Option<QuarterlyValue>)
    requires
        quarters_wf(records@),
    ensures
        match r {
            Option::Some(qv) => latest_eps_spec(records@) == Some(
                (qv.final_quarter, qv.value as int),
            ),
            Option::None => latest_eps_spec(records@) is None,
        },
{
    let ghost s = records@;
    proof {
        assert(s.subrange(0, s.len() as int) =~= s);
    }
    let mut i: usize = records.len();
    while i > 0
        invariant
            0 <= i <= s.len(),
            records@ == s,
            quarters_wf(s),
            latest_eps_spec(s) == latest_eps_spec(s.subrange(0, i as int)),
        decreases i,
    {
        i = i - 1;
        proof {
            assert(s.subrange(0, i as int + 1).drop_last() =~= s.subrange(0, i as int));
            assert(s.subrange(0, i as int + 1).last() == s[i as int]);
        }
        let rec = records[i];
        if let Option::Some(e) = rec.eps_actual {
            return Some(QuarterlyValue { final_quarter: rec.quarter, value: e });
        }
    }
    proof {
        assert(s.subrange(0, 0) =~= Seq::<QuarterlyData>::empty());
    }
    None
}

/// The forward estimate over a table whose first record is the
/// earliest estimated quarter: requires four calendar-consecutive
/// quarters from there, each with a non-null estimate; their sum is
/// reported as of the fourth quarter.
pub open spec fn estimate_run_of_four(s: Seq<QuarterlyData>) -> Option<(QuarterKey, int)> {
    if s.len() >= 4 && s[0].eps_estimated is Some && s[1].eps_estimated is Some
        && s[2].eps_estimated is Some && s[3].eps_estimated is Some && s[1].quarter.index() == s[0].quarter.index()
        + 1 && s[2].quarter.index() == s[0].quarter.index() + 2 && s[3].quarter.index() == s[0].quarter.index()
        + 3 {
        Some(
            (
                s[3].quarter,
                s[0].eps_estimated->Some_0 + s[1].eps_estimated->Some_0
                    + s[2].eps_estimated->Some_0 + s[3].eps_estimated->Some_0,
            ),
        )
    } else {
        None
    }
}

/// The forward EPS sum of a table: find the earliest quarter with a
/// non-null estimate, then require a run of four consecutive estimated
/// quarters starting there; a gap invalidates the whole estimate.
pub open spec fn forward_eps_spec(s: Seq<QuarterlyData>) -> Option<(QuarterKey, int)>
    decreases s.len(),
{
    if s.len() == 0 {
        None
    } else if s[0].eps_estimated is Some {
        estimate_run_of_four(s)
    } else {
        forward_eps_spec(s.subrange(1, s.len() as int))
    }
}

/// Skipping records without an estimate does not change the forward
/// EPS sum.
proof fn lemma_forward_eps_skip(s: Seq<QuarterlyData>, i: int)
    requires
        0 <= i <= s.len(),
        forall|j: int| 0 <= j < i ==> (#[trigger] s[j]).eps_estimated is None,
    ensures
        forward_eps_spec(s) == forward_eps_spec(s.subrange(i, s.len() as int)),
    decreases i,
{
    if i > 0 {
        let rest = s.subrange(1, s.len() as int);
        assert forall|j: int| 0 <= j < i - 1 implies (#[trigger] rest[j]).eps_estimated is None by {
            assert(rest[j] == s[j + 1]);
        }
        lemma_forward_eps_skip(rest, i - 1);
        assert(rest.subrange(i - 1, rest.len() as int) =~= s.subrange(i, s.len() as int));
    } else {
        assert(s.subrange(0, s.len() as int) =~= s);
    }
}

/// A gap invalidates the forward estimate: when the earliest quarter
/// carrying an estimate is not followed by three calendar-consecutive
/// quarters each carrying one, the forward EPS sum is none — four
/// estimates elsewhere in the table cannot substitute.
pub proof fn lemma_forward_eps_gap(s: Seq<QuarterlyData>, i0: int)
    requires
        0 <= i0 < s.len(),
        s[i0].eps_estimated is Some,
        forall|j: int| 0 <= j < i0 ==> (#[trigger] s[j]).eps_estimated is None,
        !(i0 + 3 < s.len() && s[i0 + 1].eps_estimated is Some && s[i0 + 2].eps_estimated is Some
            && s[i0 + 3].eps_estimated is Some && s[i0 + 1].quarter.index() == s[i0].quarter.index()
            + 1 && s[i0 + 2].quarter.index() == s[i0].quarter.index() + 2 && s[i0
            + 3].quarter.index() == s[i0].quarter.index() + 3),
    ensures
        forward_eps_spec(s) is None,
{
    lemma_forward_eps_skip(s, i0);
    let suffix = s.subrange(i0, s.len() as int);
    assert(suffix[0] == s[i0]);
    if suffix.len() >= 4 {
        assert(suffix[1] == s[i0 + 1]);
        assert(suffix[2] == s[i0 + 2]);
        assert(suffix[3] == s[i0 + 3]);
    }
}

/// Forward EPS sum: the sum of four consecutive estimated quarters
/// starting at the earliest quarter carrying an estimate, as of the
/// fourth of them. None if no estimate exists or the consecutive run
/// breaks before four quarters — a gap invalidates the forward
/// estimate rather than skipping it.
pub fn forward_eps_sum(records: &Vec<QuarterlyData>) -> (r: Option<QuarterlyValue>)
    requires
        quarters_wf(records@),
    ensures
        match r {
            Option::Some(qv) => forward_eps_spec(records@) == Some(
                (qv.final_quarter, qv.value as int),
            ),
            Option::None => forward_eps_spec(records@) is None,
        },
{
    let ghost s = records@;
    proof {
        assert(s.subrange(0, s.len() as int) =~= s);
    }
    let n = records.len();
    let mut i: usize = 0;
    while i < n && matches!(records[i].eps_estimated, Option::None)
        invariant
            0 <= i <= n == s.len(),
            records@ == s,
            quarters_wf(s),
            forward_eps_spec(s) == forward_eps_spec(s.subrange(i as int, s.len() as int)),
        decreases n - i,
    {
        proof {
            let suffix = s.subrange(i as int, s.len() as int);
            assert(suffix[0] == s[i as int]);
            assert(suffix.subrange(1, suffix.len() as int) =~= s.subrange(
                i as int + 1,
                s.len() as int,
            ));
        }
        i = i + 1;
    }
    proof {
        if i < s.len() {
            assert(s.subrange(i as int, s.len() as int)[0] == s[i as int]);
        } else {
            assert(s.subrange(i as int, s.len() as int).len() == 0);
        }
    }
    if i >= n {
        return None;
    }
    let ghost suffix = s.subrange(i as int, s.len() as int);
    if n - i < 4 {
        return None;
    }
    proof {
        assert(suffix[0] == s[i as int]);
        assert(suffix[1] == s[i as int + 1]);
        assert(suffix[2] == s[i as int + 2]);
        assert(suffix[3] == s[i as int + 3]);
        assert(s[i as int].wf() && s[i as int + 1].wf() && s[i as int + 2].wf() && s[i as int
            + 3].wf());
    }
    let r0 = records[i];
    let r1 = records[i + 1];
    let r2 = records[i + 2];
    let r3 = records[i + 3];
    let base = r0.quarter.timeline_index();
    if r1.quarter.timeline_index() != base + 1 || r2.quarter.timeline_index() != base + 2
        || r3.quarter.timeline_index() != base + 3 {
        return None;
    }
    match (r0.eps_estimated, r1.eps_estimated, r2.eps_estimated, r3.eps_estimated) {
        (Option::Some(e0), Option::Some(e1), Option::Some(e2), Option::Some(e3)) => Some(
            QuarterlyValue { final_quarter: r3.quarter, value: e0 + e1 + e2 + e3 },
        ),
        _ => None,
    }
}

} // verus!
