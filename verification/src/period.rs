//! Period keys: a quarter (`YYYY` plus quarter number) and a month
//! (`YYYY-MM`), each a small value type with parsed fields and a total
//! chronological order, built once at the boundary instead of
//! re-parsed throughout the aggregation logic.

use vstd::prelude::*;

verus! {

/// Bound on calendar years representable by period keys.
pub const YEAR_LIMIT: i32 = 1_000_000;

/// Key of a quarterly record: a calendar year and a quarter number
/// from 1 to 4.
#[derive(Clone, Copy, PartialEq, Eq, Structural, Debug)]
pub struct QuarterKey {
    pub year: i32,
    pub quarter: u8,
}

impl QuarterKey {
    /// The key names a real quarter of a representable year.
    pub open spec fn wf(self) -> bool {
        &&& -YEAR_LIMIT < self.year < YEAR_LIMIT
        &&& 1 <= self.quarter <= 4
    }

    /// Position on the quarter timeline; orders keys chronologically.
    pub open spec fn index(self) -> int {
        self.year * 4 + self.quarter - 1
    }

    /// Strictly earlier than `other`.
    pub fn lt(&self, other: &QuarterKey) -> (r: bool)
        requires
            self.wf(),
            other.wf(),
        ensures
            r == (self.index() < other.index()),
    {
        self.year < other.year || (self.year == other.year && self.quarter < other.quarter)
    }

    /// Position on the quarter timeline as a machine integer.
    pub fn timeline_index(&self) -> (r: i64)
        requires
            self.wf(),
        ensures
            r as int == self.index(),
    {
        (self.year as i64) * 4 + (self.quarter as i64) - 1
    }

    /// The quarter immediately after this one.
    pub fn next(&self) -> (r: QuarterKey)
        requires
            self.wf(),
            self.year + 1 < YEAR_LIMIT,
        ensures
            r.wf(),
            r.index() == self.index() + 1,
    {
        if self.quarter == 4 {
            QuarterKey { year: self.year + 1, quarter: 1 }
        } else {
            QuarterKey { year: self.year, quarter: self.quarter + 1 }
        }
    }
}

/// Well-formed quarter keys at the same timeline position are the same
/// key.
pub proof fn lemma_quarter_index_injective(a: QuarterKey, b: QuarterKey)
    requires
        a.wf(),
        b.wf(),
        a.index() == b.index(),
    ensures
        a == b,
{
}

/// Key of a monthly record: a calendar year and a month number from 1
/// to 12.
#[derive(Clone, Copy, PartialEq, Eq, Structural, Debug)]
pub struct MonthKey {
    pub year: i32,
    pub month: u8,
}

impl MonthKey {
    /// The key names a real month of a representable year.
    pub open spec fn wf(self) -> bool {
        &&& -YEAR_LIMIT < self.year < YEAR_LIMIT
        &&& 1 <= self.month <= 12
    }

    /// Position on the month timeline; orders keys chronologically,
    /// the same order the `YYYY-MM` text form sorts in.
    pub open spec fn index(self) -> int {
        self.year * 12 + self.month - 1
    }

    /// Strictly earlier than `other`.
    pub fn lt(&self, other: &MonthKey) -> (r: bool)
        requires
            self.wf(),
            other.wf(),
        ensures
            r == (self.index() < other.index()),
    {
        self.year < other.year || (self.year == other.year && self.month < other.month)
    }

    /// Position on the month timeline as a machine integer.
    pub fn timeline_index(&self) -> (r: i64)
        requires
            self.wf(),
        ensures
            r as int == self.index(),
    {
        (self.year as i64) * 12 + (self.month as i64) - 1
    }
}

/// Well-formed month keys at the same timeline position are the same
/// key.
pub proof fn lemma_month_index_injective(a: MonthKey, b: MonthKey)
    requires
        a.wf(),
        b.wf(),
        a.index() == b.index(),
    ensures
        a == b,
{
}

} // verus!
