//! Per-column stripe statistics: value and null counts, and per-type
//! aggregates (minimum, maximum, sum).  The PRESENT stream is omitted at
//! stripe flush exactly when a column's statistics report no null.

use vstd::prelude::*;

verus! {

/// Counts shared by every statistics kind.
#[derive(Clone, Copy)]
pub struct GenericStatistics {
    pub num_values: u64,
    pub num_present: u64,
}

impl GenericStatistics {
    /// At most as many present values as values.
    pub open spec fn wf(&self) -> bool {
        self.num_present <= self.num_values
    }

    /// Some null was recorded.
    pub open spec fn spec_has_null(&self) -> bool {
        self.num_values != self.num_present
    }

    /// Fresh counts.
    pub fn new() -> (r: GenericStatistics)
        ensures
            r.wf(),
            r.num_values == 0,
            r.num_present == 0,
    {
        GenericStatistics { num_values: 0, num_present: 0 }
    }

    /// Records one value, present or null.
    pub fn update(&mut self, present: bool)
        requires
            old(self).wf(),
            old(self).num_values < u64::MAX,
        ensures
            final(self).wf(),
            final(self).num_values == old(self).num_values + 1,
            final(self).num_present == old(self).num_present + if present {
                1int
            } else {
                0int
            },
    {
        self.num_values = self.num_values + 1;
        if present {
            self.num_present = self.num_present + 1;
        }
    }

    /// True exactly when some null was recorded.
    pub fn has_null(&self) -> (r: bool)
        ensures
            r == self.spec_has_null(),
    {
        self.num_values != self.num_present
    }

    /// Adds another stripe's counts into file-level totals.
    pub fn merge(&mut self, rhs: &GenericStatistics)
        requires
            old(self).wf(),
            rhs.wf(),
            old(self).num_values + rhs.num_values <= u64::MAX,
        ensures
            final(self).wf(),
            final(self).num_values == old(self).num_values + rhs.num_values,
            final(self).num_present == old(self).num_present + rhs.num_present,
    {
        self.num_values = self.num_values + rhs.num_values;
        self.num_present = self.num_present + rhs.num_present;
    }
}

/// Statistics for the integer-like columns: counts plus minimum, maximum
/// and sum of the present values.  The sum is dropped on overflow.
#[derive(Clone, Copy)]
pub struct LongStatistics {
    pub counts: GenericStatistics,
    pub min: i64,
    pub max: i64,
    pub sum: i64,
    pub has_sum: bool,
}

impl LongStatistics {
    /// Counts are consistent; minimum is below maximum once a value exists.
    pub open spec fn wf(&self) -> bool {
        &&& self.counts.wf()
        &&& (self.counts.num_present > 0 ==> self.min <= self.max)
    }

    /// Fresh statistics.
    pub fn new() -> (r: LongStatistics)
        ensures
            r.wf(),
            r.counts.num_values == 0,
            r.counts.num_present == 0,
            r.has_sum,
            r.sum == 0,
    {
        LongStatistics { counts: GenericStatistics::new(), min: 0, max: 0, sum: 0, has_sum: true }
    }

    /// Records one value or null.
    pub fn update(&mut self, x: Option<i64>)
        requires
            old(self).wf(),
            old(self).counts.num_values < u64::MAX,
        ensures
            final(self).wf(),
            final(self).counts.num_values == old(self).counts.num_values + 1,
            final(self).counts.num_present == old(self).counts.num_present + if x is Some {
                1int
            } else {
                0int
            },
            x is Some ==> {
                let v = x->Some_0;
                &&& final(self).min == if old(self).counts.num_present == 0 || v < old(self).min {
                    v
                } else {
                    old(self).min
                }
                &&& final(self).max == if old(self).counts.num_present == 0 || v > old(self).max {
                    v
                } else {
                    old(self).max
                }
                &&& final(self).has_sum == (old(self).has_sum && i64::MIN <= old(self).sum + v
                    <= i64::MAX)
                &&& final(self).has_sum ==> final(self).sum == old(self).sum + v
            },
            x is None ==> final(self).min == old(self).min && final(self).max == old(self).max
                && final(self).sum == old(self).sum && final(self).has_sum == old(self).has_sum,
    {
        match x {
            Some(v) => {
                if self.counts.num_present == 0 {
                    self.min = v;
                    self.max = v;
                } else {
                    if v < self.min {
                        self.min = v;
                    }
                    if v > self.max {
                        self.max = v;
                    }
                }
                if self.has_sum {
                    match self.sum.checked_add(v) {
                        Some(s) => {
                            self.sum = s;
                        },
                        None => {
                            self.has_sum = false;
                        },
                    }
                }
                self.counts.update(true);
            },
            None => {
                self.counts.update(false);
            },
        }
    }
}

/// Statistics for string and binary columns: counts plus the total byte
/// length of the present values.
#[derive(Clone, Copy)]
pub struct BinaryStatistics {
    pub num_values: u64,
    pub num_present: u64,
    pub sum_lengths: u64,
}

impl BinaryStatistics {
    /// At most as many present values as values.
    pub open spec fn wf(&self) -> bool {
        self.num_present <= self.num_values
    }

    /// Some null was recorded.
    pub open spec fn spec_has_null(&self) -> bool {
        self.num_values != self.num_present
    }

    /// Fresh statistics.
    pub fn new() -> (r: BinaryStatistics)
        ensures
            r.wf(),
            r.num_values == 0,
            r.num_present == 0,
            r.sum_lengths == 0,
    {
        BinaryStatistics { num_values: 0, num_present: 0, sum_lengths: 0 }
    }

    /// Records one byte-sequence value or null.
    pub fn update(&mut self, x: Option<&[u8]>)
        requires
            old(self).wf(),
            old(self).num_values < u64::MAX,
            x is Some ==> old(self).sum_lengths + x->Some_0@.len() <= u64::MAX,
        ensures
            final(self).wf(),
            final(self).num_values == old(self).num_values + 1,
            final(self).num_present == old(self).num_present + if x is Some {
                1int
            } else {
                0int
            },
            final(self).sum_lengths == old(self).sum_lengths + if x is Some {
                x->Some_0@.len() as int
            } else {
                0int
            },
    {
        self.num_values = self.num_values + 1;
        match x {
            Some(xv) => {
                self.num_present = self.num_present + 1;
                self.sum_lengths = self.sum_lengths + xv.len() as u64;
            },
            None => {},
        }
    }

    /// True exactly when some null was recorded.
    pub fn has_null(&self) -> (r: bool)
        ensures
            r == self.spec_has_null(),
    {
        self.num_values != self.num_present
    }

    /// Adds another stripe's statistics into file-level totals.
    pub fn merge(&mut self, rhs: &BinaryStatistics)
        requires
            old(self).wf(),
            rhs.wf(),
            old(self).num_values + rhs.num_values <= u64::MAX,
            old(self).sum_lengths + rhs.sum_lengths <= u64::MAX,
        ensures
            final(self).wf(),
            final(self).num_values == old(self).num_values + rhs.num_values,
            final(self).num_present == old(self).num_present + rhs.num_present,
            final(self).sum_lengths == old(self).sum_lengths + rhs.sum_lengths,
    {
        self.num_values = self.num_values + rhs.num_values;
        self.num_present = self.num_present + rhs.num_present;
        self.sum_lengths = self.sum_lengths + rhs.sum_lengths;
    }
}

/// Statistics for a Decimal64 column: the integer aggregates of the
/// unscaled values, plus the column's fixed scale.
#[derive(Clone, Copy)]
pub struct Decimal64Statistics {
    pub scale: u32,
    pub longs: LongStatistics,
}

impl Decimal64Statistics {
    /// The inner aggregates are consistent.
    pub open spec fn wf(&self) -> bool {
        self.longs.wf()
    }

    /// Fresh statistics for a column of the given scale.
    pub fn new(scale: u32) -> (r: Decimal64Statistics)
        ensures
            r.wf(),
            r.scale == scale,
            r.longs.counts.num_values == 0,
            r.longs.counts.num_present == 0,
    {
        Decimal64Statistics { scale, longs: LongStatistics::new() }
    }

    /// Records one unscaled value or null.
    pub fn update(&mut self, x: Option<i64>)
        requires
            old(self).wf(),
            old(self).longs.counts.num_values < u64::MAX,
        ensures
            final(self).wf(),
            final(self).scale == old(self).scale,
            final(self).longs.counts.num_values == old(self).longs.counts.num_values + 1,
            final(self).longs.counts.num_present == old(self).longs.counts.num_present
                + if x is Some {
                1int
            } else {
                0int
            },
    {
        self.longs.update(x);
    }
}

/// One column's stripe statistics, tagged by column kind.
#[derive(Clone, Copy)]
pub enum Statistics {
    Generic(GenericStatistics),
    Long(LongStatistics),
    Binary(BinaryStatistics),
    Decimal64(Decimal64Statistics),
}

impl Statistics {
    /// The shared counts, whatever the kind.
    pub open spec fn spec_num_values(&self) -> nat {
        match self {
            Statistics::Generic(g) => g.num_values as nat,
            Statistics::Long(l) => l.counts.num_values as nat,
            Statistics::Binary(b) => b.num_values as nat,
            Statistics::Decimal64(d) => d.longs.counts.num_values as nat,
        }
    }

    /// The shared present count, whatever the kind.
    pub open spec fn spec_num_present(&self) -> nat {
        match self {
            Statistics::Generic(g) => g.num_present as nat,
            Statistics::Long(l) => l.counts.num_present as nat,
            Statistics::Binary(b) => b.num_present as nat,
            Statistics::Decimal64(d) => d.longs.counts.num_present as nat,
        }
    }

    /// Counts are consistent, whatever the kind.
    pub open spec fn wf(&self) -> bool {
        match self {
            Statistics::Generic(g) => g.wf(),
            Statistics::Long(l) => l.wf(),
            Statistics::Binary(b) => b.wf(),
            Statistics::Decimal64(d) => d.wf(),
        }
    }

    /// Some null was recorded.
    pub open spec fn spec_has_null(&self) -> bool {
        self.spec_num_values() != self.spec_num_present()
    }

    /// The number of values recorded, null or not.
    pub fn num_values(&self) -> (r: u64)
        ensures
            r == self.spec_num_values(),
    {
        match self {
            Statistics::Generic(g) => g.num_values,
            Statistics::Long(l) => l.counts.num_values,
            Statistics::Binary(b) => b.num_values,
            Statistics::Decimal64(d) => d.longs.counts.num_values,
        }
    }

    /// The number of present (non-null) values recorded.
    pub fn num_present(&self) -> (r: u64)
        ensures
            r == self.spec_num_present(),
    {
        match self {
            Statistics::Generic(g) => g.num_present,
            Statistics::Long(l) => l.counts.num_present,
            Statistics::Binary(b) => b.num_present,
            Statistics::Decimal64(d) => d.longs.counts.num_present,
        }
    }

    /// True exactly when some null was recorded.
    pub fn has_null(&self) -> (r: bool)
        ensures
            r == self.spec_has_null(),
    {
        self.num_values() != self.num_present()
    }
}


/// Saturating 64-bit sum, for file-level count totals.
pub open spec fn sat_u64(a: int, b: int) -> u64 {
    if a + b > u64::MAX {
        u64::MAX
    } else {
        (a + b) as u64
    }
}

/// Counts of two stripes merged, saturating.
pub open spec fn gen_merge_spec(x: GenericStatistics, y: GenericStatistics) -> GenericStatistics {
    GenericStatistics {
        num_values: sat_u64(x.num_values as int, y.num_values as int),
        num_present: sat_u64(x.num_present as int, y.num_present as int),
    }
}

/// Integer aggregates of two stripes merged: counts saturate, the minimum
/// and maximum combine (an empty side yields the other), and the sum is
/// kept only while both sides have one and it fits.
pub open spec fn long_merge_spec(x: LongStatistics, y: LongStatistics) -> LongStatistics {
    LongStatistics {
        counts: gen_merge_spec(x.counts, y.counts),
        min: if x.counts.num_present == 0 {
            y.min
        } else if y.counts.num_present == 0 {
            x.min
        } else if y.min < x.min {
            y.min
        } else {
            x.min
        },
        max: if x.counts.num_present == 0 {
            y.max
        } else if y.counts.num_present == 0 {
            x.max
        } else if y.max > x.max {
            y.max
        } else {
            x.max
        },
        sum: if x.has_sum && y.has_sum && i64::MIN <= x.sum + y.sum <= i64::MAX {
            (x.sum + y.sum) as i64
        } else {
            0
        },
        has_sum: x.has_sum && y.has_sum && i64::MIN <= x.sum + y.sum <= i64::MAX,
    }
}

/// Byte-length aggregates of two stripes merged, saturating.
pub open spec fn bin_merge_spec(x: BinaryStatistics, y: BinaryStatistics) -> BinaryStatistics {
    BinaryStatistics {
        num_values: sat_u64(x.num_values as int, y.num_values as int),
        num_present: sat_u64(x.num_present as int, y.num_present as int),
        sum_lengths: sat_u64(x.sum_lengths as int, y.sum_lengths as int),
    }
}

/// Decimal aggregates of two stripes merged; the scale is the column's.
pub open spec fn dec_merge_spec(x: Decimal64Statistics, y: Decimal64Statistics) -> Decimal64Statistics {
    Decimal64Statistics { scale: x.scale, longs: long_merge_spec(x.longs, y.longs) }
}

/// One column's statistics of two stripes merged.  A column's kind never
/// changes between stripes; on a mismatch the left side is kept.
pub open spec fn stats_merge_spec(a: Statistics, b: Statistics) -> Statistics {
    match a {
        Statistics::Generic(x) => match b {
            Statistics::Generic(y) => Statistics::Generic(gen_merge_spec(x, y)),
            _ => a,
        },
        Statistics::Long(x) => match b {
            Statistics::Long(y) => Statistics::Long(long_merge_spec(x, y)),
            _ => a,
        },
        Statistics::Binary(x) => match b {
            Statistics::Binary(y) => Statistics::Binary(bin_merge_spec(x, y)),
            _ => a,
        },
        Statistics::Decimal64(x) => match b {
            Statistics::Decimal64(y) => Statistics::Decimal64(dec_merge_spec(x, y)),
            _ => a,
        },
    }
}

/// Exec form of `gen_merge_spec`.
fn gen_merge(x: GenericStatistics, y: GenericStatistics) -> (r: GenericStatistics)
    ensures
        r == gen_merge_spec(x, y),
{
    GenericStatistics {
        num_values: x.num_values.saturating_add(y.num_values),
        num_present: x.num_present.saturating_add(y.num_present),
    }
}

/// Exec form of `long_merge_spec`.
fn long_merge(x: LongStatistics, y: LongStatistics) -> (r: LongStatistics)
    ensures
        r == long_merge_spec(x, y),
{
    let min: i64 = if x.counts.num_present == 0 {
        y.min
    } else if y.counts.num_present == 0 {
        x.min
    } else if y.min < x.min {
        y.min
    } else {
        x.min
    };
    let max: i64 = if x.counts.num_present == 0 {
        y.max
    } else if y.counts.num_present == 0 {
        x.max
    } else if y.max > x.max {
        y.max
    } else {
        x.max
    };
    let mut sum: i64 = 0;
    let mut has_sum: bool = false;
    if x.has_sum && y.has_sum {
        match x.sum.checked_add(y.sum) {
            Some(t) => {
                sum = t;
                has_sum = true;
            },
            None => {},
        }
    }
    LongStatistics { counts: gen_merge(x.counts, y.counts), min, max, sum, has_sum }
}

impl Statistics {
    /// Folds another stripe's statistics of the same column into file-level
    /// totals, per kind.
    pub fn merge(&mut self, rhs: &Statistics)
        ensures
            *final(self) == stats_merge_spec(*old(self), *rhs),
    {
        match (*self, *rhs) {
            (Statistics::Generic(x), Statistics::Generic(y)) => {
                *self = Statistics::Generic(gen_merge(x, y));
            },
            (Statistics::Long(x), Statistics::Long(y)) => {
                *self = Statistics::Long(long_merge(x, y));
            },
            (Statistics::Binary(x), Statistics::Binary(y)) => {
                *self = Statistics::Binary(
                    BinaryStatistics {
                        num_values: x.num_values.saturating_add(y.num_values),
                        num_present: x.num_present.saturating_add(y.num_present),
                        sum_lengths: x.sum_lengths.saturating_add(y.sum_lengths),
                    },
                );
            },
            (Statistics::Decimal64(x), Statistics::Decimal64(y)) => {
                *self = Statistics::Decimal64(
                    Decimal64Statistics { scale: x.scale, longs: long_merge(x.longs, y.longs) },
                );
            },
            _ => {},
        }
    }
}

} // verus!
